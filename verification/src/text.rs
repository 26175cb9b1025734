//! Character-level text model: searching, splitting, replacing and trimming
//! over `Seq<char>`, with executable counterparts on `Vec<char>`.
use vstd::prelude::*;

verus! {

// ---------------------------------------------------------------------------
// Specifications
// ---------------------------------------------------------------------------

/// `pat` occurs in `s` starting at index `i`.
pub open spec fn matches_at(s: Seq<char>, pat: Seq<char>, i: int) -> bool {
    0 <= i && i + pat.len() <= s.len() && s.subrange(i, i + pat.len()) == pat
}

/// Index of the first occurrence of `pat` in `s` at or after `start`.
pub open spec fn find_from(s: Seq<char>, pat: Seq<char>, start: int) -> Option<int>
    decreases s.len() + 1 - start,
{
    if start < 0 || start + pat.len() > s.len() {
        None
    } else if matches_at(s, pat, start) {
        Some(start)
    } else {
        find_from(s, pat, start + 1)
    }
}

/// `pat` occurs somewhere in `s`.
pub open spec fn contains(s: Seq<char>, pat: Seq<char>) -> bool {
    find_from(s, pat, 0) is Some
}

/// The pieces of `s` between the non-overlapping occurrences of `pat`, scanning
/// left to right (the pieces `str::split` yields for a non-empty pattern).
pub open spec fn split_seq(s: Seq<char>, pat: Seq<char>) -> Seq<Seq<char>>
    decreases s.len(),
{
    if pat.len() == 0 {
        seq![s]
    } else {
        match find_from(s, pat, 0) {
            None => seq![s],
            Some(k) => if 0 <= k && k + pat.len() <= s.len() {
                seq![s.subrange(0, k)] + split_seq(s.subrange(k + pat.len(), s.len() as int), pat)
            } else {
                seq![s]
            },
        }
    }
}

/// The text of `s` before the first occurrence of `pat` (all of `s` if none).
pub open spec fn before_first(s: Seq<char>, pat: Seq<char>) -> Seq<char> {
    match find_from(s, pat, 0) {
        Some(k) => s.subrange(0, k),
        None => s,
    }
}

/// Every non-overlapping occurrence of `from` in `s` replaced by `to`, left to right.
pub open spec fn replace_all(s: Seq<char>, from: Seq<char>, to: Seq<char>) -> Seq<char>
    decreases s.len(),
{
    if from.len() == 0 {
        s
    } else {
        match find_from(s, from, 0) {
            None => s,
            Some(k) => if 0 <= k && k + from.len() <= s.len() {
                s.subrange(0, k) + to + replace_all(
                    s.subrange(k + from.len(), s.len() as int),
                    from,
                    to,
                )
            } else {
                s
            },
        }
    }
}

/// The Unicode `White_Space` property (what `char::is_whitespace` and the
/// regex class `\s` accept).
pub open spec fn is_space(c: char) -> bool {
    ('\t' <= c && c <= '\r') || c == ' ' || c == '\u{85}' || c == '\u{a0}' || c == '\u{1680}'
        || ('\u{2000}' <= c && c <= '\u{200a}') || c == '\u{2028}' || c == '\u{2029}' || c
        == '\u{202f}' || c == '\u{205f}' || c == '\u{3000}'
}

/// `s` without its leading whitespace.
pub open spec fn trim_start(s: Seq<char>) -> Seq<char>
    decreases s.len(),
{
    if s.len() > 0 && is_space(s[0]) {
        trim_start(s.subrange(1, s.len() as int))
    } else {
        s
    }
}

/// `s` without its trailing whitespace.
pub open spec fn trim_end(s: Seq<char>) -> Seq<char>
    decreases s.len(),
{
    if s.len() > 0 && is_space(s.last()) {
        trim_end(s.drop_last())
    } else {
        s
    }
}

/// `s` without leading and trailing whitespace (`str::trim`).
pub open spec fn trim(s: Seq<char>) -> Seq<char> {
    trim_end(trim_start(s))
}

/// ASCII digit `0`..`9`.
pub open spec fn is_ascii_digit(c: char) -> bool {
    '0' <= c && c <= '9'
}

/// Numeric value of a string of ASCII digits.
pub open spec fn digits_value(s: Seq<char>) -> nat
    decreases s.len(),
{
    if s.len() == 0 {
        0
    } else {
        digits_value(s.drop_last()) * 10 + ((s.last() as int - '0' as int) as nat)
    }
}

/// All characters of `s` are ASCII digits.
pub open spec fn all_ascii_digits(s: Seq<char>) -> bool {
    forall|i: int| 0 <= i < s.len() ==> is_ascii_digit(#[trigger] s[i])
}

/// What `str::parse::<u32>` gives for `s`: an optional `+` followed by at least
/// one ASCII digit, with a value that fits.
pub open spec fn parse_u32(s: Seq<char>) -> Option<u32> {
    let d = if s.len() > 0 && s[0] == '+' {
        s.subrange(1, s.len() as int)
    } else {
        s
    };
    if d.len() > 0 && all_ascii_digits(d) && digits_value(d) <= u32::MAX {
        Some(digits_value(d) as u32)
    } else {
        None
    }
}

/// What `str::parse::<u64>` gives for `s`.
pub open spec fn parse_u64(s: Seq<char>) -> Option<u64> {
    let d = if s.len() > 0 && s[0] == '+' {
        s.subrange(1, s.len() as int)
    } else {
        s
    };
    if d.len() > 0 && all_ascii_digits(d) && digits_value(d) <= u64::MAX {
        Some(digits_value(d) as u64)
    } else {
        None
    }
}

/// Decimal rendering of a natural number, without leading zeros.
pub open spec fn decimal(n: nat) -> Seq<char>
    decreases n,
{
    if n < 10 {
        seq![(('0' as nat) + n) as char]
    } else {
        decimal(n / 10).push((('0' as nat) + n % 10) as char)
    }
}

/// Decimal rendering padded with leading zeros to at least two digits (`{:02}`).
pub open spec fn decimal2(n: nat) -> Seq<char> {
    if n < 10 {
        seq!['0'].add(decimal(n))
    } else {
        decimal(n)
    }
}

// ---------------------------------------------------------------------------
// Lemmas
// ---------------------------------------------------------------------------

/// What `find_from` returns is the first occurrence at or after `start`.
pub proof fn lemma_find_from(s: Seq<char>, pat: Seq<char>, start: int)
    ensures
        match find_from(s, pat, start) {
            Some(k) => {
                &&& start <= k
                &&& matches_at(s, pat, k)
                &&& forall|j: int| start <= j < k ==> !matches_at(s, pat, j)
            },
            None => start >= 0 ==> forall|j: int| start <= j ==> !matches_at(s, pat, j),
        },
    decreases s.len() + 1 - start,
{
    if start < 0 || start + pat.len() > s.len() {
    } else if matches_at(s, pat, start) {
    } else {
        lemma_find_from(s, pat, start + 1);
    }
}

/// A match found from `i` is the same as one found from an earlier `j` when
/// nothing matches in between.
pub proof fn lemma_find_from_skip(s: Seq<char>, pat: Seq<char>, j: int, i: int)
    requires
        0 <= j <= i,
        forall|t: int| j <= t < i ==> !matches_at(s, pat, t),
    ensures
        find_from(s, pat, j) == find_from(s, pat, i),
    decreases i - j,
{
    if j < i {
        lemma_find_from_skip(s, pat, j + 1, i);
        if j + pat.len() > s.len() {
            lemma_find_from(s, pat, i);
        }
    }
}

/// The decimal rendering is made of ASCII digits and is never empty.
pub proof fn lemma_decimal_digits(n: nat)
    ensures
        decimal(n).len() >= 1,
        all_ascii_digits(decimal(n)),
        digits_value(decimal(n)) == n,
    decreases n,
{
    if n >= 10 {
        lemma_decimal_digits(n / 10);
        let d = decimal(n / 10);
        let c = (('0' as nat) + n % 10) as char;
        assert(c as int == '0' as int + n % 10);
        assert(decimal(n) == d.push(c));
        assert(decimal(n).drop_last() == d);
        assert(decimal(n).last() == c);
        assert(n == (n / 10) * 10 + n % 10);
        assert(digits_value(decimal(n)) == digits_value(d) * 10 + ((c as int - '0' as int) as nat));
        assert forall|i: int| 0 <= i < decimal(n).len() implies is_ascii_digit(
            #[trigger] decimal(n)[i],
        ) by {
            if i < d.len() {
                assert(decimal(n)[i] == d[i]);
            }
        }
    } else {
        let c = (('0' as nat) + n) as char;
        assert(c as int == '0' as int + n);
        assert(decimal(n).drop_last() =~= Seq::<char>::empty());
        assert(digits_value(Seq::<char>::empty()) == 0);
        assert(digits_value(decimal(n)) == digits_value(decimal(n).drop_last()) * 10 + ((c as int - '0' as int) as nat));
    }
}

// ---------------------------------------------------------------------------
// Executable helpers
// ---------------------------------------------------------------------------

/// The characters of `s`, in order.
pub fn chars_of(s: &str) -> (r: Vec<char>)
    ensures
        r@ == s@,
{
    let mut r: Vec<char> = Vec::new();
    for c in it: s.chars()
        invariant
            r@ == it.seq().take(it.index() as int),
    {
        r.push(c);
    }
    r
}

/// Appends `c` to `s` (`String::push`).
#[verifier::external_body]
pub(crate) fn push_char(s: &mut String, c: char)
    ensures
        final(s)@ == old(s)@.push(c),
{
    s.push(c);
}

/// A `String` holding the characters of `v[from..to]`.
pub fn string_of_range(v: &Vec<char>, from: usize, to: usize) -> (r: String)
    requires
        from <= to <= v.len(),
    ensures
        r@ == v@.subrange(from as int, to as int),
{
    let mut r = String::new();
    let mut i = from;
    while i < to
        invariant
            from <= i <= to <= v.len(),
            r@ == v@.subrange(from as int, i as int),
        decreases to - i,
    {
        push_char(&mut r, v[i]);
        i = i + 1;
        assert(r@ == v@.subrange(from as int, i as int));
    }
    r
}

/// A `String` holding the characters of `v`.
pub fn string_of(v: &Vec<char>) -> (r: String)
    ensures
        r@ == v@,
{
    let r = string_of_range(v, 0, v.len());
    assert(v@.subrange(0, v@.len() as int) == v@);
    r
}

/// Whether `pat` occurs in `s` at index `i`.
pub fn matches_at_exec(s: &Vec<char>, pat: &Vec<char>, i: usize) -> (b: bool)
    ensures
        b == matches_at(s@, pat@, i as int),
{
    if i > s.len() || pat.len() > s.len() - i {
        return false;
    }
    let mut j: usize = 0;
    while j < pat.len()
        invariant
            i + pat.len() <= s.len(),
            j <= pat.len(),
            forall|t: int| 0 <= t < j ==> s@[i + t] == pat@[t],
        decreases pat.len() - j,
    {
        if s[i + j] != pat[j] {
            assert(s@.subrange(i as int, i + pat.len())[j as int] != pat@[j as int]);
            return false;
        }
        j = j + 1;
    }
    assert(s@.subrange(i as int, i + pat.len()) == pat@);
    true
}

/// First occurrence of `pat` in `s` at or after `start`.
pub fn find_exec(s: &Vec<char>, pat: &Vec<char>, start: usize) -> (r: Option<usize>)
    ensures
        match r {
            Some(k) => find_from(s@, pat@, start as int) == Some(k as int),
            None => find_from(s@, pat@, start as int) is None,
        },
{
    if pat.len() == 0 {
        if start <= s.len() {
            assert(s@.subrange(start as int, start as int) =~= pat@);
            return Some(start);
        }
        return None;
    }
    let mut i = start;
    while i <= s.len() && pat.len() <= s.len() - i
        invariant
            start <= i,
            pat.len() > 0,
            find_from(s@, pat@, start as int) == find_from(s@, pat@, i as int),
        decreases s.len() + 1 - i,
    {
        if matches_at_exec(s, pat, i) {
            return Some(i);
        }
        i = i + 1;
    }
    None
}

/// Whether `pat` occurs in `s`.
pub fn contains_exec(s: &Vec<char>, pat: &Vec<char>) -> (b: bool)
    ensures
        b == contains(s@, pat@),
{
    find_exec(s, pat, 0).is_some()
}

/// `v[from..to]` as a new vector.
pub fn slice_vec(v: &Vec<char>, from: usize, to: usize) -> (r: Vec<char>)
    requires
        from <= to <= v.len(),
    ensures
        r@ == v@.subrange(from as int, to as int),
{
    let mut r: Vec<char> = Vec::new();
    let mut i = from;
    while i < to
        invariant
            from <= i <= to <= v.len(),
            r@ == v@.subrange(from as int, i as int),
        decreases to - i,
    {
        r.push(v[i]);
        i = i + 1;
        assert(r@ == v@.subrange(from as int, i as int));
    }
    r
}

/// The pieces of `s` separated by `pat` (`str::split`).
pub fn split_exec(s: &Vec<char>, pat: &Vec<char>) -> (r: Vec<Vec<char>>)
    requires
        pat.len() > 0,
    ensures
        r@.len() == split_seq(s@, pat@).len(),
        forall|i: int| 0 <= i < r@.len() ==> #[trigger] r@[i]@ == split_seq(s@, pat@)[i],
{
    let mut r: Vec<Vec<char>> = Vec::new();
    let mut pos: usize = 0;
    assert(s@.subrange(0, s.len() as int) == s@);
    assert(r@.map_values(|p: Vec<char>| p@) + split_seq(s@, pat@) =~= split_seq(s@, pat@));
    loop
        invariant
            pat.len() > 0,
            pos <= s.len(),
            split_seq(s@, pat@) == r@.map_values(|p: Vec<char>| p@) + split_seq(
                s@.subrange(pos as int, s.len() as int),
                pat@,
            ),
        decreases s.len() - pos,
    {
        let ghost rest = s@.subrange(pos as int, s.len() as int);
        match find_exec(s, pat, pos) {
            None => {
                proof {
                    lemma_find_from(s@, pat@, pos as int);
                    lemma_find_from(rest, pat@, 0);
                    if let Some(k) = find_from(rest, pat@, 0) {
                        assert(rest.subrange(k, k + pat.len()) == s@.subrange(
                            pos + k,
                            pos + k + pat.len(),
                        ));
                        assert(matches_at(s@, pat@, pos + k));
                    }
                }
                let piece = slice_vec(s, pos, s.len());
                let ghost before = r@.map_values(|p: Vec<char>| p@);
                r.push(piece);
                assert(r@.map_values(|p: Vec<char>| p@) == before.push(rest));
                assert(split_seq(rest, pat@) == seq![rest]);
                return r;
            },
            Some(k) => {
                proof {
                    lemma_find_from(s@, pat@, pos as int);
                    let kk = (k - pos) as int;
                    assert(rest.subrange(kk, kk + pat.len()) == s@.subrange(
                        k as int,
                        k + pat.len(),
                    ));
                    assert forall|j: int| 0 <= j < kk implies !matches_at(rest, pat@, j) by {
                        assert(!matches_at(s@, pat@, pos + j));
                        if j + pat.len() <= rest.len() {
                            assert(rest.subrange(j, j + pat.len()) =~= s@.subrange(
                                pos + j,
                                pos + j + pat.len(),
                            ));
                        }
                    }
                    lemma_find_from_skip(rest, pat@, 0, kk);
                    assert(find_from(rest, pat@, kk) == Some(kk));
                    assert(rest.subrange(0, kk) == s@.subrange(pos as int, k as int));
                    assert(rest.subrange(kk + pat.len(), rest.len() as int) == s@.subrange(
                        k + pat.len(),
                        s.len() as int,
                    ));
                }
                let piece = slice_vec(s, pos, k);
                let ghost before = r@.map_values(|p: Vec<char>| p@);
                r.push(piece);
                assert(r@.map_values(|p: Vec<char>| p@) == before.push(
                    s@.subrange(pos as int, k as int),
                ));
                pos = k + pat.len();
            },
        }
    }
}

/// Whether two character vectors hold the same characters.
pub fn chars_eq(a: &Vec<char>, b: &Vec<char>) -> (r: bool)
    ensures
        r == (a@ == b@),
{
    if a.len() != b.len() {
        return false;
    }
    let mut i: usize = 0;
    while i < a.len()
        invariant
            a.len() == b.len(),
            i <= a.len(),
            forall|t: int| 0 <= t < i ==> a@[t] == b@[t],
        decreases a.len() - i,
    {
        if a[i] != b[i] {
            return false;
        }
        i = i + 1;
    }
    assert(a@ =~= b@);
    true
}

/// Appends the characters of `src` to `dst`.
pub fn append_chars(dst: &mut Vec<char>, src: &Vec<char>)
    ensures
        final(dst)@ == old(dst)@ + src@,
{
    let mut i: usize = 0;
    while i < src.len()
        invariant
            i <= src.len(),
            dst@ == old(dst)@ + src@.subrange(0, i as int),
        decreases src.len() - i,
    {
        dst.push(src[i]);
        i = i + 1;
        assert(dst@ =~= old(dst)@ + src@.subrange(0, i as int));
    }
    assert(src@.subrange(0, src.len() as int) =~= src@);
}

/// Appends the characters of `src` to `dst`.
pub fn append_str(dst: &mut Vec<char>, src: &str)
    ensures
        final(dst)@ == old(dst)@ + src@,
{
    let v = chars_of(src);
    append_chars(dst, &v);
}

/// Whether `s` begins with `pat`.
pub fn starts_with_exec(s: &Vec<char>, pat: &Vec<char>) -> (b: bool)
    ensures
        b == matches_at(s@, pat@, 0),
{
    matches_at_exec(s, pat, 0)
}

/// `replace_all` peels off the text before the first match.
proof fn lemma_replace_step(s: Seq<char>, from: Seq<char>, to: Seq<char>, pos: int, k: int)
    requires
        from.len() > 0,
        0 <= pos <= k,
        k + from.len() <= s.len(),
        find_from(s, from, pos) == Some(k),
    ensures
        replace_all(s.subrange(pos, s.len() as int), from, to) == s.subrange(pos, k) + to
            + replace_all(s.subrange(k + from.len(), s.len() as int), from, to),
{
    let rest = s.subrange(pos, s.len() as int);
    let kk = k - pos;
    lemma_find_from(s, from, pos);
    assert(rest.subrange(kk, kk + from.len()) =~= s.subrange(k, k + from.len()));
    assert forall|j: int| 0 <= j < kk implies !matches_at(rest, from, j) by {
        assert(!matches_at(s, from, pos + j));
        if j + from.len() <= rest.len() {
            assert(rest.subrange(j, j + from.len()) =~= s.subrange(pos + j, pos + j + from.len()));
        }
    }
    lemma_find_from_skip(rest, from, 0, kk);
    assert(rest.subrange(0, kk) =~= s.subrange(pos, k));
    assert(rest.subrange(kk + from.len(), rest.len() as int) =~= s.subrange(
        k + from.len(),
        s.len() as int,
    ));
}

/// No match left: `replace_all` keeps the rest unchanged.
proof fn lemma_replace_none(s: Seq<char>, from: Seq<char>, to: Seq<char>, pos: int)
    requires
        from.len() > 0,
        0 <= pos <= s.len(),
        find_from(s, from, pos) is None,
    ensures
        replace_all(s.subrange(pos, s.len() as int), from, to) == s.subrange(pos, s.len() as int),
{
    let rest = s.subrange(pos, s.len() as int);
    lemma_find_from(s, from, pos);
    lemma_find_from(rest, from, 0);
    if let Some(k) = find_from(rest, from, 0) {
        assert(rest.subrange(k, k + from.len()) =~= s.subrange(pos + k, pos + k + from.len()));
        assert(matches_at(s, from, pos + k));
    }
}

/// Every occurrence of `from` in `s` replaced by `to` (`str::replace`).
pub fn replace_exec(s: &Vec<char>, from: &Vec<char>, to: &Vec<char>) -> (r: Vec<char>)
    requires
        from.len() > 0,
    ensures
        r@ == replace_all(s@, from@, to@),
{
    let mut r: Vec<char> = Vec::new();
    let mut pos: usize = 0;
    assert(s@.subrange(0, s.len() as int) =~= s@);
    loop
        invariant
            from.len() > 0,
            pos <= s.len(),
            replace_all(s@, from@, to@) == r@ + replace_all(
                s@.subrange(pos as int, s.len() as int),
                from@,
                to@,
            ),
        decreases s.len() - pos,
    {
        match find_exec(s, from, pos) {
            None => {
                proof {
                    lemma_replace_none(s@, from@, to@, pos as int);
                }
                let tail = slice_vec(s, pos, s.len());
                append_chars(&mut r, &tail);
                return r;
            },
            Some(k) => {
                proof {
                    lemma_find_from(s@, from@, pos as int);
                    lemma_replace_step(s@, from@, to@, pos as int, k as int);
                }
                let piece = slice_vec(s, pos, k);
                append_chars(&mut r, &piece);
                append_chars(&mut r, to);
                pos = k + from.len();
            },
        }
    }
}

/// `replace_exec` with literal patterns.
pub fn replace_lit(s: &Vec<char>, from: &str, to: &str) -> (r: Vec<char>)
    requires
        from@.len() > 0,
    ensures
        r@ == replace_all(s@, from@, to@),
{
    let f = chars_of(from);
    let t = chars_of(to);
    replace_exec(s, &f, &t)
}

/// Whitespace test for [`is_space`].
pub fn is_space_exec(c: char) -> (b: bool)
    ensures
        b == is_space(c),
{
    ('\t' <= c && c <= '\r') || c == ' ' || c == '\u{85}' || c == '\u{a0}' || c == '\u{1680}'
        || ('\u{2000}' <= c && c <= '\u{200a}') || c == '\u{2028}' || c == '\u{2029}' || c
        == '\u{202f}' || c == '\u{205f}' || c == '\u{3000}'
}

/// Bounds of `s` without surrounding whitespace (`str::trim`).
pub fn trim_bounds(s: &Vec<char>) -> (r: (usize, usize))
    ensures
        r.0 <= r.1 <= s.len(),
        s@.subrange(r.0 as int, r.1 as int) == trim(s@),
{
    let mut a: usize = 0;
    assert(s@.subrange(0, s.len() as int) =~= s@);
    while a < s.len() && is_space_exec(s[a])
        invariant
            a <= s.len(),
            trim_start(s@) == trim_start(s@.subrange(a as int, s.len() as int)),
        decreases s.len() - a,
    {
        assert(s@.subrange(a as int, s.len() as int).subrange(1, s.len() - a) =~= s@.subrange(
            a + 1,
            s.len() as int,
        ));
        a = a + 1;
    }
    let ghost t = s@.subrange(a as int, s.len() as int);
    assert(trim_start(t) == t);
    let mut b: usize = s.len();
    assert(t.subrange(0, (b - a) as int) =~= t);
    while b > a && is_space_exec(s[b - 1])
        invariant
            a <= b <= s.len(),
            t == s@.subrange(a as int, s.len() as int),
            trim_end(t) == trim_end(s@.subrange(a as int, b as int)),
        decreases b,
    {
        assert(s@.subrange(a as int, b as int).drop_last() =~= s@.subrange(a as int, b - 1));
        b = b - 1;
    }
    (a, b)
}

/// `s` without surrounding whitespace.
pub fn trim_exec(s: &Vec<char>) -> (r: Vec<char>)
    ensures
        r@ == trim(s@),
{
    let (a, b) = trim_bounds(s);
    slice_vec(s, a, b)
}

/// A prefix of an all-digit string is never worth more than the whole.
pub proof fn lemma_digits_value_prefix(s: Seq<char>, k: int)
    requires
        0 <= k <= s.len(),
        all_ascii_digits(s),
    ensures
        digits_value(s.subrange(0, k)) <= digits_value(s),
    decreases s.len() - k,
{
    if k < s.len() {
        lemma_digits_value_prefix(s, k + 1);
        let p = s.subrange(0, k + 1);
        assert(p.drop_last() =~= s.subrange(0, k));
        assert(is_ascii_digit(s[k]));
    } else {
        assert(s.subrange(0, k) =~= s);
    }
}

/// Value of the ASCII digits `s[from..to]` when they are all digits, non-empty
/// and at most `max`.
pub fn parse_digits(s: &Vec<char>, from: usize, to: usize, max: u64) -> (r: Option<u64>)
    requires
        from <= to <= s.len(),
        max >= 9,
    ensures
        match r {
            Some(v) => {
                let d = s@.subrange(from as int, to as int);
                &&& d.len() > 0
                &&& all_ascii_digits(d)
                &&& digits_value(d) <= max
                &&& v == digits_value(d)
            },
            None => {
                let d = s@.subrange(from as int, to as int);
                !(d.len() > 0 && all_ascii_digits(d) && digits_value(d) <= max)
            },
        },
{
    let ghost d = s@.subrange(from as int, to as int);
    if from == to {
        return None;
    }
    let mut v: u64 = 0;
    let mut i = from;
    assert(d.subrange(0, 0) =~= Seq::<char>::empty());
    while i < to
        invariant
            from < to <= s.len(),
            max >= 9,
            from <= i <= to,
            d == s@.subrange(from as int, to as int),
            forall|t: int| 0 <= t < i - from ==> is_ascii_digit(#[trigger] d[t]),
            v == digits_value(d.subrange(0, i - from)),
            v <= max,
        decreases to - i,
    {
        let c = s[i];
        assert(c == d[i - from]);
        if !('0' <= c && c <= '9') {
            assert(!all_ascii_digits(d));
            return None;
        }
        let digit = (c as u32 - '0' as u32) as u64;
        let ghost pre = d.subrange(0, i - from);
        let ghost nxt = d.subrange(0, i - from + 1);
        assert(nxt.drop_last() =~= pre);
        assert(digits_value(nxt) == digits_value(pre) * 10 + digit);
        if v > (max - digit) / 10 {
            proof {
                assert(v * 10 + digit > max) by (nonlinear_arith)
                    requires
                        v > (max - digit) / 10,
                        digit <= 9,
                        digit <= max,
                ;
                if all_ascii_digits(d) {
                    lemma_digits_value_prefix(d, i - from + 1);
                }
            }
            return None;
        }
        assert(v * 10 + digit <= max) by (nonlinear_arith)
            requires
                v <= (max - digit) / 10,
                digit <= max,
        ;
        v = v * 10 + digit;
        i = i + 1;
    }
    assert(d.subrange(0, to - from) =~= d);
    Some(v)
}

/// `str::parse::<u64>`: an optional `+` and at least one ASCII digit, with a
/// value that fits.
pub fn parse_u64_exec(s: &Vec<char>) -> (r: Option<u64>)
    ensures
        r == parse_u64(s@),
{
    let from: usize = if s.len() > 0 && s[0] == '+' {
        1
    } else {
        0
    };
    let ghost d = if s@.len() > 0 && s@[0] == '+' {
        s@.subrange(1, s@.len() as int)
    } else {
        s@
    };
    assert(d == s@.subrange(from as int, s@.len() as int));
    parse_digits(s, from, s.len(), 0xffff_ffff_ffff_ffff)
}

/// Appends the decimal rendering of `n`.
pub fn push_decimal(out: &mut Vec<char>, n: u64)
    ensures
        final(out)@ == old(out)@ + decimal(n as nat),
    decreases n,
{
    if n >= 10 {
        push_decimal(out, n / 10);
    }
    let c = char_of_digit((n % 10) as u32);
    out.push(c);
    proof {
        if n >= 10 {
            assert(decimal(n as nat) == decimal((n / 10) as nat).push(c));
        } else {
            assert(decimal(n as nat) == seq![c]);
        }
    }
}

/// The ASCII character of a single decimal digit.
pub fn char_of_digit(d: u32) -> (c: char)
    requires
        d < 10,
    ensures
        c == (('0' as nat) + d) as char,
{
    if d == 0 { '0' } else if d == 1 { '1' } else if d == 2 { '2' } else if d == 3 { '3' } else if d
        == 4 { '4' } else if d == 5 { '5' } else if d == 6 { '6' } else if d == 7 { '7' } else if d
        == 8 { '8' } else { '9' }
}

/// Appends `n` padded to at least two digits (`{:02}`).
pub fn push_decimal2(out: &mut Vec<char>, n: u64)
    ensures
        final(out)@ == old(out)@ + decimal2(n as nat),
{
    let ghost start = out@;
    if n < 10 {
        out.push('0');
    }
    push_decimal(out, n);
    assert(out@ =~= start + decimal2(n as nat));
}

/// Splitting always yields at least one piece.
pub proof fn lemma_split_nonempty(s: Seq<char>, pat: Seq<char>)
    ensures
        split_seq(s, pat).len() >= 1,
    decreases s.len(),
{
    if pat.len() > 0 {
        if let Some(k) = find_from(s, pat, 0) {
            if 0 <= k && k + pat.len() <= s.len() {
                lemma_split_nonempty(s.subrange(k + pat.len(), s.len() as int), pat);
            }
        }
    }
}

} // verus!
