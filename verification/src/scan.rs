//! Lexical building blocks for scanning scraped pages: decimal digit runs,
//! quoted attribute values and single-character searches.
use vstd::prelude::*;
use crate::text::{all_ascii_digits, is_space, is_space_exec, find_from, is_ascii_digit, lemma_find_from, matches_at, matches_at_exec, slice_vec};

verus! {

/// The Unicode `Decimal_Number` category (what the regex class `\d` accepts).
pub open spec fn is_decimal_digit(c: char) -> bool {
    ('\u{30}' <= c && c <= '\u{39}')
        || ('\u{660}' <= c && c <= '\u{669}')
        || ('\u{6f0}' <= c && c <= '\u{6f9}')
        || ('\u{7c0}' <= c && c <= '\u{7c9}')
        || ('\u{966}' <= c && c <= '\u{96f}')
        || ('\u{9e6}' <= c && c <= '\u{9ef}')
        || ('\u{a66}' <= c && c <= '\u{a6f}')
        || ('\u{ae6}' <= c && c <= '\u{aef}')
        || ('\u{b66}' <= c && c <= '\u{b6f}')
        || ('\u{be6}' <= c && c <= '\u{bef}')
        || ('\u{c66}' <= c && c <= '\u{c6f}')
        || ('\u{ce6}' <= c && c <= '\u{cef}')
        || ('\u{d66}' <= c && c <= '\u{d6f}')
        || ('\u{de6}' <= c && c <= '\u{def}')
        || ('\u{e50}' <= c && c <= '\u{e59}')
        || ('\u{ed0}' <= c && c <= '\u{ed9}')
        || ('\u{f20}' <= c && c <= '\u{f29}')
        || ('\u{1040}' <= c && c <= '\u{1049}')
        || ('\u{1090}' <= c && c <= '\u{1099}')
        || ('\u{17e0}' <= c && c <= '\u{17e9}')
        || ('\u{1810}' <= c && c <= '\u{1819}')
        || ('\u{1946}' <= c && c <= '\u{194f}')
        || ('\u{19d0}' <= c && c <= '\u{19d9}')
        || ('\u{1a80}' <= c && c <= '\u{1a89}')
        || ('\u{1a90}' <= c && c <= '\u{1a99}')
        || ('\u{1b50}' <= c && c <= '\u{1b59}')
        || ('\u{1bb0}' <= c && c <= '\u{1bb9}')
        || ('\u{1c40}' <= c && c <= '\u{1c49}')
        || ('\u{1c50}' <= c && c <= '\u{1c59}')
        || ('\u{a620}' <= c && c <= '\u{a629}')
        || ('\u{a8d0}' <= c && c <= '\u{a8d9}')
        || ('\u{a900}' <= c && c <= '\u{a909}')
        || ('\u{a9d0}' <= c && c <= '\u{a9d9}')
        || ('\u{a9f0}' <= c && c <= '\u{a9f9}')
        || ('\u{aa50}' <= c && c <= '\u{aa59}')
        || ('\u{abf0}' <= c && c <= '\u{abf9}')
        || ('\u{ff10}' <= c && c <= '\u{ff19}')
        || ('\u{104a0}' <= c && c <= '\u{104a9}')
        || ('\u{10d30}' <= c && c <= '\u{10d39}')
        || ('\u{10d40}' <= c && c <= '\u{10d49}')
        || ('\u{11066}' <= c && c <= '\u{1106f}')
        || ('\u{110f0}' <= c && c <= '\u{110f9}')
        || ('\u{11136}' <= c && c <= '\u{1113f}')
        || ('\u{111d0}' <= c && c <= '\u{111d9}')
        || ('\u{112f0}' <= c && c <= '\u{112f9}')
        || ('\u{11450}' <= c && c <= '\u{11459}')
        || ('\u{114d0}' <= c && c <= '\u{114d9}')
        || ('\u{11650}' <= c && c <= '\u{11659}')
        || ('\u{116c0}' <= c && c <= '\u{116c9}')
        || ('\u{116d0}' <= c && c <= '\u{116e3}')
        || ('\u{11730}' <= c && c <= '\u{11739}')
        || ('\u{118e0}' <= c && c <= '\u{118e9}')
        || ('\u{11950}' <= c && c <= '\u{11959}')
        || ('\u{11bf0}' <= c && c <= '\u{11bf9}')
        || ('\u{11c50}' <= c && c <= '\u{11c59}')
        || ('\u{11d50}' <= c && c <= '\u{11d59}')
        || ('\u{11da0}' <= c && c <= '\u{11da9}')
        || ('\u{11f50}' <= c && c <= '\u{11f59}')
        || ('\u{16130}' <= c && c <= '\u{16139}')
        || ('\u{16a60}' <= c && c <= '\u{16a69}')
        || ('\u{16ac0}' <= c && c <= '\u{16ac9}')
        || ('\u{16b50}' <= c && c <= '\u{16b59}')
        || ('\u{16d70}' <= c && c <= '\u{16d79}')
        || ('\u{1ccf0}' <= c && c <= '\u{1ccf9}')
        || ('\u{1d7ce}' <= c && c <= '\u{1d7ff}')
        || ('\u{1e140}' <= c && c <= '\u{1e149}')
        || ('\u{1e2f0}' <= c && c <= '\u{1e2f9}')
        || ('\u{1e4f0}' <= c && c <= '\u{1e4f9}')
        || ('\u{1e5f1}' <= c && c <= '\u{1e5fa}')
        || ('\u{1e950}' <= c && c <= '\u{1e959}')
        || ('\u{1fbf0}' <= c && c <= '\u{1fbf9}')
}

/// Executable test for [`is_decimal_digit`].
pub fn is_decimal_digit_exec(c: char) -> (b: bool)
    ensures
        b == is_decimal_digit(c),
{
    ('\u{30}' <= c && c <= '\u{39}')
        || ('\u{660}' <= c && c <= '\u{669}')
        || ('\u{6f0}' <= c && c <= '\u{6f9}')
        || ('\u{7c0}' <= c && c <= '\u{7c9}')
        || ('\u{966}' <= c && c <= '\u{96f}')
        || ('\u{9e6}' <= c && c <= '\u{9ef}')
        || ('\u{a66}' <= c && c <= '\u{a6f}')
        || ('\u{ae6}' <= c && c <= '\u{aef}')
        || ('\u{b66}' <= c && c <= '\u{b6f}')
        || ('\u{be6}' <= c && c <= '\u{bef}')
        || ('\u{c66}' <= c && c <= '\u{c6f}')
        || ('\u{ce6}' <= c && c <= '\u{cef}')
        || ('\u{d66}' <= c && c <= '\u{d6f}')
        || ('\u{de6}' <= c && c <= '\u{def}')
        || ('\u{e50}' <= c && c <= '\u{e59}')
        || ('\u{ed0}' <= c && c <= '\u{ed9}')
        || ('\u{f20}' <= c && c <= '\u{f29}')
        || ('\u{1040}' <= c && c <= '\u{1049}')
        || ('\u{1090}' <= c && c <= '\u{1099}')
        || ('\u{17e0}' <= c && c <= '\u{17e9}')
        || ('\u{1810}' <= c && c <= '\u{1819}')
        || ('\u{1946}' <= c && c <= '\u{194f}')
        || ('\u{19d0}' <= c && c <= '\u{19d9}')
        || ('\u{1a80}' <= c && c <= '\u{1a89}')
        || ('\u{1a90}' <= c && c <= '\u{1a99}')
        || ('\u{1b50}' <= c && c <= '\u{1b59}')
        || ('\u{1bb0}' <= c && c <= '\u{1bb9}')
        || ('\u{1c40}' <= c && c <= '\u{1c49}')
        || ('\u{1c50}' <= c && c <= '\u{1c59}')
        || ('\u{a620}' <= c && c <= '\u{a629}')
        || ('\u{a8d0}' <= c && c <= '\u{a8d9}')
        || ('\u{a900}' <= c && c <= '\u{a909}')
        || ('\u{a9d0}' <= c && c <= '\u{a9d9}')
        || ('\u{a9f0}' <= c && c <= '\u{a9f9}')
        || ('\u{aa50}' <= c && c <= '\u{aa59}')
        || ('\u{abf0}' <= c && c <= '\u{abf9}')
        || ('\u{ff10}' <= c && c <= '\u{ff19}')
        || ('\u{104a0}' <= c && c <= '\u{104a9}')
        || ('\u{10d30}' <= c && c <= '\u{10d39}')
        || ('\u{10d40}' <= c && c <= '\u{10d49}')
        || ('\u{11066}' <= c && c <= '\u{1106f}')
        || ('\u{110f0}' <= c && c <= '\u{110f9}')
        || ('\u{11136}' <= c && c <= '\u{1113f}')
        || ('\u{111d0}' <= c && c <= '\u{111d9}')
        || ('\u{112f0}' <= c && c <= '\u{112f9}')
        || ('\u{11450}' <= c && c <= '\u{11459}')
        || ('\u{114d0}' <= c && c <= '\u{114d9}')
        || ('\u{11650}' <= c && c <= '\u{11659}')
        || ('\u{116c0}' <= c && c <= '\u{116c9}')
        || ('\u{116d0}' <= c && c <= '\u{116e3}')
        || ('\u{11730}' <= c && c <= '\u{11739}')
        || ('\u{118e0}' <= c && c <= '\u{118e9}')
        || ('\u{11950}' <= c && c <= '\u{11959}')
        || ('\u{11bf0}' <= c && c <= '\u{11bf9}')
        || ('\u{11c50}' <= c && c <= '\u{11c59}')
        || ('\u{11d50}' <= c && c <= '\u{11d59}')
        || ('\u{11da0}' <= c && c <= '\u{11da9}')
        || ('\u{11f50}' <= c && c <= '\u{11f59}')
        || ('\u{16130}' <= c && c <= '\u{16139}')
        || ('\u{16a60}' <= c && c <= '\u{16a69}')
        || ('\u{16ac0}' <= c && c <= '\u{16ac9}')
        || ('\u{16b50}' <= c && c <= '\u{16b59}')
        || ('\u{16d70}' <= c && c <= '\u{16d79}')
        || ('\u{1ccf0}' <= c && c <= '\u{1ccf9}')
        || ('\u{1d7ce}' <= c && c <= '\u{1d7ff}')
        || ('\u{1e140}' <= c && c <= '\u{1e149}')
        || ('\u{1e2f0}' <= c && c <= '\u{1e2f9}')
        || ('\u{1e4f0}' <= c && c <= '\u{1e4f9}')
        || ('\u{1e5f1}' <= c && c <= '\u{1e5fa}')
        || ('\u{1e950}' <= c && c <= '\u{1e959}')
        || ('\u{1fbf0}' <= c && c <= '\u{1fbf9}')
}

/// End of the longest run of decimal digits that starts at `i`.
pub open spec fn digit_run_end(s: Seq<char>, i: int) -> int
    decreases s.len() - i,
{
    if 0 <= i < s.len() && is_decimal_digit(s[i]) {
        digit_run_end(s, i + 1)
    } else {
        i
    }
}

/// The run ends within `s` and holds only digits.
pub proof fn lemma_digit_run_end(s: Seq<char>, i: int)
    requires
        0 <= i <= s.len(),
    ensures
        i <= digit_run_end(s, i) <= s.len(),
        forall|j: int| i <= j < digit_run_end(s, i) ==> is_decimal_digit(#[trigger] s[j]),
        digit_run_end(s, i) < s.len() ==> !is_decimal_digit(s[digit_run_end(s, i)]),
    decreases s.len() - i,
{
    if i < s.len() && is_decimal_digit(s[i]) {
        lemma_digit_run_end(s, i + 1);
    }
}

/// Executable [`digit_run_end`].
pub fn digit_run_end_exec(s: &Vec<char>, i: usize) -> (e: usize)
    requires
        i <= s.len(),
    ensures
        e == digit_run_end(s@, i as int),
        i <= e <= s.len(),
{
    let mut j = i;
    while j < s.len() && is_decimal_digit_exec(s[j])
        invariant
            i <= j <= s.len(),
            digit_run_end(s@, i as int) == digit_run_end(s@, j as int),
        decreases s.len() - j,
    {
        j = j + 1;
    }
    j
}

/// Index of the first `c` in `s` at or after `start`.
pub fn find_char(s: &Vec<char>, c: char, start: usize) -> (r: Option<usize>)
    ensures
        match r {
            Some(k) => find_from(s@, seq![c], start as int) == Some(k as int),
            None => find_from(s@, seq![c], start as int) is None,
        },
{
    let mut i = start;
    while i < s.len()
        invariant
            start <= i,
            find_from(s@, seq![c], start as int) == find_from(s@, seq![c], i as int),
        decreases s.len() - i,
    {
        assert(s@.subrange(i as int, i + 1) =~= seq![s@[i as int]]);
        if s[i] == c {
            return Some(i);
        }
        assert(!matches_at(s@, seq![c], i as int)) by {
            if matches_at(s@, seq![c], i as int) {
                assert(s@.subrange(i as int, i + 1)[0] == c);
            }
        }
        i = i + 1;
    }
    None
}

/// Index of the last `c` in `s`.
pub open spec fn rfind_char(s: Seq<char>, c: char) -> Option<int>
    decreases s.len(),
{
    if s.len() == 0 {
        None
    } else if s.last() == c {
        Some(s.len() - 1)
    } else {
        rfind_char(s.drop_last(), c)
    }
}

/// What `rfind_char` returns is the last occurrence.
pub proof fn lemma_rfind_char(s: Seq<char>, c: char)
    ensures
        match rfind_char(s, c) {
            Some(k) => 0 <= k < s.len() && s[k] == c && forall|j: int| k < j < s.len() ==> s[j] != c,
            None => forall|j: int| 0 <= j < s.len() ==> s[j] != c,
        },
    decreases s.len(),
{
    if s.len() > 0 && s.last() != c {
        lemma_rfind_char(s.drop_last(), c);
        assert forall|j: int| 0 <= j < s.len() - 1 implies s.drop_last()[j] == s[j] by {}
    }
}

/// Executable [`rfind_char`].
pub fn rfind_char_exec(s: &Vec<char>, c: char) -> (r: Option<usize>)
    ensures
        match r {
            Some(k) => rfind_char(s@, c) == Some(k as int),
            None => rfind_char(s@, c) is None,
        },
{
    let mut n = s.len();
    assert(s@.subrange(0, n as int) =~= s@);
    while n > 0
        invariant
            n <= s.len(),
            rfind_char(s@, c) == rfind_char(s@.subrange(0, n as int), c),
        decreases n,
    {
        let ghost t = s@.subrange(0, n as int);
        assert(t.drop_last() =~= s@.subrange(0, n - 1));
        if s[n - 1] == c {
            return Some(n - 1);
        }
        n = n - 1;
    }
    assert(s@.subrange(0, 0) =~= Seq::<char>::empty());
    None
}

/// Which characters a quoted attribute value may hold.
#[derive(Clone, Copy)]
pub enum ValueKind {
    /// `"([^"]*)"`: anything up to the closing quote.
    Any,
    /// `"([^"]+)"`: at least one character.
    NonEmpty,
    /// `"([0-9]+)"`: at least one ASCII digit and nothing else.
    AsciiDigits,
}

/// The value satisfies the constraint of `kind`.
pub open spec fn value_ok(v: Seq<char>, kind: ValueKind) -> bool {
    match kind {
        ValueKind::Any => true,
        ValueKind::NonEmpty => v.len() > 0,
        ValueKind::AsciiDigits => v.len() > 0 && all_ascii_digits(v),
    }
}

/// The value of `prefix"value"` when `prefix` occurs at `p` and the value up to
/// the next quote satisfies `kind`.
pub open spec fn quoted_at(s: Seq<char>, prefix: Seq<char>, kind: ValueKind, p: int) -> Option<
    Seq<char>,
> {
    if matches_at(s, prefix, p) {
        let start = p + prefix.len();
        match find_from(s, seq!['"'], start) {
            Some(e) => if value_ok(s.subrange(start, e), kind) {
                Some(s.subrange(start, e))
            } else {
                None
            },
            None => None,
        }
    } else {
        None
    }
}

/// The leftmost match of `prefix"value"` at or after `p` (what a regex such as
/// `data-id="([0-9]+)"` captures).
pub open spec fn first_quoted(s: Seq<char>, prefix: Seq<char>, kind: ValueKind, p: int) -> Option<
    Seq<char>,
>
    decreases s.len() + 1 - p,
{
    if p < 0 || p > s.len() {
        None
    } else {
        match quoted_at(s, prefix, kind, p) {
            Some(v) => Some(v),
            None => first_quoted(s, prefix, kind, p + 1),
        }
    }
}

/// The view of an optional character vector.
pub open spec fn opt_chars(o: Option<Vec<char>>) -> Option<Seq<char>> {
    match o {
        Some(v) => Some(v@),
        None => None,
    }
}

/// Executable value check for [`value_ok`].
pub fn value_ok_exec(s: &Vec<char>, from: usize, to: usize, kind: ValueKind) -> (b: bool)
    requires
        from <= to <= s.len(),
    ensures
        b == value_ok(s@.subrange(from as int, to as int), kind),
{
    match kind {
        ValueKind::Any => true,
        ValueKind::NonEmpty => from < to,
        ValueKind::AsciiDigits => {
            if from == to {
                return false;
            }
            let mut i = from;
            while i < to
                invariant
                    from <= i <= to <= s.len(),
                    kind is AsciiDigits,
                    forall|t: int| from <= t < i ==> is_ascii_digit(#[trigger] s@[t]),
                decreases to - i,
            {
                if !('0' <= s[i] && s[i] <= '9') {
                    assert(s@.subrange(from as int, to as int)[i - from] == s@[i as int]);
                    assert(!is_ascii_digit(s@.subrange(from as int, to as int)[i - from]));
                    assert(!all_ascii_digits(s@.subrange(from as int, to as int)));
                    return false;
                }
                i = i + 1;
            }
            assert forall|t: int| 0 <= t < to - from implies is_ascii_digit(
                #[trigger] s@.subrange(from as int, to as int)[t],
            ) by {
                assert(s@.subrange(from as int, to as int)[t] == s@[from + t]);
            }
            true
        },
    }
}

/// Executable [`quoted_at`], returning the value's bounds.
pub fn quoted_at_exec(s: &Vec<char>, prefix: &Vec<char>, kind: ValueKind, p: usize) -> (r: Option<
    (usize, usize),
>)
    ensures
        match r {
            Some((a, b)) => a <= b <= s.len() && quoted_at(s@, prefix@, kind, p as int) == Some(
                s@.subrange(a as int, b as int),
            ),
            None => quoted_at(s@, prefix@, kind, p as int) is None,
        },
{
    if !matches_at_exec(s, prefix, p) {
        return None;
    }
    assert(p + prefix@.len() <= s@.len());
    assert(p + prefix.len() <= s.len());
    let start = p + prefix.len();
    match find_char(s, '"', start) {
        Some(e) => {
            proof {
                lemma_find_from(s@, seq!['"'], start as int);
            }
            if value_ok_exec(s, start, e, kind) {
                Some((start, e))
            } else {
                None
            }
        },
        None => None,
    }
}

/// Executable [`first_quoted`] from the start of `s`.
pub fn first_quoted_exec(s: &Vec<char>, prefix: &Vec<char>, kind: ValueKind) -> (r: Option<
    Vec<char>,
>)
    ensures
        opt_chars(r) == first_quoted(s@, prefix@, kind, 0),
{
    let mut p: usize = 0;
    loop
        invariant
            p <= s.len(),
            first_quoted(s@, prefix@, kind, 0) == first_quoted(s@, prefix@, kind, p as int),
        decreases s.len() - p,
    {
        match quoted_at_exec(s, prefix, kind, p) {
            Some((a, b)) => {
                return Some(slice_vec(s, a, b));
            },
            None => {},
        }
        if p == s.len() {
            assert(first_quoted(s@, prefix@, kind, p + 1) is None);
            return None;
        }
        p = p + 1;
    }
}

/// End of the longest run of whitespace that starts at `i`.
pub open spec fn space_run_end(s: Seq<char>, i: int) -> int
    decreases s.len() - i,
{
    if 0 <= i < s.len() && is_space(s[i]) {
        space_run_end(s, i + 1)
    } else {
        i
    }
}

/// The whitespace run ends within `s`.
pub proof fn lemma_space_run_end(s: Seq<char>, i: int)
    requires
        0 <= i <= s.len(),
    ensures
        i <= space_run_end(s, i) <= s.len(),
    decreases s.len() - i,
{
    if i < s.len() && is_space(s[i]) {
        lemma_space_run_end(s, i + 1);
    }
}

/// Executable [`space_run_end`].
pub fn space_run_end_exec(s: &Vec<char>, i: usize) -> (e: usize)
    requires
        i <= s.len(),
    ensures
        e == space_run_end(s@, i as int),
        i <= e <= s.len(),
{
    let mut j = i;
    while j < s.len() && is_space_exec(s[j])
        invariant
            i <= j <= s.len(),
            space_run_end(s@, i as int) == space_run_end(s@, j as int),
        decreases s.len() - j,
    {
        j = j + 1;
    }
    j
}

/// A value found by `first_quoted` satisfies its constraint.
pub proof fn lemma_first_quoted_ok(s: Seq<char>, prefix: Seq<char>, kind: ValueKind, p: int)
    ensures
        first_quoted(s, prefix, kind, p) matches Some(v) ==> value_ok(v, kind),
    decreases s.len() + 1 - p,
{
    if 0 <= p <= s.len() {
        if quoted_at(s, prefix, kind, p) is None {
            lemma_first_quoted_ok(s, prefix, kind, p + 1);
        }
    }
}

} // verus!
