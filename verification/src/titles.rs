//! Show titles: season markers, franchise keys, season inference by franchise
//! rank, stream summaries and episode-argument tokens.
use vstd::prelude::*;
use crate::api::{ShowInfo, ShowResult};
use crate::providers::{streams_view, Stream, StreamInfo};
use crate::providers::opt_string;
use crate::text::{
    append_chars, append_str, chars_eq, chars_of, contains, contains_exec, decimal, find_exec,
    find_from, is_space, is_space_exec, lemma_find_from, parse_digits, parse_u32, push_decimal,
    slice_vec, string_of, trim, trim_exec,
};

verus! {

// ---------------------------------------------------------------------------
// Season markers (regular expressions)
// ---------------------------------------------------------------------------

/// What `regex::Regex::new(pattern)` and then `captures(text)` give as the
/// text of capture group 1 of the leftmost match; `None` when the pattern
/// does not compile, nothing matches, or group 1 took no part.
pub uninterp spec fn regex_first_capture(pattern: Seq<char>, text: Seq<char>) -> Option<Seq<char>>;

/// Group 1 of the leftmost match of a regular expression (`regex` crate).
#[verifier::external_body]
fn regex_capture(pattern: &str, text: &str) -> (r: Option<String>)
    ensures
        opt_string(r) == regex_first_capture(pattern@, text@),
{
    Some(regex::Regex::new(pattern).ok()?.captures(text)?.get(1)?.as_str().to_string())
}

/// What `regex::Regex::new(pattern)` and then `replace(text, rep)` give: the
/// leftmost match replaced; `None` when the pattern does not compile.
pub uninterp spec fn regex_replace_leftmost(pattern: Seq<char>, text: Seq<char>, rep: Seq<char>) -> Option<
    Seq<char>,
>;

/// Replaces the leftmost match of a regular expression (`regex` crate).
#[verifier::external_body]
fn regex_replace_first(pattern: &str, text: &str, rep: &str) -> (r: Option<String>)
    ensures
        opt_string(r) == regex_replace_leftmost(pattern@, text@, rep@),
{
    Some(regex::Regex::new(pattern).ok()?.replace(text, rep).into_owned())
}

/// `Season N`, in any case, the number captured.
pub open spec fn season_num_pattern() -> Seq<char> {
    "(?i)season\\s*(\\d+)"@
}

/// `Nth Season`, in any case, the number captured.
pub open spec fn ordinal_season_pattern() -> Seq<char> {
    "(?i)(\\d+)(?:st|nd|rd|th)\\s+season"@
}

/// A season number, when it is a positive `u32`.
pub open spec fn positive_u32(d: Seq<char>) -> Option<u32> {
    match parse_u32(d) {
        Some(n) => if n > 0 {
            Some(n)
        } else {
            None
        },
        None => None,
    }
}

/// The season a title states: the number of its first `Season N`, else of its
/// first `Nth Season` (the ordinal form is only read when there is no
/// `Season N` at all).
pub open spec fn explicit_season_spec(name: Seq<char>) -> Option<u32> {
    match regex_first_capture(season_num_pattern(), name) {
        Some(d) => positive_u32(d),
        None => match regex_first_capture(ordinal_season_pattern(), name) {
            Some(d) => positive_u32(d),
            None => None,
        },
    }
}

fn positive_u32_exec(d: &String) -> (r: Option<u32>)
    ensures
        r == positive_u32(d@),
{
    let s = chars_of(d.as_str());
    let from: usize = if s.len() > 0 && s[0] == '+' {
        1
    } else {
        0
    };
    let ghost t = if s@.len() > 0 && s@[0] == '+' {
        s@.subrange(1, s@.len() as int)
    } else {
        s@
    };
    assert(t == s@.subrange(from as int, s@.len() as int));
    match parse_digits(&s, from, s.len(), 0xffff_ffff) {
        Some(v) => if v > 0 {
            Some(v as u32)
        } else {
            None
        },
        None => None,
    }
}

/// The season number a title states explicitly ("Season 3", "2nd Season").
pub fn explicit_season_in_title(name: &str) -> (r: Option<u32>)
    ensures
        r == explicit_season_spec(name@),
{
    match regex_capture("(?i)season\\s*(\\d+)", name) {
        Some(d) => positive_u32_exec(&d),
        None => match regex_capture("(?i)(\\d+)(?:st|nd|rd|th)\\s+season", name) {
            Some(d) => positive_u32_exec(&d),
            None => None,
        },
    }
}

/// `s` with its first `season N` match removed.
pub open spec fn drop_season_num(s: Seq<char>) -> Seq<char> {
    match regex_replace_leftmost(season_num_pattern(), s, Seq::empty()) {
        Some(r) => r,
        None => s,
    }
}

/// `s` with its first `Nth season` match removed.
pub open spec fn drop_ordinal(s: Seq<char>) -> Seq<char> {
    match regex_replace_leftmost(ordinal_season_pattern(), s, Seq::empty()) {
        Some(r) => r,
        None => s,
    }
}

fn drop_season_num_exec(s: &Vec<char>) -> (r: Vec<char>)
    ensures
        r@ == drop_season_num(s@),
{
    let text = string_of(s);
    proof {
        reveal_strlit("");
    }
    assert(""@ =~= Seq::<char>::empty());
    match regex_replace_first("(?i)season\\s*(\\d+)", text.as_str(), "") {
        Some(r) => chars_of(r.as_str()),
        None => chars_of(text.as_str()),
    }
}

fn drop_ordinal_exec(s: &Vec<char>) -> (r: Vec<char>)
    ensures
        r@ == drop_ordinal(s@),
{
    let text = string_of(s);
    proof {
        reveal_strlit("");
    }
    assert(""@ =~= Seq::<char>::empty());
    match regex_replace_first("(?i)(\\d+)(?:st|nd|rd|th)\\s+season", text.as_str(), "") {
        Some(r) => chars_of(r.as_str()),
        None => chars_of(text.as_str()),
    }
}

// ---------------------------------------------------------------------------
// Base title and franchise key
// ---------------------------------------------------------------------------

/// Position of the earliest subtitle separator (`": "`, `"? "`, `"! "`), or the
/// length of `s` when there is none.
pub open spec fn subtitle_cut(s: Seq<char>) -> int {
    let a = match find_from(s, ": "@, 0) {
        Some(k) => k,
        None => s.len() as int,
    };
    let b = match find_from(s, "? "@, 0) {
        Some(k) => k,
        None => s.len() as int,
    };
    let c = match find_from(s, "! "@, 0) {
        Some(k) => k,
        None => s.len() as int,
    };
    let ab = if a <= b {
        a
    } else {
        b
    };
    if ab <= c {
        ab
    } else {
        c
    }
}

/// `s` without trailing characters from `set` (`str::trim_end_matches`).
pub open spec fn trim_end_chars(s: Seq<char>, set: Seq<char>) -> Seq<char>
    decreases s.len(),
{
    if s.len() > 0 && set.contains(s.last()) {
        trim_end_chars(s.drop_last(), set)
    } else {
        s
    }
}

/// Franchise base of a title, in its own letter case: cut at the first subtitle
/// separator, drop explicit season markers, trailing punctuation and spaces.
pub open spec fn base_title_spec(name: Seq<char>) -> Seq<char> {
    let head = name.subrange(0, subtitle_cut(name));
    trim(trim_end_chars(drop_ordinal(drop_season_num(head)), seq!['?', '!', ':', '.', '-', ' ']))
}

/// What `str::to_lowercase` returns for `s` (Unicode lowercase mapping).
pub uninterp spec fn unicode_lowercase(s: Seq<char>) -> Seq<char>;

/// Lowercases `s` (`str::to_lowercase`).
#[verifier::external_body]
pub(crate) fn to_lowercase(s: &str) -> (r: String)
    ensures
        r@ == unicode_lowercase(s@),
{
    s.to_lowercase()
}

/// The franchise key of an already lowercased title: cut at the first
/// subtitle separator, drop a `season N` marker and trailing punctuation.
pub open spec fn franchise_key_of_lower(lower: Seq<char>) -> Seq<char> {
    let head = lower.subrange(0, subtitle_cut(lower));
    trim(trim_end_chars(drop_season_num(head), seq!['?', '!', ':', '.']))
}

/// The franchise key of a title.
pub open spec fn franchise_key_spec(name: Seq<char>) -> Seq<char> {
    franchise_key_of_lower(unicode_lowercase(name))
}

fn subtitle_cut_exec(s: &Vec<char>) -> (c: usize)
    ensures
        c == subtitle_cut(s@),
        c <= s.len(),
{
    let p1 = chars_of(": ");
    let p2 = chars_of("? ");
    let p3 = chars_of("! ");
    let a = match find_exec(s, &p1, 0) {
        Some(k) => {
            proof {
                lemma_find_from(s@, p1@, 0);
            }
            k
        },
        None => s.len(),
    };
    let b = match find_exec(s, &p2, 0) {
        Some(k) => {
            proof {
                lemma_find_from(s@, p2@, 0);
            }
            k
        },
        None => s.len(),
    };
    let c = match find_exec(s, &p3, 0) {
        Some(k) => {
            proof {
                lemma_find_from(s@, p3@, 0);
            }
            k
        },
        None => s.len(),
    };
    let ab = if a <= b {
        a
    } else {
        b
    };
    if ab <= c {
        ab
    } else {
        c
    }
}

fn in_set(c: char, set: &Vec<char>) -> (b: bool)
    ensures
        b == set@.contains(c),
{
    let mut i: usize = 0;
    while i < set.len()
        invariant
            i <= set@.len(),
            forall|t: int| 0 <= t < i ==> set@[t] != c,
        decreases set.len() - i,
    {
        if set[i] == c {
            return true;
        }
        i = i + 1;
    }
    false
}

fn trim_end_chars_exec(s: &Vec<char>, set: &Vec<char>) -> (r: Vec<char>)
    ensures
        r@ == trim_end_chars(s@, set@),
{
    let mut n = s.len();
    assert(s@.subrange(0, n as int) =~= s@);
    while n > 0 && in_set(s[n - 1], set)
        invariant
            n <= s.len(),
            trim_end_chars(s@, set@) == trim_end_chars(s@.subrange(0, n as int), set@),
        decreases n,
    {
        assert(s@.subrange(0, n as int).drop_last() =~= s@.subrange(0, n - 1));
        n = n - 1;
    }
    slice_vec(s, 0, n)
}

/// Franchise base of a title, in its own letter case: cut at the first subtitle
/// separator and drop explicit season markers ("Season 2", "2nd Season").
pub fn base_title(name: &str) -> (r: String)
    ensures
        r@ == base_title_spec(name@),
{
    let s = chars_of(name);
    let cut = subtitle_cut_exec(&s);
    let head = slice_vec(&s, 0, cut);
    let a = drop_season_num_exec(&head);
    let b = drop_ordinal_exec(&a);
    let mut set: Vec<char> = Vec::new();
    set.push('?');
    set.push('!');
    set.push(':');
    set.push('.');
    set.push('-');
    set.push(' ');
    assert(set@ =~= seq!['?', '!', ':', '.', '-', ' ']);
    let c = trim_end_chars_exec(&b, &set);
    let d = trim_exec(&c);
    string_of(&d)
}

/// The franchise key of an already lowercased title.
pub fn franchise_key_lowered(lower: &Vec<char>) -> (r: Vec<char>)
    ensures
        r@ == franchise_key_of_lower(lower@),
{
    let cut = subtitle_cut_exec(lower);
    let head = slice_vec(lower, 0, cut);
    let a = drop_season_num_exec(&head);
    let mut set: Vec<char> = Vec::new();
    set.push('?');
    set.push('!');
    set.push(':');
    set.push('.');
    assert(set@ =~= seq!['?', '!', ':', '.']);
    let c = trim_end_chars_exec(&a, &set);
    trim_exec(&c)
}

/// Lowercased franchise key: titles that differ only in their subtitle (or
/// its separator) or in a `Season N` marker share it.
pub fn franchise_key(name: &str) -> (r: String)
    ensures
        r@ == franchise_key_spec(name@),
{
    let lower = to_lowercase(name);
    let l = chars_of(lower.as_str());
    let k = franchise_key_lowered(&l);
    string_of(&k)
}

/// Whether the key is long enough to search for siblings with (at least 8
/// bytes of UTF-8).
pub fn prefix_search_worthwhile(prefix: &str) -> (b: bool)
    ensures
        b == (prefix.len() >= 8),
{
    prefix.len() >= 8
}

// ---------------------------------------------------------------------------
// Season by franchise rank
// ---------------------------------------------------------------------------

/// Keywords of entries that are not a season of their own.
pub open spec fn special_keywords() -> Seq<Seq<char>> {
    seq![
        " ova"@,
        " movie"@,
        "picture drama"@,
        "teaser"@,
        " gaiden"@,
        "kanketsu-hen"@,
        "chuugakkou"@,
        "spinoff"@,
    ]
}

/// An OVA, movie, short or spin-off rather than a season.
pub open spec fn is_special_spec(name: Seq<char>, episodes: u32) -> bool {
    episodes <= 5 || exists|i: int|
        0 <= i < special_keywords().len() && contains(
            unicode_lowercase(name),
            #[trigger] special_keywords()[i],
        )
}

/// Whether a search hit is an OVA, movie, teaser or similar short entry.
pub fn is_special_entry(name: &str, episodes: u32) -> (b: bool)
    ensures
        b == is_special_spec(name@, episodes),
{
    if episodes <= 5 {
        return true;
    }
    let lower = to_lowercase(name);
    let l = chars_of(lower.as_str());
    let kws: [&str; 8] = [
        " ova",
        " movie",
        "picture drama",
        "teaser",
        " gaiden",
        "kanketsu-hen",
        "chuugakkou",
        "spinoff",
    ];
    let mut i: usize = 0;
    while i < 8
        invariant
            i <= 8,
            l@ == unicode_lowercase(name@),
            forall|t: int| 0 <= t < 8 ==> (#[trigger] kws@[t])@ == special_keywords()[t],
            forall|t: int| 0 <= t < i ==> !contains(l@, #[trigger] special_keywords()[t]),
        decreases 8 - i,
    {
        let kw = chars_of(kws[i]);
        if contains_exec(&l, &kw) {
            return true;
        }
        i = i + 1;
    }
    false
}

/// Lexicographic order on character sequences (the order of `String`).
pub open spec fn seq_lt(a: Seq<char>, b: Seq<char>) -> bool
    decreases a.len(),
{
    if a.len() == 0 {
        b.len() > 0
    } else if b.len() == 0 {
        false
    } else if a[0] != b[0] {
        a[0] < b[0]
    } else {
        seq_lt(a.drop_first(), b.drop_first())
    }
}

/// Order of search hits when ranking seasons: year, then name, then slug.
pub open spec fn show_lt(a: ShowInfo, b: ShowInfo) -> bool {
    a.year < b.year || (a.year == b.year && (seq_lt(a.name, b.name) || (a.name == b.name
        && seq_lt(a.id, b.id))))
}

/// A search hit of franchise `key` that is a season of its own.
pub open spec fn is_cousin(s: ShowInfo, key: Seq<char>) -> bool {
    franchise_key_spec(s.name) == key && !is_special_spec(s.name, s.episodes)
}

/// How many of the first `n` hits are cousins.
pub open spec fn count_cousins(rs: Seq<ShowInfo>, key: Seq<char>, n: int) -> nat
    decreases n,
{
    if n <= 0 {
        0
    } else {
        count_cousins(rs, key, n - 1) + if is_cousin(rs[n - 1], key) {
            1nat
        } else {
            0nat
        }
    }
}

/// How many of the first `n` hits are cousins ordered before `t`.
pub open spec fn count_before(rs: Seq<ShowInfo>, key: Seq<char>, t: ShowInfo, n: int) -> nat
    decreases n,
{
    if n <= 0 {
        0
    } else {
        count_before(rs, key, t, n - 1) + if is_cousin(rs[n - 1], key) && show_lt(rs[n - 1], t) {
            1nat
        } else {
            0nat
        }
    }
}

/// `rs[t]` is a cousin with slug `id` that no other such cousin precedes.
pub open spec fn is_rank_anchor(rs: Seq<ShowInfo>, key: Seq<char>, id: Seq<char>, t: int) -> bool {
    &&& 0 <= t < rs.len()
    &&& is_cousin(rs[t], key)
    &&& rs[t].id == id
    &&& forall|j: int|
        0 <= j < rs.len() && is_cousin(rs[j], key) && rs[j].id == id ==> !show_lt(
            #[trigger] rs[j],
            rs[t],
        )
}

/// The season a show is, by its place among the seasons of its franchise in
/// the search hits (ordered by year, name, slug); `None` when the franchise
/// has at most one season among the hits or the show is not among them.
pub open spec fn franchise_rank_spec(show: ShowInfo, rs: Seq<ShowInfo>) -> Option<u32> {
    let key = franchise_key_spec(show.name);
    if count_cousins(rs, key, rs.len() as int) <= 1 {
        None
    } else if exists|t: int| is_rank_anchor(rs, key, show.id, t) {
        let t = choose|t: int| is_rank_anchor(rs, key, show.id, t);
        Some((count_before(rs, key, rs[t], rs.len() as int) + 1) as u32)
    } else {
        None
    }
}

/// Executable [`seq_lt`].
fn chars_lt(a: &Vec<char>, b: &Vec<char>) -> (r: bool)
    ensures
        r == seq_lt(a@, b@),
{
    let mut i: usize = 0;
    assert(a@.skip(0) =~= a@);
    assert(b@.skip(0) =~= b@);
    while i < a.len() && i < b.len() && a[i] == b[i]
        invariant
            i <= a.len(),
            i <= b.len(),
            seq_lt(a@, b@) == seq_lt(a@.skip(i as int), b@.skip(i as int)),
        decreases a.len() - i,
    {
        assert(a@.skip(i as int).drop_first() =~= a@.skip(i + 1));
        assert(b@.skip(i as int).drop_first() =~= b@.skip(i + 1));
        i = i + 1;
    }
    let ghost sa = a@.skip(i as int);
    let ghost sb = b@.skip(i as int);
    if i == a.len() {
        assert(sa.len() == 0);
        i < b.len()
    } else if i == b.len() {
        false
    } else {
        assert(sa[0] == a@[i as int]);
        assert(sb[0] == b@[i as int]);
        a[i] < b[i]
    }
}

/// A search hit with its character views precomputed.
struct RankEntry {
    name: Vec<char>,
    id: Vec<char>,
    year: u32,
    cousin: bool,
}

fn entry_lt(a: &RankEntry, b: &RankEntry) -> (r: bool)
    ensures
        r == (a.year < b.year || (a.year == b.year && (seq_lt(a.name@, b.name@) || (a.name@
            == b.name@ && seq_lt(a.id@, b.id@))))),
{
    if a.year != b.year {
        return a.year < b.year;
    }
    if chars_lt(&a.name, &b.name) {
        return true;
    }
    chars_eq(&a.name, &b.name) && chars_lt(&a.id, &b.id)
}

/// Season number from the show's place among same-franchise search hits
/// (ignoring OVAs, movies and other specials), ordered by year, name, slug.
pub fn season_by_franchise_rank(show: &ShowResult, search_results: &[ShowResult]) -> (r: Option<
    u32,
>)
    ensures
        r == franchise_rank_spec(show@, search_results@.map_values(|s: ShowResult| s@)),
{
    let ghost rs = search_results@.map_values(|s: ShowResult| s@);
    let key = chars_of(franchise_key(show.name.as_str()).as_str());
    let ghost k = franchise_key_spec(show.name@);
    let sid = chars_of(show.id.as_str());
    let n = search_results.len();
    let mut entries: Vec<RankEntry> = Vec::new();
    let mut cousins: usize = 0;
    let mut i: usize = 0;
    while i < n
        invariant
            n == search_results@.len() == rs.len(),
            rs == search_results@.map_values(|s: ShowResult| s@),
            key@ == k,
            i <= n,
            entries@.len() == i,
            cousins <= i,
            cousins == count_cousins(rs, k, i as int),
            forall|j: int|
                0 <= j < i ==> {
                    &&& (#[trigger] entries@[j]).name@ == rs[j].name
                    &&& entries@[j].id@ == rs[j].id
                    &&& entries@[j].year == rs[j].year
                    &&& entries@[j].cousin == is_cousin(rs[j], k)
                },
        decreases n - i,
    {
        let s = &search_results[i];
        assert(rs[i as int] == search_results@[i as int]@);
        let sk = chars_of(franchise_key(s.name.as_str()).as_str());
        let cousin = chars_eq(&sk, &key) && !is_special_entry(s.name.as_str(), s.episodes);
        entries.push(
            RankEntry {
                name: chars_of(s.name.as_str()),
                id: chars_of(s.id.as_str()),
                year: s.year,
                cousin,
            },
        );
        if cousin {
            cousins = cousins + 1;
        }
        i = i + 1;
    }
    if cousins <= 1 {
        return None;
    }
    // The first cousin with the show's slug in ranking order.
    let mut anchor: Option<usize> = None;
    i = 0;
    while i < n
        invariant
            n == rs.len() == entries@.len(),
            i <= n,
            forall|j: int|
                0 <= j < n ==> {
                    &&& (#[trigger] entries@[j]).name@ == rs[j].name
                    &&& entries@[j].id@ == rs[j].id
                    &&& entries@[j].year == rs[j].year
                    &&& entries@[j].cousin == is_cousin(rs[j], k)
                },
            sid@ == show.id@,
            match anchor {
                Some(t) => t < i && is_cousin(rs[t as int], k) && rs[t as int].id == show.id@
                    && forall|j: int|
                    0 <= j < i && is_cousin(rs[j], k) && rs[j].id == show.id@ ==> !show_lt(
                        #[trigger] rs[j],
                        rs[t as int],
                    ),
                None => forall|j: int|
                    0 <= j < i ==> !(is_cousin(#[trigger] rs[j], k) && rs[j].id == show.id@),
            },
        decreases n - i,
    {
        if entries[i].cousin && chars_eq(&entries[i].id, &sid) {
            match anchor {
                None => {
                    proof {
                        lemma_show_lt_irrefl(rs[i as int]);
                    }
                    anchor = Some(i);
                },
                Some(t) => {
                    if entry_lt(&entries[i], &entries[t]) {
                        proof {
                            assert forall|j: int|
                                0 <= j < i + 1 && is_cousin(rs[j], k) && rs[j].id == show.id@
                                    implies !show_lt(#[trigger] rs[j], rs[i as int]) by {
                                lemma_show_lt_order(rs[j], rs[t as int], rs[i as int]);
                            }
                        }
                        anchor = Some(i);
                    } else {
                        proof {
                            lemma_show_lt_irrefl(rs[i as int]);
                        }
                    }
                },
            }
        }
        i = i + 1;
    }
    let t = match anchor {
        None => {
            assert(!exists|t: int| is_rank_anchor(rs, k, show.id@, t));
            return None;
        },
        Some(t) => t,
    };
    proof {
        assert(is_rank_anchor(rs, k, show.id@, t as int));
        lemma_anchor_unique_rank(rs, k, show.id@, t as int);
    }
    let mut before: usize = 0;
    i = 0;
    while i < n
        invariant
            n == rs.len() == entries@.len(),
            i <= n,
            t < n,
            forall|j: int|
                0 <= j < n ==> {
                    &&& (#[trigger] entries@[j]).name@ == rs[j].name
                    &&& entries@[j].id@ == rs[j].id
                    &&& entries@[j].year == rs[j].year
                    &&& entries@[j].cousin == is_cousin(rs[j], k)
                },
            before <= i,
            before == count_before(rs, k, rs[t as int], i as int),
        decreases n - i,
    {
        if entries[i].cousin && entry_lt(&entries[i], &entries[t]) {
            before = before + 1;
        }
        i = i + 1;
    }
    proof {
        let c = choose|c: int| is_rank_anchor(rs, k, show.id@, c);
        assert(is_rank_anchor(rs, k, show.id@, c));
    }
    Some(#[verifier::truncate] ((before as u128 + 1) as u32))
}

/// `seq_lt` is irreflexive.
proof fn lemma_seq_lt_irrefl(a: Seq<char>)
    ensures
        !seq_lt(a, a),
    decreases a.len(),
{
    if a.len() > 0 {
        lemma_seq_lt_irrefl(a.drop_first());
    }
}

/// `seq_lt` is transitive.
proof fn lemma_seq_lt_trans(a: Seq<char>, b: Seq<char>, c: Seq<char>)
    requires
        seq_lt(a, b),
        seq_lt(b, c),
    ensures
        seq_lt(a, c),
    decreases a.len(),
{
    if a.len() > 0 && b.len() > 0 && c.len() > 0 && a[0] == b[0] && b[0] == c[0] {
        lemma_seq_lt_trans(a.drop_first(), b.drop_first(), c.drop_first());
    }
}

/// `seq_lt` is total on distinct sequences.
proof fn lemma_seq_lt_total(a: Seq<char>, b: Seq<char>)
    ensures
        a == b || seq_lt(a, b) || seq_lt(b, a),
    decreases a.len(),
{
    if a.len() > 0 && b.len() > 0 && a[0] == b[0] {
        lemma_seq_lt_total(a.drop_first(), b.drop_first());
        if a.drop_first() == b.drop_first() {
            assert(a =~= seq![a[0]] + a.drop_first());
            assert(b =~= seq![b[0]] + b.drop_first());
        }
    } else if a.len() == 0 && b.len() == 0 {
        assert(a =~= b);
    }
}

proof fn lemma_show_lt_irrefl(a: ShowInfo)
    ensures
        !show_lt(a, a),
{
    lemma_seq_lt_irrefl(a.name);
    lemma_seq_lt_irrefl(a.id);
}

/// If `x` is not before `t` and `i` is before `t`, then `x` is not before `i`.
proof fn lemma_show_lt_order(x: ShowInfo, t: ShowInfo, i: ShowInfo)
    requires
        !show_lt(x, t) || x == i,
        show_lt(i, t),
    ensures
        !show_lt(x, i),
{
    lemma_show_lt_irrefl(i);
    if x != i && show_lt(x, i) {
        lemma_show_lt_trans(x, i, t);
    }
}

proof fn lemma_show_lt_trans(a: ShowInfo, b: ShowInfo, c: ShowInfo)
    requires
        show_lt(a, b),
        show_lt(b, c),
    ensures
        show_lt(a, c),
{
    if a.year == b.year && b.year == c.year {
        if seq_lt(a.name, b.name) && seq_lt(b.name, c.name) {
            lemma_seq_lt_trans(a.name, b.name, c.name);
        } else if a.name == b.name && b.name == c.name {
            lemma_seq_lt_trans(a.id, b.id, c.id);
        }
    }
}

/// All rank anchors sit at the same place in the order, so the rank does not
/// depend on which one `choose` picks.
proof fn lemma_anchor_unique_rank(rs: Seq<ShowInfo>, key: Seq<char>, id: Seq<char>, t: int)
    requires
        is_rank_anchor(rs, key, id, t),
    ensures
        forall|u: int|
            is_rank_anchor(rs, key, id, u) ==> #[trigger] count_before(
                rs,
                key,
                rs[u],
                rs.len() as int,
            ) == count_before(rs, key, rs[t], rs.len() as int),
{
    assert forall|u: int| is_rank_anchor(rs, key, id, u) implies #[trigger] count_before(
        rs,
        key,
        rs[u],
        rs.len() as int,
    ) == count_before(rs, key, rs[t], rs.len() as int) by {
        assert(!show_lt(rs[u], rs[t]));
        assert(!show_lt(rs[t], rs[u]));
        lemma_same_place(rs, key, rs[t], rs[u], rs.len() as int);
    }
}

/// Two hits neither of which precedes the other have the same predecessors.
proof fn lemma_same_place(rs: Seq<ShowInfo>, key: Seq<char>, a: ShowInfo, b: ShowInfo, n: int)
    requires
        !show_lt(a, b),
        !show_lt(b, a),
    ensures
        count_before(rs, key, a, n) == count_before(rs, key, b, n),
    decreases n,
{
    lemma_show_lt_total_eq(a, b);
    if n > 0 {
        lemma_same_place(rs, key, a, b, n - 1);
    }
}

/// Hits neither of which precedes the other agree on year, name and slug.
proof fn lemma_show_lt_total_eq(a: ShowInfo, b: ShowInfo)
    requires
        !show_lt(a, b),
        !show_lt(b, a),
    ensures
        a.year == b.year,
        a.name == b.name,
        a.id == b.id,
{
    lemma_seq_lt_total(a.name, b.name);
    lemma_seq_lt_total(a.id, b.id);
}

// ---------------------------------------------------------------------------
// Season inference, file titles, stream summaries
// ---------------------------------------------------------------------------

/// The season evidence available without another search: an explicit marker
/// in the title, else the franchise rank among the given hits.
pub open spec fn local_season_spec(show: ShowInfo, rs: Seq<ShowInfo>) -> Option<u32> {
    match explicit_season_spec(show.name) {
        Some(n) => Some(n),
        None => franchise_rank_spec(show, rs),
    }
}

/// Season from the title or, failing that, from the franchise rank among the
/// search hits. `None`: no evidence in these hits.
pub fn infer_season_local(show: &ShowResult, search_results: &[ShowResult]) -> (r: Option<u32>)
    ensures
        r == local_season_spec(show@, search_results@.map_values(|s: ShowResult| s@)),
{
    match explicit_season_in_title(show.name.as_str()) {
        Some(n) => Some(n),
        None => season_by_franchise_rank(show, search_results),
    }
}

/// The title files are named after: the franchise base once the season is
/// known (the `SNN` tag already says what the subtitle did), else the title.
pub open spec fn file_title_spec(known_season: Option<u32>, name: Seq<char>) -> Seq<char> {
    match known_season {
        Some(_) => if base_title_spec(name).len() == 0 {
            name
        } else {
            base_title_spec(name)
        },
        None => name,
    }
}

/// The title to name files after.
pub fn file_title(known_season: Option<u32>, name: &str) -> (r: String)
    ensures
        r@ == file_title_spec(known_season, name@),
{
    match known_season {
        Some(_) => {
            let b = base_title(name);
            if b.as_str().is_empty() {
                String::from_str(name)
            } else {
                b
            }
        },
        None => String::from_str(name),
    }
}

/// `"1080p"`, or `"???"` when the height is unknown (0).
pub open spec fn fmt_height_spec(h: u32) -> Seq<char> {
    if h > 0 {
        decimal(h as nat) + "p"@
    } else {
        "???"@
    }
}

fn push_height(out: &mut Vec<char>, h: u32)
    ensures
        final(out)@ == old(out)@ + fmt_height_spec(h),
{
    if h > 0 {
        push_decimal(out, h as u64);
        append_str(out, "p");
    } else {
        append_str(out, "???");
    }
}

/// "1080p", or "???" when the height is unknown (0).
pub fn fmt_height(h: u32) -> (r: String)
    ensures
        r@ == fmt_height_spec(h),
{
    let mut out: Vec<char> = Vec::new();
    push_height(&mut out, h);
    assert(out@ =~= fmt_height_spec(h));
    string_of(&out)
}

/// `provider (height)` for one stream.
pub open spec fn stream_label(s: StreamInfo) -> Seq<char> {
    s.provider + " ("@ + fmt_height_spec(s.height) + ")"@
}

/// The labels of the streams joined with `", "`.
pub open spec fn join_labels(ss: Seq<StreamInfo>) -> Seq<char>
    decreases ss.len(),
{
    if ss.len() == 0 {
        Seq::empty()
    } else if ss.len() == 1 {
        stream_label(ss[0])
    } else {
        join_labels(ss.drop_last()) + ", "@ + stream_label(ss.last())
    }
}

/// One entry per resolved stream, or `(none)`.
pub open spec fn summarize_spec(ss: Seq<StreamInfo>) -> Seq<char> {
    if ss.len() == 0 {
        "(none)"@
    } else {
        join_labels(ss)
    }
}

/// "yt (1080p), hls (720p), mp4upload (???)" — one entry per resolved stream.
pub fn summarize_streams(streams: &[Stream]) -> (r: String)
    ensures
        r@ == summarize_spec(streams_view(streams@)),
{
    if streams.len() == 0 {
        return String::from_str("(none)");
    }
    let ghost ss = streams_view(streams@);
    let mut out: Vec<char> = Vec::new();
    let mut i: usize = 0;
    while i < streams.len()
        invariant
            i <= streams@.len(),
            ss == streams_view(streams@),
            out@ == join_labels(ss.take(i as int)),
        decreases streams.len() - i,
    {
        let ghost before = out@;
        let s = &streams[i];
        assert(ss[i as int] == s@);
        if i > 0 {
            append_str(&mut out, ", ");
        }
        append_str(&mut out, s.provider.as_str());
        append_str(&mut out, " (");
        push_height(&mut out, s.height);
        append_str(&mut out, ")");
        proof {
            let t = ss.take(i + 1);
            assert(t.drop_last() =~= ss.take(i as int));
            assert(t.last() == s@);
            if i == 0 {
                assert(ss.take(0) =~= Seq::<StreamInfo>::empty());
                assert(out@ =~= stream_label(s@));
            } else {
                assert(out@ =~= before + ", "@ + stream_label(s@));
            }
        }
        i = i + 1;
    }
    assert(ss.take(streams@.len() as int) =~= ss);
    string_of(&out)
}

/// How the show is picked.
#[derive(Clone, Copy, PartialEq, Eq, Structural, Debug)]
pub enum ShowPick {
    /// `--number` chose this index.
    Chosen(usize),
    /// `--number` is outside `1..=count`.
    OutOfRange,
    /// `--no-tui` without `--number`: list the hits and stop.
    ListOnly,
    /// Ask in the TUI.
    Interactive,
}

/// How the show is picked, from `--number`, `--no-tui` and the hit count.
pub open spec fn pick_show_spec(number: Option<usize>, no_tui: bool, count: usize) -> ShowPick {
    match number {
        Some(n) => if 1 <= n <= count {
            ShowPick::Chosen((n - 1) as usize)
        } else {
            ShowPick::OutOfRange
        },
        None => if no_tui {
            ShowPick::ListOnly
        } else {
            ShowPick::Interactive
        },
    }
}

/// Decide how the show is picked.
pub fn pick_show_choice(number: Option<usize>, no_tui: bool, count: usize) -> (r: ShowPick)
    ensures
        r == pick_show_spec(number, no_tui, count),
{
    match number {
        Some(n) => if n >= 1 && n <= count {
            ShowPick::Chosen(n - 1)
        } else {
            ShowPick::OutOfRange
        },
        None => if no_tui {
            ShowPick::ListOnly
        } else {
            ShowPick::Interactive
        },
    }
}

// ---------------------------------------------------------------------------
// Episode arguments
// ---------------------------------------------------------------------------

/// Separators between episode tokens: `,` and whitespace.
pub open spec fn is_arg_sep(c: char) -> bool {
    c == ',' || is_space(c)
}

/// The first separator at or after `i` (or the length).
pub open spec fn next_sep(s: Seq<char>, i: int) -> int
    decreases s.len() - i,
{
    if i < 0 || i >= s.len() {
        if i < 0 {
            0
        } else {
            i
        }
    } else if is_arg_sep(s[i]) {
        i
    } else {
        next_sep(s, i + 1)
    }
}

proof fn lemma_next_sep(s: Seq<char>, i: int)
    requires
        0 <= i <= s.len(),
    ensures
        i <= next_sep(s, i) <= s.len(),
        next_sep(s, i) < s.len() ==> is_arg_sep(s[next_sep(s, i)]),
    decreases s.len() - i,
{
    if i < s.len() && !is_arg_sep(s[i]) {
        lemma_next_sep(s, i + 1);
    }
}

#[via_fn]
proof fn tokens_from_decreases(s: Seq<char>, pos: int) {
    if 0 <= pos <= s.len() {
        lemma_next_sep(s, pos);
    }
}

/// The non-empty trimmed pieces of `s[pos..]` between separators.
pub open spec fn tokens_from(s: Seq<char>, pos: int) -> Seq<Seq<char>>
    decreases s.len() - pos via tokens_from_decreases
{
    if pos < 0 || pos > s.len() {
        Seq::empty()
    } else {
        let k = next_sep(s, pos);
        let t = trim(s.subrange(pos, k));
        let head = if t.len() > 0 {
            seq![t]
        } else {
            Seq::empty()
        };
        if k >= s.len() {
            head
        } else {
            head + tokens_from(s, k + 1)
        }
    }
}

/// The tokens of an episode argument such as `"1 2,5"` or `"1-12"`.
pub open spec fn episode_tokens_spec(arg: Seq<char>) -> Seq<Seq<char>> {
    tokens_from(arg, 0)
}

/// The views of a list of strings.
pub open spec fn strings_view(v: Seq<String>) -> Seq<Seq<char>> {
    v.map_values(|s: String| s@)
}

fn is_arg_sep_exec(c: char) -> (b: bool)
    ensures
        b == is_arg_sep(c),
{
    c == ',' || is_space_exec(c)
}

/// Split an episode argument at commas and whitespace into its tokens.
pub fn episode_tokens(arg: &str) -> (r: Vec<String>)
    ensures
        strings_view(r@) == episode_tokens_spec(arg@),
{
    let s = chars_of(arg);
    let mut out: Vec<String> = Vec::new();
    let mut pos: usize = 0;
    loop
        invariant
            pos <= s.len(),
            s@ == arg@,
            episode_tokens_spec(arg@) == strings_view(out@) + tokens_from(s@, pos as int),
        decreases s.len() - pos,
    {
        let mut k = pos;
        while k < s.len() && !is_arg_sep_exec(s[k])
            invariant
                pos <= k <= s.len(),
                next_sep(s@, pos as int) == next_sep(s@, k as int),
            decreases s.len() - k,
        {
            k = k + 1;
        }
        let piece = slice_vec(&s, pos, k);
        let t = trim_exec(&piece);
        let ghost before = strings_view(out@);
        if t.len() > 0 {
            out.push(string_of(&t));
            assert(strings_view(out@) =~= before + seq![t@]);
        } else {
            assert(strings_view(out@) =~= before + Seq::<Seq<char>>::empty());
        }
        if k >= s.len() {
            assert(strings_view(out@) + Seq::<Seq<char>>::empty() =~= strings_view(out@));
            assert(tokens_from(s@, k as int + 1) =~= Seq::<Seq<char>>::empty());
            return out;
        }
        pos = k + 1;
    }
}

/// The two bounds of a range token: split at the first `-` after the first
/// character, so a leading `-1` stays a bound of its own.
pub open spec fn split_range_spec(token: Seq<char>) -> Option<(Seq<char>, Seq<char>)> {
    if token.len() == 0 {
        None
    } else {
        match find_from(token, "-"@, 1) {
            Some(k) => Some((token.subrange(0, k), token.subrange(k + 1, token.len() as int))),
            None => None,
        }
    }
}

/// Split "1-12" / "12--1" into its two bounds. The separator is the first `-`
/// after the first character, so a leading "-1" stays intact as a bound.
pub fn split_range(token: &str) -> (r: Option<(String, String)>)
    ensures
        match r {
            Some((a, b)) => split_range_spec(token@) == Some((a@, b@)),
            None => split_range_spec(token@) is None,
        },
{
    let s = chars_of(token);
    if s.len() == 0 {
        return None;
    }
    let dash = chars_of("-");
    proof {
        reveal_strlit("-");
    }
    match find_exec(&s, &dash, 1) {
        Some(k) => {
            proof {
                lemma_find_from(s@, dash@, 1);
            }
            assert(k + 1 <= s.len());
            Some((string_of(&slice_vec(&s, 0, k)), string_of(&slice_vec(&s, k + 1, s.len()))))
        },
        None => None,
    }
}

/// `eps` holds `ep`.
pub open spec fn seq_has(eps: Seq<Seq<char>>, ep: Seq<char>) -> bool {
    exists|i: int| 0 <= i < eps.len() && eps[i] == ep
}

/// The picked episodes that are available, first occurrence only, in pick
/// order.
pub open spec fn chosen_episodes(picked: Seq<Seq<char>>, avail: Seq<Seq<char>>) -> Seq<Seq<char>>
    decreases picked.len(),
{
    if picked.len() == 0 {
        Seq::empty()
    } else {
        let prev = chosen_episodes(picked.drop_last(), avail);
        let ep = picked.last();
        if seq_has(avail, ep) && !seq_has(prev, ep) {
            prev.push(ep)
        } else {
            prev
        }
    }
}

/// Where `e` is first picked in `p` (the length of `p` when it never is).
pub open spec fn first_index(p: Seq<Seq<char>>, e: Seq<char>) -> int
    decreases p.len(),
{
    if p.len() == 0 {
        0
    } else if seq_has(p.drop_last(), e) {
        first_index(p.drop_last(), e)
    } else if p.last() == e {
        p.len() - 1
    } else {
        p.len() as int
    }
}

/// `chosen` is a faithful pick: every chosen episode is available and was
/// picked, none is chosen twice, every available pick is chosen, and they
/// come in the order in which they were first picked.
pub open spec fn picks_in_order(
    chosen: Seq<Seq<char>>,
    picked: Seq<Seq<char>>,
    avail: Seq<Seq<char>>,
) -> bool {
    &&& forall|i: int|
        0 <= i < chosen.len() ==> seq_has(avail, #[trigger] chosen[i]) && seq_has(picked, chosen[i])
    &&& forall|i: int, j: int| 0 <= i < j < chosen.len() ==> #[trigger] chosen[i] != #[trigger] chosen[j]
    &&& forall|k: int|
        0 <= k < picked.len() && seq_has(avail, #[trigger] picked[k]) ==> seq_has(chosen, picked[k])
    &&& forall|i: int, j: int|
        0 <= i < j < chosen.len() ==> first_index(picked, #[trigger] chosen[i]) < first_index(
            picked,
            #[trigger] chosen[j],
        )
}

/// The picked episodes that are not available, in pick order.
pub open spec fn unavailable_episodes(picked: Seq<Seq<char>>, avail: Seq<Seq<char>>) -> Seq<
    Seq<char>,
>
    decreases picked.len(),
{
    if picked.len() == 0 {
        Seq::empty()
    } else {
        let prev = unavailable_episodes(picked.drop_last(), avail);
        if seq_has(avail, picked.last()) {
            prev
        } else {
            prev.push(picked.last())
        }
    }
}

/// The outcome of checking picked episodes against the available ones.
pub struct EpisodePicks {
    /// Available picks, deduplicated, in pick order.
    pub chosen: Vec<String>,
    /// Picks that are not available (each is reported and skipped).
    pub unavailable: Vec<String>,
}

fn has_chars(list: &Vec<Vec<char>>, x: &Vec<char>) -> (b: bool)
    ensures
        b == seq_has(list@.map_values(|v: Vec<char>| v@), x@),
{
    let ghost l = list@.map_values(|v: Vec<char>| v@);
    let mut i: usize = 0;
    while i < list.len()
        invariant
            i <= list@.len(),
            l == list@.map_values(|v: Vec<char>| v@),
            forall|t: int| 0 <= t < i ==> l[t] != x@,
        decreases list.len() - i,
    {
        if chars_eq(&list[i], x) {
            assert(l[i as int] == x@);
            return true;
        }
        i = i + 1;
    }
    false
}

/// Keep the picked episodes that are available (once each, in pick order) and
/// report the others.
pub fn filter_available(picked: &Vec<String>, available: &[String]) -> (r: EpisodePicks)
    ensures
        strings_view(r.chosen@) == chosen_episodes(strings_view(picked@), strings_view(available@)),
        strings_view(r.unavailable@) == unavailable_episodes(
            strings_view(picked@),
            strings_view(available@),
        ),
        picks_in_order(strings_view(r.chosen@), strings_view(picked@), strings_view(available@)),
{
    let ghost pk = strings_view(picked@);
    let ghost av = strings_view(available@);
    let mut avail: Vec<Vec<char>> = Vec::new();
    let mut j: usize = 0;
    while j < available.len()
        invariant
            j <= available@.len(),
            av == strings_view(available@),
            avail@.len() == j,
            forall|t: int| 0 <= t < j ==> (#[trigger] avail@[t])@ == av[t],
        decreases available.len() - j,
    {
        avail.push(chars_of(available[j].as_str()));
        j = j + 1;
    }
    assert(avail@.map_values(|v: Vec<char>| v@) =~= av);
    let mut chosen: Vec<String> = Vec::new();
    let mut chosen_chars: Vec<Vec<char>> = Vec::new();
    let mut unavailable: Vec<String> = Vec::new();
    let mut i: usize = 0;
    while i < picked.len()
        invariant
            i <= picked@.len(),
            pk == strings_view(picked@),
            avail@.map_values(|v: Vec<char>| v@) == av,
            strings_view(chosen@) == chosen_episodes(pk.take(i as int), av),
            chosen_chars@.map_values(|v: Vec<char>| v@) == strings_view(chosen@),
            strings_view(unavailable@) == unavailable_episodes(pk.take(i as int), av),
        decreases picked.len() - i,
    {
        let ep = chars_of(picked[i].as_str());
        let ghost t = pk.take(i + 1);
        assert(t.drop_last() =~= pk.take(i as int));
        assert(t.last() == ep@);
        let ghost c0 = strings_view(chosen@);
        let ghost u0 = strings_view(unavailable@);
        if has_chars(&avail, &ep) {
            if !has_chars(&chosen_chars, &ep) {
                chosen.push(string_of(&ep));
                chosen_chars.push(ep);
                assert(strings_view(chosen@) =~= c0.push(t.last()));
                assert(chosen_chars@.map_values(|v: Vec<char>| v@) =~= strings_view(chosen@));
            }
        } else {
            unavailable.push(string_of(&ep));
            assert(strings_view(unavailable@) =~= u0.push(t.last()));
        }
        i = i + 1;
    }
    assert(pk.take(picked@.len() as int) =~= pk);
    proof {
        crate::laws::law_chosen_episodes(pk, av);
    }
    EpisodePicks { chosen, unavailable }
}

} // verus!
