//! Output file names: `{Dotted.Title}.S{NN}E{NN}`.
use vstd::prelude::*;
use crate::providers::opt_string;
use crate::text::{append_str, chars_of, decimal2, push_decimal2, string_of, trim, trim_exec};

verus! {

/// What `regex::Regex::new(pattern)` and then `replace_all(text, rep)` give;
/// `None` when the pattern does not compile.
pub uninterp spec fn regex_replace_all(pattern: Seq<char>, text: Seq<char>, rep: Seq<char>) -> Option<
    Seq<char>,
>;

/// Replaces every match of a regular expression (`regex` crate).
#[verifier::external_body]
fn regex_replace(pattern: &str, text: &str, rep: &str) -> (r: Option<String>)
    ensures
        opt_string(r) == regex_replace_all(pattern@, text@, rep@),
{
    Some(regex::Regex::new(pattern).ok()?.replace_all(text, rep).into_owned())
}

/// The characters a file name may not keep: anything but word characters,
/// whitespace and `-` (matched by the regex `[^\w\s-]`).
pub open spec fn unsafe_chars_pattern() -> Seq<char> {
    "[^\\w\\s-]"@
}

/// Runs of whitespace and `_`, which become one dot each (the regex
/// `[\s_]+`).
pub open spec fn gaps_pattern() -> Seq<char> {
    "[\\s_]+"@
}

/// Every run of whitespace and `_` in `s` replaced by one `.`, as the regex
/// engine does it.
pub open spec fn dot_gaps(s: Seq<char>) -> Seq<char> {
    match regex_replace_all(gaps_pattern(), s, "."@) {
        Some(d) => d,
        None => s,
    }
}

/// `s` without leading and trailing dots.
pub open spec fn trim_dots(s: Seq<char>) -> Seq<char>
    decreases s.len(),
{
    if s.len() > 0 && s[0] == '.' {
        trim_dots(s.drop_first())
    } else if s.len() > 0 && s.last() == '.' {
        trim_dots(s.drop_last())
    } else {
        s
    }
}

/// The dotted title of a cleaned name: trimmed, gaps turned into dots, dots
/// trimmed, and `anime` when nothing is left.
pub open spec fn dotted_title(cleaned: Seq<char>) -> Seq<char> {
    let d = trim_dots(dot_gaps(trim(cleaned)));
    if d.len() == 0 {
        "anime"@
    } else {
        d
    }
}

/// The file name (without extension) built from a name whose unsafe
/// characters are already removed. `number` is the episode as a whole number
/// when it reads as one (`"1"`, `"01"`, `"1.0"`); it is then padded to two
/// digits, else the episode is used as written.
pub open spec fn cleaned_filename_spec(cleaned: Seq<char>, season: u32, episode: Seq<char>, number: Option<u64>) -> Seq<
    char,
> {
    dotted_title(cleaned) + ".S"@ + decimal2(season as nat) + "E"@ + match number {
        Some(n) => decimal2(n as nat),
        None => episode,
    }
}

/// The file name (without extension) for an episode of a season.
pub open spec fn filename_spec(name: Seq<char>, season: u32, episode: Seq<char>, number: Option<u64>) -> Seq<
    char,
> {
    let cleaned = match regex_replace_all(unsafe_chars_pattern(), name, Seq::empty()) {
        Some(c) => c,
        None => name,
    };
    cleaned_filename_spec(cleaned, season, episode, number)
}

fn dot_gaps_exec(s: &Vec<char>) -> (r: Vec<char>)
    ensures
        r@ == dot_gaps(s@),
{
    let text = string_of(s);
    match regex_replace("[\\s_]+", text.as_str(), ".") {
        Some(d) => chars_of(d.as_str()),
        None => chars_of(text.as_str()),
    }
}

fn trim_dots_exec(s: &Vec<char>) -> (r: Vec<char>)
    ensures
        r@ == trim_dots(s@),
{
    let mut a: usize = 0;
    let mut b: usize = s.len();
    assert(s@.subrange(0, s@.len() as int) =~= s@);
    while a < b && s[a] == '.'
        invariant
            a <= b <= s.len(),
            b == s.len(),
            trim_dots(s@) == trim_dots(s@.subrange(a as int, b as int)),
        decreases b - a,
    {
        let ghost t = s@.subrange(a as int, b as int);
        assert(t.drop_first() =~= s@.subrange(a + 1, b as int));
        a = a + 1;
    }
    while a < b && s[b - 1] == '.'
        invariant
            a <= b <= s.len(),
            trim_dots(s@) == trim_dots(s@.subrange(a as int, b as int)),
            a < b ==> s@[a as int] != '.',
        decreases b - a,
    {
        let ghost t = s@.subrange(a as int, b as int);
        assert(t.drop_last() =~= s@.subrange(a as int, b - 1));
        assert(t[0] != '.');
        b = b - 1;
    }
    proof {
        let t = s@.subrange(a as int, b as int);
        if t.len() > 0 {
            assert(t[0] != '.' && t.last() != '.');
        }
    }
    crate::text::slice_vec(s, a, b)
}

/// `{Dotted.Title}.S{NN}E{NN}` from a name already stripped of unsafe
/// characters.
pub fn cleaned_filename(cleaned: &str, season: u32, episode: &str, number: Option<u64>) -> (r: String)
    ensures
        r@ == cleaned_filename_spec(cleaned@, season, episode@, number),
{
    let t = trim_exec(&chars_of(cleaned));
    let d = trim_dots_exec(&dot_gaps_exec(&t));
    let mut out = if d.len() == 0 {
        chars_of("anime")
    } else {
        d
    };
    append_str(&mut out, ".S");
    push_decimal2(&mut out, season as u64);
    out.push('E');
    match number {
        Some(n) => push_decimal2(&mut out, n),
        None => append_str(&mut out, episode),
    }
    proof {
        reveal_strlit(".S");
        reveal_strlit("E");
    }
    assert(out@ =~= cleaned_filename_spec(cleaned@, season, episode@, number));
    string_of(&out)
}

/// `{Dotted.Title}.S{NN}E{NN}` for an episode, `number` being the episode as
/// a whole number when it reads as one.
pub fn build_filename(name: &str, season: u32, episode: &str, number: Option<u64>) -> (r: String)
    ensures
        r@ == filename_spec(name@, season, episode@, number),
{
    let cleaned = match regex_replace("[^\\w\\s-]", name, "") {
        Some(c) => c,
        None => String::from_str(name),
    };
    proof {
        reveal_strlit("");
    }
    assert(""@ =~= Seq::<char>::empty());
    cleaned_filename(cleaned.as_str(), season, episode, number)
}

} // verus!
