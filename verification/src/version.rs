//! The version strings printed by `-V` and `--version`.
use vstd::prelude::*;
use crate::text::{append_str, chars_of, string_of};

verus! {

/// The ani-cli release whose scraping this build mirrors.
pub open spec fn ani_cli_parity() -> Seq<char> {
    "5.0.4"@
}

/// The ani-cli release this build mirrors, as text.
pub fn parity() -> (r: String)
    ensures
        r@ == ani_cli_parity(),
{
    String::from_str("5.0.4")
}

/// `-V`: the version, followed by the commit in parentheses when it is known.
pub open spec fn short_spec(version: Seq<char>, sha: Seq<char>) -> Seq<char> {
    if sha == "unknown"@ {
        version
    } else {
        version + " ("@ + sha + ")"@
    }
}

/// The short version line.
pub fn short(version: &str, sha: &str) -> (r: String)
    ensures
        r@ == short_spec(version@, sha@),
{
    let s = chars_of(sha);
    if crate::text::chars_eq(&s, &chars_of("unknown")) {
        return String::from_str(version);
    }
    let mut out = chars_of(version);
    append_str(&mut out, " (");
    crate::text::append_chars(&mut out, &s);
    append_str(&mut out, ")");
    proof {
        reveal_strlit(" (");
        reveal_strlit(")");
    }
    assert(out@ =~= short_spec(version@, sha@));
    string_of(&out)
}

/// `--version`: version, commit, target, ani-cli parity and provider, one per
/// line (the program name is put in front by the argument parser).
pub open spec fn long_spec(version: Seq<char>, sha: Seq<char>, target: Seq<char>) -> Seq<char> {
    version + "\ncommit:         "@ + sha + "\ntarget:         "@ + target + "\nani-cli parity: "@
        + ani_cli_parity() + "\nprovider:       "@ + "https://anidb.app"@
}

/// The long version text.
pub fn long(version: &str, sha: &str, target: &str) -> (r: String)
    ensures
        r@ == long_spec(version@, sha@, target@),
{
    let mut out = chars_of(version);
    append_str(&mut out, "\ncommit:         ");
    append_str(&mut out, sha);
    append_str(&mut out, "\ntarget:         ");
    append_str(&mut out, target);
    append_str(&mut out, "\nani-cli parity: ");
    append_str(&mut out, "5.0.4");
    append_str(&mut out, "\nprovider:       ");
    append_str(&mut out, "https://anidb.app");
    assert(out@ =~= long_spec(version@, sha@, target@));
    string_of(&out)
}

} // verus!
