//! The two regular expressions of the library, matched by the `regex` crate.
use vstd::prelude::*;
use crate::text::opt_view;

verus! {

/// A character that an alias name may hold: an ASCII letter or digit, `_` or `-`.
pub open spec fn is_alias_char(c: char) -> bool {
    ||| ('a' <= c && c <= 'z')
    ||| ('A' <= c && c <= 'Z')
    ||| ('0' <= c && c <= '9')
    ||| c == '_'
    ||| c == '-'
}

/// A name that matches `^[a-zA-Z0-9_-]+$`: non-empty, alias characters only.
pub open spec fn is_alias_name(s: Seq<char>) -> bool {
    s.len() > 0 && forall|i: int| 0 <= i < s.len() ==> is_alias_char(#[trigger] s[i])
}

/// The pattern that alias names must match.
pub open spec fn alias_name_pattern() -> Seq<char> {
    "^[a-zA-Z0-9_-]+$"@
}

/// The pattern that finds a `major.minor.patch` version in `git --version`.
pub open spec fn version_pattern() -> Seq<char> {
    "(\\d+)\\.(\\d+)\\.(\\d+)"@
}

/// Whether `regex::Regex::new(pattern)` compiles (`Some`) and, if it does,
/// whether `is_match(haystack)` finds a match in `haystack`.
pub uninterp spec fn regex_finds(pattern: Seq<char>, haystack: Seq<char>) -> Option<bool>;

/// The text of capture group `group` in the first match (`Regex::captures`)
/// of `pattern` in `haystack`, when the pattern compiles, matches, and the
/// group took part in the match.
pub uninterp spec fn regex_group(pattern: Seq<char>, haystack: Seq<char>, group: int) -> Option<
    Seq<char>,
>;

/// Calls `regex::Regex::new(pattern)` and then `Regex::is_match(haystack)`.
/// The contract names the result, and states it for the alias-name pattern:
/// `^` and `$` anchor at the ends of the haystack, the class is ASCII
/// letters, digits, `_` and `-`, and `+` asks for one or more.
#[verifier::external_body]
pub(crate) fn regex_is_match(pattern: &str, haystack: &str) -> (res: Option<bool>)
    ensures
        res == regex_finds(pattern@, haystack@),
        pattern@ == alias_name_pattern() ==> res == Some(is_alias_name(haystack@)),
{
    match regex::Regex::new(pattern) {
        Ok(re) => Some(re.is_match(haystack)),
        Err(_) => None,
    }
}

/// Calls `regex::Regex::new(pattern)`, then `Regex::captures(haystack)` and
/// `Captures::get(group)`, and copies the text of the group. Nothing is
/// stated of which text that is (it depends on the Unicode `\d` class);
/// the contract names it.
#[verifier::external_body]
pub(crate) fn regex_capture(pattern: &str, haystack: &str, group: usize) -> (res: Option<String>)
    ensures
        opt_view(res) == regex_group(pattern@, haystack@, group as int),
{
    match regex::Regex::new(pattern) {
        Ok(re) => match re.captures(haystack) {
            Some(caps) => match caps.get(group) {
                Some(m) => Some(m.as_str().to_string()),
                None => None,
            },
            None => None,
        },
        Err(_) => None,
    }
}

} // verus!
