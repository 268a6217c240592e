//! The regular-expression boundary.
//!
//! The regex crate does the matching; each call is named by a spec function
//! of the pattern and subject text alone, so the operators' contracts can
//! speak of the results exactly.  Patterns are validated once at compile
//! time and carried as their source text.

use vstd::prelude::*;

verus! {

/// Whether the regex crate accepts a pattern; a function of its text alone.
pub uninterp spec fn re_valid(pat: Seq<char>) -> bool;

/// What `Regex::is_match` returns for a pattern and a subject text.
pub uninterp spec fn re_match(pat: Seq<char>, text: Seq<char>) -> bool;

/// What `Regex::replace_all` returns for a pattern, a subject text, and a
/// replacement (capture-group references included).
pub uninterp spec fn re_replace_of(pat: Seq<char>, text: Seq<char>, repl: Seq<char>) -> Seq<char>;

/// What collecting `Regex::find_iter` yields for a pattern and a subject
/// text: every non-overlapping match, in order.
pub uninterp spec fn re_find_all_of(pat: Seq<char>, text: Seq<char>) -> Seq<Seq<char>>;

/// What the regex crate's error for a rejected pattern displays as.
pub uninterp spec fn re_error_of(pat: Seq<char>) -> Seq<char>;

/// Relies on regex::Regex::new: whether the pattern compiles, and the
/// error's text when it does not; both functions of the pattern alone.
#[verifier::external_body]
pub fn regex_compile_error(pat: &str) -> (r: Option<String>)
    ensures
        r is None <==> re_valid(pat@),
        match r {
            Some(m) => m@ == re_error_of(pat@),
            None => true,
        },
{
    match regex::Regex::new(pat) {
        Ok(_) => None,
        Err(e) => Some(e.to_string()),
    }
}

/// Relies on regex::Regex::is_match: whether the pattern matches anywhere
/// in the text; a function of pattern and text alone.
#[verifier::external_body]
pub fn regex_is_match(pat: &str, text: &str) -> (r: bool)
    requires
        re_valid(pat@),
    ensures
        r == re_match(pat@, text@),
{
    regex::Regex::new(pat).unwrap().is_match(text)
}

/// Relies on regex::Regex::replace_all: the text with every non-overlapping
/// match replaced, capture-group references honoured; a function of
/// pattern, text and replacement alone.
#[verifier::external_body]
pub fn regex_replace_all(pat: &str, text: &str, repl: &str) -> (r: String)
    requires
        re_valid(pat@),
    ensures
        r@ == re_replace_of(pat@, text@, repl@),
{
    regex::Regex::new(pat).unwrap().replace_all(text, repl).into_owned()
}

/// Relies on regex::Regex::find_iter: every non-overlapping match in the
/// text, in order; a function of pattern and text alone.
#[verifier::external_body]
pub fn regex_find_all(pat: &str, text: &str) -> (r: Vec<String>)
    requires
        re_valid(pat@),
    ensures
        r@.map_values(|m: String| m@) == re_find_all_of(pat@, text@),
{
    regex::Regex::new(pat).unwrap().find_iter(text).map(|m| m.as_str().to_string()).collect()
}

} // verus!
