//! Deny patterns: regular expressions, compiled and matched by the `regex`
//! crate.
use vstd::prelude::*;

verus! {

/// `regex::Regex`, carried opaquely.
#[verifier::external_type_specification]
#[verifier::external_body]
pub struct ExRegex(regex::Regex);

/// `regex::Regex::new`: whether `pattern` compiles (it is valid syntax and
/// within the default size limit).
pub uninterp spec fn regex_compiles(pattern: Seq<char>) -> bool;

/// `regex::Regex::is_match`: whether the regex compiled from `pattern` matches
/// somewhere in `text`.
pub uninterp spec fn regex_finds(pattern: Seq<char>, text: Seq<char>) -> bool;

/// A compiled regular expression together with the pattern it was compiled
/// from. Only `compile` builds one, so `regex` is always the compilation of
/// `source`.
pub struct CompiledPattern {
    source: String,
    regex: regex::Regex,
}

impl CompiledPattern {
    /// The pattern this regex was compiled from.
    pub closed spec fn source(self) -> Seq<char> {
        self.source@
    }
}

/// `regex::Regex::new`: compiles `pattern`; `None` where the crate returns an
/// error. Claimed: it succeeds exactly when `regex_compiles` holds of the
/// pattern, and the result is kept with its pattern.
#[verifier::external_body]
fn compile(pattern: &str) -> (r: Option<CompiledPattern>)
    ensures
        r is Some <==> regex_compiles(pattern@),
        r matches Some(c) ==> c.source() == pattern@,
{
    match regex::Regex::new(pattern) {
        Ok(regex) => Some(CompiledPattern { source: pattern.to_owned(), regex }),
        Err(_) => None,
    }
}

/// `regex::Regex::is_match`: whether the compiled pattern matches somewhere in
/// `text`. Claimed: the answer is `regex_finds` of the pattern and the text.
#[verifier::external_body]
fn is_match(c: &CompiledPattern, text: &str) -> (b: bool)
    ensures
        b == regex_finds(c.source(), text@),
{
    c.regex.is_match(text)
}

/// A deny pattern blocks a text when it compiles and matches somewhere in it;
/// a pattern that does not compile blocks nothing.
pub open spec fn pattern_denies(pattern: Seq<char>, text: Seq<char>) -> bool {
    regex_compiles(pattern) && regex_finds(pattern, text)
}

/// Whether `pattern` compiles and matches somewhere in `text`.
pub fn denies(pattern: &str, text: &str) -> (r: bool)
    ensures
        r == pattern_denies(pattern@, text@),
{
    match compile(pattern) {
        Some(c) => is_match(&c, text),
        None => false,
    }
}

} // verus!
