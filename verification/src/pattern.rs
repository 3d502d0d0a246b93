//! Compiled filename patterns.
//!
//! The matching itself is done by the `regex` crate. The library keeps each
//! compiled expression together with the source text it was compiled from,
//! and every contract speaks only of that source text, through the two named
//! result functions below.

use vstd::prelude::*;

verus! {

#[verifier::external_type_specification]
#[verifier::external_body]
pub struct ExRegex(regex::Regex);

/// Whether `pattern` is a valid regular expression, that is, whether
/// compiling it succeeds. The result is a function of the pattern text alone.
pub uninterp spec fn pattern_compiles(pattern: Seq<char>) -> bool;

/// Whether the regular expression compiled from `pattern` matches anywhere in
/// `text`. The result is a function of the two strings alone.
pub uninterp spec fn pattern_matches(pattern: Seq<char>, text: Seq<char>) -> bool;

/// The text of the first capture group of the first match of the regular
/// expression compiled from `pattern` in `text`: nothing when the pattern
/// does not match `text` or has no such group. The result is a function of
/// the two strings alone.
pub uninterp spec fn pattern_capture(pattern: Seq<char>, text: Seq<char>) -> Option<Seq<char>>;

/// A compiled pattern, kept together with its source text; contracts speak of
/// the source text only.
pub struct Pattern {
    source: String,
    regex: regex::Regex,
}

impl Pattern {
    /// The text this pattern was compiled from.
    pub closed spec fn spec_source(&self) -> Seq<char> {
        self.source@
    }

    /// Relies on `regex::Regex::new`: compiling succeeds or fails as a
    /// function of the pattern text alone, and the stored expression is the
    /// one compiled from the stored source text.
    #[verifier::external_body]
    pub fn compile(source: &str) -> (r: Option<Pattern>)
        ensures
            r is Some <==> pattern_compiles(source@),
            r matches Some(p) ==> p.spec_source() == source@,
    {
        match regex::Regex::new(source) {
            Ok(regex) => Some(Pattern { source: source.to_owned(), regex }),
            Err(_) => None,
        }
    }

    /// Relies on `regex::Regex::is_match`: true if and only if the expression
    /// matches somewhere in `text`.
    #[verifier::external_body]
    pub fn is_match(&self, text: &str) -> (r: bool)
        ensures
            r == pattern_matches(self.spec_source(), text@),
    {
        self.regex.is_match(text)
    }

    /// Relies on `regex::Regex::captures` and `regex::Captures::get`: the
    /// text of capture group 1 of the first match, where there is one.
    #[verifier::external_body]
    pub fn capture_first(&self, text: &str) -> (r: Option<String>)
        ensures
            match r {
                Some(s) => pattern_capture(self.spec_source(), text@) == Some(s@),
                None => pattern_capture(self.spec_source(), text@) is None,
            },
    {
        self.regex.captures(text).and_then(|c| c.get(1)).map(|m| m.as_str().to_owned())
    }
}

} // verus!
