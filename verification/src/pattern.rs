//! Searching a text for a plain word with the `regex` crate.
use vstd::prelude::*;
use crate::text::contains_sub;

verus! {

#[verifier::external_type_specification]
#[verifier::external_body]
pub struct ExRegex(regex::Regex);

/// A pattern made of ASCII letters and digits only, short enough that the
/// regex compiler never reaches its size limit: as a regular expression it
/// matches exactly its own text.
pub open spec fn is_plain_word(pattern: Seq<char>) -> bool {
    &&& pattern.len() <= 256
    &&& forall|i: int| 0 <= i < pattern.len() ==> {
        let c = #[trigger] pattern[i];
        ('a' <= c <= 'z') || ('A' <= c <= 'Z') || ('0' <= c <= '9')
    }
}

/// A compiled regular expression together with the text it was compiled
/// from. The fields are private and [`WordPattern::new`] is the only way to
/// build one, so `regex` is always the compilation of `source`.
pub(crate) struct WordPattern {
    regex: regex::Regex,
    source: String,
}

impl WordPattern {
    /// The text the pattern was compiled from.
    pub(crate) closed spec fn source(&self) -> Seq<char> {
        self.source@
    }

    /// Compiles `pattern` with `regex::Regex::new`. The crate's syntax
    /// accepts every plain word, so the call succeeds for every input that
    /// `requires` admits; the pattern keeps the text it came from.
    #[verifier::external_body]
    pub(crate) fn new(pattern: &str) -> (r: WordPattern)
        requires
            is_plain_word(pattern@),
        ensures
            r.source() == pattern@,
    {
        WordPattern { regex: regex::Regex::new(pattern).unwrap(), source: pattern.to_string() }
    }

    /// `regex::Regex::is_match`: whether the expression matches anywhere in
    /// `text`. For a plain word (letters and digits stand for themselves,
    /// matching is case-sensitive and unanchored) that is whether the word
    /// occurs in `text`.
    #[verifier::external_body]
    pub(crate) fn is_match(&self, text: &str) -> (r: bool)
        requires
            is_plain_word(self.source()),
        ensures
            r == contains_sub(text@, self.source()),
    {
        self.regex.is_match(text)
    }
}

} // verus!
