//! Regular expressions over UTF-8 bytes, from the `regex` crate.
use vstd::prelude::*;

verus! {

#[verifier::external_type_specification]
#[verifier::external_body]
pub struct ExRegex(regex::bytes::Regex);

/// Whether `pattern` is a regular expression that the `regex` crate accepts.
pub uninterp spec fn regex_compiles(pattern: Seq<char>) -> bool;

/// The number of non-overlapping matches of `pattern` in `text`.
pub uninterp spec fn regex_match_count(pattern: Seq<char>, text: Seq<u8>) -> nat;

/// `text` with every non-overlapping match of `pattern` replaced by
/// `replacement`, in which `$name` and `${name}` stand for capture groups.
pub uninterp spec fn regex_replace_all(pattern: Seq<char>, replacement: Seq<u8>, text: Seq<u8>) -> Seq<u8>;

/// A compiled regular expression together with the pattern it was compiled
/// from; only `compile` makes one.
pub struct Pattern {
    re: regex::bytes::Regex,
    source: String,
}

impl Pattern {
    /// The pattern this expression was compiled from.
    pub closed spec fn source(&self) -> Seq<char> {
        self.source@
    }

    /// `regex::bytes::Regex::new`: compiles `pattern`, or `None` where the
    /// crate rejects it.
    #[verifier::external_body]
    pub(crate) fn compile(pattern: &str) -> (r: Option<Pattern>)
        ensures
            r is Some <==> regex_compiles(pattern@),
            r matches Some(p) ==> p.source() == pattern@,
    {
        match regex::bytes::Regex::new(pattern) {
            Ok(re) => Some(Pattern { re, source: pattern.to_string() }),
            Err(_) => None,
        }
    }

    /// `Regex::find_iter(..).count()`: the number of non-overlapping
    /// matches in `text`.
    #[verifier::external_body]
    pub(crate) fn count_matches(&self, text: &[u8]) -> (r: usize)
        ensures
            r == regex_match_count(self.source(), text@),
    {
        self.re.find_iter(text).count()
    }

    /// `Regex::replace_all`: `text` with every match replaced by
    /// `replacement`, capture references expanded.
    #[verifier::external_body]
    pub(crate) fn replace_all(&self, text: &[u8], replacement: &[u8]) -> (r: Vec<u8>)
        ensures
            r@ == regex_replace_all(self.source(), replacement@, text@),
    {
        self.re.replace_all(text, replacement).into_owned()
    }
}

} // verus!
