//! Compiled regular expressions and the text they are applied to.

use vstd::prelude::*;

verus! {

#[verifier::external_type_specification]
#[verifier::external_body]
pub struct ExRegex(regex::Regex);

/// Whether the regular expression written `pattern` matches anywhere in `text`.
pub uninterp spec fn regex_finds(pattern: Seq<char>, text: Seq<char>) -> bool;

/// Whether `pattern` is a regular expression that compiles.
pub uninterp spec fn regex_compiles(pattern: Seq<char>) -> bool;

/// The text that lossy UTF-8 decoding makes of `bytes`.
pub uninterp spec fn lossy_text(bytes: Seq<u8>) -> Seq<char>;

/// A compiled regular expression together with the text it was compiled from.
pub struct Pattern {
    re: regex::Regex,
    source: String,
}

/// Why a regular expression could not be compiled.
pub struct PatternError {
    pub message: String,
}

impl View for Pattern {
    type V = Seq<char>;

    closed spec fn view(&self) -> Seq<char> {
        self.source@
    }
}

/// Relies on regex::Regex::new: whether it succeeds depends on the text alone,
/// and on success the regex is the one written `src`, kept beside that text.
#[verifier::external_body]
fn compile(src: &str) -> (r: Result<Pattern, String>)
    ensures
        r is Ok <==> regex_compiles(src@),
        r is Ok ==> r->Ok_0@ == src@,
{
    match regex::Regex::new(src) {
        Ok(re) => Ok(Pattern { re, source: src.to_string() }),
        Err(e) => Err(e.to_string()),
    }
}

/// Relies on String::from_utf8_lossy: the result depends on the bytes alone.
#[verifier::external_body]
pub(crate) fn decode_lossy(bytes: &[u8]) -> (r: String)
    ensures
        r@ == lossy_text(bytes@),
{
    String::from_utf8_lossy(bytes).into_owned()
}

impl Pattern {
    /// Compiles `src`; the error carries the regex crate's message.
    pub fn new(src: &str) -> (r: Result<Pattern, PatternError>)
        ensures
            r is Ok <==> regex_compiles(src@),
            r is Ok ==> r->Ok_0@ == src@,
    {
        match compile(src) {
            Ok(p) => Ok(p),
            Err(message) => Err(PatternError { message }),
        }
    }

    /// The text the pattern was compiled from.
    pub fn as_str(&self) -> (r: &str)
        ensures
            r@ == self@,
    {
        self.source.as_str()
    }

    /// Relies on regex::Regex::is_match: true iff the regex matches anywhere
    /// in `text`.
    #[verifier::external_body]
    pub(crate) fn is_match(&self, text: &str) -> (r: bool)
        ensures
            r == regex_finds(self@, text@),
    {
        self.re.is_match(text)
    }
}

/// Whether `pattern` matches anywhere in `name`.
pub fn name_matches(pattern: &Pattern, name: &str) -> (r: bool)
    ensures
        r == regex_finds(pattern@, name@),
{
    pattern.is_match(name)
}

} // verus!
