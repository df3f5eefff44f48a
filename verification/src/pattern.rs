//! Compiled regular expressions (the `regex` crate), kept with the pattern
//! text they were compiled from.
use vstd::prelude::*;

verus! {

/// The error type of `regex::Regex::new`.
#[verifier::external_type_specification]
#[verifier::external_body]
pub struct ExRegexError(regex::Error);

/// A compiled `regex::Regex`.
#[verifier::external_type_specification]
#[verifier::external_body]
pub struct ExRegex(regex::Regex);

/// Whether `regex::Regex::new` accepts `pattern`.
pub uninterp spec fn regex_compiles(pattern: Seq<char>) -> bool;

/// The text of the leftmost-first match of `pattern` in `haystack`
/// (`regex::Regex::find`), if there is one.
pub uninterp spec fn regex_first_match(pattern: Seq<char>, haystack: Seq<char>) -> Option<Seq<char>>;

/// `haystack` with every non-overlapping match of `pattern` replaced by
/// `replacement`, its `$name` / `${name}` / `$n` references expanded
/// (`regex::Regex::replace_all` with a string replacement).
pub uninterp spec fn regex_replace_all(pattern: Seq<char>, haystack: Seq<char>, replacement: Seq<char>) -> Seq<char>;

/// A regular expression together with its source text.
pub struct Pattern {
    source: String,
    re: regex::Regex,
}

impl Pattern {
    /// The pattern text the expression was compiled from.
    pub closed spec fn source(&self) -> Seq<char> {
        self.source@
    }
}

/// Why a pattern was refused: the `regex` crate's message.
pub struct PatternError {
    pub message: String,
}

/// `regex::Regex::new`, keeping the pattern text beside the compiled form.
/// Claimed: it succeeds exactly when the pattern compiles, and the result
/// remembers the text it was compiled from.
#[verifier::external_body]
fn compile(pattern: &str) -> (r: Result<Pattern, regex::Error>)
    ensures
        r is Ok <==> regex_compiles(pattern@),
        r matches Ok(p) ==> p.source() == pattern@,
{
    match regex::Regex::new(pattern) {
        Ok(re) => Ok(Pattern { source: pattern.to_string(), re }),
        Err(e) => Err(e),
    }
}

/// The message of a `regex::Error` (its `Display` text). Nothing is stated of it.
#[verifier::external_body]
fn error_message(e: &regex::Error) -> String {
    e.to_string()
}

/// `regex::Regex::find`: the matched text is the named leftmost-first match.
#[verifier::external_body]
fn find_first(p: &Pattern, haystack: &str) -> (r: Option<String>)
    ensures
        r matches Some(m) ==> regex_first_match(p.source(), haystack@) == Some(m@),
        r is None ==> regex_first_match(p.source(), haystack@) is None,
{
    match p.re.find(haystack) {
        Some(m) => Some(m.as_str().to_string()),
        None => None,
    }
}

/// `regex::Regex::replace_all` with a string replacement.
#[verifier::external_body]
fn replace_every(p: &Pattern, haystack: &str, replacement: &str) -> (r: String)
    ensures
        r@ == regex_replace_all(p.source(), haystack@, replacement@),
{
    p.re.replace_all(haystack, replacement).into_owned()
}

impl Pattern {
    /// Compiles `pattern`; refused exactly when the `regex` crate refuses it.
    pub fn new(pattern: &str) -> (r: Result<Pattern, PatternError>)
        ensures
            r is Ok <==> regex_compiles(pattern@),
            r matches Ok(p) ==> p.source() == pattern@,
    {
        match compile(pattern) {
            Ok(p) => Ok(p),
            Err(e) => Err(PatternError { message: error_message(&e) }),
        }
    }

    /// The leftmost-first match in `haystack`, if any.
    pub fn find(&self, haystack: &str) -> (r: Option<String>)
        ensures
            r matches Some(m) ==> regex_first_match(self.source(), haystack@) == Some(m@),
            r is None ==> regex_first_match(self.source(), haystack@) is None,
    {
        find_first(self, haystack)
    }

    /// `haystack` with every match replaced by `replacement`.
    pub fn replace_all(&self, haystack: &str, replacement: &str) -> (r: String)
        ensures
            r@ == regex_replace_all(self.source(), haystack@, replacement@),
    {
        replace_every(self, haystack, replacement)
    }
}

} // verus!
