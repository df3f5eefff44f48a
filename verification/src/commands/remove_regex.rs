//! Replace every match of a regular expression in each line (by default,
//! with nothing: the matches are removed).
use vstd::prelude::*;
use crate::pattern::{regex_compiles, regex_replace_all, Pattern, PatternError};

verus! {

/// Arguments of the command.
pub struct Args {
    /// The regular expression.
    pub pattern: String,
    /// What each match becomes; `$1`, `$name` refer to capture groups.
    pub replacement: String,
}

/// A compiled pattern with its replacement.
pub struct Replacer {
    p: Pattern,
    replacement: String,
}

impl Replacer {
    /// The pattern text.
    pub closed spec fn pattern(&self) -> Seq<char> {
        self.p.source()
    }

    /// The replacement text.
    pub closed spec fn replacement(&self) -> Seq<char> {
        self.replacement@
    }

    /// Compiles `args.pattern`; an invalid pattern is an error.
    pub fn new(args: &Args) -> (r: Result<Replacer, PatternError>)
        ensures
            r is Ok <==> regex_compiles(args.pattern@),
            r matches Ok(x) ==> x.pattern() == args.pattern@ && x.replacement() == args.replacement@,
    {
        match Pattern::new(args.pattern.as_str()) {
            Ok(p) => Ok(Replacer { p, replacement: args.replacement.clone() }),
            Err(e) => Err(e),
        }
    }

    /// `line` with every match replaced.
    pub fn apply(&self, line: &str) -> (r: String)
        ensures
            r@ == regex_replace_all(self.pattern(), line@, self.replacement()),
    {
        self.p.replace_all(line, self.replacement.as_str())
    }
}

} // verus!
