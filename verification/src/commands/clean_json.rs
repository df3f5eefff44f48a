//! Extract the first `{...}` JSON-looking blob from each line.
use vstd::prelude::*;
use crate::pattern::{regex_compiles, regex_first_match, Pattern, PatternError};

verus! {

/// The text of the pattern the command searches for: `\{.*\}`, from the
/// first `{` to the last `}` after it on the line.
pub open spec fn brace_blob() -> Seq<char> {
    seq!['\\', '{', '.', '*', '\\', '}']
}

/// The blob pattern is the six characters `\{.*\}`: an escaped `{`, any
/// run of characters, an escaped `}`.
pub proof fn law_blob_pattern_text()
    ensures
        brace_blob() == "\\{.*\\}"@,
        brace_blob().len() == 6,
{
    reveal_strlit("\\{.*\\}");
}

/// The compiled blob pattern.
pub struct Extractor {
    p: Pattern,
}

impl Extractor {
    /// The pattern is the blob pattern.
    #[verifier::type_invariant]
    spec fn searches_blob(self) -> bool {
        self.p.source() == brace_blob()
    }

    /// Compiles the blob pattern `\{.*\}`; fails only if the `regex` crate
    /// refuses it.
    pub fn new() -> (r: Result<Extractor, PatternError>)
        ensures
            r is Ok <==> regex_compiles(brace_blob()),
            r is Ok <==> regex_compiles("\\{.*\\}"@),
    {
        let text = "\\{.*\\}";
        proof {
            reveal_strlit("\\{.*\\}");
        }
        assert(text@ == brace_blob());
        proof {
            law_blob_pattern_text();
        }
        match Pattern::new(text) {
            Ok(p) => Ok(Extractor { p }),
            Err(e) => Err(e),
        }
    }

    /// The blob on `line`, if any: the first match of the blob pattern.
    pub fn extract(&self, line: &str) -> (r: Option<String>)
        ensures
            r matches Some(m) ==> regex_first_match(brace_blob(), line@) == Some(m@),
            r is None ==> regex_first_match(brace_blob(), line@) is None,
            r matches Some(m) ==> regex_first_match("\\{.*\\}"@, line@) == Some(m@),
            r is None ==> regex_first_match("\\{.*\\}"@, line@) is None,
    {
        proof {
            law_blob_pattern_text();
        }
        proof {
            use_type_invariant(self);
        }
        self.p.find(line)
    }
}

} // verus!
