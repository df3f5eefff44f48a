//! Try to parse each line as JSON; count the successes and failures.
use vstd::prelude::*;
use vstd::string::StringExecFns;
use crate::text::{push_decimal, decimal};

verus! {

/// The error type of `serde_json`.
#[verifier::external_type_specification]
#[verifier::external_body]
pub struct ExJsonError(serde_json::Error);

/// Whether `text` is one JSON value (`serde_json::from_str::<Value>` succeeds).
pub uninterp spec fn json_parses(text: Seq<char>) -> bool;

/// `serde_json::from_str::<serde_json::Value>`, keeping only whether it
/// succeeded and, if not, the error.
#[verifier::external_body]
fn parse_json(text: &str) -> (r: Result<(), serde_json::Error>)
    ensures
        r is Ok <==> json_parses(text@),
{
    match serde_json::from_str::<serde_json::Value>(text) {
        Ok(_) => Ok(()),
        Err(e) => Err(e),
    }
}

/// Whether a progress line is due before the line at 0-based `idx`: every
/// 1024 lines, not before the first.
pub fn progress_due(idx: usize) -> (r: bool)
    ensures
        r == (idx > 0 && idx % 1024 == 0),
{
    idx > 0 && idx % 1024 == 0
}

/// `"HITS <h> MISSES <m>"`.
pub open spec fn summary_text(hits: nat, misses: nat) -> Seq<char> {
    seq!['H', 'I', 'T', 'S', ' '] + decimal(hits) + seq![' ', 'M', 'I', 'S', 'S', 'E', 'S', ' '] + decimal(misses)
}

/// `"Failed parse of: <line>"`.
pub open spec fn failure_text(line: Seq<char>) -> Seq<char> {
    seq!['F', 'a', 'i', 'l', 'e', 'd', ' ', 'p', 'a', 'r', 's', 'e', ' ', 'o', 'f', ':', ' '] + line
}

/// The note printed for a line that does not parse.
pub fn failure_note(line: &str) -> (r: String)
    ensures
        r@ == failure_text(line@),
{
    let mut r = String::new();
    let lead = "Failed parse of: ";
    proof {
        reveal_strlit("Failed parse of: ");
    }
    r.append(lead);
    r.append(line);
    r
}

/// Counts of lines that parsed and that did not.
pub struct ParseTally {
    hits: u64,
    misses: u64,
}

impl ParseTally {
    /// Lines that parsed.
    pub closed spec fn hit_count(&self) -> nat {
        self.hits as nat
    }

    /// Lines that did not parse.
    pub closed spec fn miss_count(&self) -> nat {
        self.misses as nat
    }

    /// The two counts together fit a `u64`.
    #[verifier::type_invariant]
    spec fn counts_fit(self) -> bool {
        self.hits as nat + self.misses as nat <= u64::MAX
    }

    /// Nothing counted yet.
    pub fn new() -> (t: ParseTally)
        ensures
            t.hit_count() == 0,
            t.miss_count() == 0,
    {
        ParseTally { hits: 0, misses: 0 }
    }

    /// Lines checked so far.
    pub fn checked(&self) -> (n: u64)
        ensures
            n == self.hit_count() + self.miss_count(),
    {
        proof {
            use_type_invariant(self);
        }
        self.hits + self.misses
    }

    /// Parses `line` and counts the outcome; hands back the parse error.
    pub fn check(&mut self, line: &str) -> (r: Result<(), serde_json::Error>)
        requires
            old(self).hit_count() + old(self).miss_count() < u64::MAX,
        ensures
            r is Ok <==> json_parses(line@),
            r is Ok ==> final(self).hit_count() == old(self).hit_count() + 1
                && final(self).miss_count() == old(self).miss_count(),
            r is Err ==> final(self).miss_count() == old(self).miss_count() + 1
                && final(self).hit_count() == old(self).hit_count(),
    {
        let r = parse_json(line);
        match r {
            Ok(()) => {
                self.hits = self.hits + 1;
            },
            Err(_) => {
                self.misses = self.misses + 1;
            },
        }
        r
    }

    /// The progress and final line: `HITS <h> MISSES <m>`.
    pub fn summary(&self) -> (r: String)
        ensures
            r@ == summary_text(self.hit_count(), self.miss_count()),
    {
        let mut r = String::new();
        let a = "HITS ";
        let b = " MISSES ";
        proof {
            reveal_strlit("HITS ");
            reveal_strlit(" MISSES ");
        }
        r.append(a);
        push_decimal(&mut r, self.hits);
        r.append(b);
        push_decimal(&mut r, self.misses);
        r
    }
}

} // verus!
