//! Estimate a file's line count from a sample of its lines. The sample's
//! size is counted here; the estimate itself is a floating-point quotient
//! (file size over mean bytes per line), computed by the program.
use vstd::prelude::*;
use vstd::string::StringSliceAdditionalSpecFns;

verus! {

/// Arguments of the command.
pub struct Args {
    /// File to estimate the line count for.
    pub file: String,
    /// Sample size in lines.
    pub sample: usize,
}

/// The sample taken so far: its size in bytes (each line plus its newline)
/// and in lines.
pub struct LineSample {
    bytes: u64,
    lines: u64,
}

impl LineSample {
    /// Sampled bytes, newlines included.
    pub closed spec fn byte_count(&self) -> nat {
        self.bytes as nat
    }

    /// Sampled lines.
    pub closed spec fn line_count(&self) -> nat {
        self.lines as nat
    }

    /// Every sampled line takes at least a byte, its newline.
    #[verifier::type_invariant]
    spec fn lines_fit_bytes(self) -> bool {
        self.lines <= self.bytes
    }

    /// An empty sample.
    pub fn new() -> (s: LineSample)
        ensures
            s.byte_count() == 0,
            s.line_count() == 0,
    {
        LineSample { bytes: 0, lines: 0 }
    }

    /// Sampled bytes so far.
    pub fn bytes(&self) -> (b: u64)
        ensures
            b == self.byte_count(),
    {
        self.bytes
    }

    /// Sampled lines so far.
    pub fn lines(&self) -> (n: u64)
        ensures
            n == self.line_count(),
    {
        self.lines
    }

    /// Adds a line (read without its newline) to the sample.
    pub fn add(&mut self, line: &str)
        requires
            old(self).byte_count() + line.spec_bytes().len() + 1 <= u64::MAX,
        ensures
            final(self).byte_count() == old(self).byte_count() + line.spec_bytes().len() + 1,
            final(self).line_count() == old(self).line_count() + 1,
    {
        proof {
            use_type_invariant(&*self);
        }
        let n = line.as_bytes().len();
        *self = LineSample { bytes: self.bytes + n as u64 + 1, lines: self.lines + 1 };
    }
}

} // verus!
