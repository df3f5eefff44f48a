//! Print a random number for each line of input.
use vstd::prelude::*;

verus! {

/// The distribution to draw from.
#[derive(Clone, Copy, PartialEq, Eq, Structural)]
pub enum Distr {
    /// Standard normal.
    Norm,
    /// Standard uniform on `[0, 1)`.
    Unif,
}

/// Arguments of the command.
pub struct Args {
    /// Distribution of the random values.
    pub distr: Option<Distr>,
}

/// The distribution the command draws from: the one asked for, uniform by default.
pub fn distribution(args: &Args) -> (d: Distr)
    ensures
        d == match args.distr {
            Some(x) => x,
            None => Distr::Unif,
        },
{
    match args.distr {
        Some(x) => x,
        None => Distr::Unif,
    }
}

} // verus!
