//! Print the N-th line (1-indexed).
use vstd::prelude::*;

verus! {

/// Arguments of the command.
pub struct Args {
    /// 1-indexed line number to print.
    pub n: usize,
}

/// The `args.n`-th line (counting from 1), if there are that many lines;
/// nothing for 0 or past the end.
pub fn get_line(lines: &Vec<String>, args: &Args) -> (r: Option<String>)
    ensures
        1 <= args.n <= lines@.len() ==> (r matches Some(s) && s@ == lines@[args.n - 1]@),
        !(1 <= args.n <= lines@.len()) ==> r is None,
{
    if args.n >= 1 && args.n <= lines.len() {
        Some(lines[args.n - 1].clone())
    } else {
        None
    }
}

} // verus!
