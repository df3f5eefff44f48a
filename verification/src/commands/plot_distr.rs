//! The counting side of the distribution plot: histogram bins that grow on
//! either side when a value falls outside them.
use vstd::prelude::*;

verus! {

/// Default number of leading values used to lay out the bins.
pub const DEFAULT_SAMPLE: usize = 100_000;
/// Fewest bins a layout uses.
pub const MIN_BINS: usize = 4;
/// Most bins a layout uses.
pub const MAX_BINS: usize = 128;
/// The histogram never grows past this many bins.
pub const HARD_BIN_CAP: usize = 10_000;

/// Arguments of the command.
pub struct Args {
    /// Apply a natural log transform to each value.
    pub log: bool,
    /// Number of leading values used to estimate the histogram's bin layout.
    pub sample: usize,
}

/// How many leading values lay out the bins: the asked-for sample, at least 2.
pub fn sample_size(args: &Args) -> (n: usize)
    ensures
        n == if args.sample < 2 { 2 } else { args.sample },
{
    if args.sample < 2 { 2 } else { args.sample }
}

/// A raw bin count held to `[MIN_BINS, MAX_BINS]`.
pub fn clamp_bin_count(raw: usize) -> (n: usize)
    ensures
        n == if raw < MIN_BINS { MIN_BINS } else if raw > MAX_BINS { MAX_BINS } else { raw },
        MIN_BINS <= n <= MAX_BINS,
{
    if raw < MIN_BINS {
        MIN_BINS
    } else if raw > MAX_BINS {
        MAX_BINS
    } else {
        raw
    }
}

/// Where a value falls relative to the current bins, as the caller measured
/// it in bin widths from the lower edge.
pub enum Placement {
    /// In the bin of this index.
    Inside(usize),
    /// Below the first bin; this many bin widths (rounded up) below it.
    Below(usize),
    /// Above the last bin, in the bin that would have this index.
    Above(usize),
}

/// The sum of the counts.
pub open spec fn total(s: Seq<u64>) -> nat
    decreases s.len(),
{
    if s.len() == 0 {
        0
    } else {
        total(s.drop_last()) + s.last() as nat
    }
}

proof fn lemma_total_bounds(s: Seq<u64>)
    ensures
        forall|i: int| 0 <= i < s.len() ==> s[i] <= total(s),
    decreases s.len(),
{
    if s.len() > 0 {
        lemma_total_bounds(s.drop_last());
        assert forall|i: int| 0 <= i < s.len() implies s[i] <= total(s) by {
            if i < s.len() - 1 {
                assert(s[i] == s.drop_last()[i]);
            }
        }
    }
}

proof fn lemma_total_concat(a: Seq<u64>, b: Seq<u64>)
    ensures
        total(a + b) == total(a) + total(b),
    decreases b.len(),
{
    if b.len() == 0 {
        assert(a + b == a);
    } else {
        lemma_total_concat(a, b.drop_last());
        assert((a + b).drop_last() == a + b.drop_last());
    }
}

proof fn lemma_total_update(s: Seq<u64>, i: int, v: u64)
    requires
        0 <= i < s.len(),
    ensures
        total(s.update(i, v)) == total(s) - s[i] + v,
{
    let l = s.take(i);
    let r = s.skip(i + 1);
    assert(s == l + seq![s[i]] + r);
    assert(s.update(i, v) == l + seq![v] + r);
    lemma_total_concat(l + seq![s[i]], r);
    lemma_total_concat(l, seq![s[i]]);
    lemma_total_concat(l + seq![v], r);
    lemma_total_concat(l, seq![v]);
    assert(seq![s[i]].drop_last() == Seq::<u64>::empty());
    assert(seq![v].drop_last() == Seq::<u64>::empty());
}

proof fn lemma_total_one(v: u64)
    ensures
        total(seq![v]) == v,
{
    assert(seq![v].drop_last() == Seq::<u64>::empty());
    assert(total(Seq::<u64>::empty()) == 0);
}

proof fn lemma_total_zeros(n: nat)
    ensures
        total(Seq::new(n, |k: int| 0u64)) == 0,
    decreases n,
{
    if n > 0 {
        lemma_total_zeros((n - 1) as nat);
        assert(Seq::new(n, |k: int| 0u64).drop_last() == Seq::new((n - 1) as nat, |k: int| 0u64));
    }
}

/// The bins of a histogram: one count per bin, between 1 and
/// `HARD_BIN_CAP` bins, and the number of values counted.
pub struct BinCounts {
    bins: Vec<u64>,
    values: u64,
}

fn bump_bin(bins: &mut Vec<u64>, i: usize)
    requires
        i < old(bins)@.len(),
        total(old(bins)@) < u64::MAX,
    ensures
        final(bins)@ == old(bins)@.update(i as int, (old(bins)@[i as int] + 1) as u64),
        total(final(bins)@) == total(old(bins)@) + 1,
{
    proof { lemma_total_bounds(bins@); }
    let v = bins[i] + 1;
    bins.set(i, v);
    proof { lemma_total_update(old(bins)@, i as int, v); }
}

/// Counts one value in `bins` where `p` says it falls, growing them as
/// `BinCounts::place` describes.
fn place_in(bins: &mut Vec<u64>, p: Placement) -> (added_below: usize)
    requires
        1 <= old(bins)@.len() <= HARD_BIN_CAP,
        total(old(bins)@) < u64::MAX,
        p matches Placement::Inside(i) ==> i < old(bins)@.len(),
        p matches Placement::Above(t) ==> t >= old(bins)@.len(),
    ensures
        1 <= final(bins)@.len() <= HARD_BIN_CAP,
        total(final(bins)@) == total(old(bins)@) + 1,
        ({
            let old_c = old(bins)@;
            let c = final(bins)@;
            let len = old_c.len();
            match p {
                Placement::Inside(i) => added_below == 0 && c == old_c.update(i as int, (old_c[i as int] + 1) as u64),
                Placement::Below(k) => {
                    let need = if k == 0 { 1 } else { k as int };
                    if len + need > HARD_BIN_CAP {
                        added_below == 0 && c == old_c.update(0, (old_c[0] + 1) as u64)
                    } else {
                        added_below == need && c == seq![1u64] + Seq::new((need - 1) as nat, |j: int| 0u64) + old_c
                    }
                },
                Placement::Above(t) => {
                    if t + 1 > HARD_BIN_CAP {
                        added_below == 0 && c == old_c.update(len - 1, (old_c[len - 1] + 1) as u64)
                    } else {
                        added_below == 0 && c == old_c + Seq::new((t - len) as nat, |j: int| 0u64) + seq![1u64]
                    }
                },
            }
        }),
{
    proof { lemma_total_bounds(bins@); }
    let ghost old_c = bins@;
    match p {
        Placement::Inside(i) => {
            bump_bin(bins, i);
            0
        },
        Placement::Below(k) => {
            let need = if k == 0 { 1 } else { k };
            if need > HARD_BIN_CAP - bins.len() {
                bump_bin(bins, 0);
                0
            } else {
                let mut grown: Vec<u64> = Vec::new();
                grown.push(1);
                let mut j: usize = 1;
                while j < need
                    invariant
                        1 <= j <= need,
                        grown@ == seq![1u64] + Seq::new((j - 1) as nat, |m: int| 0u64),
                    decreases need - j,
                {
                    grown.push(0);
                    assert(Seq::new(j as nat, |m: int| 0u64) == Seq::new((j - 1) as nat, |m: int| 0u64).push(0u64));
                    j = j + 1;
                }
                let ghost zeros = Seq::new((need - 1) as nat, |m: int| 0u64);
                let mut rest = Vec::new();
                std::mem::swap(&mut rest, bins);
                grown.append(&mut rest);
                *bins = grown;
                proof {
                    lemma_total_zeros((need - 1) as nat);
                    lemma_total_concat(seq![1u64], zeros);
                    lemma_total_concat(seq![1u64] + zeros, old_c);
                    assert(seq![1u64].drop_last() == Seq::<u64>::empty());
                    lemma_total_one(1u64);
                    assert(total(bins@) == total(old_c) + 1);
                }
                need
            }
        },
        Placement::Above(t) => {
            let len = bins.len();
            if t >= HARD_BIN_CAP {
                bump_bin(bins, len - 1);
                0
            } else {
                let mut j = len;
                while j < t
                    invariant
                        len <= j <= t,
                        bins@ == old_c + Seq::new((j - len) as nat, |m: int| 0u64),
                    decreases t - j,
                {
                    bins.push(0);
                    assert(Seq::new((j + 1 - len) as nat, |m: int| 0u64) == Seq::new((j - len) as nat, |m: int| 0u64).push(0u64));
                    j = j + 1;
                }
                bins.push(1);
                proof {
                    let zeros = Seq::new((t - len) as nat, |m: int| 0u64);
                    lemma_total_zeros((t - len) as nat);
                    lemma_total_concat(old_c, zeros);
                    lemma_total_concat(old_c + zeros, seq![1u64]);
                    assert(bins@ == (old_c + zeros) + seq![1u64]);
                    assert(seq![1u64].drop_last() == Seq::<u64>::empty());
                    lemma_total_one(1u64);
                    assert(total(bins@) == total(old_c) + 1);
                }
                0
            }
        },
    }
}

impl BinCounts {
    /// There is at least one bin and at most `HARD_BIN_CAP`, and the
    /// number of values is the sum of the counts.
    #[verifier::type_invariant]
    spec fn consistent(self) -> bool {
        &&& 1 <= self.bins@.len() <= HARD_BIN_CAP
        &&& self.values as nat == total(self.bins@)
    }

    /// The counts, lowest bin first.
    pub closed spec fn counts(&self) -> Seq<u64> {
        self.bins@
    }

    /// `n` empty bins.
    pub fn new(n: usize) -> (b: BinCounts)
        requires
            1 <= n <= HARD_BIN_CAP,
        ensures
            b.counts() == Seq::new(n as nat, |k: int| 0u64),
            total(b.counts()) == 0,
    {
        let mut bins: Vec<u64> = Vec::new();
        let mut i: usize = 0;
        while i < n
            invariant
                i <= n,
                bins@ == Seq::new(i as nat, |k: int| 0u64),
            decreases n - i,
        {
            bins.push(0);
            i = i + 1;
        }
        proof { lemma_total_zeros(n as nat); }
        BinCounts { bins, values: 0 }
    }

    /// The counts, lowest bin first.
    pub fn counts_vec(&self) -> (v: &Vec<u64>)
        ensures
            v@ == self.counts(),
            1 <= v@.len() <= HARD_BIN_CAP,
    {
        proof { use_type_invariant(self); }
        &self.bins
    }

    /// How many values were counted: the sum of the counts.
    pub fn values(&self) -> (n: u64)
        ensures
            n == total(self.counts()),
    {
        proof { use_type_invariant(self); }
        self.values
    }

    /// Counts one value where `p` says it falls; returns how many bins were
    /// added below (the caller moves its lower edge down by as many widths).
    /// A value below or above the bins grows them on that side to reach it,
    /// unless that would pass `HARD_BIN_CAP`; then it is counted in the
    /// first or the last bin.
    pub fn place(&mut self, p: Placement) -> (added_below: usize)
        requires
            total(old(self).counts()) < u64::MAX,
            p matches Placement::Inside(i) ==> i < old(self).counts().len(),
            p matches Placement::Above(t) ==> t >= old(self).counts().len(),
        ensures
            1 <= final(self).counts().len() <= HARD_BIN_CAP,
            total(final(self).counts()) == total(old(self).counts()) + 1,
            ({
                let old_c = old(self).counts();
                let c = final(self).counts();
                let len = old_c.len();
                match p {
                    Placement::Inside(i) => added_below == 0 && c == old_c.update(i as int, (old_c[i as int] + 1) as u64),
                    Placement::Below(k) => {
                        let need = if k == 0 { 1 } else { k as int };
                        if len + need > HARD_BIN_CAP {
                            added_below == 0 && c == old_c.update(0, (old_c[0] + 1) as u64)
                        } else {
                            added_below == need && c == seq![1u64] + Seq::new((need - 1) as nat, |j: int| 0u64) + old_c
                        }
                    },
                    Placement::Above(t) => {
                        if t + 1 > HARD_BIN_CAP {
                            added_below == 0 && c == old_c.update(len - 1, (old_c[len - 1] + 1) as u64)
                        } else {
                            added_below == 0 && c == old_c + Seq::new((t - len) as nat, |j: int| 0u64) + seq![1u64]
                        }
                    },
                }
            }),
    {
        let mut placeholder: Vec<u64> = Vec::new();
        placeholder.push(0);
        proof {
            lemma_total_one(0u64);
        }
        let mut cur = BinCounts { bins: placeholder, values: 0 };
        std::mem::swap(&mut cur, self);
        proof {
            use_type_invariant(&cur);
        }
        let BinCounts { mut bins, values } = cur;
        let added = place_in(&mut bins, p);
        *self = BinCounts { bins, values: values + 1 };
        added
    }
}

} // verus!
