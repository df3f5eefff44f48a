//! Reservoir-style shuffle: hold N lines, emit a random held one as each new
//! line arrives, and the rest in random order at the end.
use vstd::prelude::*;
use vstd::multiset::Multiset;
use rand::RngExt;
use rand::seq::SliceRandom;
use crate::text::{trim, trim_str, trimmed_all, views};

verus! {

broadcast use {vstd::seq_lib::group_to_multiset_ensures, vstd::multiset::group_multiset_axioms, vstd::multiset::group_multiset_properties};

/// Arguments of the command.
pub struct Args {
    /// Buffer size: number of lines held in the shuffle reservoir.
    pub n: usize,
}

/// The thread-local random generator of `rand`.
#[verifier::external_type_specification]
#[verifier::external_body]
pub struct ExThreadRng(rand::rngs::ThreadRng);

/// `rand::rng`: a handle to the thread-local generator. Nothing is stated of it.
#[verifier::external_body]
fn thread_rng() -> rand::rngs::ThreadRng {
    rand::rng()
}

/// `RngExt::random_range` over `0..len`: the documentation promises a value
/// in the range (and a panic on an empty one, which `requires` excludes).
/// Which value comes is left to chance and is not stated.
#[verifier::external_body]
fn random_index(rng: &mut rand::rngs::ThreadRng, len: usize) -> (r: usize)
    requires
        len > 0,
    ensures
        r < len,
{
    rng.random_range(0..len)
}

/// `SliceRandom::shuffle`: the source permutes the slice by swaps, so the
/// lines stay the same, with the same multiplicities; their order is left to
/// chance and is not stated.
#[verifier::external_body]
fn shuffle_lines(lines: &mut Vec<String>, rng: &mut rand::rngs::ThreadRng)
    ensures
        views(final(lines)@).to_multiset() == views(old(lines)@).to_multiset(),
{
    lines.shuffle(rng);
}

/// The lines a step emits, as a multiset.
pub open spec fn emitted(r: Option<String>) -> Multiset<Seq<char>> {
    match r {
        Some(s) => Multiset::singleton(s@),
        None => Multiset::empty(),
    }
}

/// The held lines and how many may be held.
struct Reservoir {
    cap: usize,
    buffer: Vec<String>,
}

impl Reservoir {
    /// The reservoir never holds more than its capacity, which is positive.
    #[verifier::type_invariant]
    spec fn within_capacity(self) -> bool {
        self.cap >= 1 && self.buffer@.len() <= self.cap
    }
}

/// The shuffle reservoir: up to a fixed number of held lines, and the
/// random generator that picks which one leaves.
pub struct Mixer {
    held: Reservoir,
    rng: rand::rngs::ThreadRng,
}

impl Mixer {
    /// How many lines the reservoir holds at most.
    pub closed spec fn capacity(&self) -> nat {
        self.held.cap as nat
    }

    /// The lines held, in their current order.
    pub closed spec fn held(&self) -> Seq<Seq<char>> {
        views(self.held.buffer@)
    }

    /// An empty reservoir of `args.n` lines (at least 1).
    pub fn new(args: &Args) -> (m: Mixer)
        ensures
            m.capacity() >= 1,
            m.capacity() == if args.n == 0 { 1 } else { args.n as nat },
            m.held() == Seq::<Seq<char>>::empty(),
    {
        let cap = if args.n == 0 { 1 } else { args.n };
        let m = Mixer { held: Reservoir { cap, buffer: Vec::new() }, rng: thread_rng() };
        assert(m.held() == Seq::<Seq<char>>::empty());
        m
    }

    /// Takes the next line, trimmed. While the reservoir is not full the line
    /// is held and nothing is emitted; once it is full, a held line chosen at
    /// random is emitted and the new line takes its place. Either way no line
    /// is lost or duplicated.
    pub fn push(&mut self, line: &str) -> (r: Option<String>)
        ensures
            old(self).held().len() <= old(self).capacity(),
            final(self).capacity() == old(self).capacity(),
            final(self).held().len() <= final(self).capacity(),
            old(self).held().len() < old(self).capacity() ==> {
                &&& r is None
                &&& final(self).held() == old(self).held().push(trim(line@))
            },
            old(self).held().len() == old(self).capacity() ==> exists|i: int|
                0 <= i < old(self).held().len()
                && final(self).held() == old(self).held().update(i, trim(line@))
                && (r matches Some(s) && s@ == #[trigger] old(self).held()[i]),
            final(self).held().to_multiset().add(emitted(r)) == old(self).held().to_multiset().insert(trim(line@)),
    {
        proof {
            use_type_invariant(&self.held);
        }
        let s = trim_str(line);
        let cap = self.held.cap;
        let mut buffer: Vec<String> = Vec::new();
        std::mem::swap(&mut buffer, &mut self.held.buffer);
        let ghost before = views(buffer@);
        if buffer.len() < cap {
            buffer.push(s);
            assert(views(buffer@) == before.push(trim(line@)));
            assert(emitted(None) == Multiset::<Seq<char>>::empty());
            assert(views(buffer@).to_multiset().add(Multiset::empty()) == views(buffer@).to_multiset());
            self.held = Reservoir { cap, buffer };
            None
        } else {
            let idx = random_index(&mut self.rng, buffer.len());
            let out = buffer[idx].clone();
            buffer.set(idx, s);
            proof {
                let a = trim(line@);
                assert(views(buffer@) == before.update(idx as int, a));
                vstd::seq_lib::to_multiset_update(before, idx as int, a);
                assert(out@ == before[idx as int]);
                assert(before.to_multiset().count(before[idx as int]) > 0);
                assert(views(buffer@).to_multiset().add(Multiset::singleton(out@))
                    =~= before.to_multiset().insert(a));
            }
            self.held = Reservoir { cap, buffer };
            Some(out)
        }
    }

    /// The held lines, in random order.
    pub fn finish(self) -> (out: Vec<String>)
        ensures
            views(out@).to_multiset() == self.held().to_multiset(),
    {
        let mut m = self;
        proof {
            use_type_invariant(&m.held);
        }
        let mut buffer: Vec<String> = Vec::new();
        std::mem::swap(&mut buffer, &mut m.held.buffer);
        shuffle_lines(&mut buffer, &mut m.rng);
        buffer
    }
}

/// Whether `x` is among the first `bound` lines of `ts`.
pub open spec fn arrived_by(ts: Seq<Seq<char>>, x: Seq<char>, bound: int) -> bool {
    exists|k: int| 0 <= k < bound && k < ts.len() && ts[k] == x
}

proof fn lemma_arrived_later(ts: Seq<Seq<char>>, x: Seq<char>, b1: int, b2: int)
    requires
        arrived_by(ts, x, b1),
        b1 <= b2,
    ensures
        arrived_by(ts, x, b2),
{
    let k = choose|k: int| 0 <= k < b1 && k < ts.len() && ts[k] == x;
    assert(0 <= k < b2 && k < ts.len() && ts[k] == x);
}

proof fn lemma_arrived_now(ts: Seq<Seq<char>>, i: int)
    requires
        0 <= i < ts.len(),
    ensures
        arrived_by(ts, ts[i], i + 1),
{
    assert(0 <= i < i + 1 && i < ts.len() && ts[i] == ts[i]);
}

/// Runs the reservoir over all `lines`: what comes out is a reordering of
/// the trimmed input lines, each as often as it went in, and no line comes
/// out earlier than the reservoir allows: the `j`-th line printed (from 0)
/// is among the first `j + capacity` lines read.
pub fn mix_lines(lines: &Vec<String>, args: &Args) -> (out: Vec<String>)
    ensures
        views(out@).to_multiset() == trimmed_all(views(lines@)).to_multiset(),
        forall|j: int| 0 <= j < out@.len() ==> arrived_by(trimmed_all(views(lines@)), #[trigger] views(out@)[j],
            j + (if args.n == 0 { 1 } else { args.n as int })),
{
    let ghost ts = trimmed_all(views(lines@));
    let mut m = Mixer::new(args);
    let ghost cap = m.capacity() as int;
    let mut out: Vec<String> = Vec::new();
    let mut i: usize = 0;
    assert(ts.take(0) == Seq::<Seq<char>>::empty());
    while i < lines.len()
        invariant
            i <= lines@.len(),
            ts == trimmed_all(views(lines@)),
            ts.len() == lines@.len(),
            cap == m.capacity(),
            cap == if args.n == 0 { 1 } else { args.n as int },
            m.held().len() == if i < cap { i as int } else { cap },
            out@.len() + m.held().len() == i,
            views(out@).to_multiset().add(m.held().to_multiset()) == ts.take(i as int).to_multiset(),
            forall|q: int| 0 <= q < m.held().len() ==> arrived_by(ts, #[trigger] m.held()[q], i as int),
            forall|j: int| 0 <= j < out@.len() ==> arrived_by(ts, #[trigger] views(out@)[j], j + cap),
        decreases lines@.len() - i,
    {
        let ghost before = views(out@);
        let ghost held = m.held();
        let r = m.push(lines[i].as_str());
        assert(ts.take(i + 1) == ts.take(i as int).push(ts[i as int]));
        assert(ts[i as int] == trim(lines@[i as int]@));
        proof { lemma_arrived_now(ts, i as int); }
        let ghost em = emitted(r);
        proof {
            if (held.len() as int) < cap {
                assert(m.held() == held.push(ts[i as int]));
                assert forall|q: int| 0 <= q < m.held().len() implies arrived_by(ts, #[trigger] m.held()[q], i + 1) by {
                    if q < held.len() {
                        lemma_arrived_later(ts, held[q], i as int, i + 1);
                    }
                }
            } else {
                let k = choose|k: int| 0 <= k < held.len()
                    && m.held() == held.update(k, ts[i as int])
                    && (r matches Some(s) && s@ == #[trigger] held[k]);
                assert forall|q: int| 0 <= q < m.held().len() implies arrived_by(ts, #[trigger] m.held()[q], i + 1) by {
                    if q != k {
                        lemma_arrived_later(ts, held[q], i as int, i + 1);
                    }
                }
            }
        }
        match r {
            Some(s) => {
                out.push(s);
                assert(views(out@) == before.push(s@));
                assert(views(out@).to_multiset() =~= before.to_multiset().add(em));
            },
            None => {
                assert(views(out@) == before);
                assert(views(out@).to_multiset() =~= before.to_multiset().add(em));
            },
        }
        assert forall|j: int| 0 <= j < out@.len() implies arrived_by(ts, #[trigger] views(out@)[j], j + cap) by {
            if j < before.len() {
                assert(views(out@)[j] == before[j]);
            }
        }
        assert(m.held().to_multiset().add(em) == held.to_multiset().insert(ts[i as int]));
        assert(views(out@).to_multiset().add(m.held().to_multiset())
            =~= ts.take(i + 1).to_multiset());
        i = i + 1;
    }
    assert(ts.take(lines@.len() as int) == ts);
    let ghost held = m.held();
    let rest = m.finish();
    let ghost before = views(out@);
    let ghost r0 = views(rest@);
    let mut rest = rest;
    out.append(&mut rest);
    assert(views(out@) =~= before + r0);
    proof { vstd::seq_lib::lemma_multiset_commutative(before, r0); }
    assert forall|j: int| 0 <= j < out@.len() implies arrived_by(ts, #[trigger] views(out@)[j], j + cap) by {
        if j < before.len() {
            assert(views(out@)[j] == before[j]);
        } else {
            let x = r0[j - before.len()];
            assert(views(out@)[j] == x);
            assert(r0.contains(x));
            assert(r0.to_multiset().count(x) > 0);
            assert(held.to_multiset().count(x) > 0);
            assert(held.contains(x));
            let q = choose|q: int| 0 <= q < held.len() && held[q] == x;
            lemma_arrived_later(ts, held[q], lines@.len() as int, j + cap);
        }
    }
    out
}

} // verus!
