//! Split each line on a separator; keep the non-blank parts, trimmed.
use vstd::prelude::*;
use crate::text::{chars_of, law_trim_idempotent, lemma_split_nonempty, matches_at, prepend_first, split_by, string_from, trim, trim_span, views};

verus! {

broadcast use vstd::seq_lib::group_seq_properties;

/// Arguments of the command.
pub struct Args {
    /// Separator to split each line on.
    pub sep: String,
}

/// The trimmed pieces that are not blank, in order.
pub open spec fn nonblank_trimmed(pieces: Seq<Seq<char>>) -> Seq<Seq<char>>
    decreases pieces.len(),
{
    if pieces.len() == 0 {
        Seq::empty()
    } else {
        let r = nonblank_trimmed(pieces.drop_last());
        let t = trim(pieces.last());
        if t.len() > 0 { r.push(t) } else { r }
    }
}

/// What the command prints for a line: the line is trimmed and split on
/// `sep`; each piece is trimmed, and the empty ones are dropped.
pub open spec fn exploded(line: Seq<char>, sep: Seq<char>) -> Seq<Seq<char>> {
    nonblank_trimmed(split_by(trim(line), sep))
}

proof fn lemma_nonblank_push(pieces: Seq<Seq<char>>, x: Seq<char>)
    ensures
        nonblank_trimmed(pieces.push(x)) == if trim(x).len() > 0 {
            nonblank_trimmed(pieces).push(trim(x))
        } else {
            nonblank_trimmed(pieces)
        },
{
    assert(pieces.push(x).drop_last() == pieces);
}

fn keep_piece(v: &[char], lo: usize, hi: usize, out: &mut Vec<String>, Ghost(done): Ghost<Seq<Seq<char>>>)
    requires
        lo <= hi <= v@.len(),
        views(old(out)@) == nonblank_trimmed(done),
    ensures
        views(final(out)@) == nonblank_trimmed(done.push(v@.subrange(lo as int, hi as int))),
{
    proof { lemma_nonblank_push(done, v@.subrange(lo as int, hi as int)); }
    let (a, b) = trim_span(v, lo, hi);
    if a < b {
        let piece = string_from(v, a, b);
        let ghost before = out@;
        out.push(piece);
        assert(views(out@) == views(before).push(piece@));
    }
}

proof fn lemma_split_step_match(v: Seq<char>, i: int, hi: int, sep: Seq<char>)
    requires
        0 <= i <= hi <= v.len(),
        sep.len() > 0,
        i + sep.len() <= hi,
        v.subrange(i, i + sep.len()) == sep,
    ensures
        split_by(v.subrange(i, hi), sep) == seq![Seq::<char>::empty()] + split_by(v.subrange(i + sep.len(), hi), sep),
{
    let rest = v.subrange(i, hi);
    assert(rest.take(sep.len() as int) == v.subrange(i, i + sep.len()));
    assert(rest.skip(sep.len() as int) == v.subrange(i + sep.len(), hi));
}

proof fn lemma_split_step_other(v: Seq<char>, i: int, hi: int, sep: Seq<char>)
    requires
        0 <= i < hi <= v.len(),
        sep.len() > 0,
        !(i + sep.len() <= hi && v.subrange(i, i + sep.len()) == sep),
    ensures
        split_by(v.subrange(i, hi), sep) == prepend_first(seq![v[i]], split_by(v.subrange(i + 1, hi), sep)),
{
    let rest = v.subrange(i, hi);
    if rest.len() >= sep.len() {
        assert(rest.take(sep.len() as int) == v.subrange(i, i + sep.len()));
    }
    assert(rest.drop_first() == v.subrange(i + 1, hi));
}

proof fn lemma_prepend_twice(a: Seq<char>, b: Seq<char>, r: Seq<Seq<char>>)
    requires
        r.len() >= 1,
    ensures
        prepend_first(a, prepend_first(b, r)) == prepend_first(a + b, r),
{
    assert(a + (b + r[0]) == (a + b) + r[0]);
}

proof fn lemma_prepend_empty(r: Seq<Seq<char>>)
    requires
        r.len() >= 1,
    ensures
        prepend_first(Seq::empty(), r) == r,
{
    assert(Seq::<char>::empty() + r[0] == r[0]);
    assert(r.update(0, r[0]) == r);
}

/// Each character of `v[lo..hi]` split apart, the way an empty separator
/// splits, then trimmed and filtered.
fn explode_every_char(v: &[char], lo: usize, hi: usize) -> (out: Vec<String>)
    requires
        lo <= hi <= v@.len(),
    ensures
        views(out@) == nonblank_trimmed(split_by(v@.subrange(lo as int, hi as int), Seq::empty())),
{
    let mut out: Vec<String> = Vec::new();
    let ghost mut done: Seq<Seq<char>> = seq![Seq::<char>::empty()];
    proof {
        lemma_nonblank_push(Seq::empty(), Seq::<char>::empty());
        assert(Seq::<Seq<char>>::empty().push(Seq::<char>::empty()) == done);
        assert(trim(Seq::<char>::empty()) == Seq::<char>::empty());
    }
    let mut i = lo;
    while i < hi
        invariant
            lo <= i <= hi <= v@.len(),
            done == seq![Seq::<char>::empty()] + v@.subrange(lo as int, i as int).map_values(|c: char| seq![c]),
            views(out@) == nonblank_trimmed(done),
        decreases hi - i,
    {
        keep_piece(v, i, i + 1, &mut out, Ghost(done));
        proof {
            assert(v@.subrange(i as int, i + 1) == seq![v@[i as int]]);
            assert(v@.subrange(lo as int, i + 1).map_values(|c: char| seq![c])
                == v@.subrange(lo as int, i as int).map_values(|c: char| seq![c]).push(seq![v@[i as int]]));
            done = done.push(v@.subrange(i as int, i + 1));
        }
        i = i + 1;
    }
    keep_piece(v, hi, hi, &mut out, Ghost(done));
    assert(done.push(v@.subrange(hi as int, hi as int)) == split_by(v@.subrange(lo as int, hi as int), Seq::empty()));
    out
}

/// The pieces of `v[lo..hi]` between occurrences of a non-empty `sep`,
/// trimmed and filtered.
fn explode_on(v: &[char], lo: usize, hi: usize, sep: &[char]) -> (out: Vec<String>)
    requires
        lo <= hi <= v@.len(),
        sep@.len() > 0,
    ensures
        views(out@) == nonblank_trimmed(split_by(v@.subrange(lo as int, hi as int), sep@)),
{
    let ghost whole = v@.subrange(lo as int, hi as int);
    let mut out: Vec<String> = Vec::new();
    let ghost mut done: Seq<Seq<char>> = Seq::empty();
    let mut start = lo;
    let mut i = lo;
    proof {
        lemma_split_nonempty(whole, sep@);
        assert(v@.subrange(lo as int, lo as int) == Seq::<char>::empty());
        lemma_prepend_empty(split_by(whole, sep@));
        assert(done + split_by(whole, sep@) == split_by(whole, sep@));
    }
    while i < hi
        invariant
            lo <= start <= i <= hi <= v@.len(),
            sep@.len() > 0,
            whole == v@.subrange(lo as int, hi as int),
            split_by(whole, sep@) == done + prepend_first(v@.subrange(start as int, i as int), split_by(v@.subrange(i as int, hi as int), sep@)),
            views(out@) == nonblank_trimmed(done),
        decreases hi - i,
    {
        if matches_at(v, i, hi, sep) {
            keep_piece(v, start, i, &mut out, Ghost(done));
            let next = i + sep.len();
            proof {
                let piece = v@.subrange(start as int, i as int);
                let r2 = split_by(v@.subrange(next as int, hi as int), sep@);
                lemma_split_step_match(v@, i as int, hi as int, sep@);
                lemma_split_nonempty(v@.subrange(next as int, hi as int), sep@);
                assert(prepend_first(piece, seq![Seq::<char>::empty()] + r2) == seq![piece] + r2);
                assert(v@.subrange(next as int, next as int) == Seq::<char>::empty());
                lemma_prepend_empty(r2);
                assert(done + (seq![piece] + r2) == done.push(piece) + r2);
                done = done.push(piece);
            }
            start = next;
            i = next;
        } else {
            proof {
                let r2 = split_by(v@.subrange(i + 1, hi as int), sep@);
                lemma_split_step_other(v@, i as int, hi as int, sep@);
                lemma_split_nonempty(v@.subrange(i + 1, hi as int), sep@);
                assert(v@.subrange(start as int, i + 1) == v@.subrange(start as int, i as int) + seq![v@[i as int]]);
                lemma_prepend_twice(v@.subrange(start as int, i as int), seq![v@[i as int]], r2);
            }
            i = i + 1;
        }
    }
    proof {
        assert(v@.subrange(hi as int, hi as int) == Seq::<char>::empty());
        assert(split_by(Seq::<char>::empty(), sep@) == seq![Seq::<char>::empty()]);
        assert(prepend_first(v@.subrange(start as int, hi as int), seq![Seq::<char>::empty()])
            == seq![v@.subrange(start as int, hi as int)]);
        assert(done + seq![v@.subrange(start as int, hi as int)] == done.push(v@.subrange(start as int, hi as int)));
    }
    keep_piece(v, start, hi, &mut out, Ghost(done));
    out
}

/// Every printed part is non-empty and has no surrounding white space.
pub proof fn law_parts_are_trimmed_and_nonblank(line: Seq<char>, sep: Seq<char>)
    ensures
        forall|j: int| 0 <= j < exploded(line, sep).len() ==>
            #[trigger] exploded(line, sep)[j].len() > 0 && trim(exploded(line, sep)[j]) == exploded(line, sep)[j],
{
    lemma_nonblank_parts(split_by(trim(line), sep));
}

proof fn lemma_nonblank_parts(pieces: Seq<Seq<char>>)
    ensures
        forall|j: int| 0 <= j < nonblank_trimmed(pieces).len() ==>
            #[trigger] nonblank_trimmed(pieces)[j].len() > 0 && trim(nonblank_trimmed(pieces)[j]) == nonblank_trimmed(pieces)[j],
    decreases pieces.len(),
{
    if pieces.len() > 0 {
        lemma_nonblank_parts(pieces.drop_last());
        law_trim_idempotent(pieces.last());
        let r = nonblank_trimmed(pieces.drop_last());
        assert forall|j: int| 0 <= j < nonblank_trimmed(pieces).len() implies
            #[trigger] nonblank_trimmed(pieces)[j].len() > 0 && trim(nonblank_trimmed(pieces)[j]) == nonblank_trimmed(pieces)[j] by {
            if j < r.len() {
                assert(nonblank_trimmed(pieces)[j] == r[j]);
            }
        }
    }
}

/// The parts of `line` split on `sep`, each trimmed, blank ones dropped.
pub fn explode(line: &str, sep: &str) -> (out: Vec<String>)
    ensures
        views(out@) == exploded(line@, sep@),
{
    let v = chars_of(line);
    let sv = chars_of(sep);
    let (lo, hi) = trim_span(v.as_slice(), 0, v.len());
    assert(v@.subrange(0, v@.len() as int) == v@);
    if sv.len() == 0 {
        explode_every_char(v.as_slice(), lo, hi)
    } else {
        explode_on(v.as_slice(), lo, hi, sv.as_slice())
    }
}

} // verus!
