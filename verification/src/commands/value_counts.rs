//! Count occurrences of each distinct (trimmed) line; report them by count.
use vstd::prelude::*;
use vstd::string::StringExecFns;
use crate::text::{decimal, push_char, push_decimal, trim, trim_str, trimmed_all, views};

verus! {

broadcast use vstd::seq_lib::group_seq_properties;

/// A distinct line and how many times it occurred.
pub type Entry = (Seq<char>, nat);

/// The position of the entry whose line is `x`, or -1 when there is none.
pub open spec fn key_pos(r: Seq<Entry>, x: Seq<char>) -> int
    decreases r.len(),
{
    if r.len() == 0 {
        -1
    } else if r[0].0 == x {
        0
    } else {
        let p = key_pos(r.drop_first(), x);
        if p < 0 { -1 } else { p + 1 }
    }
}

/// The tally after one more occurrence of `x`: its count goes up by one, or
/// it is added at the end with count 1.
pub open spec fn tally_step(r: Seq<Entry>, x: Seq<char>) -> Seq<Entry> {
    let p = key_pos(r, x);
    if p >= 0 { r.update(p, (x, r[p].1 + 1)) } else { r.push((x, 1)) }
}

/// The distinct lines of `ts` in order of first occurrence, each with its
/// number of occurrences.
pub open spec fn tally(ts: Seq<Seq<char>>) -> Seq<Entry>
    decreases ts.len(),
{
    if ts.len() == 0 {
        Seq::empty()
    } else {
        tally_step(tally(ts.drop_last()), ts.last())
    }
}

/// How many times `x` occurs in `ts`.
pub open spec fn occurrences(ts: Seq<Seq<char>>, x: Seq<char>) -> nat
    decreases ts.len(),
{
    if ts.len() == 0 {
        0
    } else {
        occurrences(ts.drop_last(), x) + if ts.last() == x { 1nat } else { 0nat }
    }
}

proof fn lemma_key_pos(r: Seq<Entry>, x: Seq<char>)
    ensures
        -1 <= key_pos(r, x) < r.len(),
        key_pos(r, x) >= 0 ==> r[key_pos(r, x)].0 == x,
        key_pos(r, x) >= 0 ==> forall|m: int| 0 <= m < key_pos(r, x) ==> r[m].0 != x,
        key_pos(r, x) < 0 ==> forall|m: int| 0 <= m < r.len() ==> r[m].0 != x,
    decreases r.len(),
{
    if r.len() > 0 && r[0].0 != x {
        lemma_key_pos(r.drop_first(), x);
        assert forall|m: int| 1 <= m < r.len() implies r[m] == r.drop_first()[m - 1] by {}
    }
}

proof fn lemma_key_pos_found(r: Seq<Entry>, x: Seq<char>, j: int)
    requires
        0 <= j < r.len(),
        r[j].0 == x,
        forall|m: int| 0 <= m < j ==> r[m].0 != x,
    ensures
        key_pos(r, x) == j,
{
    lemma_key_pos(r, x);
    if key_pos(r, x) < 0 {
        assert(r[j].0 != x);
    }
}

proof fn lemma_key_pos_absent(r: Seq<Entry>, x: Seq<char>)
    requires
        forall|m: int| 0 <= m < r.len() ==> r[m].0 != x,
    ensures
        key_pos(r, x) == -1,
{
    lemma_key_pos(r, x);
}

/// Whether the tally has an entry for `x`.
pub open spec fn has_key(r: Seq<Entry>, x: Seq<char>) -> bool {
    exists|j: int| 0 <= j < r.len() && r[j].0 == x
}

proof fn lemma_no_occurrence(ts: Seq<Seq<char>>, x: Seq<char>)
    requires
        forall|k: int| 0 <= k < ts.len() ==> ts[k] != x,
    ensures
        occurrences(ts, x) == 0,
    decreases ts.len(),
{
    if ts.len() > 0 {
        lemma_no_occurrence(ts.drop_last(), x);
    }
}

/// The tally is exact: its lines are distinct, each input line has an entry,
/// and each entry's count is the number of times its line occurs (at least 1).
pub proof fn law_tally_counts_occurrences(ts: Seq<Seq<char>>)
    ensures
        forall|i: int, j: int| 0 <= i < j < tally(ts).len() ==> tally(ts)[i].0 != tally(ts)[j].0,
        forall|k: int| 0 <= k < ts.len() ==> has_key(tally(ts), #[trigger] ts[k]),
        forall|j: int| 0 <= j < tally(ts).len() ==> tally(ts)[j].1 == occurrences(ts, tally(ts)[j].0),
        forall|j: int| 0 <= j < tally(ts).len() ==> tally(ts)[j].1 >= 1,
    decreases ts.len(),
{
    if ts.len() > 0 {
        let prev = ts.drop_last();
        let x = ts.last();
        let r = tally(prev);
        law_tally_counts_occurrences(prev);
        lemma_key_pos(r, x);
        let p = key_pos(r, x);
        let t = tally(ts);
        assert(t == tally_step(r, x));
        if p >= 0 {
            assert forall|k: int| 0 <= k < ts.len() implies has_key(t, ts[k]) by {
                if k < ts.len() - 1 {
                    assert(ts[k] == prev[k]);
                    assert(has_key(r, prev[k]));
                    let j = choose|j: int| 0 <= j < r.len() && r[j].0 == prev[k];
                    assert(t[j].0 == ts[k]);
                } else {
                    assert(t[p].0 == ts[k]);
                }
            }
        } else {
            assert forall|k: int| 0 <= k < prev.len() implies prev[k] != x by {
                assert(has_key(r, prev[k]));
                let j = choose|j: int| 0 <= j < r.len() && r[j].0 == prev[k];
            }
            lemma_no_occurrence(prev, x);
            assert forall|k: int| 0 <= k < ts.len() implies has_key(t, ts[k]) by {
                if k < ts.len() - 1 {
                    assert(ts[k] == prev[k]);
                    assert(has_key(r, prev[k]));
                    let j = choose|j: int| 0 <= j < r.len() && r[j].0 == prev[k];
                    assert(t[j].0 == ts[k]);
                } else {
                    assert(t[r.len() as int].0 == ts[k]);
                }
            }
        }
    }
}

/// The sum of the counts.
pub open spec fn count_sum(r: Seq<Entry>) -> nat
    decreases r.len(),
{
    if r.len() == 0 {
        0
    } else {
        count_sum(r.drop_last()) + r.last().1
    }
}

proof fn lemma_count_sum_concat(a: Seq<Entry>, b: Seq<Entry>)
    ensures
        count_sum(a + b) == count_sum(a) + count_sum(b),
    decreases b.len(),
{
    if b.len() == 0 {
        assert(a + b == a);
    } else {
        lemma_count_sum_concat(a, b.drop_last());
        assert((a + b).drop_last() == a + b.drop_last());
    }
}

proof fn lemma_count_sum_bump(r: Seq<Entry>, p: int, x: Seq<char>)
    requires
        0 <= p < r.len(),
    ensures
        count_sum(r.update(p, (x, r[p].1 + 1))) == count_sum(r) + 1,
{
    let l = r.take(p);
    let t = r.skip(p + 1);
    let e = (x, r[p].1 + 1);
    assert(r == l + seq![r[p]] + t);
    assert(r.update(p, e) == l + seq![e] + t);
    lemma_count_sum_concat(l + seq![r[p]], t);
    lemma_count_sum_concat(l, seq![r[p]]);
    lemma_count_sum_concat(l + seq![e], t);
    lemma_count_sum_concat(l, seq![e]);
    assert(seq![r[p]].drop_last() == Seq::<Entry>::empty());
    assert(seq![e].drop_last() == Seq::<Entry>::empty());
}

/// Every line is counted exactly once: the counts add up to the number of lines.
pub proof fn law_counts_sum_to_line_count(ts: Seq<Seq<char>>)
    ensures
        count_sum(tally(ts)) == ts.len(),
    decreases ts.len(),
{
    if ts.len() > 0 {
        let r = tally(ts.drop_last());
        law_counts_sum_to_line_count(ts.drop_last());
        lemma_key_pos(r, ts.last());
        let p = key_pos(r, ts.last());
        if p >= 0 {
            lemma_count_sum_bump(r, p, ts.last());
        } else {
            assert(r.push((ts.last(), 1nat)).drop_last() == r);
        }
    }
}

/// Where an entry with count `c` goes in `s`: after the leading entries
/// whose count is at most `c`.
pub open spec fn upper_pos(s: Seq<Entry>, c: nat) -> int
    decreases s.len(),
{
    if s.len() == 0 {
        0
    } else if s[0].1 > c {
        0
    } else {
        upper_pos(s.drop_first(), c) + 1
    }
}

/// The entries ordered by ascending count; entries with equal counts keep
/// their order (a stable sort).
pub open spec fn sort_by_count(r: Seq<Entry>) -> Seq<Entry>
    decreases r.len(),
{
    if r.len() == 0 {
        Seq::empty()
    } else {
        let s = sort_by_count(r.drop_last());
        s.insert(upper_pos(s, r.last().1), r.last())
    }
}

/// Ascending by count.
pub open spec fn ascending(s: Seq<Entry>) -> bool {
    forall|i: int, j: int| 0 <= i < j < s.len() ==> s[i].1 <= s[j].1
}

proof fn lemma_upper_pos(s: Seq<Entry>, c: nat, p: int)
    requires
        0 <= p <= s.len(),
        forall|m: int| 0 <= m < p ==> s[m].1 <= c,
        p == s.len() || s[p].1 > c,
    ensures
        upper_pos(s, c) == p,
    decreases s.len(),
{
    if s.len() > 0 && p > 0 {
        assert forall|m: int| 0 <= m < p - 1 implies s.drop_first()[m].1 <= c by {
            assert(s.drop_first()[m] == s[m + 1]);
        }
        lemma_upper_pos(s.drop_first(), c, p - 1);
    }
}

proof fn lemma_upper_pos_bounds(s: Seq<Entry>, c: nat)
    ensures
        0 <= upper_pos(s, c) <= s.len(),
        forall|m: int| 0 <= m < upper_pos(s, c) ==> s[m].1 <= c,
        ascending(s) ==> forall|m: int| upper_pos(s, c) <= m < s.len() ==> s[m].1 > c,
    decreases s.len(),
{
    if s.len() > 0 && s[0].1 <= c {
        lemma_upper_pos_bounds(s.drop_first(), c);
        assert forall|m: int| 0 <= m < upper_pos(s, c) implies s[m].1 <= c by {
            if m > 0 {
                assert(s[m] == s.drop_first()[m - 1]);
            }
        }
        if ascending(s) {
            assert(ascending(s.drop_first()));
            assert forall|m: int| upper_pos(s, c) <= m < s.len() implies s[m].1 > c by {
                assert(s[m] == s.drop_first()[m - 1]);
            }
        }
    }
}

/// Reporting by count gives the entries in ascending order of count.
pub proof fn law_report_is_ascending(r: Seq<Entry>)
    ensures
        ascending(sort_by_count(r)),
    decreases r.len(),
{
    if r.len() > 0 {
        let s = sort_by_count(r.drop_last());
        law_report_is_ascending(r.drop_last());
        lemma_upper_pos_bounds(s, r.last().1);
        let p = upper_pos(s, r.last().1);
        let t = s.insert(p, r.last());
        assert forall|i: int, j: int| 0 <= i < j < t.len() implies t[i].1 <= t[j].1 by {
            if j < p {
            } else if j == p {
            } else if i < p {
            } else if i == p {
                assert(t[j] == s[j - 1]);
            } else {
                assert(t[i] == s[i - 1]);
                assert(t[j] == s[j - 1]);
            }
        }
    }
}

/// Reporting by count reorders the entries and changes nothing else.
pub proof fn law_report_is_permutation(r: Seq<Entry>)
    ensures
        sort_by_count(r).to_multiset() == r.to_multiset(),
    decreases r.len(),
{
    broadcast use vstd::seq_lib::group_to_multiset_ensures;
    if r.len() > 0 {
        let s = sort_by_count(r.drop_last());
        law_report_is_permutation(r.drop_last());
        lemma_upper_pos_bounds(s, r.last().1);
        let p = upper_pos(s, r.last().1);
        assert(s.insert(p, r.last()) == s.take(p) + (seq![r.last()] + s.skip(p)));
        vstd::seq_lib::lemma_multiset_commutative(s.take(p), seq![r.last()] + s.skip(p));
        vstd::seq_lib::lemma_multiset_commutative(seq![r.last()], s.skip(p));
        vstd::seq_lib::lemma_multiset_commutative(s.take(p), s.skip(p));
        assert(s == s.take(p) + s.skip(p));
        assert(r == r.drop_last().push(r.last()));
    }
}

/// The printed form of an entry: its count, a space, its line.
pub open spec fn report_line(e: Entry) -> Seq<char> {
    decimal(e.1) + seq![' '] + e.0
}

/// What the command prints for a tally: one line per entry, by ascending count.
pub open spec fn report(r: Seq<Entry>) -> Seq<Seq<char>> {
    sort_by_count(r).map_values(|e: Entry| report_line(e))
}

/// The counting state: the distinct trimmed lines seen so far with their
/// counts, in order of first occurrence, and the number of lines counted.
///
/// The entries are kept in a `Vec` and looked up by a linear scan; a line's
/// first occurrence fixes its place, so lines with equal counts are reported
/// in the order in which they first appeared.
pub struct Counter {
    entries: Vec<(String, u64)>,
    total: u64,
}

/// The model of a counter's entries.
pub open spec fn entries_view(v: Seq<(String, u64)>) -> Seq<Entry> {
    v.map_values(|e: (String, u64)| (e.0@, e.1 as nat))
}

impl Counter {
    /// The tally so far.
    pub closed spec fn counts(&self) -> Seq<Entry> {
        entries_view(self.entries@)
    }

    /// How many lines were counted.
    pub closed spec fn seen(&self) -> nat {
        self.total as nat
    }

    /// No count exceeds the number of lines counted.
    #[verifier::type_invariant]
    spec fn counts_bounded(self) -> bool {
        forall|j: int| 0 <= j < self.entries@.len() ==> self.entries@[j].1 <= self.total
    }

    /// A counter that has seen nothing.
    pub fn new() -> (c: Counter)
        ensures
            c.counts() == Seq::<Entry>::empty(),
            c.seen() == 0,
    {
        let c = Counter { entries: Vec::new(), total: 0 };
        assert(c.counts() == Seq::<Entry>::empty());
        c
    }

    /// How many lines were counted.
    pub fn lines_seen(&self) -> (n: u64)
        ensures
            n == self.seen(),
    {
        self.total
    }

    /// Counts one more line, by its trimmed text.
    pub fn add(&mut self, line: &str)
        requires
            old(self).seen() < u64::MAX,
        ensures
            final(self).seen() == old(self).seen() + 1,
            final(self).counts() == tally_step(old(self).counts(), trim(line@)),
    {
        proof {
            use_type_invariant(&*self);
        }
        let key = trim_str(line);
        let ghost r = self.counts();
        let total = self.total;
        let mut entries: Vec<(String, u64)> = Vec::new();
        std::mem::swap(&mut entries, &mut self.entries);
        let mut j: usize = 0;
        while j < entries.len()
            invariant
                j <= entries@.len(),
                r == entries_view(entries@),
                r == old(self).counts(),
                key@ == trim(line@),
                total == old(self).total,
                total < u64::MAX,
                forall|m: int| 0 <= m < entries@.len() ==> entries@[m].1 <= total,
                forall|m: int| 0 <= m < j ==> r[m].0 != key@,
            decreases entries@.len() - j,
        {
            if entries[j].0 == key {
                proof { lemma_key_pos_found(r, key@, j as int); }
                let c = entries[j].1;
                entries.set(j, (key, c + 1));
                assert(entries_view(entries@) == r.update(j as int, (key@, r[j as int].1 + 1)));
                *self = Counter { entries, total: total + 1 };
                return;
            }
            j = j + 1;
        }
        proof { lemma_key_pos_absent(r, key@); }
        entries.push((key, 1));
        assert(entries_view(entries@) == r.push((key@, 1)));
        *self = Counter { entries, total: total + 1 };
    }

    /// The entries ordered by ascending count, ties in order of first occurrence.
    pub fn by_count(&self) -> (out: Vec<(String, u64)>)
        ensures
            entries_view(out@) == sort_by_count(self.counts()),
    {
        let ghost r = self.counts();
        let mut out: Vec<(String, u64)> = Vec::new();
        let mut i: usize = 0;
        assert(r.take(0) == Seq::<Entry>::empty());
        while i < self.entries.len()
            invariant
                i <= self.entries@.len(),
                r == entries_view(self.entries@),
                entries_view(out@) == sort_by_count(r.take(i as int)),
            decreases self.entries@.len() - i,
        {
            let c = self.entries[i].1;
            let ghost s = entries_view(out@);
            let mut p: usize = 0;
            while p < out.len() && out[p].1 <= c
                invariant
                    p <= out@.len(),
                    s == entries_view(out@),
                    c == r[i as int].1,
                    forall|m: int| 0 <= m < p ==> s[m].1 <= c,
                decreases out@.len() - p,
            {
                p = p + 1;
            }
            proof { lemma_upper_pos(s, c as nat, p as int); }
            let e = (self.entries[i].0.clone(), c);
            out.insert(p, e);
            assert(r.take(i + 1).drop_last() == r.take(i as int));
            assert(entries_view(out@) == s.insert(p as int, r[i as int]));
            i = i + 1;
        }
        assert(r.take(self.entries@.len() as int) == r);
        out
    }

    /// The printed report: `count line`, by ascending count.
    pub fn report(&self) -> (out: Vec<String>)
        ensures
            views(out@) == report(self.counts()),
    {
        let sorted = self.by_count();
        let ghost srt = entries_view(sorted@);
        let mut out: Vec<String> = Vec::new();
        let mut i: usize = 0;
        while i < sorted.len()
            invariant
                i <= sorted@.len(),
                srt == entries_view(sorted@),
                srt == sort_by_count(self.counts()),
                views(out@) == srt.take(i as int).map_values(|e: Entry| report_line(e)),
            decreases sorted@.len() - i,
        {
            let mut line = String::new();
            push_decimal(&mut line, sorted[i].1);
            push_char(&mut line, ' ');
            line.append(sorted[i].0.as_str());
            assert(srt[i as int] == (sorted@[i as int].0@, sorted@[i as int].1 as nat));
            assert(line@ == report_line(srt[i as int]));
            let ghost before = out@;
            out.push(line);
            assert(srt.take(i + 1) == srt.take(i as int).push(srt[i as int]));
            assert(views(out@) == views(before).push(report_line(srt[i as int])));
            i = i + 1;
        }
        assert(srt.take(sorted@.len() as int) == srt);
        out
    }
}

/// Counts the trimmed lines and reports each distinct one with its count,
/// by ascending count.
pub fn value_counts(lines: &Vec<String>) -> (out: Vec<String>)
    requires
        lines@.len() < u64::MAX,
    ensures
        views(out@) == report(tally(trimmed_all(views(lines@)))),
{
    let ghost ts = trimmed_all(views(lines@));
    let mut c = Counter::new();
    let mut i: usize = 0;
    assert(ts.take(0) == Seq::<Seq<char>>::empty());
    while i < lines.len()
        invariant
            i <= lines@.len() < u64::MAX,
            ts == trimmed_all(views(lines@)),
            c.seen() == i,
            c.counts() == tally(ts.take(i as int)),
        decreases lines@.len() - i,
    {
        c.add(lines[i].as_str());
        assert(ts.take(i + 1).drop_last() == ts.take(i as int));
        assert(ts[i as int] == trim(lines@[i as int]@));
        i = i + 1;
    }
    assert(ts.take(lines@.len() as int) == ts);
    c.report()
}

} // verus!
