//! Buffer N lines and join them into one line with a separator.
use vstd::prelude::*;
use crate::text::{join_strings, join_with, trim, trim_str, trimmed_all, views};

verus! {

broadcast use vstd::seq_lib::group_seq_properties;

/// Arguments of the command.
pub struct Args {
    /// Number of lines per joined group.
    pub n: usize,
    /// Separator between joined lines.
    pub s: String,
}

/// The group size the command uses: `n`, but at least 1.
pub open spec fn group_size(n: usize) -> nat {
    if n == 0 { 1 } else { n as nat }
}

/// `lines` cut into consecutive groups of `g` (the last one possibly
/// shorter), each group joined with `sep`.
pub open spec fn joined_groups(lines: Seq<Seq<char>>, g: nat, sep: Seq<char>) -> Seq<Seq<char>>
    decreases lines.len(),
{
    if g == 0 || lines.len() == 0 {
        Seq::empty()
    } else if lines.len() <= g {
        seq![join_with(lines, sep)]
    } else {
        seq![join_with(lines.take(g as int), sep)] + joined_groups(lines.skip(g as int), g, sep)
    }
}

/// What the command prints for the whole input.
pub open spec fn joined_output(lines: Seq<Seq<char>>, n: usize, sep: Seq<char>) -> Seq<Seq<char>> {
    joined_groups(trimmed_all(lines), group_size(n), sep)
}

/// The line-joining state: the lines of the group being filled.
pub struct Joiner {
    group: usize,
    sep: String,
    buffer: Vec<String>,
}

impl Joiner {
    /// The group size.
    pub closed spec fn size(&self) -> nat {
        self.group as nat
    }

    /// The separator.
    pub closed spec fn separator(&self) -> Seq<char> {
        self.sep@
    }

    /// The trimmed lines of the group being filled.
    pub closed spec fn pending(&self) -> Seq<Seq<char>> {
        views(self.buffer@)
    }

    /// The state is consistent: a group is never full while it is pending.
    #[verifier::type_invariant]
    spec fn group_not_full(self) -> bool {
        &&& self.group >= 1
        &&& self.buffer@.len() < self.group
    }

    /// A joiner for groups of `args.n` lines (at least 1) joined by `args.s`.
    pub fn new(args: &Args) -> (j: Joiner)
        ensures
            j.size() == group_size(args.n),
            j.size() >= 1,
            j.separator() == args.s@,
            j.pending() == Seq::<Seq<char>>::empty(),
    {
        let group = if args.n == 0 { 1 } else { args.n };
        let j = Joiner { group, sep: args.s.clone(), buffer: Vec::new() };
        assert(j.pending() == Seq::<Seq<char>>::empty());
        j
    }

    /// Takes the next line (trimmed); gives the joined group when it fills.
    pub fn push(&mut self, line: &str) -> (r: Option<String>)
        ensures
            old(self).pending().len() < old(self).size(),
            final(self).pending().len() < final(self).size(),
            final(self).size() == old(self).size(),
            final(self).separator() == old(self).separator(),
            old(self).pending().len() + 1 == old(self).size() ==> {
                &&& r matches Some(s) && s@ == join_with(old(self).pending().push(trim(line@)), old(self).separator())
                &&& final(self).pending() == Seq::<Seq<char>>::empty()
            },
            old(self).pending().len() + 1 < old(self).size() ==> {
                &&& r is None
                &&& final(self).pending() == old(self).pending().push(trim(line@))
            },
    {
        proof {
            use_type_invariant(&*self);
        }
        let t = trim_str(line);
        let mut buffer: Vec<String> = Vec::new();
        std::mem::swap(&mut buffer, &mut self.buffer);
        let ghost before = buffer@;
        buffer.push(t);
        assert(views(buffer@) == views(before).push(trim(line@)));
        if buffer.len() == self.group {
            let joined = join_strings(&buffer, buffer.len(), self.sep.as_str());
            assert(views(buffer@).take(buffer@.len() as int) == views(buffer@));
            assert(views(self.buffer@) == Seq::<Seq<char>>::empty());
            Some(joined)
        } else {
            self.buffer = buffer;
            None
        }
    }

    /// The last, partly filled group joined, if any line is pending.
    pub fn finish(&self) -> (r: Option<String>)
        ensures
            self.pending().len() == 0 ==> r is None,
            self.pending().len() > 0 ==> (r matches Some(s) && s@ == join_with(self.pending(), self.separator())),
    {
        if self.buffer.len() == 0 {
            None
        } else {
            assert(views(self.buffer@).take(self.buffer@.len() as int) == views(self.buffer@));
            Some(join_strings(&self.buffer, self.buffer.len(), self.sep.as_str()))
        }
    }
}

proof fn lemma_last_group(t: Seq<Seq<char>>, g: nat, sep: Seq<char>, k: nat, m: int)
    requires
        g >= 1,
        m == k * g,
        m < t.len() <= m + g,
    ensures
        joined_groups(t, g, sep) == joined_groups(t.take(m), g, sep).push(join_with(t.skip(m), sep)),
    decreases k,
{
    if k == 0 {
        assert(m == 0) by (nonlinear_arith)
            requires m == k * g, k == 0;
        assert(t.take(0) == Seq::<Seq<char>>::empty());
        assert(t.skip(0) == t);
        assert(joined_groups(t, g, sep) == seq![join_with(t, sep)]);
    } else {
        assert(m >= g) by (nonlinear_arith)
            requires m == k * g, k >= 1, g >= 1;
        assert((k - 1) * g == m - g) by (nonlinear_arith)
            requires m == k * g;
        let t2 = t.skip(g as int);
        lemma_last_group(t2, g, sep, (k - 1) as nat, m - g);
        let head = join_with(t.take(g as int), sep);
        assert(joined_groups(t, g, sep) == seq![head] + joined_groups(t2, g, sep));
        assert(t2.take(m - g) == t.take(m).skip(g as int));
        assert(t2.skip(m - g) == t.skip(m));
        assert(t.take(m).take(g as int) == t.take(g as int));
        if m == g {
            assert(t2.take(0) == Seq::<Seq<char>>::empty());
            assert(t.take(m).len() == g);
            assert(joined_groups(t.take(m), g, sep) == seq![head]);
            assert(joined_groups(t2.take(0), g, sep) == Seq::<Seq<char>>::empty());
        } else {
            assert(joined_groups(t.take(m), g, sep) == seq![head] + joined_groups(t2.take(m - g), g, sep));
        }
        let x = joined_groups(t2.take(m - g), g, sep);
        let y = join_with(t2.skip(m - g), sep);
        assert((seq![head] + x).push(y) == seq![head] + x.push(y));
    }
}

/// Appending one full group to a prefix of whole groups appends its join.
proof fn lemma_full_group(t: Seq<Seq<char>>, g: nat, sep: Seq<char>, k: nat, m: int)
    requires
        g >= 1,
        m == k * g,
        m + g <= t.len(),
    ensures
        joined_groups(t.take(m + g), g, sep) == joined_groups(t.take(m), g, sep).push(join_with(t.subrange(m, m + g), sep)),
        m + g == (k + 1) * g,
{
    assert(m + g == (k + 1) * g) by (nonlinear_arith)
        requires m == k * g;
    let t1 = t.take(m + g);
    lemma_last_group(t1, g, sep, k, m);
    assert(t1.take(m) == t.take(m));
    assert(t1.skip(m) == t.subrange(m, m + g));
}

/// Joins the lines in groups of `args.n` (at least 1) with `args.s`, each
/// line trimmed first; a last, shorter group is joined too.
#[verifier::rlimit(30)]
pub fn join_lines(lines: &Vec<String>, args: &Args) -> (out: Vec<String>)
    ensures
        views(out@) == joined_output(views(lines@), args.n, args.s@),
{
    let mut j = Joiner::new(args);
    let ghost t = trimmed_all(views(lines@));
    let ghost g = group_size(args.n);
    let ghost mut k: nat = 0;
    let mut out: Vec<String> = Vec::new();
    let mut i: usize = 0;
    assert(t.take(0) == Seq::<Seq<char>>::empty());
    assert(t.subrange(0, 0) == Seq::<Seq<char>>::empty());
    while i < lines.len()
        invariant
            i <= lines@.len(),
            t == trimmed_all(views(lines@)),
            t.len() == lines@.len(),
            g == group_size(args.n),
            j.pending().len() < j.size(),
            j.size() == g,
            j.separator() == args.s@,
            k * g + j.pending().len() == i,
            j.pending() == t.subrange((k * g) as int, i as int),
            views(out@) == joined_groups(t.take((k * g) as int), g, args.s@),
        decreases lines@.len() - i,
    {
        let ghost before = out@;
        let ghost m = (k * g) as int;
        let r = j.push(lines[i].as_str());
        assert(t[i as int] == trim(lines@[i as int]@));
        assert(t.subrange(m, i + 1) == t.subrange(m, i as int).push(t[i as int]));
        match r {
            Some(s) => {
                out.push(s);
                proof {
                    lemma_full_group(t, g, args.s@, k, m);
                    assert(views(out@) == views(before).push(s@));
                    k = k + 1;
                    assert(t.subrange((k * g) as int, i + 1) == Seq::<Seq<char>>::empty());
                }
            },
            None => {},
        }
        i = i + 1;
    }
    let ghost before = out@;
    let ghost m = (k * g) as int;
    match j.finish() {
        Some(s) => {
            out.push(s);
            proof {
                lemma_last_group(t, g, args.s@, k, m);
                assert(t.take(t.len() as int) == t);
                assert(t.skip(m) == t.subrange(m, t.len() as int));
                assert(views(out@) == views(before).push(s@));
            }
        },
        None => {
            assert(t.take(m) == t);
        },
    }
    out
}

/// The number of joined lines is the number of input lines divided by the
/// group size, rounded up.
pub proof fn law_group_count(lines: Seq<Seq<char>>, n: usize, sep: Seq<char>)
    ensures
        joined_output(lines, n, sep).len() == (lines.len() + group_size(n) - 1) / (group_size(n) as int),
{
    lemma_groups_len(trimmed_all(lines), group_size(n), sep);
}

proof fn lemma_groups_len(t: Seq<Seq<char>>, g: nat, sep: Seq<char>)
    requires
        g >= 1,
    ensures
        joined_groups(t, g, sep).len() == (t.len() + g - 1) / (g as int),
    decreases t.len(),
{
    let l = t.len();
    if l == 0 {
        assert((g - 1) / (g as int) == 0) by (nonlinear_arith)
            requires g >= 1;
    } else if l <= g {
        assert((l + g - 1) / (g as int) == 1) by (nonlinear_arith)
            requires 1 <= l <= g;
    } else {
        lemma_groups_len(t.skip(g as int), g, sep);
        assert((l + g - 1) / (g as int) == (l - g + g - 1) / (g as int) + 1) by (nonlinear_arith)
            requires l > g, g >= 1;
    }
}

/// When all the lines fit in one group, the output is one line: the trimmed
/// lines joined, with one separator between each two of them.
pub proof fn law_one_group_joins_everything(lines: Seq<Seq<char>>, n: usize, sep: Seq<char>)
    requires
        1 <= lines.len() <= group_size(n),
    ensures
        joined_output(lines, n, sep) == seq![join_with(trimmed_all(lines), sep)],
        joined_output(lines, n, sep)[0].len()
            == crate::text::total_len(trimmed_all(lines)) + (lines.len() - 1) * sep.len(),
{
    crate::text::law_join_length(trimmed_all(lines), sep);
}

} // verus!
