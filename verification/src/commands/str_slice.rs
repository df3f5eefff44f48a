//! Python-style slicing `[A:B:S]` of each line, by Unicode characters.
use vstd::prelude::*;
use crate::text::{chars_of, push_char};

verus! {

/// Arguments of the command: start, end and step of the slice.
pub struct Args {
    /// Start index (Python-style; negative counts from the end).
    pub a: Option<i64>,
    /// End index (exclusive; negative counts from the end).
    pub b: Option<i64>,
    /// Step.
    pub step: i64,
}

/// Where an index given to a slice with a positive step lands in `0..=len`.
pub open spec fn clamp_forward(i: int, len: int) -> int {
    if i < 0 {
        if i + len < 0 { 0 } else { i + len }
    } else {
        if i < len { i } else { len }
    }
}

/// Where an index given to a slice with a negative step lands in `-1..len`.
pub open spec fn clamp_backward(i: int, len: int) -> int {
    if i < 0 {
        if i + len < -1 { -1 } else { i + len }
    } else {
        if i < len - 1 { i } else { len - 1 }
    }
}

/// The first index a slice visits.
pub open spec fn slice_start(len: int, a: Option<i64>, step: int) -> int {
    if step > 0 {
        match a { Some(i) => clamp_forward(i as int, len), None => 0 }
    } else {
        match a { Some(i) => clamp_backward(i as int, len), None => len - 1 }
    }
}

/// The index at which a slice stops (exclusive).
pub open spec fn slice_end(len: int, b: Option<i64>, step: int) -> int {
    if step > 0 {
        match b { Some(i) => clamp_forward(i as int, len), None => len }
    } else {
        match b { Some(i) => clamp_backward(i as int, len), None => -1 }
    }
}

/// Whether an index `i` has not yet passed `end`, walking by `step`.
pub open spec fn before_end(i: int, end: int, step: int) -> bool {
    (step > 0 && i < end) || (step < 0 && i > end)
}

/// How far `i` still is from `end`, walking by `step`.
pub open spec fn distance_left(i: int, end: int, step: int) -> nat {
    if before_end(i, end, step) {
        if step > 0 { (end - i) as nat } else { (i - end) as nat }
    } else {
        0
    }
}

/// The characters at `i`, `i + step`, `i + 2*step`, ... before `end`, skipping
/// indices outside the sequence.
pub open spec fn stepped(chars: Seq<char>, i: int, end: int, step: int) -> Seq<char>
    decreases distance_left(i, end, step),
{
    if before_end(i, end, step) {
        let rest = stepped(chars, i + step, end, step);
        if 0 <= i < chars.len() { seq![chars[i]] + rest } else { rest }
    } else {
        Seq::empty()
    }
}

/// Python's `chars[a:b:step]`; empty for a zero step.
pub open spec fn py_slice(chars: Seq<char>, a: Option<i64>, b: Option<i64>, step: int) -> Seq<char> {
    if step == 0 {
        Seq::empty()
    } else {
        let len = chars.len() as int;
        stepped(chars, slice_start(len, a, step), slice_end(len, b, step), step)
    }
}

fn clamp_fwd(i: i64, len: i64) -> (r: i64)
    requires
        0 <= len,
    ensures
        r == clamp_forward(i as int, len as int),
{
    if i < 0 {
        if i + len < 0 { 0 } else { i + len }
    } else {
        if i < len { i } else { len }
    }
}

fn clamp_back(i: i64, len: i64) -> (r: i64)
    requires
        0 <= len,
    ensures
        r == clamp_backward(i as int, len as int),
{
    if i < 0 {
        if i + len < -1 { -1 } else { i + len }
    } else {
        if i < len - 1 { i } else { len - 1 }
    }
}

/// Python's string slicing: indexes by Unicode characters, allows negative
/// indices, a negative step walks backwards, missing bounds default by the
/// step's direction, and a zero step gives the empty string.
pub fn python_slice(s: &str, a: Option<i64>, b: Option<i64>, step: i64) -> (out: String)
    requires
        s@.len() <= i64::MAX,
    ensures
        out@ == py_slice(s@, a, b, step as int),
{
    if step == 0 {
        return String::new();
    }
    let chars = chars_of(s);
    let len = chars.len() as i64;
    let ghost g = chars@;
    let (start, end) = if step > 0 {
        (
            match a { Some(i) => clamp_fwd(i, len), None => 0 },
            match b { Some(i) => clamp_fwd(i, len), None => len },
        )
    } else {
        (
            match a { Some(i) => clamp_back(i, len), None => len - 1 },
            match b { Some(i) => clamp_back(i, len), None => -1 },
        )
    };
    let mut out = String::new();
    let mut i = start;
    while (step > 0 && i < end) || (step < 0 && i > end)
        invariant
            g == chars@,
            g == s@,
            len == g.len(),
            step != 0,
            out@ + stepped(g, i as int, end as int, step as int) == py_slice(g, a, b, step as int),
        decreases distance_left(i as int, end as int, step as int),
    {
        let ghost before = out@;
        if 0 <= i && i < len {
            push_char(&mut out, chars[i as usize]);
            assert(before + stepped(g, i as int, end as int, step as int)
                == out@ + stepped(g, i + step, end as int, step as int));
        }
        assert(out@ + stepped(g, i + step, end as int, step as int) == py_slice(g, a, b, step as int));
        match i.checked_add(step) {
            Some(next) => {
                i = next;
            },
            None => {
                assert(stepped(g, i + step, end as int, step as int) == Seq::<char>::empty());
                return out;
            },
        }
    }
    out
}


/// `s` without the line-ending characters (`'\r'`, `'\n'`) at its end.
pub open spec fn strip_line_end(s: Seq<char>) -> Seq<char>
    decreases s.len(),
{
    if s.len() > 0 && (s.last() == '\r' || s.last() == '\n') {
        strip_line_end(s.drop_last())
    } else {
        s
    }
}

/// What the command prints for one input line: the line, without its
/// line-ending characters, sliced as `args` says.
pub fn slice_line(line: &str, args: &Args) -> (out: String)
    requires
        line@.len() <= i64::MAX,
    ensures
        out@ == py_slice(strip_line_end(line@), args.a, args.b, args.step as int),
{
    let chars = chars_of(line);
    let mut j = chars.len();
    assert(chars@.subrange(0, j as int) == chars@);
    while j > 0 && (chars[j - 1] == '\r' || chars[j - 1] == '\n')
        invariant
            j <= chars@.len(),
            strip_line_end(line@) == strip_line_end(chars@.subrange(0, j as int)),
        decreases j,
    {
        assert(chars@.subrange(0, j as int).drop_last() == chars@.subrange(0, j - 1));
        j = j - 1;
    }
    let kept = crate::text::string_from(chars.as_slice(), 0, j);
    python_slice(kept.as_str(), args.a, args.b, args.step)
}

proof fn lemma_unit_step(chars: Seq<char>, i: int, end: int)
    requires
        0 <= i <= end <= chars.len(),
    ensures
        stepped(chars, i, end, 1) == chars.subrange(i, end),
    decreases end - i,
{
    if i < end {
        lemma_unit_step(chars, i + 1, end);
        assert(chars.subrange(i, end) == seq![chars[i]] + chars.subrange(i + 1, end));
    } else {
        assert(chars.subrange(i, end) == Seq::<char>::empty());
    }
}

proof fn lemma_empty_when_past_end(chars: Seq<char>, i: int, end: int, step: int)
    requires
        !before_end(i, end, step),
    ensures
        stepped(chars, i, end, step) == Seq::<char>::empty(),
{
}

/// A zero step gives the empty string.
pub proof fn law_zero_step_is_empty(chars: Seq<char>, a: Option<i64>, b: Option<i64>)
    ensures
        py_slice(chars, a, b, 0) == Seq::<char>::empty(),
{
}

/// With step 1 a slice is the contiguous run of characters between its
/// (resolved) bounds, or empty when the start is not before the end.
pub proof fn law_unit_step_is_subrange(chars: Seq<char>, a: Option<i64>, b: Option<i64>)
    ensures
        ({
            let len = chars.len() as int;
            let st = slice_start(len, a, 1);
            let en = slice_end(len, b, 1);
            py_slice(chars, a, b, 1) == if st < en { chars.subrange(st, en) } else { Seq::<char>::empty() }
        }),
{
    let len = chars.len() as int;
    let st = slice_start(len, a, 1);
    let en = slice_end(len, b, 1);
    if st < en {
        lemma_unit_step(chars, st, en);
    } else {
        lemma_empty_when_past_end(chars, st, en, 1);
    }
}

proof fn lemma_back_step(chars: Seq<char>, i: int)
    requires
        -1 <= i < chars.len(),
    ensures
        stepped(chars, i, -1, -1) == chars.subrange(0, i + 1).reverse(),
    decreases i + 1,
{
    if i >= 0 {
        lemma_back_step(chars, i - 1);
        assert(chars.subrange(0, i + 1).reverse() == seq![chars[i]] + chars.subrange(0, i).reverse());
    } else {
        assert(chars.subrange(0, i + 1).reverse() == Seq::<char>::empty());
    }
}

/// With step -1 and no bounds, a slice is the whole line reversed.
pub proof fn law_reverse_step_reverses(chars: Seq<char>)
    ensures
        py_slice(chars, None, None, -1) == chars.reverse(),
{
    lemma_back_step(chars, chars.len() - 1);
    assert(chars.subrange(0, chars.len() as int) == chars);
}

/// A negative index `-k` (with `k` at most the length) names the same
/// position as `len - k`, for either bound and any step.
pub proof fn law_negative_index_counts_from_end(chars: Seq<char>, k: i64, b: Option<i64>, step: int)
    requires
        1 <= k <= chars.len() <= i64::MAX,
    ensures
        py_slice(chars, Some((-k) as i64), b, step) == py_slice(chars, Some((chars.len() - k) as i64), b, step),
        py_slice(chars, b, Some((-k) as i64), step) == py_slice(chars, b, Some((chars.len() - k) as i64), step),
{
}

/// Reversing twice gives the line back, and so does the slice with step 1
/// and no bounds.
pub proof fn law_reverse_twice_and_unit_slice_are_identity(chars: Seq<char>)
    ensures
        py_slice(py_slice(chars, None, None, -1), None, None, -1) == chars,
        py_slice(chars, None, None, 1) == chars,
{
    law_reverse_step_reverses(chars);
    law_reverse_step_reverses(chars.reverse());
    assert(chars.reverse().reverse() =~= chars);
    law_unit_step_is_subrange(chars, None, None);
    if chars.len() == 0 {
        assert(chars == Seq::<char>::empty());
    } else {
        assert(chars.subrange(0, chars.len() as int) == chars);
    }
}

proof fn lemma_stepped_shift(chars: Seq<char>, st: int, en: int, i: int, k: int)
    requires
        k > 0,
        0 <= st <= i,
        st <= en <= chars.len(),
    ensures
        stepped(chars, i, en, k) == stepped(chars.subrange(st, en), i - st, en - st, k),
    decreases distance_left(i, en, k),
{
    let u = chars.subrange(st, en);
    if i < en {
        lemma_stepped_shift(chars, st, en, i + k, k);
        assert(u[i - st] == chars[i]);
        assert(stepped(u, i - st, en - st, k) == seq![u[i - st]] + stepped(u, i - st + k, en - st, k));
    }
}

/// With a positive step `k`, a slice is every `k`-th character of the
/// step-1 slice with the same bounds.
pub proof fn law_stride_picks_from_unit_slice(chars: Seq<char>, a: Option<i64>, b: Option<i64>, k: int)
    requires
        k > 0,
    ensures
        py_slice(chars, a, b, k) == py_slice(py_slice(chars, a, b, 1), None, None, k),
{
    let len = chars.len() as int;
    let st = slice_start(len, a, 1);
    let en = slice_end(len, b, 1);
    assert(slice_start(len, a, k) == st && slice_end(len, b, k) == en);
    law_unit_step_is_subrange(chars, a, b);
    if st < en {
        lemma_stepped_shift(chars, st, en, st, k);
    } else {
        assert(stepped(Seq::<char>::empty(), 0, 0, k) == Seq::<char>::empty());
    }
}

/// With step 1 and non-negative bounds `a <= b`, a slice keeps the
/// characters from `a` up to (not including) `b`; a bound at or past the
/// end of the line stands for the end of the line.
pub proof fn law_nonnegative_bounds_cut_at_line_end(chars: Seq<char>, a: i64, b: i64)
    requires
        0 <= a <= b,
    ensures
        py_slice(chars, Some(a), Some(b), 1) == chars.subrange(
            if a < chars.len() { a as int } else { chars.len() as int },
            if b < chars.len() { b as int } else { chars.len() as int },
        ),
{
    let len = chars.len() as int;
    let st = if a < len { a as int } else { len };
    let en = if b < len { b as int } else { len };
    law_unit_step_is_subrange(chars, Some(a), Some(b));
    if st >= en {
        assert(chars.subrange(st, en) == Seq::<char>::empty());
    }
}

/// Cutting a line at `k` characters or more leaves it whole.
pub proof fn law_long_cut_keeps_line(chars: Seq<char>, k: i64)
    requires
        k >= chars.len(),
    ensures
        py_slice(chars, Some(0), Some(k), 1) == chars,
        py_slice(chars, None, Some(k), 1) == chars,
{
    law_nonnegative_bounds_cut_at_line_end(chars, 0, k);
    law_unit_step_is_subrange(chars, None, Some(k));
    assert(chars.subrange(0, chars.len() as int) == chars);
    if chars.len() == 0 {
        assert(chars == Seq::<char>::empty());
    }
}

proof fn lemma_back_range(chars: Seq<char>, i: int, e: int)
    requires
        -1 <= e <= i < chars.len(),
    ensures
        stepped(chars, i, e, -1) == chars.subrange(e + 1, i + 1).reverse(),
    decreases i - e,
{
    if i > e {
        lemma_back_range(chars, i - 1, e);
        assert(chars.subrange(e + 1, i + 1).reverse() == seq![chars[i]] + chars.subrange(e + 1, i).reverse());
    } else {
        assert(chars.subrange(e + 1, i + 1).reverse() == Seq::<char>::empty());
    }
}

/// With step -1 and non-negative bounds, a slice is the characters after
/// `b` up to and including `a`, in reverse; a bound past the end of the line
/// stands for its last character.
pub proof fn law_backward_slice_reverses_range(chars: Seq<char>, a: i64, b: i64)
    requires
        0 <= b <= a,
        chars.len() >= 1,
    ensures
        ({
            let last = chars.len() - 1;
            let hi = if a < last { a as int } else { last };
            let lo = if b < last { b as int } else { last };
            py_slice(chars, Some(a), Some(b), -1) == chars.subrange(lo + 1, hi + 1).reverse()
        }),
{
    let last = chars.len() - 1;
    let hi = if a < last { a as int } else { last };
    let lo = if b < last { b as int } else { last };
    lemma_back_range(chars, hi, lo);
}

/// A slice never holds more characters than the line it comes from.
pub proof fn law_slice_no_longer_than_line(chars: Seq<char>, a: Option<i64>, b: Option<i64>, step: int)
    ensures
        py_slice(chars, a, b, step).len() <= chars.len(),
{
    if step != 0 {
        let len = chars.len() as int;
        lemma_stepped_len(chars, slice_start(len, a, step), slice_end(len, b, step), step);
    }
}

proof fn lemma_stepped_len(chars: Seq<char>, i: int, end: int, step: int)
    requires
        step != 0,
    ensures
        stepped(chars, i, end, step).len() <= if step > 0 {
            if i < 0 { chars.len() as int } else if i < chars.len() { chars.len() - i } else { 0 }
        } else {
            if i >= chars.len() { chars.len() as int } else if i >= 0 { i + 1 } else { 0 }
        },
    decreases distance_left(i, end, step),
{
    if before_end(i, end, step) {
        lemma_stepped_len(chars, i + step, end, step);
    }
}

} // verus!
