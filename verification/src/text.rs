//! Character-level helpers shared by the commands: whitespace, trimming,
//! conversions between `str`, `String` and sequences of characters.
use vstd::prelude::*;
use vstd::string::StringExecFns;

verus! {

broadcast use vstd::string::group_string_axioms;

/// The Unicode `White_Space` property, as `char::is_whitespace` documents it.
pub open spec fn is_ws(c: char) -> bool {
    ||| ('\u{9}' <= c && c <= '\u{d}')
    ||| c == ' '
    ||| c == '\u{85}'
    ||| c == '\u{a0}'
    ||| c == '\u{1680}'
    ||| ('\u{2000}' <= c && c <= '\u{200a}')
    ||| c == '\u{2028}'
    ||| c == '\u{2029}'
    ||| c == '\u{202f}'
    ||| c == '\u{205f}'
    ||| c == '\u{3000}'
}

/// Whether `c` is white space.
pub fn is_whitespace(c: char) -> (r: bool)
    ensures
        r == is_ws(c),
{
    ('\u{9}' <= c && c <= '\u{d}') || c == ' ' || c == '\u{85}' || c == '\u{a0}' || c
        == '\u{1680}' || ('\u{2000}' <= c && c <= '\u{200a}') || c == '\u{2028}' || c
        == '\u{2029}' || c == '\u{202f}' || c == '\u{205f}' || c == '\u{3000}'
}

/// The characters of `s`, in order.
pub fn chars_of(s: &str) -> (v: Vec<char>)
    ensures
        v@ == s@,
{
    let mut v: Vec<char> = Vec::new();
    for c in it: s.chars()
        invariant
            v@ == it.seq().take(it.index() as int),
    {
        v.push(c);
    }
    v
}


/// `s` without its leading white space.
pub open spec fn trim_start(s: Seq<char>) -> Seq<char>
    decreases s.len(),
{
    if s.len() > 0 && is_ws(s[0]) {
        trim_start(s.drop_first())
    } else {
        s
    }
}

/// `s` without its trailing white space.
pub open spec fn trim_end(s: Seq<char>) -> Seq<char>
    decreases s.len(),
{
    if s.len() > 0 && is_ws(s.last()) {
        trim_end(s.drop_last())
    } else {
        s
    }
}

/// `s` without leading and trailing white space, as `str::trim` gives it.
pub open spec fn trim(s: Seq<char>) -> Seq<char> {
    trim_end(trim_start(s))
}

proof fn lemma_trim_start_shape(s: Seq<char>)
    ensures
        trim_start(s).len() <= s.len(),
        trim_start(s) == s.skip(s.len() - trim_start(s).len()),
        trim_start(s).len() > 0 ==> !is_ws(trim_start(s)[0]),
    decreases s.len(),
{
    if s.len() > 0 && is_ws(s[0]) {
        lemma_trim_start_shape(s.drop_first());
        assert(s.drop_first().skip(s.drop_first().len() - trim_start(s).len()) == s.skip(s.len() - trim_start(s).len()));
    } else {
        assert(s.skip(0) == s);
    }
}

proof fn lemma_trim_end_shape(s: Seq<char>)
    ensures
        trim_end(s).len() <= s.len(),
        trim_end(s) == s.take(trim_end(s).len() as int),
        trim_end(s).len() > 0 ==> !is_ws(trim_end(s).last()),
    decreases s.len(),
{
    if s.len() > 0 && is_ws(s.last()) {
        lemma_trim_end_shape(s.drop_last());
        assert(s.drop_last().take(trim_end(s).len() as int) == s.take(trim_end(s).len() as int));
    } else {
        assert(s.take(s.len() as int) == s);
    }
}

/// Trimming twice is trimming once; a trimmed text neither starts nor ends
/// with white space.
pub proof fn law_trim_idempotent(s: Seq<char>)
    ensures
        trim(trim(s)) == trim(s),
        trim(s).len() > 0 ==> !is_ws(trim(s)[0]) && !is_ws(trim(s).last()),
{
    let a = trim_start(s);
    let t = trim_end(a);
    lemma_trim_start_shape(s);
    lemma_trim_end_shape(a);
    if t.len() > 0 {
        assert(t[0] == a[0]);
        assert(trim_start(t) == t);
        assert(trim_end(t) == t);
    } else {
        assert(trim_start(t) == t);
        assert(trim_end(t) == t);
    }
}

/// Trimming removes white space from the two ends and nothing else: the
/// line is its white-space prefix, the trimmed text, and its white-space
/// suffix.
pub proof fn law_trim_removes_only_outer_white_space(s: Seq<char>)
    ensures
        exists|i: int, j: int| 0 <= i <= j <= s.len()
            && #[trigger] s.subrange(i, j) == trim(s)
            && (forall|k: int| 0 <= k < i ==> is_ws(s[k]))
            && (forall|k: int| j <= k < s.len() ==> is_ws(s[k])),
{
    lemma_trim_start_outer(s);
    let a = trim_start(s);
    let i = s.len() - a.len();
    lemma_trim_end_outer(a);
    let m = trim_end(a).len() as int;
    let j = i + m;
    assert(s.subrange(i, j) == trim(s));
    assert forall|k: int| j <= k < s.len() implies is_ws(s[k]) by {
        assert(s[k] == a[k - i]);
    }
}

proof fn lemma_trim_start_outer(s: Seq<char>)
    ensures
        trim_start(s).len() <= s.len(),
        trim_start(s) == s.subrange(s.len() - trim_start(s).len(), s.len() as int),
        forall|k: int| 0 <= k < s.len() - trim_start(s).len() ==> is_ws(s[k]),
    decreases s.len(),
{
    if s.len() > 0 && is_ws(s[0]) {
        lemma_trim_start_outer(s.drop_first());
        assert forall|k: int| 0 <= k < s.len() - trim_start(s).len() implies is_ws(s[k]) by {
            if k > 0 {
                assert(s[k] == s.drop_first()[k - 1]);
            }
        }
    } else {
        assert(s.subrange(0, s.len() as int) == s);
    }
}

proof fn lemma_trim_end_outer(s: Seq<char>)
    ensures
        trim_end(s).len() <= s.len(),
        trim_end(s) == s.subrange(0, trim_end(s).len() as int),
        forall|k: int| trim_end(s).len() <= k < s.len() ==> is_ws(s[k]),
    decreases s.len(),
{
    if s.len() > 0 && is_ws(s.last()) {
        lemma_trim_end_outer(s.drop_last());
        assert forall|k: int| trim_end(s).len() <= k < s.len() implies is_ws(s[k]) by {
            if k < s.len() - 1 {
                assert(s[k] == s.drop_last()[k]);
            }
        }
    } else {
        assert(s.subrange(0, s.len() as int) == s);
    }
}

/// Appends `c` to `s` (`String::push`).
#[verifier::external_body]
pub(crate) fn push_char(s: &mut String, c: char)
    ensures
        final(s)@ == old(s)@.push(c),
{
    s.push(c);
}

/// The string made of `v[lo..hi]`.
pub fn string_from(v: &[char], lo: usize, hi: usize) -> (s: String)
    requires
        lo <= hi <= v@.len(),
    ensures
        s@ == v@.subrange(lo as int, hi as int),
{
    let mut s = String::new();
    let mut i = lo;
    while i < hi
        invariant
            lo <= i <= hi <= v@.len(),
            s@ == v@.subrange(lo as int, i as int),
        decreases hi - i,
    {
        push_char(&mut s, v[i]);
        assert(v@.subrange(lo as int, i + 1) == v@.subrange(lo as int, i as int).push(v@[i as int]));
        i = i + 1;
    }
    s
}

/// The bounds, inside `v[lo..hi]`, of that span with its surrounding white space removed.
pub fn trim_span(v: &[char], lo: usize, hi: usize) -> (r: (usize, usize))
    requires
        lo <= hi <= v@.len(),
    ensures
        lo <= r.0 <= r.1 <= hi,
        v@.subrange(r.0 as int, r.1 as int) == trim(v@.subrange(lo as int, hi as int)),
{
    let mut i = lo;
    while i < hi && is_whitespace(v[i])
        invariant
            lo <= i <= hi <= v@.len(),
            trim_start(v@.subrange(lo as int, hi as int)) == trim_start(v@.subrange(i as int, hi as int)),
        decreases hi - i,
    {
        assert(v@.subrange(i as int, hi as int).drop_first() == v@.subrange(i + 1, hi as int));
        i = i + 1;
    }
    let mut j = hi;
    while j > i && is_whitespace(v[j - 1])
        invariant
            lo <= i <= j <= hi <= v@.len(),
            trim_end(v@.subrange(i as int, hi as int)) == trim_end(v@.subrange(i as int, j as int)),
        decreases j - i,
    {
        assert(v@.subrange(i as int, j as int).drop_last() == v@.subrange(i as int, j - 1));
        j = j - 1;
    }
    (i, j)
}

/// `s` with leading and trailing white space removed (`str::trim`).
pub fn trim_str(s: &str) -> (r: String)
    ensures
        r@ == trim(s@),
{
    let v = chars_of(s);
    let (a, b) = trim_span(v.as_slice(), 0, v.len());
    assert(v@.subrange(0, v@.len() as int) == v@);
    string_from(v.as_slice(), a, b)
}


/// The pieces of `s` between the occurrences of `sep`, taken left to right
/// without overlap, as `str::split` with a string pattern gives them. An
/// empty separator matches at every character boundary.
pub open spec fn split_by(s: Seq<char>, sep: Seq<char>) -> Seq<Seq<char>>
    decreases s.len(),
{
    if sep.len() == 0 {
        seq![Seq::<char>::empty()] + s.map_values(|c: char| seq![c]) + seq![Seq::<char>::empty()]
    } else if s.len() >= sep.len() && s.take(sep.len() as int) == sep {
        seq![Seq::<char>::empty()] + split_by(s.skip(sep.len() as int), sep)
    } else if s.len() == 0 {
        seq![Seq::<char>::empty()]
    } else {
        let r = split_by(s.drop_first(), sep);
        r.update(0, seq![s[0]] + r[0])
    }
}

/// `r` with `head` put in front of its first piece.
pub open spec fn prepend_first(head: Seq<char>, r: Seq<Seq<char>>) -> Seq<Seq<char>> {
    r.update(0, head + r[0])
}

/// Splitting always gives at least one piece.
pub proof fn lemma_split_nonempty(s: Seq<char>, sep: Seq<char>)
    ensures
        split_by(s, sep).len() >= 1,
    decreases s.len(),
{
    if sep.len() > 0 && s.len() > 0 && !(s.len() >= sep.len() && s.take(sep.len() as int) == sep) {
        lemma_split_nonempty(s.drop_first(), sep);
    }
}

/// The text of each string.
pub open spec fn views(v: Seq<String>) -> Seq<Seq<char>> {
    v.map_values(|x: String| x@)
}

/// Whether `sep` occurs in `v` at `i`, ending no later than `hi`.
pub fn matches_at(v: &[char], i: usize, hi: usize, sep: &[char]) -> (r: bool)
    requires
        i <= hi <= v@.len(),
    ensures
        r == (i + sep@.len() <= hi && v@.subrange(i as int, i + sep@.len()) == sep@),
{
    if sep.len() > hi - i {
        return false;
    }
    let mut k: usize = 0;
    while k < sep.len()
        invariant
            i + sep@.len() <= hi <= v@.len(),
            k <= sep@.len(),
            forall|m: int| 0 <= m < k ==> v@[i + m] == sep@[m],
        decreases sep@.len() - k,
    {
        if v[i + k] != sep[k] {
            assert(v@.subrange(i as int, i + sep@.len())[k as int] != sep@[k as int]);
            return false;
        }
        k = k + 1;
    }
    assert(v@.subrange(i as int, i + sep@.len()) == sep@);
    true
}


/// The pieces joined into one sequence, with `sep` between neighbours
/// (`[String]::join`).
pub open spec fn join_with(parts: Seq<Seq<char>>, sep: Seq<char>) -> Seq<char>
    decreases parts.len(),
{
    if parts.len() == 0 {
        Seq::empty()
    } else if parts.len() == 1 {
        parts[0]
    } else {
        join_with(parts.drop_last(), sep) + sep + parts.last()
    }
}

/// The total number of characters in the pieces.
pub open spec fn total_len(parts: Seq<Seq<char>>) -> nat
    decreases parts.len(),
{
    if parts.len() == 0 {
        0
    } else {
        total_len(parts.drop_last()) + parts.last().len()
    }
}

/// A single piece joins to itself.
pub proof fn law_join_single(x: Seq<char>, sep: Seq<char>)
    ensures
        join_with(seq![x], sep) == x,
{
}

/// Joining one more piece appends the separator and then the piece, whatever
/// the piece holds (an empty piece still adds its separator).
pub proof fn law_join_appends_with_separator(p: Seq<Seq<char>>, x: Seq<char>, sep: Seq<char>)
    requires
        p.len() >= 1,
    ensures
        join_with(p.push(x), sep) == join_with(p, sep) + sep + x,
{
    assert(p.push(x).drop_last() == p);
}

/// Joining `k >= 1` pieces puts exactly `k - 1` separators between them.
pub proof fn law_join_length(parts: Seq<Seq<char>>, sep: Seq<char>)
    requires
        parts.len() >= 1,
    ensures
        join_with(parts, sep).len() == total_len(parts) + (parts.len() - 1) * sep.len(),
    decreases parts.len(),
{
    if parts.len() == 1 {
        assert(parts.drop_last() == Seq::<Seq<char>>::empty());
        assert(total_len(parts.drop_last()) == 0);
    } else {
        law_join_length(parts.drop_last(), sep);
        let k = parts.len() as int;
        let s = sep.len() as int;
        assert((k - 2) * s + s == (k - 1) * s) by (nonlinear_arith);
    }
}

proof fn lemma_join_front(a: Seq<char>, r: Seq<Seq<char>>, sep: Seq<char>)
    requires
        r.len() >= 1,
    ensures
        join_with(seq![a] + r, sep) == a + sep + join_with(r, sep),
    decreases r.len(),
{
    let p = seq![a] + r;
    assert(p.drop_last() == seq![a] + r.drop_last());
    assert(p.last() == r.last());
    if r.len() == 1 {
        assert(seq![a] + r.drop_last() == seq![a]);
        assert(join_with(seq![a], sep) == a);
        assert(join_with(r, sep) == r[0]);
        assert(join_with(p, sep) == join_with(p.drop_last(), sep) + sep + p.last());
    } else {
        lemma_join_front(a, r.drop_last(), sep);
        assert(join_with(p, sep) == join_with(p.drop_last(), sep) + sep + p.last());
        assert(a + sep + join_with(r.drop_last(), sep) + sep + r.last() == a + sep + (join_with(r.drop_last(), sep) + sep + r.last()));
    }
}

proof fn lemma_join_prepend(h: Seq<char>, r: Seq<Seq<char>>, sep: Seq<char>)
    requires
        r.len() >= 1,
    ensures
        join_with(prepend_first(h, r), sep) == h + join_with(r, sep),
    decreases r.len(),
{
    if r.len() == 1 {
        assert(prepend_first(h, r) == seq![h + r[0]]);
    } else {
        let p = prepend_first(h, r);
        assert(p.drop_last() == prepend_first(h, r.drop_last()));
        lemma_join_prepend(h, r.drop_last(), sep);
        assert(h + join_with(r.drop_last(), sep) + sep + r.last() == h + (join_with(r.drop_last(), sep) + sep + r.last()));
    }
}

proof fn lemma_join_chars(t: Seq<char>)
    ensures
        join_with(seq![Seq::<char>::empty()] + t.map_values(|c: char| seq![c]), Seq::empty()) == t,
    decreases t.len(),
{
    let e = Seq::<char>::empty();
    let p = seq![e] + t.map_values(|c: char| seq![c]);
    if t.len() == 0 {
        assert(p == seq![e]);
    } else {
        lemma_join_chars(t.drop_last());
        assert(p.drop_last() == seq![e] + t.drop_last().map_values(|c: char| seq![c]));
        assert(t == t.drop_last() + Seq::<char>::empty() + seq![t.last()]);
    }
}

/// Splitting on `sep` and joining the pieces with `sep` gives the text back:
/// splitting cuts exactly at occurrences of the separator and loses nothing.
pub proof fn law_split_then_join_gives_back(s: Seq<char>, sep: Seq<char>)
    ensures
        join_with(split_by(s, sep), sep) == s,
    decreases s.len(),
{
    let e = Seq::<char>::empty();
    if sep.len() == 0 {
        let mid = seq![e] + s.map_values(|c: char| seq![c]);
        lemma_join_chars(s);
        assert(split_by(s, sep) == mid.push(e));
        assert(mid.push(e).drop_last() == mid);
        assert(s + sep + e == s);
    } else if s.len() >= sep.len() && s.take(sep.len() as int) == sep {
        let rest = s.skip(sep.len() as int);
        law_split_then_join_gives_back(rest, sep);
        lemma_split_nonempty(rest, sep);
        lemma_join_front(e, split_by(rest, sep), sep);
        assert(s == e + sep + rest);
    } else if s.len() == 0 {
        assert(split_by(s, sep) == seq![e]);
    } else {
        let r = split_by(s.drop_first(), sep);
        law_split_then_join_gives_back(s.drop_first(), sep);
        lemma_split_nonempty(s.drop_first(), sep);
        lemma_join_prepend(seq![s[0]], r, sep);
        assert(s == seq![s[0]] + s.drop_first());
    }
}

/// Whether `sep` occurs in `s` at position `i`.
pub open spec fn sep_at(s: Seq<char>, sep: Seq<char>, i: int) -> bool {
    0 <= i && i + sep.len() <= s.len() && s.subrange(i, i + sep.len()) == sep
}

proof fn lemma_first_piece_is_prefix(s: Seq<char>, sep: Seq<char>)
    requires
        sep.len() > 0,
    ensures
        split_by(s, sep)[0].len() <= s.len(),
        split_by(s, sep)[0] == s.take(split_by(s, sep)[0].len() as int),
    decreases s.len(),
{
    lemma_split_nonempty(s, sep);
    if s.len() >= sep.len() && s.take(sep.len() as int) == sep {
        assert(s.take(0) == Seq::<char>::empty());
    } else if s.len() == 0 {
        assert(s.take(0) == Seq::<char>::empty());
    } else {
        let t = s.drop_first();
        lemma_first_piece_is_prefix(t, sep);
        lemma_split_nonempty(t, sep);
        let r0 = split_by(t, sep)[0];
        assert(split_by(s, sep)[0] == seq![s[0]] + r0);
        assert(s.take(r0.len() + 1 as int) == seq![s[0]] + t.take(r0.len() as int));
    }
}

/// No piece of a split holds the separator: the text is cut at every
/// occurrence (for a non-empty separator).
pub proof fn law_split_pieces_hold_no_separator(s: Seq<char>, sep: Seq<char>)
    requires
        sep.len() > 0,
    ensures
        forall|j: int, q: int| 0 <= j < split_by(s, sep).len() ==> !#[trigger] sep_at(split_by(s, sep)[j], sep, q),
    decreases s.len(),
{
    let pieces = split_by(s, sep);
    if s.len() >= sep.len() && s.take(sep.len() as int) == sep {
        let rest = s.skip(sep.len() as int);
        law_split_pieces_hold_no_separator(rest, sep);
        assert forall|j: int, q: int| 0 <= j < pieces.len() implies !#[trigger] sep_at(pieces[j], sep, q) by {
            if j > 0 {
                assert(pieces[j] == split_by(rest, sep)[j - 1]);
            }
        }
    } else if s.len() == 0 {
    } else {
        let t = s.drop_first();
        let r = split_by(t, sep);
        law_split_pieces_hold_no_separator(t, sep);
        lemma_split_nonempty(t, sep);
        lemma_first_piece_is_prefix(t, sep);
        let p0 = seq![s[0]] + r[0];
        assert(pieces == r.update(0, p0));
        assert forall|j: int, q: int| 0 <= j < pieces.len() implies !#[trigger] sep_at(pieces[j], sep, q) by {
            if j > 0 {
                assert(pieces[j] == r[j]);
            } else if sep_at(p0, sep, q) {
                if q > 0 {
                    assert(p0.subrange(q, q + sep.len()) == r[0].subrange(q - 1, q - 1 + sep.len()));
                    assert(sep_at(r[0], sep, q - 1));
                } else {
                    assert(p0 == s.take(p0.len() as int));
                    assert(s.take(sep.len() as int) == p0.subrange(0, sep.len() as int));
                }
            }
        }
    }
}

/// `parts[..k]` joined by `sep`.
pub fn join_strings(parts: &Vec<String>, k: usize, sep: &str) -> (r: String)
    requires
        k <= parts@.len(),
    ensures
        r@ == join_with(views(parts@).take(k as int), sep@),
{
    let mut r = String::new();
    let mut i: usize = 0;
    while i < k
        invariant
            i <= k <= parts@.len(),
            r@ == join_with(views(parts@).take(i as int), sep@),
        decreases k - i,
    {
        let ghost before = views(parts@).take(i as int);
        assert(views(parts@).take(i + 1).drop_last() == before);
        if i > 0 {
            r.append(sep);
        }
        r.append(parts[i].as_str());
        proof {
            if i == 0 {
                assert(r@ == views(parts@).take(1)[0]);
            }
        }
        i = i + 1;
    }
    r
}

/// The lines, each trimmed.
pub open spec fn trimmed_all(lines: Seq<Seq<char>>) -> Seq<Seq<char>> {
    lines.map_values(|l: Seq<char>| trim(l))
}


/// The decimal digit character for `d < 10`.
pub open spec fn digit_char(d: nat) -> char {
    (48 + d) as char
}

/// The decimal representation of `n`, without leading zeros (`u64`'s `Display`).
pub open spec fn decimal(n: nat) -> Seq<char>
    decreases n,
{
    if n < 10 {
        seq![digit_char(n)]
    } else {
        decimal(n / 10).push(digit_char(n % 10))
    }
}

/// Appends the decimal representation of `n` to `s`.
pub fn push_decimal(s: &mut String, n: u64)
    ensures
        final(s)@ == old(s)@ + decimal(n as nat),
    decreases n,
{
    if n >= 10 {
        push_decimal(s, n / 10);
    }
    let d = (n % 10) as u8;
    push_char(s, (48u8 + d) as char);
    assert(old(s)@ + decimal(n as nat) == if n >= 10 {
        (old(s)@ + decimal((n / 10) as nat)).push(digit_char((n % 10) as nat))
    } else {
        old(s)@.push(digit_char(n as nat))
    });
}


/// The first position at or after `i` where `sep` occurs in `s`, or -1.
/// An empty `sep` occurs at every position.
pub open spec fn find_from(s: Seq<char>, sep: Seq<char>, i: int) -> int
    decreases s.len() + 1 - i,
{
    if i < 0 || i + sep.len() > s.len() {
        -1
    } else if s.subrange(i, i + sep.len()) == sep {
        i
    } else {
        find_from(s, sep, i + 1)
    }
}

/// The first position of `sep` in `v[..hi]` at or after `lo`, if any.
pub fn find_sep(v: &[char], lo: usize, hi: usize, sep: &[char]) -> (r: Option<usize>)
    requires
        lo <= hi <= v@.len(),
    ensures
        r matches Some(p) ==> p == find_from(v@.subrange(0, hi as int), sep@, lo as int) && p + sep@.len() <= hi,
        r is None ==> find_from(v@.subrange(0, hi as int), sep@, lo as int) == -1,
    decreases hi - lo + 1,
{
    let ghost s = v@.subrange(0, hi as int);
    if sep.len() > hi - lo {
        return None;
    }
    if matches_at(v, lo, hi, sep) {
        assert(s.subrange(lo as int, lo + sep@.len()) == v@.subrange(lo as int, lo + sep@.len()));
        Some(lo)
    } else {
        assert(s.subrange(lo as int, lo + sep@.len()) == v@.subrange(lo as int, lo + sep@.len()));
        assert(find_from(s, sep@, lo as int) == find_from(s, sep@, lo + 1));
        if lo == hi {
            assert(v@.subrange(lo as int, lo as int) =~= sep@);
            None
        } else {
            find_sep(v, lo + 1, hi, sep)
        }
    }
}

} // verus!
