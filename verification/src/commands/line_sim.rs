//! For each line `A SEP B`, the similarity ratio between A and B.
use vstd::prelude::*;
use vstd::string::StringExecFns;
use crate::text::{chars_of, law_trim_idempotent, find_from, find_sep, string_from, trim, trim_span, views};

verus! {

/// Arguments of the command.
pub struct Args {
    /// Separator splitting each line into the two strings to compare.
    pub sep: String,
}

/// The two strings a line compares: the trimmed line split at the first
/// occurrence of `sep`, each side trimmed; none when `sep` does not occur.
pub open spec fn sim_pair(line: Seq<char>, sep: Seq<char>) -> Option<(Seq<char>, Seq<char>)> {
    let t = trim(line);
    let p = find_from(t, sep, 0);
    if p < 0 {
        None
    } else {
        Some((trim(t.subrange(0, p)), trim(t.subrange(p + sep.len(), t.len() as int))))
    }
}

/// Whether `sep` occurs in `s` at position `i`.
pub open spec fn occurs_at(s: Seq<char>, sep: Seq<char>, i: int) -> bool {
    0 <= i && i + sep.len() <= s.len() && s.subrange(i, i + sep.len()) == sep
}

proof fn lemma_find_from(s: Seq<char>, sep: Seq<char>, i: int)
    requires
        0 <= i,
    ensures
        find_from(s, sep, i) >= 0 ==> i <= find_from(s, sep, i) && occurs_at(s, sep, find_from(s, sep, i))
            && forall|q: int| i <= q < find_from(s, sep, i) ==> !occurs_at(s, sep, q),
        find_from(s, sep, i) < 0 ==> forall|q: int| i <= q ==> !occurs_at(s, sep, q),
    decreases s.len() + 1 - i,
{
    if i + sep.len() <= s.len() && s.subrange(i, i + sep.len()) != sep {
        lemma_find_from(s, sep, i + 1);
    }
}

/// The two sides are found in the trimmed line: white space around the line
/// plays no part. The left side is the (trimmed) text before the first
/// occurrence of `sep` in the trimmed line, the right side the (trimmed)
/// text after it; without an occurrence there is nothing to compare.
pub proof fn law_sides_come_from_trimmed_line(line: Seq<char>, sep: Seq<char>)
    ensures
        sim_pair(line, sep) == sim_pair(trim(line), sep),
        sim_pair(line, sep) matches Some((a, b)) ==> exists|p: int|
            #[trigger] occurs_at(trim(line), sep, p)
            && (forall|q: int| 0 <= q < p ==> !occurs_at(trim(line), sep, q))
            && a == trim(trim(line).subrange(0, p))
            && b == trim(trim(line).subrange(p + sep.len(), trim(line).len() as int)),
        sim_pair(line, sep) is None ==> forall|q: int| !occurs_at(trim(line), sep, q),
{
    law_trim_idempotent(line);
    let t = trim(line);
    lemma_find_from(t, sep, 0);
    let p = find_from(t, sep, 0);
    if p >= 0 {
        assert(occurs_at(t, sep, p));
    } else {
        assert forall|q: int| !occurs_at(t, sep, q) by {
            if q >= 0 {
                assert(!occurs_at(t, sep, q));
            }
        }
    }
}

/// The printed similarity ratio of the character diff of `a` and `b`
/// (`similar::TextDiff::from_chars(a, b).ratio()`, formatted with `{}`).
pub uninterp spec fn diff_ratio_text(a: Seq<char>, b: Seq<char>) -> Seq<char>;

/// `similar::TextDiff::from_chars(a, b).ratio()`, as text. The diff has no
/// deadline by default, so the result depends on `a` and `b` alone; it is
/// named, not stated, except for identical texts: the diff is then one
/// common run over all characters (or nothing, for two empty texts), and the
/// ratio is `1.0`, printed `1`.
#[verifier::external_body]
fn ratio_text(a: &str, b: &str) -> (r: String)
    ensures
        r@ == diff_ratio_text(a@, b@),
        a@ == b@ ==> r@ == "1"@,
{
    format!("{}", similar::TextDiff::from_chars(a, b).ratio())
}

/// `"\t -> "` followed by `s`.
pub open spec fn arrow(s: Seq<char>) -> Seq<char> {
    seq!['\t', ' ', '-', '>', ' '] + s
}

/// What the command prints for a line: the ratio, the two strings, and a
/// blank line; nothing when the separator does not occur.
pub open spec fn sim_report(line: Seq<char>, sep: Seq<char>) -> Seq<Seq<char>> {
    match sim_pair(line, sep) {
        None => Seq::empty(),
        Some((a, b)) => seq![diff_ratio_text(a, b), arrow(a), arrow(b), Seq::<char>::empty()],
    }
}

fn arrow_line(s: &String) -> (r: String)
    ensures
        r@ == arrow(s@),
{
    let mut r = String::new();
    let lead = "\t -> ";
    proof {
        reveal_strlit("\t -> ");
    }
    r.append(lead);
    r.append(s.as_str());
    r
}

/// The two strings compared on `line`, if `sep` occurs in it.
pub fn split_pair(line: &str, sep: &str) -> (r: Option<(String, String)>)
    ensures
        match r {
            Some((a, b)) => sim_pair(line@, sep@) == Some((a@, b@)),
            None => sim_pair(line@, sep@) is None,
        },
{
    let v = chars_of(line);
    let sv = chars_of(sep);
    let (lo, hi) = trim_span(v.as_slice(), 0, v.len());
    assert(v@.subrange(0, v@.len() as int) == v@);
    let ghost t = v@.subrange(lo as int, hi as int);
    let w = string_from(v.as_slice(), lo, hi);
    let wv = chars_of(w.as_str());
    assert(wv@ == t);
    assert(wv@.subrange(0, wv@.len() as int) == t);
    match find_sep(wv.as_slice(), 0, wv.len(), sv.as_slice()) {
        None => None,
        Some(p) => {
            let (a0, a1) = trim_span(wv.as_slice(), 0, p);
            let (b0, b1) = trim_span(wv.as_slice(), p + sv.len(), wv.len());
            Some((string_from(wv.as_slice(), a0, a1), string_from(wv.as_slice(), b0, b1)))
        },
    }
}

/// The lines the command prints for `line`; two equal sides score `1`.
pub fn line_sim(line: &str, args: &Args) -> (out: Vec<String>)
    ensures
        views(out@) == sim_report(line@, args.sep@),
        sim_pair(line@, args.sep@) matches Some((a, b)) && a == b ==> out@.len() == 4 && out@[0]@ == "1"@,
{
    let mut out: Vec<String> = Vec::new();
    match split_pair(line, args.sep.as_str()) {
        None => {
            assert(views(out@) == Seq::<Seq<char>>::empty());
        },
        Some((a, b)) => {
            out.push(ratio_text(a.as_str(), b.as_str()));
            out.push(arrow_line(&a));
            out.push(arrow_line(&b));
            out.push(String::new());
            assert(views(out@) == seq![diff_ratio_text(a@, b@), arrow(a@), arrow(b@), Seq::<char>::empty()]);
        },
    }
    out
}

} // verus!
