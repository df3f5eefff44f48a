//! The text side of the time-series plot: splitting `x y` lines, labels,
//! tick marks and the gnuplot script around the data.
use vstd::prelude::*;
use vstd::string::StringExecFns;
use crate::text::{chars_of, is_whitespace, is_ws, join_strings, join_with, push_char, push_decimal, decimal,
    string_from, trim, trim_span, views};

verus! {

/// Arguments of the command.
pub struct Args {
    /// Plot title.
    pub title: Option<String>,
    /// X-axis label.
    pub xlabel: Option<String>,
    /// Y-axis label.
    pub ylabel: Option<String>,
}

/// The first position of a white-space character in `s` at or after `i`, or -1.
pub open spec fn first_ws_from(s: Seq<char>, i: int) -> int
    decreases s.len() - i,
{
    if i < 0 || i >= s.len() {
        -1
    } else if is_ws(s[i]) {
        i
    } else {
        first_ws_from(s, i + 1)
    }
}

/// The two fields of a data line: the trimmed line split at its first white
/// space into the x text and the (trimmed) y text; none for a blank line or
/// a line without white space.
pub open spec fn point_fields(line: Seq<char>) -> Option<(Seq<char>, Seq<char>)> {
    let s = trim(line);
    let p = first_ws_from(s, 0);
    if s.len() == 0 || p < 0 {
        None
    } else {
        Some((s.subrange(0, p), trim(s.subrange(p + 1, s.len() as int))))
    }
}

/// The x and y texts of a data line, if it has both.
pub fn split_point(line: &str) -> (r: Option<(String, String)>)
    ensures
        match r {
            Some((x, y)) => point_fields(line@) == Some((x@, y@)),
            None => point_fields(line@) is None,
        },
{
    let v = chars_of(line);
    let (lo, hi) = trim_span(v.as_slice(), 0, v.len());
    assert(v@.subrange(0, v@.len() as int) == v@);
    let ghost s = v@.subrange(lo as int, hi as int);
    if lo == hi {
        return None;
    }
    let mut i = lo;
    while i < hi && !is_whitespace(v[i])
        invariant
            lo <= i <= hi <= v@.len(),
            s == v@.subrange(lo as int, hi as int),
            first_ws_from(s, 0) == first_ws_from(s, i - lo),
        decreases hi - i,
    {
        assert(s[i - lo] == v@[i as int]);
        i = i + 1;
    }
    if i == hi {
        assert(first_ws_from(s, i - lo) == -1);
        return None;
    }
    assert(s[i - lo] == v@[i as int]);
    assert(first_ws_from(s, 0) == i - lo);
    let x = string_from(v.as_slice(), lo, i);
    let (a, b) = trim_span(v.as_slice(), i + 1, hi);
    let y = string_from(v.as_slice(), a, b);
    assert(s.subrange(0, i - lo) == v@.subrange(lo as int, i as int));
    assert(s.subrange(i - lo + 1, s.len() as int) == v@.subrange(i + 1, hi as int));
    Some((x, y))
}

/// A text as a gnuplot label: double quotes become single quotes.
pub open spec fn label(s: Seq<char>) -> Seq<char> {
    s.map_values(|c: char| if c == '"' { '\'' } else { c })
}

/// A label holds no double quote, so it cannot end gnuplot's quoting early,
/// and it is as long as the text it comes from.
pub proof fn law_label_has_no_double_quote(s: Seq<char>)
    ensures
        label(s).len() == s.len(),
        forall|i: int| 0 <= i < label(s).len() ==> label(s)[i] != '"',
{
}

/// `s` with `"` replaced by `'`.
pub fn gnuplot_label(s: &str) -> (r: String)
    ensures
        r@ == label(s@),
{
    let v = chars_of(s);
    let mut r = String::new();
    let mut i: usize = 0;
    while i < v.len()
        invariant
            i <= v@.len(),
            v@ == s@,
            r@ == label(v@.subrange(0, i as int)),
        decreases v@.len() - i,
    {
        let c = v[i];
        push_char(&mut r, if c == '"' { '\'' } else { c });
        assert(v@.subrange(0, i + 1) == v@.subrange(0, i as int).push(c));
        i = i + 1;
    }
    assert(v@.subrange(0, v@.len() as int) == v@);
    r
}

/// The tick spacing for `n` x values: a twentieth of them, at least 1.
pub open spec fn tick_step(n: nat) -> nat {
    if n / 20 == 0 { 1 } else { n / 20 }
}

/// One tick: the label in double quotes, a space, its position.
pub open spec fn tick(xs: Seq<Seq<char>>, i: int) -> Seq<char> {
    seq!['"'] + label(xs[i]) + seq!['"', ' '] + decimal(i as nat)
}

/// The ticks at `i`, `i + step`, ... below the number of x values.
pub open spec fn ticks_from(xs: Seq<Seq<char>>, step: nat, i: int) -> Seq<Seq<char>>
    decreases (if i < xs.len() { xs.len() - i } else { 0 }),
{
    if step == 0 || i < 0 || i >= xs.len() {
        Seq::empty()
    } else {
        seq![tick(xs, i)] + ticks_from(xs, step, i + step)
    }
}

/// The gnuplot line that puts the x labels on the axis.
pub open spec fn xtics_line(xs: Seq<Seq<char>>) -> Seq<char> {
    "set xtics rotate by -45 ("@ + join_with(ticks_from(xs, tick_step(xs.len()), 0), ", "@) + ")\n"@
}

fn tick_text(x: &String, i: usize, Ghost(xs): Ghost<Seq<Seq<char>>>) -> (r: String)
    requires
        0 <= i < xs.len(),
        xs[i as int] == x@,
    ensures
        r@ == tick(xs, i as int),
{
    let mut r = String::new();
    push_char(&mut r, '"');
    let l = gnuplot_label(x.as_str());
    r.append(l.as_str());
    push_char(&mut r, '"');
    push_char(&mut r, ' ');
    push_decimal(&mut r, i as u64);
    r
}

/// The line that labels the x axis with every `tick_step`-th x value.
pub fn xtics(xs: &Vec<String>) -> (r: String)
    ensures
        r@ == xtics_line(views(xs@)),
{
    let ghost g = views(xs@);
    let step = if xs.len() / 20 == 0 { 1 } else { xs.len() / 20 };
    let mut ticks: Vec<String> = Vec::new();
    let mut i: usize = 0;
    while i < xs.len()
        invariant
            g == views(xs@),
            step == tick_step(g.len()),
            step >= 1,
            views(ticks@) + ticks_from(g, step as nat, i as int) == ticks_from(g, step as nat, 0),
        decreases xs@.len() - i,
    {
        let t = tick_text(&xs[i], i, Ghost(g));
        let ghost before = views(ticks@);
        ticks.push(t);
        assert(views(ticks@) == before.push(tick(g, i as int)));
        assert(before + ticks_from(g, step as nat, i as int) == views(ticks@) + ticks_from(g, step as nat, i + step));
        if step > xs.len() - i {
            assert(ticks_from(g, step as nat, i + step) == Seq::<Seq<char>>::empty());
            assert(views(ticks@) + Seq::<Seq<char>>::empty() == views(ticks@));
            i = xs.len();
        } else {
            i = i + step;
        }
    }
    assert(views(ticks@) + ticks_from(g, step as nat, i as int) == views(ticks@));
    assert(views(ticks@).take(ticks@.len() as int) == views(ticks@));
    let mut r = String::new();
    r.append("set xtics rotate by -45 (");
    let joined = join_strings(&ticks, ticks.len(), ", ");
    r.append(joined.as_str());
    r.append(")\n");
    r
}

/// The `{:?}` form of a string: in double quotes, with escapes.
pub uninterp spec fn debug_text(s: Seq<char>) -> Seq<char>;

/// `format!("{:?}", s)` (`Debug` for `str`); named, not stated.
#[verifier::external_body]
fn debug_quoted(s: &str) -> (r: String)
    ensures
        r@ == debug_text(s@),
{
    format!("{:?}", s)
}

/// `prefix` and the quoted value on a line of its own, if there is a value.
pub open spec fn setting(prefix: Seq<char>, value: Option<String>) -> Seq<char> {
    match value {
        Some(v) => prefix + debug_text(v@) + "\n"@,
        None => Seq::empty(),
    }
}

/// The gnuplot script for the data: the settings, the plot command, the
/// data block and a pause. Numeric x values are plotted as they are; other
/// x values are plotted by position, with the xtics line labelling them.
pub open spec fn script_text(args: Args, numeric: bool, xs: Seq<Seq<char>>, data: Seq<char>) -> Seq<char> {
    setting("set title "@, args.title) + setting("set xlabel "@, args.xlabel) + setting("set ylabel "@, args.ylabel)
        + "set grid\n"@
        + (if numeric {
            "plot '-' using 1:2 with linespoints pt 7 ps 0.5 notitle\n"@
        } else {
            xtics_line(xs) + "plot '-' using 1:3 with linespoints pt 7 ps 0.5 notitle\n"@
        })
        + data + "e\n"@ + "pause -1 'Press Enter to close...'\n"@
}

/// The plot command reads the data block in the layout the data lines have.
/// Numeric x values are written `x y`, so x is column 1 and y column 2;
/// other x values are written `i "label" y` (position, quoted label, value),
/// so the plot uses position as x (column 1) and the value as y (column 3),
/// with the labels on the axis. In both cases the data block follows the
/// plot command and ends with `e`, and the script ends with a pause.
pub proof fn law_plot_reads_the_data_layout(args: Args, xs: Seq<Seq<char>>, data: Seq<char>)
    ensures
        ({
            let settings = setting("set title "@, args.title) + setting("set xlabel "@, args.xlabel)
                + setting("set ylabel "@, args.ylabel) + "set grid\n"@;
            let tail = data + "e\n"@ + "pause -1 'Press Enter to close...'\n"@;
            &&& script_text(args, true, xs, data) == settings
                + "plot '-' using 1:2 with linespoints pt 7 ps 0.5 notitle\n"@ + tail
            &&& script_text(args, false, xs, data) == settings + xtics_line(xs)
                + "plot '-' using 1:3 with linespoints pt 7 ps 0.5 notitle\n"@ + tail
        }),
{
    let settings = setting("set title "@, args.title) + setting("set xlabel "@, args.xlabel)
        + setting("set ylabel "@, args.ylabel) + "set grid\n"@;
    let p2 = "plot '-' using 1:2 with linespoints pt 7 ps 0.5 notitle\n"@;
    let p3 = "plot '-' using 1:3 with linespoints pt 7 ps 0.5 notitle\n"@;
    let e = "e\n"@;
    let pause = "pause -1 'Press Enter to close...'\n"@;
    assert(settings + p2 + data + e + pause == settings + p2 + (data + e + pause));
    assert(settings + (xtics_line(xs) + p3) + data + e + pause == settings + xtics_line(xs) + p3 + (data + e + pause));
}

fn push_setting(r: &mut String, prefix: &str, value: &Option<String>)
    ensures
        final(r)@ == old(r)@ + setting(prefix@, *value),
{
    match value {
        Some(v) => {
            r.append(prefix);
            let q = debug_quoted(v.as_str());
            r.append(q.as_str());
            r.append("\n");
        },
        None => {
            assert(old(r)@ + Seq::<char>::empty() == old(r)@);
        },
    }
}

/// The gnuplot script around `data` (the data lines, each ending in a newline).
pub fn script(args: &Args, numeric: bool, xs: &Vec<String>, data: &str) -> (r: String)
    ensures
        r@ == script_text(*args, numeric, views(xs@), data@),
{
    let mut r = String::new();
    push_setting(&mut r, "set title ", &args.title);
    push_setting(&mut r, "set xlabel ", &args.xlabel);
    push_setting(&mut r, "set ylabel ", &args.ylabel);
    r.append("set grid\n");
    if numeric {
        r.append("plot '-' using 1:2 with linespoints pt 7 ps 0.5 notitle\n");
    } else {
        let t = xtics(xs);
        r.append(t.as_str());
        r.append("plot '-' using 1:3 with linespoints pt 7 ps 0.5 notitle\n");
    }
    r.append(data);
    r.append("e\n");
    r.append("pause -1 'Press Enter to close...'\n");
    r
}

} // verus!
