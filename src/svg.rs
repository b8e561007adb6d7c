use vstd::prelude::*;
use vstd::string::StringSliceAdditionalSpecFns;

use crate::chart::{span, Color, Figure, Tick, Trace, UNIT};
use crate::table::{decimal_digits, PlotKind};

verus! {

/// `v` in decimal, with a minus sign when it is negative.
pub open spec fn int_text(v: int) -> Seq<u8> {
    if v < 0 {
        seq![45u8] + decimal_digits((-v) as nat)
    } else {
        decimal_digits(v as nat)
    }
}

/// `v` hundredths as a decimal number with two places.
pub open spec fn hundredths_text(v: int) -> Seq<u8> {
    let a = if v < 0 {
        -v
    } else {
        v
    };
    (if v < 0 {
        seq![45u8]
    } else {
        Seq::empty()
    }) + decimal_digits((a / 100) as nat) + seq![
        46u8,
        (48 + (a % 100) / 10) as u8,
        (48 + a % 10) as u8,
    ]
}

/// `v / d` rounded to the nearest whole number, halves upwards.
pub open spec fn rounded(v: int, d: int) -> int {
    v / d + if v % d >= d / 2 {
        1int
    } else {
        0int
    }
}

fn floor_div_mod(n: i128, d: i128) -> (r: (i128, i128))
    requires
        d > 0,
    ensures
        r.0 == n / d,
        r.1 == n % d,
{
    if n >= 0 {
        (n / d, n % d)
    } else {
        let m = -(n + 1);
        let q = m / d;
        let rm = m % d;
        proof {
            vstd::arithmetic::div_mod::lemma_fundamental_div_mod(m as int, d as int);
            assert(0 <= rm < d);
            assert(n == (-q - 1) * d + (d - rm - 1)) by (nonlinear_arith)
                requires
                    m == d * q + rm,
                    m == -n - 1,
            ;
            vstd::arithmetic::div_mod::lemma_fundamental_div_mod_converse(
                n as int,
                d as int,
                -q - 1,
                d - rm - 1,
            );
            assert(q <= m) by (nonlinear_arith)
                requires
                    m >= 0,
                    d > 0,
                    q == m / d,
            ;
        }
        (-q - 1, d - rm - 1)
    }
}

fn round_div(v: i128, d: i128) -> (r: i128)
    requires
        d >= 2,
    ensures
        r == rounded(v as int, d as int),
{
    let (q, r) = floor_div_mod(v, d);
    proof {
        vstd::arithmetic::div_mod::lemma_fundamental_div_mod(v as int, d as int);
        assert(q * d <= v) by (nonlinear_arith)
            requires
                v == d * q + v % d,
                v % d >= 0,
        ;
        assert(q < 0x7fff_ffff_ffff_ffff_ffff_ffff_ffff_ffff) by (nonlinear_arith)
            requires
                q * d <= v,
                d >= 2,
                v <= 0x7fff_ffff_ffff_ffff_ffff_ffff_ffff_ffff,
        ;
    }
    if r >= d / 2 {
        q + 1
    } else {
        q
    }
}

fn push_u128(n: u128, out: &mut Vec<u8>)
    ensures
        final(out)@ == old(out)@ + decimal_digits(n as nat),
    decreases n,
{
    if n >= 10 {
        push_u128(n / 10, out);
    }
    out.push(48 + (n % 10) as u8);
    proof {
        assert(final(out)@ =~= old(out)@ + decimal_digits(n as nat));
    }
}

fn magnitude(v: i128) -> (r: u128)
    ensures
        r == (if v < 0 {
            -v
        } else {
            v as int
        }),
{
    if v < 0 {
        (-(v + 1)) as u128 + 1
    } else {
        v as u128
    }
}

fn push_int(v: i128, out: &mut Vec<u8>)
    ensures
        final(out)@ == old(out)@ + int_text(v as int),
{
    let a = magnitude(v);
    if v < 0 {
        out.push(45);
    }
    push_u128(a, out);
    proof {
        assert(final(out)@ =~= old(out)@ + int_text(v as int));
    }
}

fn push_hundredths(v: i128, out: &mut Vec<u8>)
    ensures
        final(out)@ == old(out)@ + hundredths_text(v as int),
{
    let a = magnitude(v);
    if v < 0 {
        out.push(45);
    }
    push_u128(a / 100, out);
    out.push(46);
    out.push(48 + ((a % 100) / 10) as u8);
    out.push(48 + (a % 10) as u8);
    proof {
        assert(final(out)@ =~= old(out)@ + hundredths_text(v as int));
    }
}

fn push_str(out: &mut Vec<u8>, s: &str)
    ensures
        final(out)@ == old(out)@ + s.spec_bytes(),
{
    out.extend_from_slice(s.as_bytes());
    proof {
        assert(out@ =~= old(out)@ + s.spec_bytes());
    }
}

pub open spec fn title_text(kind: PlotKind) -> Seq<u8> {
    if kind == PlotKind::TermCount {
        "Average log(n_terms) vs t_count".spec_bytes()
    } else {
        "Average log(runtime) vs t_count".spec_bytes()
    }
}

pub open spec fn y_label_text(kind: PlotKind) -> Seq<u8> {
    if kind == PlotKind::TermCount {
        "log(mean n_terms)".spec_bytes()
    } else {
        "log(runtime in ms)".spec_bytes()
    }
}

pub open spec fn color_text(c: Color) -> Seq<u8> {
    match c {
        Color::Red => "red".spec_bytes(),
        Color::Blue => "blue".spec_bytes(),
        Color::Green => "green".spec_bytes(),
        Color::Magenta => "magenta".spec_bytes(),
        Color::Cyan => "cyan".spec_bytes(),
    }
}

/// The opening of the document: canvas, background, title, axes and axis
/// labels. Coordinates are in hundredths of a pixel throughout.
pub open spec fn head_text(kind: PlotKind) -> Seq<u8> {
    r#"<svg width="800" height="600" viewBox="0 0 80000 60000" xmlns="http://www.w3.org/2000/svg"><rect width="80000" height="60000" fill="white"/><text x="40000" y="3000" text-anchor="middle" font-size="2000" font-family="sans-serif">"#.spec_bytes()
        + title_text(kind)
        + r#"</text><line x1="5000" y1="5000" x2="5000" y2="55000" stroke="black" stroke-width="200"/><line x1="5000" y1="55000" x2="75000" y2="55000" stroke="black" stroke-width="200"/><text x="2000" y="30000" text-anchor="middle" font-size="1400" font-family="sans-serif" transform="rotate(-90 2000 30000)">"#.spec_bytes()
        + y_label_text(kind)
        + r#"</text><text x="40000" y="59000" text-anchor="middle" font-size="1400" font-family="sans-serif">t_count</text>"#.spec_bytes()
}

/// A vertical gridline and its label: the value in whole units.
pub open spec fn x_tick_text(t: Tick) -> Seq<u8> {
    r#"<line x1=""#.spec_bytes() + int_text(t.pos as int) + r#"" y1="5000" x2=""#.spec_bytes()
        + int_text(t.pos as int)
        + r#"" y2="55000" stroke="lightgray" stroke-width="100"/><text x=""#.spec_bytes()
        + int_text(t.pos as int)
        + r#"" y="55000" dy="2000" text-anchor="middle" font-size="1200" font-family="sans-serif">"#.spec_bytes()
        + int_text(rounded(t.value as int, UNIT as int)) + "</text>".spec_bytes()
}

/// A horizontal gridline and its label: the value to two places.
pub open spec fn y_tick_text(t: Tick) -> Seq<u8> {
    r#"<line x1="5000" y1=""#.spec_bytes() + int_text(t.pos as int) + r#"" x2="75000" y2=""#.spec_bytes()
        + int_text(t.pos as int)
        + r#"" stroke="lightgray" stroke-width="100"/><text x="4000" y=""#.spec_bytes()
        + int_text(t.pos as int)
        + r#"" dy="500" text-anchor="end" font-size="1200" font-family="sans-serif">"#.spec_bytes()
        + hundredths_text(rounded(t.value as int, (UNIT / 100) as int)) + "</text>".spec_bytes()
}

pub open spec fn x_ticks_text(ts: Seq<Tick>) -> Seq<u8>
    decreases ts.len(),
{
    if ts.len() == 0 {
        Seq::empty()
    } else {
        x_ticks_text(ts.drop_last()) + x_tick_text(ts.last())
    }
}

pub open spec fn y_ticks_text(ts: Seq<Tick>) -> Seq<u8>
    decreases ts.len(),
{
    if ts.len() == 0 {
        Seq::empty()
    } else {
        y_ticks_text(ts.drop_last()) + y_tick_text(ts.last())
    }
}

/// A point coordinate in whole hundredths of a pixel: the exact position
/// divided by its axis span, rounded down.
pub open spec fn pixel(num: int, s: int) -> int {
    if s > 0 {
        num / s
    } else {
        num
    }
}

/// The vertices of a polyline: the first after a move, the others after a
/// line segment.
pub open spec fn path_text(pts: Seq<(i128, i128)>, xs: int, ys: int) -> Seq<u8>
    decreases pts.len(),
{
    if pts.len() == 0 {
        Seq::empty()
    } else {
        path_text(pts.drop_last(), xs, ys) + (if pts.len() == 1 {
            " ".spec_bytes()
        } else {
            " L ".spec_bytes()
        }) + int_text(pixel(pts.last().0 as int, xs)) + " ".spec_bytes() + int_text(
            pixel(pts.last().1 as int, ys),
        )
    }
}

pub open spec fn circles_text(pts: Seq<(i128, i128)>, xs: int, ys: int, c: Color) -> Seq<u8>
    decreases pts.len(),
{
    if pts.len() == 0 {
        Seq::empty()
    } else {
        circles_text(pts.drop_last(), xs, ys, c) + r#"<circle cx=""#.spec_bytes() + int_text(
            pixel(pts.last().0 as int, xs),
        ) + r#"" cy=""#.spec_bytes() + int_text(pixel(pts.last().1 as int, ys))
            + r#"" r="300" fill=""#.spec_bytes() + color_text(c) + r#""/>"#.spec_bytes()
    }
}

/// A series' polyline, in its colour.
pub open spec fn line_text(t: Trace, xs: int, ys: int) -> Seq<u8> {
    r#"<path d="M"#.spec_bytes() + path_text(t.points@, xs, ys) + r#"" fill="none" stroke=""#.spec_bytes()
        + color_text(t.color) + r#"" stroke-width="200"/>"#.spec_bytes()
}

/// A series' legend entry: a swatch of its colour and its name.
pub open spec fn legend_text(t: Trace) -> Seq<u8> {
    r#"<line x1="65000" y1=""#.spec_bytes() + int_text(t.legend_y as int)
        + r#"" x2="67000" y2=""#.spec_bytes() + int_text(t.legend_y as int)
        + r#"" stroke=""#.spec_bytes() + color_text(t.color)
        + r#"" stroke-width="200"/><text x="67500" y=""#.spec_bytes() + int_text(
        t.legend_y as int,
    ) + r#"" dy="400" font-size="1200" font-family="sans-serif">"#.spec_bytes() + t.name@
        + "</text>".spec_bytes()
}

/// One series: its polyline and point markers in its colour, then its
/// legend entry.
pub open spec fn trace_text(t: Trace, xs: int, ys: int) -> Seq<u8> {
    line_text(t, xs, ys) + circles_text(t.points@, xs, ys, t.color) + legend_text(t)
}

pub open spec fn traces_text(ts: Seq<Trace>, xs: int, ys: int) -> Seq<u8>
    decreases ts.len(),
{
    if ts.len() == 0 {
        Seq::empty()
    } else {
        traces_text(ts.drop_last(), xs, ys) + trace_text(ts.last(), xs, ys)
    }
}

/// The whole document for a figure of the given kind.
pub open spec fn svg_text(kind: PlotKind, fig: Figure) -> Seq<u8> {
    head_text(kind) + x_ticks_text(fig.x_ticks@) + y_ticks_text(fig.y_ticks@) + traces_text(
        fig.traces@,
        span(fig.x_axis),
        span(fig.y_axis),
    ) + "</svg>".spec_bytes()
}

fn push_pixel(num: i128, s: i128, out: &mut Vec<u8>)
    ensures
        final(out)@ == old(out)@ + int_text(pixel(num as int, s as int)),
{
    if s > 0 {
        let (q, _) = floor_div_mod(num, s);
        push_int(q, out);
    } else {
        push_int(num, out);
    }
}

fn push_color(c: Color, out: &mut Vec<u8>)
    ensures
        final(out)@ == old(out)@ + color_text(c),
{
    match c {
        Color::Red => push_str(out, "red"),
        Color::Blue => push_str(out, "blue"),
        Color::Green => push_str(out, "green"),
        Color::Magenta => push_str(out, "magenta"),
        Color::Cyan => push_str(out, "cyan"),
    }
}

fn push_head(kind: PlotKind, out: &mut Vec<u8>)
    ensures
        final(out)@ == old(out)@ + head_text(kind),
{
    push_str(
        out,
        r#"<svg width="800" height="600" viewBox="0 0 80000 60000" xmlns="http://www.w3.org/2000/svg"><rect width="80000" height="60000" fill="white"/><text x="40000" y="3000" text-anchor="middle" font-size="2000" font-family="sans-serif">"#,
    );
    match kind {
        PlotKind::TermCount => push_str(out, "Average log(n_terms) vs t_count"),
        PlotKind::Runtime => push_str(out, "Average log(runtime) vs t_count"),
    }
    push_str(
        out,
        r#"</text><line x1="5000" y1="5000" x2="5000" y2="55000" stroke="black" stroke-width="200"/><line x1="5000" y1="55000" x2="75000" y2="55000" stroke="black" stroke-width="200"/><text x="2000" y="30000" text-anchor="middle" font-size="1400" font-family="sans-serif" transform="rotate(-90 2000 30000)">"#,
    );
    match kind {
        PlotKind::TermCount => push_str(out, "log(mean n_terms)"),
        PlotKind::Runtime => push_str(out, "log(runtime in ms)"),
    }
    push_str(
        out,
        r#"</text><text x="40000" y="59000" text-anchor="middle" font-size="1400" font-family="sans-serif">t_count</text>"#,
    );
    proof {
        assert(out@ =~= old(out)@ + head_text(kind));
    }
}

fn push_x_tick(t: Tick, out: &mut Vec<u8>)
    ensures
        final(out)@ == old(out)@ + x_tick_text(t),
{
    push_str(out, r#"<line x1=""#);
    push_int(t.pos, out);
    push_str(out, r#"" y1="5000" x2=""#);
    push_int(t.pos, out);
    push_str(out, r#"" y2="55000" stroke="lightgray" stroke-width="100"/><text x=""#);
    push_int(t.pos, out);
    push_str(
        out,
        r#"" y="55000" dy="2000" text-anchor="middle" font-size="1200" font-family="sans-serif">"#,
    );
    push_int(round_div(t.value, UNIT), out);
    push_str(out, "</text>");
    proof {
        assert(out@ =~= old(out)@ + x_tick_text(t));
    }
}

fn push_y_tick(t: Tick, out: &mut Vec<u8>)
    ensures
        final(out)@ == old(out)@ + y_tick_text(t),
{
    push_str(out, r#"<line x1="5000" y1=""#);
    push_int(t.pos, out);
    push_str(out, r#"" x2="75000" y2=""#);
    push_int(t.pos, out);
    push_str(out, r#"" stroke="lightgray" stroke-width="100"/><text x="4000" y=""#);
    push_int(t.pos, out);
    push_str(
        out,
        r#"" dy="500" text-anchor="end" font-size="1200" font-family="sans-serif">"#,
    );
    push_hundredths(round_div(t.value, UNIT / 100), out);
    push_str(out, "</text>");
    proof {
        assert(out@ =~= old(out)@ + y_tick_text(t));
    }
}

fn push_path(pts: &Vec<(i128, i128)>, xs: i128, ys: i128, out: &mut Vec<u8>)
    ensures
        final(out)@ == old(out)@ + path_text(pts@, xs as int, ys as int),
{
    let ghost base = old(out)@;
    let mut j: usize = 0;
    while j < pts.len()
        invariant
            0 <= j <= pts@.len(),
            out@ == base + path_text(pts@.take(j as int), xs as int, ys as int),
        decreases pts@.len() - j,
    {
        let (x, y) = pts[j];
        if j == 0 {
            push_str(out, " ");
        } else {
            push_str(out, " L ");
        }
        push_pixel(x, xs, out);
        push_str(out, " ");
        push_pixel(y, ys, out);
        proof {
            let p = pts@.take(j + 1);
            assert(p.drop_last() =~= pts@.take(j as int));
            assert(p.last() == (x, y));
            assert(out@ =~= base + path_text(p, xs as int, ys as int));
        }
        j = j + 1;
    }
    proof {
        assert(pts@.take(j as int) =~= pts@);
    }
}

fn push_circles(pts: &Vec<(i128, i128)>, xs: i128, ys: i128, c: Color, out: &mut Vec<u8>)
    ensures
        final(out)@ == old(out)@ + circles_text(pts@, xs as int, ys as int, c),
{
    let ghost base = old(out)@;
    let mut k: usize = 0;
    while k < pts.len()
        invariant
            0 <= k <= pts@.len(),
            out@ == base + circles_text(pts@.take(k as int), xs as int, ys as int, c),
        decreases pts@.len() - k,
    {
        let (x, y) = pts[k];
        push_str(out, r#"<circle cx=""#);
        push_pixel(x, xs, out);
        push_str(out, r#"" cy=""#);
        push_pixel(y, ys, out);
        push_str(out, r#"" r="300" fill=""#);
        push_color(c, out);
        push_str(out, r#""/>"#);
        proof {
            let p = pts@.take(k + 1);
            assert(p.drop_last() =~= pts@.take(k as int));
            assert(p.last() == (x, y));
            assert(out@ =~= base + circles_text(p, xs as int, ys as int, c));
        }
        k = k + 1;
    }
    proof {
        assert(pts@.take(k as int) =~= pts@);
    }
}

fn push_line(t: &Trace, xs: i128, ys: i128, out: &mut Vec<u8>)
    ensures
        final(out)@ == old(out)@ + line_text(*t, xs as int, ys as int),
{
    push_str(out, r#"<path d="M"#);
    push_path(&t.points, xs, ys, out);
    push_str(out, r#"" fill="none" stroke=""#);
    push_color(t.color, out);
    push_str(out, r#"" stroke-width="200"/>"#);
    proof {
        assert(out@ =~= old(out)@ + line_text(*t, xs as int, ys as int));
    }
}

fn push_legend(t: &Trace, out: &mut Vec<u8>)
    ensures
        final(out)@ == old(out)@ + legend_text(*t),
{
    push_str(out, r#"<line x1="65000" y1=""#);
    push_int(t.legend_y, out);
    push_str(out, r#"" x2="67000" y2=""#);
    push_int(t.legend_y, out);
    push_str(out, r#"" stroke=""#);
    push_color(t.color, out);
    push_str(out, r#"" stroke-width="200"/><text x="67500" y=""#);
    push_int(t.legend_y, out);
    push_str(out, r#"" dy="400" font-size="1200" font-family="sans-serif">"#);
    let ghost before_name = out@;
    out.extend_from_slice(t.name.as_slice());
    proof {
        assert(out@ =~= before_name + t.name@);
    }
    push_str(out, "</text>");
    proof {
        assert(out@ =~= old(out)@ + legend_text(*t));
    }
}

fn push_trace(t: &Trace, xs: i128, ys: i128, out: &mut Vec<u8>)
    ensures
        final(out)@ == old(out)@ + trace_text(*t, xs as int, ys as int),
{
    push_line(t, xs, ys, out);
    push_circles(&t.points, xs, ys, t.color, out);
    push_legend(t, out);
    proof {
        assert(out@ =~= old(out)@ + trace_text(*t, xs as int, ys as int));
    }
}

/// The chart as a self-contained SVG document: its head, then a gridline
/// and label for each tick, then for each trace in order its polyline,
/// point markers and legend entry in the trace's colour, and the closing
/// tag.
pub fn svg_document(kind: PlotKind, fig: &Figure) -> (r: Vec<u8>)
    requires
        fig.x_axis.wf(),
        fig.y_axis.wf(),
    ensures
        r@ == svg_text(kind, *fig),
{
    let mut out: Vec<u8> = Vec::new();
    push_head(kind, &mut out);
    let mut i: usize = 0;
    while i < fig.x_ticks.len()
        invariant
            0 <= i <= fig.x_ticks@.len(),
            out@ == head_text(kind) + x_ticks_text(fig.x_ticks@.take(i as int)),
        decreases fig.x_ticks@.len() - i,
    {
        push_x_tick(fig.x_ticks[i], &mut out);
        proof {
            let ts = fig.x_ticks@.take(i + 1);
            assert(ts.drop_last() =~= fig.x_ticks@.take(i as int));
            assert(out@ =~= head_text(kind) + x_ticks_text(ts));
        }
        i = i + 1;
    }
    proof {
        assert(fig.x_ticks@.take(i as int) =~= fig.x_ticks@);
    }
    let ghost base = out@;
    let mut i: usize = 0;
    while i < fig.y_ticks.len()
        invariant
            0 <= i <= fig.y_ticks@.len(),
            out@ == base + y_ticks_text(fig.y_ticks@.take(i as int)),
        decreases fig.y_ticks@.len() - i,
    {
        push_y_tick(fig.y_ticks[i], &mut out);
        proof {
            let ts = fig.y_ticks@.take(i + 1);
            assert(ts.drop_last() =~= fig.y_ticks@.take(i as int));
            assert(out@ =~= base + y_ticks_text(ts));
        }
        i = i + 1;
    }
    proof {
        assert(fig.y_ticks@.take(i as int) =~= fig.y_ticks@);
    }
    let xs = fig.x_axis.span();
    let ys = fig.y_axis.span();
    let ghost base2 = out@;
    let mut k: usize = 0;
    while k < fig.traces.len()
        invariant
            0 <= k <= fig.traces@.len(),
            out@ == base2 + traces_text(fig.traces@.take(k as int), xs as int, ys as int),
        decreases fig.traces@.len() - k,
    {
        push_trace(&fig.traces[k], xs, ys, &mut out);
        proof {
            let ts = fig.traces@.take(k + 1);
            assert(ts.drop_last() =~= fig.traces@.take(k as int));
            assert(out@ =~= base2 + traces_text(ts, xs as int, ys as int));
        }
        k = k + 1;
    }
    proof {
        assert(fig.traces@.take(k as int) =~= fig.traces@);
    }
    push_str(&mut out, "</svg>");
    proof {
        assert(out@ =~= svg_text(kind, *fig));
    }
    out
}

} // verus!
