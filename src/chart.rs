use vstd::prelude::*;

use crate::config::Config;
use crate::error::ErrorKind;

verus! {

// The canvas is 800 by 600 pixels with a margin of 50; positions on it
// are measured in hundredths of a pixel.

/// Data values are given in billionths of a unit.
pub const UNIT: i128 = 1_000_000_000;

/// The plot area, in hundredths of a pixel.
pub const MARGIN_SUB: i128 = 5000;

pub const PLOT_WIDTH_SUB: i128 = 70000;

pub const PLOT_HEIGHT_SUB: i128 = 50000;

/// Equal intervals between gridlines on each axis.
pub const GRID_DIVISIONS: i128 = 5;

/// Vertical position of the first legend entry, and the step between
/// entries, in hundredths of a pixel.
pub const LEGEND_TOP_SUB: i128 = 6000;

pub const LEGEND_STEP_SUB: i128 = 2000;

/// Magnitude bound on axis ends and values, in billionths.
pub const VALUE_LIMIT: i128 = 0x10_0000_0000_0000_0000_0000_0000;

/// The fixed palette; series take its colours in turn.
#[derive(Clone, Copy, Debug, PartialEq, Eq, Structural)]
pub enum Color {
    Red,
    Blue,
    Green,
    Magenta,
    Cyan,
}

pub const PALETTE_SIZE: usize = 5;

pub open spec fn palette(k: int) -> Color {
    if k % 5 == 0 {
        Color::Red
    } else if k % 5 == 1 {
        Color::Blue
    } else if k % 5 == 2 {
        Color::Green
    } else if k % 5 == 3 {
        Color::Magenta
    } else {
        Color::Cyan
    }
}

impl Color {
    /// The colour's name in a drawing.
    pub fn name(self) -> (r: &'static str)
        ensures
            self == Color::Red ==> r@ == "red"@,
            self == Color::Blue ==> r@ == "blue"@,
            self == Color::Green ==> r@ == "green"@,
            self == Color::Magenta ==> r@ == "magenta"@,
            self == Color::Cyan ==> r@ == "cyan"@,
    {
        match self {
            Color::Red => "red",
            Color::Blue => "blue",
            Color::Green => "green",
            Color::Magenta => "magenta",
            Color::Cyan => "cyan",
        }
    }
}

/// The colour of the `k`-th series.
pub fn palette_color(k: usize) -> (r: Color)
    ensures
        r == palette(k as int),
{
    let m = k % PALETTE_SIZE;
    if m == 0 {
        Color::Red
    } else if m == 1 {
        Color::Blue
    } else if m == 2 {
        Color::Green
    } else if m == 3 {
        Color::Magenta
    } else {
        Color::Cyan
    }
}

/// A named series of points: complexity, and value in billionths.
#[derive(Debug)]
pub struct Series {
    pub name: Vec<u8>,
    pub points: Vec<(u64, i64)>,
}

/// The data range an axis spans, in billionths.
#[derive(Clone, Copy, Debug, PartialEq, Eq, Structural)]
pub struct Axis {
    pub lo: i128,
    pub hi: i128,
}

impl Axis {
    pub open spec fn wf(self) -> bool {
        -VALUE_LIMIT < self.lo < self.hi < VALUE_LIMIT
    }

    /// The axis' span, the common denominator of the canvas positions on it.
    pub fn span(self) -> (r: i128)
        requires
            self.wf(),
        ensures
            r == span(self),
    {
        self.hi - self.lo
    }
}

/// The axis over `[lo, hi]`; a single value is widened by one unit on each
/// side so that the range never collapses.
pub open spec fn axis_over(lo: int, hi: int) -> Axis {
    if lo < hi {
        Axis { lo: lo as i128, hi: hi as i128 }
    } else {
        Axis { lo: (lo - UNIT) as i128, hi: (hi + UNIT) as i128 }
    }
}

/// The span of an axis; canvas positions of points are exact multiples
/// of `1 / span` hundredths of a pixel.
pub open spec fn span(a: Axis) -> int {
    a.hi - a.lo
}

/// Horizontal canvas position of value `v`, in hundredths of a pixel,
/// times the axis span: `margin + (v - lo) / (hi - lo) * plot_width`,
/// scaled so that no rounding takes place.
pub open spec fn canvas_x(a: Axis, v: int) -> int {
    MARGIN_SUB as int * span(a) + (v - a.lo) * (PLOT_WIDTH_SUB as int)
}

/// Vertical canvas position of value `v`, in hundredths of a pixel, times
/// the axis span; the canvas grows downwards.
pub open spec fn canvas_y(a: Axis, v: int) -> int {
    MARGIN_SUB as int * span(a) + (a.hi - v) * (PLOT_HEIGHT_SUB as int)
}

/// The data value at gridline `i` of an axis, from its low end.
pub open spec fn tick_value(a: Axis, i: int) -> int {
    a.lo + i * (a.hi - a.lo) / (GRID_DIVISIONS as int)
}

/// A gridline: its canvas position and the data value it marks.
#[derive(Clone, Copy, Debug, PartialEq, Eq, Structural)]
pub struct Tick {
    pub pos: i128,
    pub value: i128,
}

/// One drawn series: its name, colour, the canvas positions of its points
/// (each coordinate in hundredths of a pixel times its axis' span), and the
/// height of its legend entry (in hundredths of a pixel).
#[derive(Debug)]
pub struct Trace {
    pub name: Vec<u8>,
    pub color: Color,
    pub points: Vec<(i128, i128)>,
    pub legend_y: i128,
}

/// The geometry of a chart.
#[derive(Debug)]
pub struct Figure {
    pub x_axis: Axis,
    pub y_axis: Axis,
    pub x_ticks: Vec<Tick>,
    pub y_ticks: Vec<Tick>,
    pub traces: Vec<Trace>,
}

fn to_canvas_x(a: Axis, v: i128) -> (r: i128)
    requires
        a.wf(),
        -VALUE_LIMIT < v < VALUE_LIMIT,
    ensures
        r == canvas_x(a, v as int),
{
    proof {
        assert(-VALUE_LIMIT * 0x10_0000 < MARGIN_SUB * (a.hi - a.lo) + (v - a.lo) * PLOT_WIDTH_SUB
            < VALUE_LIMIT * 0x10_0000) by (nonlinear_arith)
            requires
                a.wf(),
                -VALUE_LIMIT < v < VALUE_LIMIT,
        ;
    }
    MARGIN_SUB * (a.hi - a.lo) + (v - a.lo) * PLOT_WIDTH_SUB
}

fn to_canvas_y(a: Axis, v: i128) -> (r: i128)
    requires
        a.wf(),
        -VALUE_LIMIT < v < VALUE_LIMIT,
    ensures
        r == canvas_y(a, v as int),
{
    proof {
        assert(-VALUE_LIMIT * 0x10_0000 < MARGIN_SUB * (a.hi - a.lo) + (a.hi - v) * PLOT_HEIGHT_SUB
            < VALUE_LIMIT * 0x10_0000) by (nonlinear_arith)
            requires
                a.wf(),
                -VALUE_LIMIT < v < VALUE_LIMIT,
        ;
    }
    MARGIN_SUB * (a.hi - a.lo) + (a.hi - v) * PLOT_HEIGHT_SUB
}

/// The data value at gridline `i` of a vertical axis, from its top.
pub open spec fn tick_value_down(a: Axis, i: int) -> int {
    a.hi - i * (a.hi - a.lo) / (GRID_DIVISIONS as int)
}

/// Whether some series has a point.
pub open spec fn has_points(series: Seq<Series>) -> bool {
    exists|k: int| 0 <= k < series.len() && (#[trigger] series[k]).points@.len() > 0
}

/// `lo` and `hi` are the least and the greatest value over all points.
pub open spec fn value_bounds(series: Seq<Series>, lo: int, hi: int) -> bool {
    &&& forall|k: int, j: int|
        0 <= k < series.len() && 0 <= j < series[k].points@.len() ==> lo <= (
        #[trigger] series[k].points@[j]).1 <= hi
    &&& exists|k: int, j: int|
        0 <= k < series.len() && 0 <= j < series[k].points@.len() && (
        #[trigger] series[k].points@[j]).1 == lo
    &&& exists|k: int, j: int|
        0 <= k < series.len() && 0 <= j < series[k].points@.len() && (
        #[trigger] series[k].points@[j]).1 == hi
}

/// The horizontal axis: the configured complexity range
/// `[min_metric, max_metric - 1]`, in billionths.
pub open spec fn x_axis_of(cfg: Config) -> Axis {
    axis_over(cfg.min_metric * UNIT, (cfg.max_metric - 1) * UNIT)
}

/// The canvas position of a point of complexity `x` and value `y`.
pub open spec fn canvas_point(xa: Axis, ya: Axis, p: (u64, i64)) -> (i128, i128) {
    (canvas_x(xa, p.0 * UNIT) as i128, canvas_y(ya, p.1 as int) as i128)
}

/// The least and the greatest value over all points, if there is a point.
pub fn value_range(series: &Vec<Series>) -> (r: Option<(i64, i64)>)
    ensures
        r is None <==> !has_points(series@),
        r matches Some((lo, hi)) ==> value_bounds(series@, lo as int, hi as int),
{
    let mut found = false;
    let mut lo: i64 = 0;
    let mut hi: i64 = 0;
    let mut k: usize = 0;
    while k < series.len()
        invariant
            0 <= k <= series@.len(),
            found <==> exists|q: int| 0 <= q < k && (#[trigger] series@[q]).points@.len() > 0,
            found ==> {
                &&& forall|q: int, j: int|
                    0 <= q < k && 0 <= j < series@[q].points@.len() ==> lo <= (
                    #[trigger] series@[q].points@[j]).1 <= hi
                &&& exists|q: int, j: int|
                    0 <= q < k && 0 <= j < series@[q].points@.len() && (
                    #[trigger] series@[q].points@[j]).1 == lo
                &&& exists|q: int, j: int|
                    0 <= q < k && 0 <= j < series@[q].points@.len() && (
                    #[trigger] series@[q].points@[j]).1 == hi
            },
        decreases series@.len() - k,
    {
        let pts = &series[k].points;
        let mut j: usize = 0;
        while j < pts.len()
            invariant
                0 <= k < series@.len(),
                pts == &series@[k as int].points,
                0 <= j <= pts@.len(),
                found <==> (exists|q: int| 0 <= q < k && (#[trigger] series@[q]).points@.len() > 0)
                    || j > 0,
                found ==> {
                    &&& forall|q: int, i: int|
                        (0 <= q < k && 0 <= i < series@[q].points@.len()) || (q == k && 0 <= i
                            < j) ==> lo <= (#[trigger] series@[q].points@[i]).1 <= hi
                    &&& exists|q: int, i: int|
                        ((0 <= q < k && 0 <= i < series@[q].points@.len()) || (q == k && 0 <= i
                            < j)) && (#[trigger] series@[q].points@[i]).1 == lo
                    &&& exists|q: int, i: int|
                        ((0 <= q < k && 0 <= i < series@[q].points@.len()) || (q == k && 0 <= i
                            < j)) && (#[trigger] series@[q].points@[i]).1 == hi
                },
            decreases pts@.len() - j,
        {
            let y = pts[j].1;
            proof {
                assert(series@[k as int].points@[j as int].1 == y);
            }
            if !found {
                lo = y;
                hi = y;
                found = true;
            } else {
                if y < lo {
                    lo = y;
                }
                if y > hi {
                    hi = y;
                }
            }
            j = j + 1;
        }
        proof {
            if pts@.len() > 0 {
                assert(series@[k as int].points@.len() > 0);
            }
        }
        k = k + 1;
    }
    if found {
        Some((lo, hi))
    } else {
        None
    }
}

fn make_axis(lo: i128, hi: i128) -> (r: Axis)
    requires
        -0x1_0000_0000_0000_0000_0000_0000 < lo <= hi < 0x1_0000_0000_0000_0000_0000_0000,
    ensures
        r == axis_over(lo as int, hi as int),
{
    if lo < hi {
        Axis { lo, hi }
    } else {
        Axis { lo: lo - UNIT, hi: hi + UNIT }
    }
}

/// The geometry of a chart of `series`: the axes, six gridlines on each,
/// and for each series, in order, its colour, its points on the canvas and
/// its legend entry. Without a single point there is nothing to scale the
/// vertical axis by, and the chart is refused.
pub fn layout(cfg: Config, series: &Vec<Series>) -> (r: Result<Figure, ErrorKind>)
    requires
        cfg.wf(),
    ensures
        r is Err <==> !has_points(series@),
        r matches Err(e) ==> e == ErrorKind::NoData,
        r matches Ok(f) ==> {
            &&& f.x_axis.wf()
            &&& f.y_axis.wf()
            &&& f.x_axis == x_axis_of(cfg)
            &&& exists|lo: int, hi: int|
                value_bounds(series@, lo, hi) && f.y_axis == axis_over(lo, hi)
            &&& f.x_ticks@.len() == GRID_DIVISIONS + 1
            &&& forall|i: int|
                0 <= i <= GRID_DIVISIONS ==> (#[trigger] f.x_ticks@[i]).pos == MARGIN_SUB + i * PLOT_WIDTH_SUB / GRID_DIVISIONS as int
                    && f.x_ticks@[i].value == tick_value(f.x_axis, i)
            &&& f.y_ticks@.len() == GRID_DIVISIONS + 1
            &&& forall|i: int|
                0 <= i <= GRID_DIVISIONS ==> (#[trigger] f.y_ticks@[i]).pos == MARGIN_SUB + i * PLOT_HEIGHT_SUB / GRID_DIVISIONS as int
                    && f.y_ticks@[i].value == tick_value_down(f.y_axis, i)
            &&& f.traces@.len() == series@.len()
            &&& forall|k: int|
                0 <= k < series@.len() ==> {
                    &&& (#[trigger] f.traces@[k]).name@ == series@[k].name@
                    &&& f.traces@[k].color == palette(k)
                    &&& f.traces@[k].legend_y == LEGEND_TOP_SUB + k * LEGEND_STEP_SUB
                    &&& f.traces@[k].points@.len() == series@[k].points@.len()
                    &&& forall|j: int|
                        0 <= j < series@[k].points@.len() ==> #[trigger] f.traces@[k].points@[j]
                            == canvas_point(f.x_axis, f.y_axis, series@[k].points@[j])
                }
        },
{
    let (lo, hi) = match value_range(series) {
        Some(b) => b,
        None => {
            return Err(ErrorKind::NoData);
        },
    };
    proof {
        let w = choose|k: int, j: int|
            0 <= k < series@.len() && 0 <= j < series@[k].points@.len() && (
            #[trigger] series@[k].points@[j]).1 == lo;
        assert(lo <= series@[w.0].points@[w.1].1 <= hi);
    }
    let x_axis = make_axis(
        cfg.min_metric as i128 * UNIT,
        (cfg.max_metric - 1) as i128 * UNIT,
    );
    let y_axis = make_axis(lo as i128, hi as i128);
    let mut x_ticks: Vec<Tick> = Vec::new();
    let mut y_ticks: Vec<Tick> = Vec::new();
    let mut i: i128 = 0;
    while i <= GRID_DIVISIONS
        invariant
            0 <= i <= GRID_DIVISIONS + 1,
            x_axis.wf(),
            y_axis.wf(),
            x_ticks@.len() == i,
            y_ticks@.len() == i,
            forall|q: int|
                0 <= q < i ==> (#[trigger] x_ticks@[q]).pos == MARGIN_SUB + q * PLOT_WIDTH_SUB / GRID_DIVISIONS as int
                    && x_ticks@[q].value == tick_value(x_axis, q),
            forall|q: int|
                0 <= q < i ==> (#[trigger] y_ticks@[q]).pos == MARGIN_SUB + q * PLOT_HEIGHT_SUB / GRID_DIVISIONS as int
                    && y_ticks@[q].value == tick_value_down(y_axis, q),
        decreases GRID_DIVISIONS + 1 - i,
    {
        proof {
            assert(0 <= i * (x_axis.hi - x_axis.lo) <= 5 * 2 * VALUE_LIMIT) by (nonlinear_arith)
                requires
                    0 <= i <= 5,
                    0 < x_axis.hi - x_axis.lo <= 2 * VALUE_LIMIT,
            ;
            assert(0 <= i * (y_axis.hi - y_axis.lo) <= 5 * 2 * VALUE_LIMIT) by (nonlinear_arith)
                requires
                    0 <= i <= 5,
                    0 < y_axis.hi - y_axis.lo <= 2 * VALUE_LIMIT,
            ;
        }
        let xs = i * (x_axis.hi - x_axis.lo) / GRID_DIVISIONS;
        let ys = i * (y_axis.hi - y_axis.lo) / GRID_DIVISIONS;
        proof {
            assert(0 <= xs <= x_axis.hi - x_axis.lo) by (nonlinear_arith)
                requires
                    0 <= i <= 5,
                    x_axis.lo < x_axis.hi,
                    xs as int == i * (x_axis.hi - x_axis.lo) / 5,
            ;
            assert(0 <= ys <= y_axis.hi - y_axis.lo) by (nonlinear_arith)
                requires
                    0 <= i <= 5,
                    y_axis.lo < y_axis.hi,
                    ys as int == i * (y_axis.hi - y_axis.lo) / 5,
            ;
        }
        x_ticks.push(
            Tick { pos: MARGIN_SUB + i * PLOT_WIDTH_SUB / GRID_DIVISIONS, value: x_axis.lo + xs },
        );
        y_ticks.push(
            Tick { pos: MARGIN_SUB + i * PLOT_HEIGHT_SUB / GRID_DIVISIONS, value: y_axis.hi - ys },
        );
        i = i + 1;
    }
    let mut traces: Vec<Trace> = Vec::new();
    let mut k: usize = 0;
    while k < series.len()
        invariant
            0 <= k <= series@.len(),
            x_axis.wf(),
            y_axis.wf(),
            x_axis == x_axis_of(cfg),
            traces@.len() == k,
            forall|q: int, j: int|
                0 <= q < series@.len() && 0 <= j < series@[q].points@.len() ==> y_axis.lo <= (
                #[trigger] series@[q].points@[j]).1 <= y_axis.hi,
            forall|q: int|
                0 <= q < k ==> {
                    &&& (#[trigger] traces@[q]).name@ == series@[q].name@
                    &&& traces@[q].color == palette(q)
                    &&& traces@[q].legend_y == LEGEND_TOP_SUB + q * LEGEND_STEP_SUB
                    &&& traces@[q].points@.len() == series@[q].points@.len()
                    &&& forall|j: int|
                        0 <= j < series@[q].points@.len() ==> #[trigger] traces@[q].points@[j]
                            == canvas_point(x_axis, y_axis, series@[q].points@[j])
                },
        decreases series@.len() - k,
    {
        let s = &series[k];
        let mut points: Vec<(i128, i128)> = Vec::new();
        let mut j: usize = 0;
        while j < s.points.len()
            invariant
                0 <= k < series@.len(),
                s == &series@[k as int],
                x_axis.wf(),
                y_axis.wf(),
                0 <= j <= s.points@.len(),
                points@.len() == j,
                forall|q: int, i: int|
                    0 <= q < series@.len() && 0 <= i < series@[q].points@.len() ==> y_axis.lo <= (
                    #[trigger] series@[q].points@[i]).1 <= y_axis.hi,
                forall|i: int|
                    0 <= i < j ==> #[trigger] points@[i] == canvas_point(
                        x_axis,
                        y_axis,
                        s.points@[i],
                    ),
            decreases s.points@.len() - j,
        {
            let (x, y) = s.points[j];
            assert(series@[k as int].points@[j as int] == (x, y));
            let cx = to_canvas_x(x_axis, x as i128 * UNIT);
            let cy = to_canvas_y(y_axis, y as i128);
            points.push((cx, cy));
            j = j + 1;
        }
        let name = s.name.clone();
        proof {
            assert(name@ =~= s.name@);
        }
        traces.push(
            Trace {
                name,
                color: palette_color(k),
                points,
                legend_y: LEGEND_TOP_SUB + k as i128 * LEGEND_STEP_SUB,
            },
        );
        k = k + 1;
    }
    Ok(Figure { x_axis, y_axis, x_ticks, y_ticks, traces })
}

/// The canvas mapping is affine and strictly monotone. The ends of an axis
/// land on the edges of the plot area (the low end of the vertical axis at
/// the bottom); a greater value always lands strictly further right, and
/// strictly higher.
pub proof fn lemma_canvas_mapping(a: Axis, v1: int, v2: int)
    requires
        a.lo < a.hi,
        v1 < v2,
    ensures
        canvas_x(a, a.lo as int) == MARGIN_SUB * span(a),
        canvas_x(a, a.hi as int) == (MARGIN_SUB + PLOT_WIDTH_SUB) * span(a),
        canvas_y(a, a.hi as int) == MARGIN_SUB * span(a),
        canvas_y(a, a.lo as int) == (MARGIN_SUB + PLOT_HEIGHT_SUB) * span(a),
        canvas_x(a, v1) < canvas_x(a, v2),
        canvas_y(a, v1) > canvas_y(a, v2),
        canvas_x(a, v2) - canvas_x(a, v1) == (v2 - v1) * PLOT_WIDTH_SUB,
        canvas_y(a, v1) - canvas_y(a, v2) == (v2 - v1) * PLOT_HEIGHT_SUB,
{
    let d = span(a);
    assert(MARGIN_SUB * d + (a.hi - a.lo) * PLOT_WIDTH_SUB == (MARGIN_SUB + PLOT_WIDTH_SUB) * d)
        by (nonlinear_arith)
        requires
            d == a.hi - a.lo,
    ;
    assert(MARGIN_SUB * d + (a.hi - a.lo) * PLOT_HEIGHT_SUB == (MARGIN_SUB + PLOT_HEIGHT_SUB)
        * d) by (nonlinear_arith)
        requires
            d == a.hi - a.lo,
    ;
    assert((v2 - a.lo) * PLOT_WIDTH_SUB - (v1 - a.lo) * PLOT_WIDTH_SUB == (v2 - v1)
        * PLOT_WIDTH_SUB) by (nonlinear_arith);
    assert((a.hi - v1) * PLOT_HEIGHT_SUB - (a.hi - v2) * PLOT_HEIGHT_SUB == (v2 - v1)
        * PLOT_HEIGHT_SUB) by (nonlinear_arith);
}

} // verus!
