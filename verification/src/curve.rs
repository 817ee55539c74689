//! 9-point response curve that maps the raw input of an axis to its calibrated and
//! configured output.
//!
//! Pedals and handbrake share the same curve design and feature report layout.
//! Both input and output use the 0-4096 range.
//!
//! Point layout:
//! - points 0 and 1 sit at the calibrated bottom, point 1 moves up with the bottom deadzone;
//!   both have output 0,
//! - points 2-6 are spaced evenly on the x-axis between points 1 and 7, and their outputs
//!   are the configurable part of the curve,
//! - points 7 and 8 sit at the calibrated top, point 7 moves down with the top deadzone;
//!   both have output 4096.
use vstd::prelude::*;

verus! {

/// Max logical value for both x and y axis.
pub const MAX_VALUE: u16 = 4096;

/// Number of control points.
pub const POINT_COUNT: usize = 9;

/// Number of configurable points (indices 2-6).
pub const MIDDLE_COUNT: usize = 5;

/// Number of evenly spaced intervals between points 1 and 7.
pub const INTERVALS: u16 = 6;

/// Number of words in a feature report.
pub const REPORT_WORDS: usize = 32;

/// A single control point on the curve: `x` is the raw input, `y` the output.
#[derive(Debug, Clone, Copy, PartialEq, Eq, Structural)]
pub struct Point {
    pub x: u16,
    pub y: u16,
}

/// The 9-point curve.
///
/// `points[0].x == points[1].x` at creation, point 1 increases with the bottom deadzone.
/// `points[7].x == points[8].x` at creation, point 7 decreases with the top deadzone.
#[derive(Debug, Clone, PartialEq, Eq)]
pub struct Curve {
    points: [Point; POINT_COUNT],
}

impl View for Curve {
    type V = Seq<Point>;

    closed spec fn view(&self) -> Seq<Point> {
        self.points@
    }
}

/// Every curve has nine points.
pub proof fn lemma_curve_len(c: &Curve)
    ensures
        c@.len() == POINT_COUNT,
{
}

// ---------------------------------------------------------------------------
// Mathematical model
// ---------------------------------------------------------------------------

/// The smaller of two integers.
pub open spec fn min_int(a: int, b: int) -> int {
    if a <= b {
        a
    } else {
        b
    }
}

/// The larger of two integers.
pub open spec fn max_int(a: int, b: int) -> int {
    if a >= b {
        a
    } else {
        b
    }
}

/// The point with coordinates `x` and `y`.
pub open spec fn pt(x: int, y: int) -> Point {
    Point { x: x as u16, y: y as u16 }
}

/// The default outputs of the five middle points of a linear curve.
pub open spec fn linear_y() -> Seq<u16> {
    seq![682u16, 1365u16, 2048u16, 2730u16, 3413u16]
}

/// The x-value of the middle point `k` (1-5) between `start` and `end`: the `k`-th of six even
/// steps, or `start` where the span is empty.
pub open spec fn spaced_x(start: int, end: int, k: int) -> int {
    if end <= start {
        start
    } else {
        min_int(start + (end - start) * k / (INTERVALS as int), MAX_VALUE as int)
    }
}

/// `pts` with the x-values of points 2-6 recomputed to be evenly spaced between points 1
/// and 7; every other coordinate is kept.
pub open spec fn respaced(pts: Seq<Point>) -> Seq<Point> {
    Seq::new(
        pts.len(),
        |i: int|
            if 2 <= i <= 6 {
                pt(spaced_x(pts[1].x as int, pts[7].x as int, i - 1), pts[i].y as int)
            } else {
                pts[i]
            },
    )
}

/// The calibrated range: the distance on the x-axis from point 0 to point 8.
pub open spec fn range_of(pts: Seq<Point>) -> int {
    pts[8].x - pts[0].x
}

/// The bottom deadzone as a percentage of the calibrated range (100 for an empty range).
pub open spec fn bottom_dz_percent(pts: Seq<Point>) -> int {
    if range_of(pts) == 0 {
        100
    } else {
        min_int((pts[1].x - pts[0].x) * 100 / range_of(pts), 100)
    }
}

/// The position of the top deadzone's start as a percentage of the calibrated range, counted
/// from the bottom (0 for an empty range).
pub open spec fn top_dz_percent(pts: Seq<Point>) -> int {
    if range_of(pts) == 0 {
        0
    } else {
        100 - (pts[8].x - pts[7].x) * 100 / range_of(pts)
    }
}

/// The bottom of a calibration request, clamped to the logical maximum.
pub open spec fn clamped_bottom(bottom: u16) -> int {
    min_int(bottom as int, MAX_VALUE as int)
}

/// The top of a calibration request, clamped to the logical maximum and to at least the
/// clamped bottom.
pub open spec fn clamped_top(bottom: u16, top: u16) -> int {
    max_int(min_int(top as int, MAX_VALUE as int), clamped_bottom(bottom))
}

/// `pts` with its extremes set to the calibrated `bottom` and `top` (deadzones reset) and
/// the middle x-values recomputed.
pub open spec fn with_extremes(pts: Seq<Point>, bottom: u16, top: u16) -> Seq<Point> {
    let b = clamped_bottom(bottom);
    let t = clamped_top(bottom, top);
    respaced(
        pts.update(0, pt(b, 0)).update(1, pt(b, 0)).update(7, pt(t, MAX_VALUE as int)).update(
            8,
            pt(t, MAX_VALUE as int),
        ),
    )
}

/// The deadzone offset for `pct` percent (clamped to 100) of the calibrated range.
pub open spec fn dz_offset(pts: Seq<Point>, pct: u8) -> int {
    range_of(pts) * min_int(pct as int, 100) / 100
}

/// `pts` after a bottom deadzone of `pct` percent.
pub open spec fn with_bottom_dz(pts: Seq<Point>, pct: u8) -> Seq<Point> {
    let x1 = min_int(pts[0].x + dz_offset(pts, pct), pts[7].x as int);
    respaced(pts.update(1, pt(x1, pts[1].y as int)))
}

/// `pts` after a top deadzone of `pct` percent.
pub open spec fn with_top_dz(pts: Seq<Point>, pct: u8) -> Seq<Point> {
    let x7 = max_int(pts[8].x - dz_offset(pts, pct), pts[1].x as int);
    respaced(pts.update(7, pt(x7, pts[7].y as int)))
}

/// The running maximum of the first `k + 1` requested middle outputs, each clamped to the
/// logical maximum (0 before the first).
pub open spec fn running_max_y(ys: Seq<u16>, k: int) -> int
    decreases k + 1,
{
    if k < 0 {
        0
    } else {
        max_int(min_int(ys[k] as int, MAX_VALUE as int), running_max_y(ys, k - 1))
    }
}

/// `pts` with the outputs of points 2-6 set from `ys`: clamped and made non-decreasing.
pub open spec fn with_middle_y(pts: Seq<Point>, ys: Seq<u16>) -> Seq<Point> {
    Seq::new(
        pts.len(),
        |i: int|
            if 2 <= i <= 6 {
                pt(pts[i].x as int, running_max_y(ys, i - 2))
            } else {
                pts[i]
            },
    )
}

/// The curve that calibration to `bottom` and `top` produces: linear, without deadzones.
pub open spec fn calibrated_points(bottom: u16, top: u16) -> Seq<Point> {
    let b = clamped_bottom(bottom);
    let t = clamped_top(bottom, top);
    seq![
        pt(b, 0),
        pt(b, 0),
        pt(spaced_x(b, t, 1), 682),
        pt(spaced_x(b, t, 2), 1365),
        pt(spaced_x(b, t, 3), 2048),
        pt(spaced_x(b, t, 4), 2730),
        pt(spaced_x(b, t, 5), 3413),
        pt(t, MAX_VALUE as int),
        pt(t, MAX_VALUE as int),
    ]
}

/// The first index `j` in `i..=7` whose point has `v <= x`, or 7 if there is none.
pub open spec fn segment(pts: Seq<Point>, v: int, i: int) -> int
    decreases 7 - i,
{
    if i >= 7 {
        7
    } else if v <= pts[i].x {
        i
    } else {
        segment(pts, v, i + 1)
    }
}

/// The output at `v` on the line from `p0` to `p1`, rounded down and capped at the maximum.
pub open spec fn lerp(p0: Point, p1: Point, v: int) -> int {
    if p1.x == p0.x {
        p1.y as int
    } else {
        min_int(
            p0.y + (v - p0.x) * (p1.y - p0.y) / (p1.x - p0.x),
            MAX_VALUE as int,
        )
    }
}

/// The input clamped to the logical maximum.
pub open spec fn clamped_input(input: u16) -> int {
    min_int(input as int, MAX_VALUE as int)
}

/// The output of the curve `pts` for the raw input `input`: 0 in the bottom deadzone, the
/// maximum in the top deadzone, and linear between neighbouring points elsewhere.
pub open spec fn interpolation(pts: Seq<Point>, input: u16) -> int {
    let v = clamped_input(input);
    if v <= pts[1].x {
        0
    } else if v >= pts[7].x {
        MAX_VALUE as int
    } else {
        let i = segment(pts, v, 2);
        lerp(pts[i - 1], pts[i], v)
    }
}

/// The outputs of the segment that the input `input` falls into do not decrease (else the
/// interpolation would underflow).
pub open spec fn interpolation_defined(pts: Seq<Point>, input: u16) -> bool {
    let v = clamped_input(input);
    v <= pts[1].x || v >= pts[7].x || {
        let i = segment(pts, v, 2);
        pts[i - 1].y <= pts[i].y
    }
}

/// The 32-word feature report of `pts` under channel id `data_id`: the id, the nine (x, y)
/// pairs, and zero padding.
pub open spec fn report_words(data_id: u16, pts: Seq<Point>) -> Seq<u16> {
    Seq::new(
        REPORT_WORDS as nat,
        |k: int|
            if k == 0 {
                data_id
            } else if k < 19 {
                if k % 2 == 1 {
                    pts[(k - 1) / 2].x
                } else {
                    pts[(k - 2) / 2].y
                }
            } else {
                0u16
            },
    )
}

/// The nine points that a feature report carries in its words 1-18.
pub open spec fn report_points(data: Seq<u16>) -> Seq<Point> {
    Seq::new(POINT_COUNT as nat, |i: int| Point { x: data[1 + 2 * i], y: data[2 + 2 * i] })
}

/// A well-formed curve: x-values and outputs non-decreasing along the points, within the
/// logical range, outputs 0 at points 0 and 1 and the maximum at points 7 and 8.
pub open spec fn well_formed(pts: Seq<Point>) -> bool {
    &&& pts.len() == POINT_COUNT
    &&& forall|i: int| 0 <= i < 8 ==> #[trigger] pts[i].x <= pts[i + 1].x
    &&& forall|i: int| 0 <= i < 8 ==> #[trigger] pts[i].y <= pts[i + 1].y
    &&& pts[8].x <= MAX_VALUE
    &&& pts[0].y == 0
    &&& pts[1].y == 0
    &&& pts[7].y == MAX_VALUE
    &&& pts[8].y == MAX_VALUE
}

/// The middle points are evenly spaced between points 1 and 7.
pub open spec fn evenly_spaced(pts: Seq<Point>) -> bool {
    forall|i: int|
        2 <= i <= 6 ==> #[trigger] pts[i].x == spaced_x(pts[1].x as int, pts[7].x as int, i - 1)
}

// ---------------------------------------------------------------------------
// Lemmas
// ---------------------------------------------------------------------------

/// The search for the segment stays in `i..=7`, and below 7 it stops at a point at or
/// above `v`.
proof fn lemma_segment_bounds(pts: Seq<Point>, v: int, i: int)
    requires
        2 <= i <= 7,
    ensures
        i <= segment(pts, v, i) <= 7,
        segment(pts, v, i) < 7 ==> v <= pts[segment(pts, v, i)].x,
        forall|j: int| i <= j < segment(pts, v, i) ==> v > #[trigger] pts[j].x,
    decreases 7 - i,
{
    if i < 7 && v > pts[i].x {
        lemma_segment_bounds(pts, v, i + 1);
    }
}

/// Inside the two deadzones the segment found for `v` is a proper one: its left point is
/// below `v` and its right point at or above it.
proof fn lemma_segment_brackets(pts: Seq<Point>, v: int)
    requires
        pts.len() == POINT_COUNT,
        pts[1].x < v < pts[7].x,
    ensures
        2 <= segment(pts, v, 2) <= 7,
        pts[segment(pts, v, 2) - 1].x < v <= pts[segment(pts, v, 2)].x,
{
    lemma_segment_bounds(pts, v, 2);
    let i = segment(pts, v, 2);
    if i > 2 {
        assert(v > pts[i - 1].x);
    }
}

/// A well-formed curve has a defined output for every input.
pub proof fn lemma_well_formed_interpolation_defined(pts: Seq<Point>, input: u16)
    requires
        well_formed(pts),
    ensures
        interpolation_defined(pts, input),
{
    let v = clamped_input(input);
    if pts[1].x < v < pts[7].x {
        lemma_segment_brackets(pts, v);
        let i = segment(pts, v, 2);
        assert(pts[i - 1].y <= pts[(i - 1) + 1].y);
    }
}

/// The output of any curve lies in the logical range 0-4096.
pub proof fn lemma_interpolation_in_range(pts: Seq<Point>, input: u16)
    requires
        pts.len() == POINT_COUNT,
        interpolation_defined(pts, input),
    ensures
        0 <= interpolation(pts, input) <= MAX_VALUE,
{
    let v = clamped_input(input);
    if pts[1].x < v < pts[7].x {
        lemma_segment_brackets(pts, v);
        let i = segment(pts, v, 2);
        let p0 = pts[i - 1];
        let p1 = pts[i];
        let t = v - p0.x;
        let dy = p1.y - p0.y;
        let dx = p1.x - p0.x;
        assert(0 <= t * dy) by (nonlinear_arith)
            requires
                0 <= t,
                0 <= dy,
        ;
        assert(0 <= t * dy / dx) by (nonlinear_arith)
            requires
                0 <= t * dy,
                0 < dx,
        ;
    }
}

/// The segment found for a larger input is never to the left of the one for a smaller input.
proof fn lemma_segment_monotone(pts: Seq<Point>, va: int, vb: int, i: int)
    requires
        va <= vb,
        2 <= i <= 7,
    ensures
        segment(pts, va, i) <= segment(pts, vb, i),
    decreases 7 - i,
{
    lemma_segment_bounds(pts, va, i);
    lemma_segment_bounds(pts, vb, i);
    if i < 7 && va > pts[i].x {
        lemma_segment_monotone(pts, va, vb, i + 1);
    }
}

/// Along a well-formed curve the outputs never decrease.
proof fn lemma_well_formed_y_ordered(pts: Seq<Point>, i: int, j: int)
    requires
        well_formed(pts),
        0 <= i <= j < POINT_COUNT,
    ensures
        pts[i].y <= pts[j].y,
    decreases j - i,
{
    if i < j {
        lemma_well_formed_y_ordered(pts, i, j - 1);
        assert(pts[j - 1].y <= pts[(j - 1) + 1].y);
    }
}

/// On a segment whose outputs do not decrease, the interpolated output lies between the
/// left output and the right output (capped at the maximum), and it grows with the input.
proof fn lemma_lerp_bounds(p0: Point, p1: Point, va: int, vb: int)
    requires
        p0.x < va <= vb <= p1.x,
        p0.y <= p1.y,
    ensures
        min_int(p0.y as int, MAX_VALUE as int) <= lerp(p0, p1, va),
        lerp(p0, p1, va) <= lerp(p0, p1, vb),
        lerp(p0, p1, vb) <= min_int(p1.y as int, MAX_VALUE as int),
{
    let dx = p1.x - p0.x;
    let dy = p1.y - p0.y;
    let ta = va - p0.x;
    let tb = vb - p0.x;
    assert(0 <= ta * dy / dx <= tb * dy / dx <= dy) by (nonlinear_arith)
        requires
            0 < ta <= tb <= dx,
            0 <= dy,
    ;
}

/// A well-formed curve never maps a larger input to a smaller output.
pub proof fn lemma_interpolation_monotone(pts: Seq<Point>, a: u16, b: u16)
    requires
        well_formed(pts),
        a <= b,
    ensures
        interpolation(pts, a) <= interpolation(pts, b),
{
    lemma_well_formed_interpolation_defined(pts, a);
    lemma_well_formed_interpolation_defined(pts, b);
    lemma_interpolation_in_range(pts, a);
    lemma_interpolation_in_range(pts, b);
    let va = clamped_input(a);
    let vb = clamped_input(b);
    if pts[1].x < va && vb < pts[7].x {
        lemma_segment_brackets(pts, va);
        lemma_segment_brackets(pts, vb);
        lemma_segment_monotone(pts, va, vb, 2);
        let ia = segment(pts, va, 2);
        let ib = segment(pts, vb, 2);
        lemma_well_formed_y_ordered(pts, ia - 1, ia);
        lemma_well_formed_y_ordered(pts, ib - 1, ib);
        if ia == ib {
            lemma_lerp_bounds(pts[ia - 1], pts[ia], va, vb);
        } else {
            lemma_lerp_bounds(pts[ia - 1], pts[ia], va, va);
            lemma_lerp_bounds(pts[ib - 1], pts[ib], vb, vb);
            lemma_well_formed_y_ordered(pts, ia, ib - 1);
        }
    }
}

/// The linear curve is the identity on the logical range: every input comes out unchanged
/// (clamped to the maximum).
pub proof fn lemma_linear_is_identity(input: u16)
    ensures
        interpolation(calibrated_points(0, MAX_VALUE), input) == clamped_input(input),
{
    let pts = calibrated_points(0, MAX_VALUE);
    assert(clamped_bottom(0) == 0);
    assert(clamped_top(0, MAX_VALUE) == 4096);
    assert(spaced_x(0, 4096, 1) == 682);
    assert(spaced_x(0, 4096, 2) == 1365);
    assert(spaced_x(0, 4096, 3) == 2048);
    assert(spaced_x(0, 4096, 4) == 2730);
    assert(spaced_x(0, 4096, 5) == 3413);
    assert forall|i: int| 0 <= i < 9 implies #[trigger] pts[i].x == pts[i].y by {}
    let v = clamped_input(input);
    if pts[1].x < v < pts[7].x {
        lemma_segment_brackets(pts, v);
        let i = segment(pts, v, 2);
        let p0 = pts[i - 1];
        let p1 = pts[i];
        let t = v - p0.x;
        let dx = p1.x - p0.x;
        assert(p1.y - p0.y == dx);
        assert(t * dx / dx == t) by (nonlinear_arith)
            requires
                0 < dx,
        ;
    }
}

/// Inputs in the bottom deadzone give 0 and inputs in the top deadzone give the maximum.
pub proof fn lemma_deadzones(pts: Seq<Point>, input: u16)
    ensures
        clamped_input(input) <= pts[1].x ==> interpolation(pts, input) == 0,
        pts[1].x < clamped_input(input) && pts[7].x <= clamped_input(input) ==> interpolation(
            pts,
            input,
        ) == MAX_VALUE,
{
}

/// Calibration puts the bottom at point 0 and 1 and the top at points 7 and 8, clamped to the
/// logical range and to top >= bottom.
pub proof fn lemma_calibration_extremes(bottom: u16, top: u16)
    ensures
        calibrated_points(bottom, top)[0].x == min_int(bottom as int, MAX_VALUE as int),
        calibrated_points(bottom, top)[1].x == min_int(bottom as int, MAX_VALUE as int),
        calibrated_points(bottom, top)[7].x == clamped_top(bottom, top),
        calibrated_points(bottom, top)[8].x == clamped_top(bottom, top),
        bottom <= top <= MAX_VALUE ==> calibrated_points(bottom, top)[0].x == bottom
            && calibrated_points(bottom, top)[8].x == top,
{
}

/// A well-formed curve meets the requirements of the deadzone percentages.
pub proof fn lemma_well_formed_percentages_defined(pts: Seq<Point>)
    requires
        well_formed(pts),
    ensures
        pts[0].x <= pts[1].x <= pts[7].x <= pts[8].x,
        pts[0].x == pts[8].x || (pts[8].x - pts[7].x) * 100 / range_of(pts) <= 100,
{
    lemma_well_formed_x_chain(pts);
    let r = range_of(pts);
    let d = pts[8].x - pts[7].x;
    if r != 0 {
        assert(d * 100 / r <= 100) by (nonlinear_arith)
            requires
                0 <= d <= r,
                0 < r,
        ;
    }
}

/// Writing a curve to a report and reading it back gives the same points.
pub proof fn lemma_report_roundtrip(data_id: u16, pts: Seq<Point>)
    requires
        pts.len() == POINT_COUNT,
    ensures
        report_points(report_words(data_id, pts)) == pts,
        report_words(data_id, pts)[0] == data_id,
{
    let w = report_words(data_id, pts);
    let r = report_points(w);
    assert forall|i: int| 0 <= i < POINT_COUNT implies r[i] == pts[i] by {
        assert((1 + 2 * i) % 2 == 1 && (1 + 2 * i - 1) / 2 == i);
        assert((2 + 2 * i) % 2 == 0 && (2 + 2 * i - 2) / 2 == i);
    }
    assert(r =~= pts);
}

/// A report whose padding is zero is written back word for word from the points it carries.
pub proof fn lemma_report_points_rewrite(data: Seq<u16>)
    requires
        data.len() == REPORT_WORDS,
        forall|k: int| 19 <= k < REPORT_WORDS ==> #[trigger] data[k] == 0,
    ensures
        report_words(data[0], report_points(data)) == data,
{
    let w = report_words(data[0], report_points(data));
    assert forall|k: int| 0 <= k < REPORT_WORDS implies w[k] == data[k] by {
        if 1 <= k < 19 {
            if k % 2 == 1 {
                assert(1 + 2 * ((k - 1) / 2) == k);
            } else {
                assert(2 + 2 * ((k - 2) / 2) == k);
            }
        }
    }
    assert(w =~= data);
}

/// The spaced x-values lie between the two ends and grow with `k`.
proof fn lemma_spaced_x(start: int, end: int, k: int)
    requires
        0 <= start <= MAX_VALUE,
        start <= end <= MAX_VALUE,
        1 <= k <= 5,
    ensures
        start <= spaced_x(start, end, k) <= spaced_x(start, end, k + 1) <= end,
        spaced_x(start, end, k) == start + (end - start) * k / 6,
{
    let s = end - start;
    assert(0 <= s * k / 6 <= s * (k + 1) / 6 <= s) by (nonlinear_arith)
        requires
            0 <= s,
            1 <= k <= 5,
    ;
}

/// Respacing a curve whose x-values are ordered keeps it well formed and evenly spaced.
proof fn lemma_respaced_well_formed(pts: Seq<Point>)
    requires
        pts.len() == POINT_COUNT,
        pts[0].x <= pts[1].x <= pts[7].x <= pts[8].x <= MAX_VALUE,
        forall|i: int| 0 <= i < 8 ==> #[trigger] pts[i].y <= pts[i + 1].y,
        pts[0].y == 0,
        pts[1].y == 0,
        pts[7].y == MAX_VALUE,
        pts[8].y == MAX_VALUE,
    ensures
        well_formed(respaced(pts)),
        evenly_spaced(respaced(pts)),
{
    let r = respaced(pts);
    let s = pts[1].x as int;
    let e = pts[7].x as int;
    assert forall|k: int| 1 <= k <= 5 implies s <= #[trigger] spaced_x(s, e, k) <= spaced_x(s, e, k + 1)
        <= e by {
        lemma_spaced_x(s, e, k);
    }
    assert(spaced_x(s, e, 5) <= e);
    assert forall|i: int| 0 <= i < 8 implies #[trigger] r[i].x <= r[i + 1].x by {
        if 2 <= i <= 5 {
            assert(spaced_x(s, e, i - 1) <= spaced_x(s, e, i));
        } else if i == 1 {
            assert(s <= spaced_x(s, e, 1));
        } else if i == 6 {
            assert(spaced_x(s, e, 5) <= e);
        }
    }
    assert forall|i: int| 0 <= i < 8 implies #[trigger] r[i].y <= r[i + 1].y by {
        assert(pts[i].y <= pts[i + 1].y);
    }
}

/// Along a well-formed curve the x-values of the deadzone points are ordered.
proof fn lemma_well_formed_x_chain(pts: Seq<Point>)
    requires
        well_formed(pts),
    ensures
        pts[0].x <= pts[1].x <= pts[7].x <= pts[8].x,
{
    assert(pts[0].x <= pts[0 + 1int].x);
    assert(pts[1].x <= pts[1 + 1int].x);
    assert(pts[2].x <= pts[2 + 1int].x);
    assert(pts[3].x <= pts[3 + 1int].x);
    assert(pts[4].x <= pts[4 + 1int].x);
    assert(pts[5].x <= pts[5 + 1int].x);
    assert(pts[6].x <= pts[6 + 1int].x);
    assert(pts[7].x <= pts[7 + 1int].x);
}

/// The running maximum of the middle outputs lies in the logical range and grows with `k`.
proof fn lemma_running_max_bounds(ys: Seq<u16>, k: int)
    requires
        0 <= k,
    ensures
        0 <= running_max_y(ys, k - 1) <= running_max_y(ys, k) <= MAX_VALUE,
    decreases k,
{
    if k > 0 {
        lemma_running_max_bounds(ys, k - 1);
    }
}

// ---------------------------------------------------------------------------
// Laws of the operations
// ---------------------------------------------------------------------------

/// The bottom deadzone is measured from the calibrated bottom (point 0), not from the
/// current point 1: after a bottom deadzone of `pct` percent, point 1 sits `pct` percent
/// (at most 100) of the calibrated range above point 0, but not above point 7. Points 0, 7
/// and 8 and all outputs are unchanged.
pub proof fn lemma_bottom_dz_position(pts: Seq<Point>, pct: u8)
    requires
        pts.len() == POINT_COUNT,
        pts[0].x <= pts[8].x,
    ensures
        with_bottom_dz(pts, pct)[1].x == min_int(
            pts[0].x + (pts[8].x - pts[0].x) * min_int(pct as int, 100) / 100,
            pts[7].x as int,
        ),
        with_bottom_dz(pts, pct).len() == POINT_COUNT,
        with_bottom_dz(pts, pct)[0] == pts[0],
        with_bottom_dz(pts, pct)[7] == pts[7],
        with_bottom_dz(pts, pct)[8] == pts[8],
        forall|i: int| 0 <= i < POINT_COUNT ==> #[trigger] with_bottom_dz(pts, pct)[i].y == pts[i].y,
{
    let d = min_int(pct as int, 100);
    let r = pts[8].x - pts[0].x;
    assert(0 <= r * d / 100 <= r) by (nonlinear_arith)
        requires
            0 <= r,
            0 <= d <= 100,
    ;
}

/// Setting a bottom deadzone replaces the previous one: setting `first` and then `second`
/// gives the same curve as setting `second` alone.
pub proof fn lemma_bottom_dz_replaces(pts: Seq<Point>, first: u8, second: u8)
    requires
        pts.len() == POINT_COUNT,
        pts[0].x <= pts[8].x,
    ensures
        with_bottom_dz(with_bottom_dz(pts, first), second) == with_bottom_dz(pts, second),
{
    lemma_bottom_dz_position(pts, first);
    let q = with_bottom_dz(pts, first);
    lemma_bottom_dz_position(q, second);
    lemma_bottom_dz_position(pts, second);
    let a = with_bottom_dz(q, second);
    let b = with_bottom_dz(pts, second);
    assert forall|i: int| 0 <= i < POINT_COUNT implies a[i] == b[i] by {
        assert(a[i].y == q[i].y && q[i].y == pts[i].y && b[i].y == pts[i].y);
    }
    assert(a =~= b);
}

/// Read back on a fresh linear curve, a bottom deadzone of `pct` percent (at most 100) is
/// `pct` percent, or one less from rounding down.
pub proof fn lemma_bottom_dz_read_back(pct: u8)
    ensures
        ({
            let c = with_bottom_dz(calibrated_points(0, MAX_VALUE), pct);
            let d = min_int(pct as int, 100);
            let back = (c[1].x - c[0].x) * 100 / (c[8].x - c[0].x);
            d - 1 <= back <= d && d - 1 <= bottom_dz_percent(c) <= d
        }),
{
    let pts = calibrated_points(0, MAX_VALUE);
    lemma_bottom_dz_position(pts, pct);
    let d = min_int(pct as int, 100);
    let o = 4096 * d / 100;
    assert(0 <= o <= 4096 && o * 100 <= 4096 * d && o * 100 > 4096 * d - 100) by (nonlinear_arith)
        requires
            o == 4096 * d / 100,
            0 <= d <= 100,
    ;
    assert(d - 1 <= o * 100 / 4096 <= d) by (nonlinear_arith)
        requires
            o * 100 <= 4096 * d,
            o * 100 > 4096 * d - 100,
            0 <= o,
            0 <= d,
    ;
}

/// The top deadzone is measured down from the calibrated top (point 8), not from the current
/// point 7: after a top deadzone of `pct` percent, point 7 sits `pct` percent (at most 100)
/// of the calibrated range below point 8, but not below point 1. Points 0, 1 and 8 and all
/// outputs are unchanged.
pub proof fn lemma_top_dz_position(pts: Seq<Point>, pct: u8)
    requires
        pts.len() == POINT_COUNT,
        pts[0].x <= pts[8].x,
    ensures
        with_top_dz(pts, pct)[7].x == max_int(
            pts[8].x - (pts[8].x - pts[0].x) * min_int(pct as int, 100) / 100,
            pts[1].x as int,
        ),
        with_top_dz(pts, pct).len() == POINT_COUNT,
        with_top_dz(pts, pct)[0] == pts[0],
        with_top_dz(pts, pct)[1] == pts[1],
        with_top_dz(pts, pct)[8] == pts[8],
        forall|i: int| 0 <= i < POINT_COUNT ==> #[trigger] with_top_dz(pts, pct)[i].y == pts[i].y,
{
    let d = min_int(pct as int, 100);
    let r = pts[8].x - pts[0].x;
    assert(0 <= r * d / 100 <= r) by (nonlinear_arith)
        requires
            0 <= r,
            0 <= d <= 100,
    ;
}

/// Setting a top deadzone replaces the previous one: setting `first` and then `second` gives
/// the same curve as setting `second` alone.
pub proof fn lemma_top_dz_replaces(pts: Seq<Point>, first: u8, second: u8)
    requires
        pts.len() == POINT_COUNT,
        pts[0].x <= pts[8].x,
    ensures
        with_top_dz(with_top_dz(pts, first), second) == with_top_dz(pts, second),
{
    lemma_top_dz_position(pts, first);
    let q = with_top_dz(pts, first);
    lemma_top_dz_position(q, second);
    lemma_top_dz_position(pts, second);
    let a = with_top_dz(q, second);
    let b = with_top_dz(pts, second);
    assert forall|i: int| 0 <= i < POINT_COUNT implies a[i] == b[i] by {
        assert(a[i].y == q[i].y && q[i].y == pts[i].y && b[i].y == pts[i].y);
    }
    assert(a =~= b);
}

/// Calibration maps the calibrated input range onto the whole output range: for any bottom and
/// top, middle point `i` (2-6) sits `i - 1` sixths of the way along the calibrated range and
/// outputs `i - 1` sixths of the maximum (682, 1365, 2048, 2730, 3413), whatever the
/// calibration.
pub proof fn lemma_calibration_outputs(bottom: u16, top: u16)
    ensures
        forall|i: int|
            2 <= i <= 6 ==> #[trigger] calibrated_points(bottom, top)[i].y == MAX_VALUE * (i - 1)
                / 6,
        forall|i: int|
            2 <= i <= 6 ==> #[trigger] calibrated_points(bottom, top)[i].x == clamped_bottom(
                bottom,
            ) + (clamped_top(bottom, top) - clamped_bottom(bottom)) * (i - 1) / 6,
        calibrated_points(bottom, top)[2].y == 682,
        calibrated_points(bottom, top)[3].y == 1365,
        calibrated_points(bottom, top)[4].y == 2048,
        calibrated_points(bottom, top)[5].y == 2730,
        calibrated_points(bottom, top)[6].y == 3413,
        calibrated_points(bottom, top)[0].y == 0,
        calibrated_points(bottom, top)[1].y == 0,
        calibrated_points(bottom, top)[7].y == MAX_VALUE,
        calibrated_points(bottom, top)[8].y == MAX_VALUE,
{
    let b = clamped_bottom(bottom);
    let t = clamped_top(bottom, top);
    assert forall|k: int| 1 <= k <= 5 implies #[trigger] spaced_x(b, t, k) == b + (t - b) * k / 6 by {
        lemma_spaced_x(b, t, k);
    }
    let c = calibrated_points(bottom, top);
    assert forall|i: int| 2 <= i <= 6 implies #[trigger] c[i].x == b + (t - b) * (i - 1) / 6 by {
        assert(spaced_x(b, t, i - 1) == b + (t - b) * (i - 1) / 6);
        assert(0 <= (t - b) * (i - 1) / 6 <= t - b) by (nonlinear_arith)
            requires
                0 <= t - b,
                1 <= i - 1 <= 5,
        ;
    }
}

/// The layout of the feature report: word 0 is the channel id, words `1 + 2i` and `2 + 2i`
/// are the x and y of point `i` for all nine points, and words 19-31 are zero.
pub proof fn lemma_report_layout(data_id: u16, pts: Seq<Point>)
    requires
        pts.len() == POINT_COUNT,
    ensures
        report_words(data_id, pts).len() == REPORT_WORDS,
        report_words(data_id, pts)[0] == data_id,
        forall|i: int|
            0 <= i < POINT_COUNT ==> #[trigger] report_words(data_id, pts)[1 + 2 * i] == pts[i].x,
        forall|i: int|
            0 <= i < POINT_COUNT ==> #[trigger] report_words(data_id, pts)[2 + 2 * i] == pts[i].y,
        forall|k: int| 19 <= k < REPORT_WORDS ==> #[trigger] report_words(data_id, pts)[k] == 0,
{
    let w = report_words(data_id, pts);
    assert forall|i: int| 0 <= i < POINT_COUNT implies #[trigger] w[1 + 2 * i] == pts[i].x by {
        assert((1 + 2 * i) % 2 == 1 && (1 + 2 * i - 1) / 2 == i);
    }
    assert forall|i: int| 0 <= i < POINT_COUNT implies #[trigger] w[2 + 2 * i] == pts[i].y by {
        assert((2 + 2 * i) % 2 == 0 && (2 + 2 * i - 2) / 2 == i);
    }
}

/// Reading a feature report: point `i` of the curve is (word `1 + 2i`, word `2 + 2i`) for all
/// nine points.
pub proof fn lemma_report_points_layout(data: Seq<u16>)
    requires
        data.len() >= 19,
    ensures
        report_points(data).len() == POINT_COUNT,
        forall|i: int|
            0 <= i < POINT_COUNT ==> #[trigger] report_points(data)[i].x == data[1 + 2 * i]
                && report_points(data)[i].y == data[2 + 2 * i],
{
}

/// A fresh calibration over a non-empty range has no deadzones: the bottom deadzone reads 0
/// percent and the top deadzone starts at 100 percent.
pub proof fn lemma_calibration_no_deadzones(bottom: u16, top: u16)
    requires
        clamped_bottom(bottom) < clamped_top(bottom, top),
    ensures
        bottom_dz_percent(calibrated_points(bottom, top)) == 0,
        top_dz_percent(calibrated_points(bottom, top)) == 100,
{
}

/// Read back on a fresh linear curve, a top deadzone of `pct` percent (at most 100) starts at
/// `100 - pct` percent, or one more from rounding down.
pub proof fn lemma_top_dz_read_back(pct: u8)
    ensures
        ({
            let c = with_top_dz(calibrated_points(0, MAX_VALUE), pct);
            let d = min_int(pct as int, 100);
            100 - d <= top_dz_percent(c) <= 101 - d
        }),
{
    let pts = calibrated_points(0, MAX_VALUE);
    lemma_top_dz_position(pts, pct);
    let d = min_int(pct as int, 100);
    let o = 4096 * d / 100;
    assert(0 <= o <= 4096 && o * 100 <= 4096 * d && o * 100 > 4096 * d - 100) by (nonlinear_arith)
        requires
            o == 4096 * d / 100,
            0 <= d <= 100,
    ;
    assert(d - 1 <= o * 100 / 4096 <= d) by (nonlinear_arith)
        requires
            o * 100 <= 4096 * d,
            o * 100 > 4096 * d - 100,
            0 <= o,
            0 <= d,
    ;
    let c = with_top_dz(pts, pct);
    assert(c[8].x - c[7].x == o);
}

/// The running maximum is the largest clamped value among the first `k + 1`: it is at least
/// each of them and equal to one of them.
pub proof fn lemma_running_max_is_max(ys: Seq<u16>, k: int)
    requires
        0 <= k,
    ensures
        forall|j: int| 0 <= j <= k ==> running_max_y(ys, k) >= min_int(#[trigger] ys[j] as int, MAX_VALUE as int),
        exists|j: int| 0 <= j <= k && running_max_y(ys, k) == min_int(#[trigger] ys[j] as int, MAX_VALUE as int),
    decreases k,
{
    reveal_with_fuel(running_max_y, 2);
    if k > 0 {
        lemma_running_max_is_max(ys, k - 1);
        if running_max_y(ys, k) != min_int(ys[k] as int, MAX_VALUE as int) {
            let j = choose|j: int| 0 <= j <= k - 1 && running_max_y(ys, k - 1) == min_int(#[trigger] ys[j] as int, MAX_VALUE as int);
            assert(0 <= j <= k && running_max_y(ys, k) == min_int(ys[j] as int, MAX_VALUE as int));
        } else {
            assert(running_max_y(ys, k) == min_int(ys[k] as int, MAX_VALUE as int));
        }
    } else {
        assert(running_max_y(ys, 0) == min_int(ys[0] as int, MAX_VALUE as int));
    }
}

/// Setting the middle outputs to `ys`: the output of middle point `i` (2-6) is the largest of
/// the requested values for points 2..=i, each clamped to the maximum; every x-value and the
/// points 0, 1, 7, 8 are kept.
pub proof fn lemma_middle_y_outputs(pts: Seq<Point>, ys: Seq<u16>)
    requires
        pts.len() == POINT_COUNT,
        ys.len() == MIDDLE_COUNT,
    ensures
        with_middle_y(pts, ys).len() == POINT_COUNT,
        forall|i: int, j: int|
            2 <= j <= i <= 6 ==> #[trigger] with_middle_y(pts, ys)[i].y >= min_int(
                #[trigger] ys[j - 2] as int,
                MAX_VALUE as int,
            ),
        forall|i: int| 0 <= i < POINT_COUNT ==> #[trigger] with_middle_y(pts, ys)[i].x == pts[i].x,
        forall|i: int| 0 <= i < POINT_COUNT && !(2 <= i <= 6) ==> #[trigger] with_middle_y(pts, ys)[i] == pts[i],
{
    let m = with_middle_y(pts, ys);
    assert forall|i: int| 2 <= i <= 6 implies #[trigger] m[i].y == running_max_y(ys, i - 2) by {
        lemma_running_max_bounds(ys, i - 2);
    }
    assert forall|i: int, j: int| 2 <= j <= i <= 6 implies #[trigger] m[i].y >= min_int(
        #[trigger] ys[j - 2] as int,
        MAX_VALUE as int,
    ) by {
        lemma_running_max_is_max(ys, i - 2);
        assert(0 <= j - 2 <= i - 2);
    }
}

/// The output that setting the middle outputs gives middle point `i` (2-6) is one of the
/// requested values for points 2..=i, clamped to the maximum.
pub proof fn lemma_middle_y_attained(pts: Seq<Point>, ys: Seq<u16>, i: int)
    requires
        pts.len() == POINT_COUNT,
        ys.len() == MIDDLE_COUNT,
        2 <= i <= 6,
    ensures
        exists|k: int|
            0 <= k <= i - 2 && with_middle_y(pts, ys)[i].y == min_int(
                #[trigger] ys[k] as int,
                MAX_VALUE as int,
            ),
{
    lemma_running_max_bounds(ys, i - 2);
    lemma_running_max_is_max(ys, i - 2);
    assert(with_middle_y(pts, ys)[i].y == running_max_y(ys, i - 2));
}

/// Setting the extremes: points 0 and 1 move to the bottom clamped to the maximum with output
/// 0, points 7 and 8 to the top clamped to the maximum and to at least the bottom, with output
/// 4096; the outputs of the middle points are kept.
pub proof fn lemma_extremes_position(pts: Seq<Point>, bottom: u16, top: u16)
    requires
        pts.len() == POINT_COUNT,
    ensures
        ({
            let c = with_extremes(pts, bottom, top);
            let b = if bottom <= MAX_VALUE { bottom as int } else { MAX_VALUE as int };
            let t0 = if top <= MAX_VALUE { top as int } else { MAX_VALUE as int };
            let t = if t0 >= b { t0 } else { b };
            &&& c.len() == POINT_COUNT
            &&& c[0].x == b && c[1].x == b && c[0].y == 0 && c[1].y == 0
            &&& c[7].x == t && c[8].x == t && c[7].y == MAX_VALUE && c[8].y == MAX_VALUE
            &&& forall|i: int| 2 <= i <= 6 ==> #[trigger] c[i].y == pts[i].y
            &&& forall|i: int| 2 <= i <= 6 ==> b <= #[trigger] c[i].x <= t
        }),
{
    let b = clamped_bottom(bottom);
    let t = clamped_top(bottom, top);
    assert forall|k: int| 1 <= k <= 5 implies b <= #[trigger] spaced_x(b, t, k) <= t by {
        lemma_spaced_x(b, t, k);
    }
    let c = with_extremes(pts, bottom, top);
    assert forall|i: int| 2 <= i <= 6 implies b <= #[trigger] c[i].x <= t by {
        assert(b <= spaced_x(b, t, i - 1) <= t);
    }
}

/// Between two neighbouring points of a well-formed curve the output is the straight line
/// between them rounded down: for an input `v` with `pts[i - 1].x < v <= pts[i].x` (inside
/// the deadzones), `out - y0` is the largest integer with `(out - y0) * dx <= (v - x0) * dy`.
/// In particular the curve passes through each of its points.
pub proof fn lemma_interpolation_on_segment(pts: Seq<Point>, input: u16, i: int)
    requires
        well_formed(pts),
        2 <= i <= 7,
        pts[1].x < clamped_input(input) < pts[7].x,
        pts[i - 1].x < clamped_input(input) <= pts[i].x,
    ensures
        ({
            let v = clamped_input(input);
            let out = interpolation(pts, input);
            let p0 = pts[i - 1];
            let p1 = pts[i];
            &&& (out - p0.y) * (p1.x - p0.x) <= (v - p0.x) * (p1.y - p0.y)
            &&& (v - p0.x) * (p1.y - p0.y) < (out - p0.y + 1) * (p1.x - p0.x)
            &&& p0.y <= out <= p1.y
            &&& v == p1.x ==> out == p1.y
        }),
{
    let v = clamped_input(input);
    lemma_segment_brackets(pts, v);
    lemma_segment_bounds(pts, v, 2);
    let s = segment(pts, v, 2);
    // The segment found is the bracketing one: below `i` every x is at most `pts[i - 1].x`.
    assert forall|j: int| 0 <= j <= i - 1 implies #[trigger] pts[j].x <= pts[i - 1].x by {
        lemma_well_formed_x_le(pts, j, i - 1);
    }
    assert forall|j: int| i <= j <= 7 implies pts[i].x <= #[trigger] pts[j].x by {
        lemma_well_formed_x_le(pts, i, j);
    }
    if s < i {
        assert(pts[s].x <= pts[i - 1].x);
    } else if s > i {
        assert(v > pts[i].x);
    }
    assert(s == i);
    let p0 = pts[i - 1];
    let p1 = pts[i];
    lemma_well_formed_y_ordered(pts, i - 1, i);
    lemma_well_formed_y_ordered(pts, i, 8);
    let dx = p1.x - p0.x;
    let dy = p1.y - p0.y;
    let t = v - p0.x;
    let q = t * dy / dx;
    assert(q * dx <= t * dy < (q + 1) * dx && 0 <= q <= dy) by (nonlinear_arith)
        requires
            q == t * dy / dx,
            0 < t <= dx,
            0 <= dy,
    ;
    assert(t == dx ==> q == dy) by (nonlinear_arith)
        requires
            q == t * dy / dx,
            0 < dx,
    ;
}

/// Along a well-formed curve the x-values never decrease.
proof fn lemma_well_formed_x_le(pts: Seq<Point>, i: int, j: int)
    requires
        well_formed(pts),
        0 <= i <= j < POINT_COUNT,
    ensures
        pts[i].x <= pts[j].x,
    decreases j - i,
{
    if i < j {
        lemma_well_formed_x_le(pts, i, j - 1);
        assert(pts[j - 1].x <= pts[(j - 1) + 1].x);
    }
}

// ---------------------------------------------------------------------------
// Implementation
// ---------------------------------------------------------------------------

/// The default outputs of the five middle points of a linear curve.
fn linear_middle_y() -> (ys: [u16; MIDDLE_COUNT])
    ensures
        ys@ == linear_y(),
{
    let ys = [682u16, 1365, 2048, 2730, 3413];
    assert(ys@ =~= linear_y());
    ys
}

impl Default for Curve {
    /// The linear curve.
    fn default() -> (c: Self)
        ensures
            c@ == calibrated_points(0, MAX_VALUE),
    {
        Self::linear()
    }
}

impl Curve {
    /// Creates a linear curve without calibration or deadzone offsets.
    pub fn linear() -> (c: Self)
        ensures
            c@ == calibrated_points(0, MAX_VALUE),
            well_formed(c@),
            evenly_spaced(c@),
    {
        Self::with_calibration(0, MAX_VALUE)
    }

    /// Creates a linear curve with calibrated bottom and top.
    /// This is the state after calibration before any deadzone or curve changes.
    pub fn with_calibration(bottom: u16, top: u16) -> (c: Self)
        ensures
            c@ == calibrated_points(bottom, top),
            c@[2].y == 682 && c@[3].y == 1365 && c@[4].y == 2048 && c@[5].y == 2730 && c@[6].y
                == 3413,
            well_formed(c@),
            evenly_spaced(c@),
    {
        proof {
            lemma_calibration_outputs(bottom, top);
        }
        let mut curve = Self { points: [Point { x: 0, y: 0 };POINT_COUNT] };
        let ghost p0 = curve@;
        assert(forall|i: int| 0 <= i < 9 ==> p0[i] == Point { x: 0, y: 0 });
        curve.set_extremes(bottom, top);
        let ys = linear_middle_y();
        curve.set_middle_y(&ys);
        proof {
            let b = clamped_bottom(bottom);
            let t = clamped_top(bottom, top);
            reveal_with_fuel(running_max_y, 6);
            assert(running_max_y(ys@, 0) == 682);
            assert(running_max_y(ys@, 1) == 1365);
            assert(running_max_y(ys@, 2) == 2048);
            assert(running_max_y(ys@, 3) == 2730);
            assert(running_max_y(ys@, 4) == 3413);
            assert(curve@ =~= calibrated_points(bottom, top));
            let c = curve@;
            assert forall|k: int| 1 <= k <= 5 implies b <= #[trigger] spaced_x(b, t, k) <= spaced_x(
                b,
                t,
                k + 1,
            ) <= t by {
                lemma_spaced_x(b, t, k);
            }
            assert forall|i: int| 0 <= i < 8 implies #[trigger] c[i].x <= c[i + 1].x by {
                if 2 <= i <= 5 {
                    assert(spaced_x(b, t, i - 1) <= spaced_x(b, t, i));
                }
            }
        }
        curve
    }

    /// Whether the curve is well formed: x-values and outputs non-decreasing, within the
    /// logical range, outputs 0 at the bottom points and the maximum at the top points.
    /// A curve read from a device can be checked with this before it is used.
    pub fn is_well_formed(&self) -> (b: bool)
        ensures
            b == well_formed(self@),
    {
        let mut i: usize = 0;
        while i < 8
            invariant
                i <= 8,
                self@.len() == POINT_COUNT,
                forall|j: int| 0 <= j < i ==> #[trigger] self@[j].x <= self@[j + 1].x,
                forall|j: int| 0 <= j < i ==> #[trigger] self@[j].y <= self@[j + 1].y,
            decreases 8 - i,
        {
            if self.points[i].x > self.points[i + 1].x || self.points[i].y > self.points[i + 1].y {
                assert(!(self@[i as int].x <= self@[i + 1].x) || !(self@[i as int].y <= self@[i + 1].y));
                return false;
            }
            i = i + 1;
        }
        self.points[8].x <= MAX_VALUE && self.points[0].y == 0 && self.points[1].y == 0
            && self.points[7].y == MAX_VALUE && self.points[8].y == MAX_VALUE
    }

    /// Returns the control points (read only).
    pub fn points(&self) -> (pts: &[Point; POINT_COUNT])
        ensures
            pts@ == self@,
    {
        &self.points
    }

    /// Returns the calibrated bottom value (no deadzone offset).
    pub fn bottom(&self) -> (b: u16)
        ensures
            b == self@[0].x,
    {
        self.points[0].x
    }

    /// Returns the calibrated top value (no deadzone offset).
    pub fn top(&self) -> (t: u16)
        ensures
            t == self@[8].x,
    {
        self.points[8].x
    }

    /// The distance on the x-axis from point 0 to point 8 (calibrated range).
    fn calibrated_range(&self) -> (r: u16)
        requires
            self@[0].x <= self@[8].x,
        ensures
            r == range_of(self@),
    {
        self.points[8].x - self.points[0].x
    }

    /// Returns the current bottom deadzone as a percentage (0-100).
    pub fn bottom_dz_percentage(&self) -> (pct: u8)
        requires
            well_formed(self@) || (self@[0].x <= self@[8].x && (self@[0].x == self@[8].x
                || self@[0].x <= self@[1].x)),
        ensures
            pct == bottom_dz_percent(self@),
            pct <= 100,
            range_of(self@) == 0 ==> pct == 100,
            range_of(self@) != 0 ==> pct == min_int(
                (self@[1].x - self@[0].x) * 100 / range_of(self@),
                100,
            ),
    {
        proof {
            if well_formed(self@) {
                lemma_well_formed_x_chain(self@);
            }
        }
        let range: u32 = self.calibrated_range() as u32;
        if range == 0 {
            return 100;
        }
        let dz: u32 = (self.points[1].x - self.points[0].x) as u32;
        let q = dz * 100 / range;
        if q < 100 {
            q as u8
        } else {
            100
        }
    }

    /// Returns the current top deadzone as a percentage (0-100), counted from the bottom:
    /// 100 without a top deadzone.
    pub fn top_dz_percentage(&self) -> (pct: u8)
        requires
            well_formed(self@) || (self@[0].x <= self@[8].x && (self@[0].x == self@[8].x || (
            self@[7].x <= self@[8].x && (self@[8].x - self@[7].x) * 100 / range_of(self@)
                <= 100))),
        ensures
            pct == top_dz_percent(self@),
            pct <= 100,
            range_of(self@) == 0 ==> pct == 0,
            range_of(self@) != 0 ==> pct == 100 - (self@[8].x - self@[7].x) * 100 / range_of(
                self@,
            ),
    {
        proof {
            if well_formed(self@) {
                lemma_well_formed_percentages_defined(self@);
            }
        }
        let range: u32 = self.calibrated_range() as u32;
        if range == 0 {
            return 0;
        }
        let dz: u32 = (self.points[8].x - self.points[7].x) as u32;
        let q = 100 - dz * 100 / range;
        if q < 100 {
            q as u8
        } else {
            100
        }
    }

    /// Sets the calibrated top and bottom, resets deadzones and recomputes middle x-values.
    pub fn set_extremes(&mut self, bottom: u16, top: u16)
        ensures
            final(self)@ == with_extremes(old(self)@, bottom, top),
            final(self)@[0].x == final(self)@[1].x && final(self)@[0].x == (if bottom <= MAX_VALUE {
                bottom
            } else {
                MAX_VALUE
            }),
            final(self)@[7].x == final(self)@[8].x && final(self)@[8].x == (if top <= MAX_VALUE {
                if top >= final(self)@[0].x { top } else { final(self)@[0].x }
            } else {
                MAX_VALUE
            }),
            final(self)@[0].y == 0 && final(self)@[1].y == 0,
            final(self)@[7].y == MAX_VALUE && final(self)@[8].y == MAX_VALUE,
            forall|i: int| 2 <= i <= 6 ==> #[trigger] final(self)@[i].y == old(self)@[i].y,
            evenly_spaced(final(self)@),
            well_formed(old(self)@) ==> well_formed(final(self)@),
    {
        let bottom = if bottom < MAX_VALUE {
            bottom
        } else {
            MAX_VALUE
        };
        let top = if top < MAX_VALUE {
            top
        } else {
            MAX_VALUE
        };
        let top = if top > bottom {
            top
        } else {
            bottom
        };

        let ghost old_pts = self@;
        proof {
            lemma_extremes_position(old_pts, bottom, top);
        }
        self.points[0] = Point { x: bottom, y: 0 };
        self.points[1] = Point { x: bottom, y: 0 };
        self.points[7] = Point { x: top, y: MAX_VALUE };
        self.points[8] = Point { x: top, y: MAX_VALUE };
        let ghost set_pts = self@;
        proof {
            let b = clamped_bottom(bottom);
            let t = clamped_top(bottom, top);
            assert(set_pts =~= old_pts.update(0, pt(b, 0)).update(1, pt(b, 0)).update(
                7,
                pt(t, MAX_VALUE as int),
            ).update(8, pt(t, MAX_VALUE as int)));
        }
        self.recompute_middle_x();
        proof {
            if well_formed(old_pts) {
                assert(old_pts[1].y <= old_pts[1 + 1int].y);
                assert(old_pts[6].y <= old_pts[6 + 1int].y);
                assert forall|i: int| 0 <= i < 8 implies #[trigger] set_pts[i].y <= set_pts[i
                    + 1].y by {
                    assert(old_pts[i].y <= old_pts[i + 1].y);
                }
                lemma_respaced_well_formed(set_pts);
            }
        }
    }

    /// Sets the bottom deadzone as a percentage (0-100).
    /// Recomputes middle values for x-axis to maintain even spacing.
    pub fn set_bottom_dz(&mut self, dz: u8)
        requires
            well_formed(old(self)@) || old(self)@[0].x <= old(self)@[8].x,
        ensures
            final(self)@ == with_bottom_dz(old(self)@, dz),
            final(self)@[1].x == min_int(
                old(self)@[0].x + (old(self)@[8].x - old(self)@[0].x) * min_int(dz as int, 100)
                    / 100,
                old(self)@[7].x as int,
            ),
            final(self)@[0] == old(self)@[0],
            final(self)@[7] == old(self)@[7],
            final(self)@[8] == old(self)@[8],
            evenly_spaced(final(self)@),
            well_formed(old(self)@) ==> well_formed(final(self)@),
    {
        let dz = if dz < 100 {
            dz
        } else {
            100
        };
        proof {
            if well_formed(self@) {
                lemma_well_formed_x_chain(self@);
            }
        }
        let range: u32 = self.calibrated_range() as u32;
        assert(range * dz <= 65535 * 100) by (nonlinear_arith)
            requires
                range <= 65535,
                dz <= 100,
        ;
        let product = range * dz as u32;
        assert(product / 100 <= range) by (nonlinear_arith)
            requires
                product == range * dz,
                dz <= 100,
        ;
        let offset: u16 = (product / 100) as u16;
        let x0 = self.points[0].x;
        let x1 = x0 + offset;
        let x7 = self.points[7].x;
        let ghost old_pts = self@;
        self.points[1].x = if x1 < x7 {
            x1
        } else {
            x7
        };
        let ghost set_pts = self@;
        assert(set_pts =~= old_pts.update(
            1,
            pt(min_int(old_pts[0].x + dz_offset(old_pts, dz), old_pts[7].x as int), old_pts[1].y as int),
        ));
        self.recompute_middle_x();
        proof {
            if well_formed(old_pts) {
                lemma_well_formed_x_chain(old_pts);
                assert forall|i: int| 0 <= i < 8 implies #[trigger] set_pts[i].y <= set_pts[i
                    + 1].y by {
                    assert(old_pts[i].y <= old_pts[i + 1].y);
                }
                lemma_respaced_well_formed(set_pts);
            }
        }
    }

    /// Sets the top deadzone as a percentage (0-100).
    /// Recomputes middle values for x-axis to maintain even spacing.
    pub fn set_top_dz(&mut self, dz: u8)
        requires
            well_formed(old(self)@) || old(self)@[0].x <= old(self)@[8].x,
        ensures
            final(self)@ == with_top_dz(old(self)@, dz),
            final(self)@[7].x == max_int(
                old(self)@[8].x - (old(self)@[8].x - old(self)@[0].x) * min_int(dz as int, 100)
                    / 100,
                old(self)@[1].x as int,
            ),
            final(self)@[0] == old(self)@[0],
            final(self)@[1] == old(self)@[1],
            final(self)@[8] == old(self)@[8],
            evenly_spaced(final(self)@),
            well_formed(old(self)@) ==> well_formed(final(self)@),
    {
        let dz: u16 = if (dz as u16) < 100 {
            dz as u16
        } else {
            100
        };
        proof {
            if well_formed(self@) {
                lemma_well_formed_x_chain(self@);
            }
        }
        let range: u32 = self.calibrated_range() as u32;
        assert(range * dz <= 65535 * 100) by (nonlinear_arith)
            requires
                range <= 65535,
                dz <= 100,
        ;
        let product = range * dz as u32;
        assert(product / 100 <= range) by (nonlinear_arith)
            requires
                product == range * dz,
                dz <= 100,
        ;
        let offset: u16 = (product / 100) as u16;
        let x8 = self.points[8].x;
        let x7 = x8 - offset;
        let x1 = self.points[1].x;
        let ghost old_pts = self@;
        self.points[7].x = if x7 > x1 {
            x7
        } else {
            x1
        };
        let ghost set_pts = self@;
        assert(set_pts =~= old_pts.update(
            7,
            pt(max_int(old_pts[8].x - dz_offset(old_pts, dz as u8), old_pts[1].x as int), old_pts[7].y as int),
        ));
        self.recompute_middle_x();
        proof {
            if well_formed(old_pts) {
                assert forall|i: int| 0 <= i < 8 implies #[trigger] set_pts[i].y <= set_pts[i
                    + 1].y by {
                    assert(old_pts[i].y <= old_pts[i + 1].y);
                }
                lemma_well_formed_x_chain(old_pts);
                lemma_respaced_well_formed(set_pts);
            }
        }
    }

    /// Sets the outputs of the 5 middle points (2-6).
    /// Values are clamped to 0-4096 and forced to be non-decreasing.
    pub fn set_middle_y(&mut self, y_values: &[u16; MIDDLE_COUNT])
        ensures
            final(self)@ == with_middle_y(old(self)@, y_values@),
            forall|i: int, j: int|
                2 <= j <= i <= 6 ==> #[trigger] final(self)@[i].y >= min_int(
                    #[trigger] y_values@[j - 2] as int,
                    MAX_VALUE as int,
                ),
            forall|i: int| 0 <= i < POINT_COUNT ==> #[trigger] final(self)@[i].x == old(self)@[i].x,
            forall|i: int| 2 <= i < 6 ==> #[trigger] final(self)@[i].y <= final(self)@[i + 1].y,
            forall|i: int| 2 <= i <= 6 ==> #[trigger] final(self)@[i].y <= MAX_VALUE,
            well_formed(old(self)@) ==> well_formed(final(self)@),
            evenly_spaced(old(self)@) ==> evenly_spaced(final(self)@),
    {
        let ghost old_pts = self@;
        proof {
            lemma_middle_y_outputs(old_pts, y_values@);
        }
        let mut prev: u16 = 0;
        let mut i: usize = 0;
        while i < MIDDLE_COUNT
            invariant
                i <= MIDDLE_COUNT,
                y_values@.len() == MIDDLE_COUNT,
                self@.len() == POINT_COUNT,
                prev == running_max_y(y_values@, i - 1),
                forall|j: int|
                    0 <= j < POINT_COUNT ==> #[trigger] self@[j] == if 2 <= j < i + 2 {
                        pt(old_pts[j].x as int, running_max_y(y_values@, j - 2))
                    } else {
                        old_pts[j]
                    },
            decreases MIDDLE_COUNT - i,
        {
            proof {
                lemma_running_max_bounds(y_values@, i as int);
            }
            let v = y_values[i];
            let c = if v < MAX_VALUE {
                v
            } else {
                MAX_VALUE
            };
            let y = if c > prev {
                c
            } else {
                prev
            };
            self.points[i + 2].y = y;
            prev = y;
            i = i + 1;
        }
        assert(self@ =~= with_middle_y(old_pts, y_values@));
        proof {
            assert forall|k: int| 0 <= k < 5 implies 0 <= running_max_y(y_values@, k - 1)
                <= #[trigger] running_max_y(y_values@, k) <= MAX_VALUE by {
                lemma_running_max_bounds(y_values@, k);
            }
            let c = self@;
            if well_formed(old_pts) {
                assert forall|j: int| 0 <= j < 8 implies #[trigger] c[j].y <= c[j + 1].y by {
                    if 2 <= j <= 5 {
                        assert(running_max_y(y_values@, j - 2) <= running_max_y(y_values@, j - 1));
                    }
                }
                assert forall|j: int| 0 <= j < 8 implies #[trigger] c[j].x <= c[j + 1].x by {
                    assert(old_pts[j].x <= old_pts[j + 1].x);
                }
            }
        }
    }

    /// Interpolates the output for a given raw input value.
    /// This is the same function the microcontroller applies.
    pub fn interpolate(&self, input: u16) -> (out: u16)
        requires
            well_formed(self@) || interpolation_defined(self@, input),
        ensures
            out == interpolation(self@, input),
            out <= MAX_VALUE,
    {
        proof {
            if well_formed(self@) {
                lemma_well_formed_interpolation_defined(self@, input);
            }
            lemma_interpolation_in_range(self@, input);
        }
        let v_in = if input < MAX_VALUE {
            input
        } else {
            MAX_VALUE
        };

        // Below the first point -> output 0 (x is in the bottom deadzone)
        if v_in <= self.points[1].x {
            return 0;
        }
        // Above the last point -> output max value (x is in the top deadzone)
        if v_in >= self.points[7].x {
            return MAX_VALUE;
        }
        let ghost pts = self@;
        let ghost v = v_in as int;
        let ghost seg = segment(pts, v, 2);
        proof {
            lemma_segment_brackets(pts, v);
            assert(v == clamped_input(input));
            assert(pts[seg - 1].y <= pts[seg].y);
        }
        // Linearly interpolate on the first segment whose right point is at or above the input.
        let mut i: usize = 2;
        while i <= 7
            invariant
                2 <= i <= 8,
                pts == self@,
                pts.len() == POINT_COUNT,
                v == v_in,
                pts[1].x < v < pts[7].x,
                v_in > pts[i - 1].x,
                segment(pts, v, i as int) == seg,
                2 <= seg <= 7,
                pts[seg - 1].y <= pts[seg].y,
                interpolation(pts, input) == lerp(pts[seg - 1], pts[seg], v),
            decreases 8 - i,
        {
            if v_in > self.points[i].x {
                i = i + 1;
                continue;
            }
            let p0 = self.points[i - 1];
            let p1 = self.points[i];
            assert(seg == i);
            let dx = (p1.x - p0.x) as u32;
            let t = (v_in - p0.x) as u32;
            let dy = (p1.y - p0.y) as u32;
            assert(t * dy <= 65535 * 65535) by (nonlinear_arith)
                requires
                    t <= 65535,
                    dy <= 65535,
            ;
            assert((t * dy) / (dx as int) <= dy) by (nonlinear_arith)
                requires
                    t <= dx,
                    0 < dx,
            ;
            let r = p0.y as u32 + (t * dy) / dx;
            return if r < MAX_VALUE as u32 {
                r as u16
            } else {
                MAX_VALUE
            };
        }
        MAX_VALUE
    }

    /// Serializes the curve into the 32 x u16 feature report payload.
    /// `data_id` is the channel identifier (e.g. 0xF101 for clutch).
    pub fn to_report(&self, data_id: u16) -> (out: [u16; REPORT_WORDS])
        ensures
            out@ == report_words(data_id, self@),
            out@[0] == data_id,
            forall|i: int| 0 <= i < POINT_COUNT ==> #[trigger] out@[1 + 2 * i] == self@[i].x,
            forall|i: int| 0 <= i < POINT_COUNT ==> #[trigger] out@[2 + 2 * i] == self@[i].y,
            forall|k: int| 19 <= k < REPORT_WORDS ==> #[trigger] out@[k] == 0,
    {
        proof {
            lemma_report_layout(data_id, self@);
        }
        let mut out = [0u16; REPORT_WORDS];
        out[0] = data_id;
        let mut i: usize = 0;
        while i < POINT_COUNT
            invariant
                i <= POINT_COUNT,
                out@.len() == REPORT_WORDS,
                self@.len() == POINT_COUNT,
                forall|k: int|
                    0 <= k < REPORT_WORDS ==> #[trigger] out@[k] == if k < 1 + 2 * i {
                        report_words(data_id, self@)[k]
                    } else {
                        0u16
                    },
            decreases POINT_COUNT - i,
        {
            let p = self.points[i];
            out[1 + i * 2] = p.x;
            out[2 + i * 2] = p.y;
            proof {
                assert((1 + 2 * i as int) % 2 == 1 && (1 + 2 * i as int - 1) / 2 == i);
                assert((2 + 2 * i as int) % 2 == 0 && (2 + 2 * i as int - 2) / 2 == i);
            }
            i = i + 1;
        }
        assert(out@ =~= report_words(data_id, self@));
        out
    }

    /// Deserializes a curve from the 32 x u16 feature report payload.
    /// Returns `None` if the payload is shorter than 19 entries (data_id + 9 x,y pairs).
    pub fn from_report(data: &[u16]) -> (c: Option<Self>)
        ensures
            data@.len() < 19 <==> c is None,
            c matches Some(curve) ==> curve@ == report_points(data@),
            c matches Some(curve) ==> forall|i: int|
                0 <= i < POINT_COUNT ==> #[trigger] curve@[i] == (Point {
                    x: data@[1 + 2 * i],
                    y: data@[2 + 2 * i],
                }),
    {
        if data.len() < 19 {
            return None;
        }
        let mut points = [Point { x: 0, y: 0 };POINT_COUNT];
        let mut i: usize = 0;
        while i < POINT_COUNT
            invariant
                i <= POINT_COUNT,
                data@.len() >= 19,
                points@.len() == POINT_COUNT,
                forall|j: int| 0 <= j < i ==> #[trigger] points@[j] == report_points(data@)[j],
            decreases POINT_COUNT - i,
        {
            points[i] = Point { x: data[1 + i * 2], y: data[2 + i * 2] };
            i = i + 1;
        }
        assert(points@ =~= report_points(data@));
        Some(Self { points })
    }

    /// Recomputes the x-values of the middle points (2-6) so they are evenly spaced between
    /// points 1 and 7.
    fn recompute_middle_x(&mut self)
        ensures
            final(self)@ == respaced(old(self)@),
            evenly_spaced(final(self)@),
    {
        let ghost old_pts = self@;
        let start = self.points[1].x as u32;
        let end = self.points[7].x as u32;

        if end <= start {
            let mut i: usize = 0;
            while i < MIDDLE_COUNT
                invariant
                    i <= MIDDLE_COUNT,
                    self@.len() == POINT_COUNT,
                    old_pts.len() == POINT_COUNT,
                    start == old_pts[1].x,
                    end == old_pts[7].x,
                    end <= start,
                    forall|j: int|
                        0 <= j < POINT_COUNT ==> #[trigger] self@[j] == if 2 <= j < i + 2 {
                            respaced(old_pts)[j]
                        } else {
                            old_pts[j]
                        },
                decreases MIDDLE_COUNT - i,
            {
                self.points[i + 2].x = self.points[1].x;
                i = i + 1;
            }
            assert(self@ =~= respaced(old_pts));
            return ;
        }
        let span = end - start;
        let mut i: usize = 0;
        while i < MIDDLE_COUNT
            invariant
                i <= MIDDLE_COUNT,
                self@.len() == POINT_COUNT,
                old_pts.len() == POINT_COUNT,
                start == old_pts[1].x,
                end == old_pts[7].x,
                start < end,
                span == end - start,
                forall|j: int|
                    0 <= j < POINT_COUNT ==> #[trigger] self@[j] == if 2 <= j < i + 2 {
                        respaced(old_pts)[j]
                    } else {
                        old_pts[j]
                    },
            decreases MIDDLE_COUNT - i,
        {
            let k = i as u32 + 1;
            assert(span * k <= 65535 * 5) by (nonlinear_arith)
                requires
                    span <= 65535,
                    k <= 5,
            ;
            let x = start + (span * k) / INTERVALS as u32;
            self.points[i + 2].x = if x < MAX_VALUE as u32 {
                x as u16
            } else {
                MAX_VALUE
            };
            i = i + 1;
        }
        assert(self@ =~= respaced(old_pts));
    }
}

} // verus!
