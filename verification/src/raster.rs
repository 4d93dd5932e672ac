//! Stroke geometry: points, segments, and the integer line walk that turns a
//! segment into the sequence of pixels it covers.

use vstd::prelude::*;

verus! {

/// A point on the drawing surface, in whole pixels.
#[derive(Clone, Copy, Debug, PartialEq, Eq)]
pub struct Point {
    pub x: i32,
    pub y: i32,
}

/// A stroke segment: where the pointer was, and where it is now.
pub type Segment = [Point; 2];

/// The distance between two integers.
pub open spec fn abs_diff(u: int, v: int) -> int {
    if u <= v { v - u } else { u - v }
}

/// The unit step that leads from `u` toward `v` (`-1` when `u == v`).
pub open spec fn unit_toward(u: int, v: int) -> int {
    if u < v { 1 } else { -1 }
}

/// The horizontal extent `|x1 - x0|` of a segment.
pub open spec fn span_x(p0: Point, p1: Point) -> int {
    abs_diff(p0.x as int, p1.x as int)
}

/// The vertical extent `|y1 - y0|` of a segment.
pub open spec fn span_y(p0: Point, p1: Point) -> int {
    abs_diff(p0.y as int, p1.y as int)
}

/// The pixels visited from `(x, y)` with error term `err` on the way from
/// `p0` to `p1`, at most `fuel` steps ahead. Each step doubles the error term;
/// where that is at least `-span_y` the walk moves one pixel across (and the
/// term drops by `span_y`), and where it is at most `span_x` the walk moves one
/// pixel down or up (and the term grows by `span_x`).
pub open spec fn walk(p0: Point, p1: Point, x: int, y: int, err: int, fuel: nat) -> Seq<(int, int)>
    decreases fuel,
{
    let a = span_x(p0, p1);
    let b = span_y(p0, p1);
    if (x == p1.x && y == p1.y) || fuel == 0 {
        seq![(x, y)]
    } else {
        let e2 = 2 * err;
        let nx = if e2 >= -b { x + unit_toward(p0.x as int, p1.x as int) } else { x };
        let err1 = if e2 >= -b { err - b } else { err };
        let ny = if e2 <= a { y + unit_toward(p0.y as int, p1.y as int) } else { y };
        let err2 = if e2 <= a { err1 + a } else { err1 };
        seq![(x, y)] + walk(p0, p1, nx, ny, err2, (fuel - 1) as nat)
    }
}

/// The pixels of the segment from `p0` to `p1`, in the order in which they
/// are drawn: the integer line walk that starts at `p0` with error term
/// `span_x - span_y`.
pub open spec fn line_pixels(p0: Point, p1: Point) -> Seq<(int, int)> {
    walk(
        p0,
        p1,
        p0.x as int,
        p0.y as int,
        span_x(p0, p1) - span_y(p0, p1),
        (span_x(p0, p1) + span_y(p0, p1)) as nat,
    )
}

/// The longer of the two extents of a segment.
pub open spec fn span_max(p0: Point, p1: Point) -> int {
    if span_x(p0, p1) >= span_y(p0, p1) { span_x(p0, p1) } else { span_y(p0, p1) }
}

/// Twice the deviation `2 * dev` lies within `span_max` of zero, where a
/// tie goes to the side away from `p0` along the shorter axis: the range is
/// `(-span_max, span_max]` when the segment is at least as wide as high and
/// `[-span_max, span_max)` when it is higher than wide.
pub open spec fn within_half(p0: Point, p1: Point, dev2: int) -> bool {
    let m = span_max(p0, p1);
    if span_x(p0, p1) >= span_y(p0, p1) {
        dev2 <= m && (m == 0 || -m < dev2)
    } else {
        -m <= dev2 < m
    }
}

/// The pixel `q` lies within half a pixel of the straight line from `p0` to
/// `p1`, measured along the shorter axis, ties rounded away from `p0`: with
/// `i = |q.x - p0.x|` and `j = |q.y - p0.y|`, the deviation
/// `span_x * j - span_y * i` satisfies `within_half`.
pub open spec fn near_line(p0: Point, p1: Point, q: (int, int)) -> bool {
    let dev = span_x(p0, p1) * abs_diff(p0.y as int, q.1) - span_y(p0, p1) * abs_diff(p0.x as int, q.0);
    within_half(p0, p1, 2 * dev)
}

/// The walk is at `(x, y)` after `i` steps across and `j` steps down or up,
/// its error term has the value that those steps leave and keeps it near the
/// line, and `fuel` covers the steps that are left.
pub open spec fn on_track(p0: Point, p1: Point, x: int, y: int, err: int, fuel: nat, i: int, j: int) -> bool {
    let a = span_x(p0, p1);
    let b = span_y(p0, p1);
    &&& 0 <= i <= a
    &&& 0 <= j <= b
    &&& x == (if p0.x < p1.x { p0.x + i } else { p0.x - i })
    &&& y == (if p0.y < p1.y { p0.y + j } else { p0.y - j })
    &&& err == a * (1 + j) - b * (1 + i)
    &&& within_half(p0, p1, 2 * (err - a + b))
    &&& fuel >= (a - i) + (b - j)
}

/// `v` follows `u` on the way from `p0` to `p1`: each coordinate moves by at
/// most one pixel and only toward the end point, and the coordinate of the
/// longer extent always moves.
pub open spec fn unit_step(p0: Point, p1: Point, u: (int, int), v: (int, int)) -> bool {
    &&& (v.0 == u.0 || v.0 == u.0 + unit_toward(p0.x as int, p1.x as int))
    &&& (v.1 == u.1 || v.1 == u.1 + unit_toward(p0.y as int, p1.y as int))
    &&& (span_x(p0, p1) >= span_y(p0, p1) ==> v.0 != u.0)
    &&& (span_x(p0, p1) < span_y(p0, p1) ==> v.1 != u.1)
}

proof fn lemma_product_bounds(a: int, b: int, i: int, j: int)
    requires
        0 <= i <= a,
        0 <= j <= b,
    ensures
        0 <= a * (1 + j) <= a * (1 + b),
        0 <= b * (1 + i) <= b * (1 + a),
{
    assert(0 <= a * (1 + j) <= a * (1 + b)) by (nonlinear_arith)
        requires 0 <= i <= a, 0 <= j <= b;
    assert(0 <= b * (1 + i) <= b * (1 + a)) by (nonlinear_arith)
        requires 0 <= i <= a, 0 <= j <= b;
}

/// Once the walk has come level with the end point in one coordinate, that
/// coordinate no longer moves.
proof fn lemma_no_overshoot(a: int, b: int, i: int, j: int, err: int)
    requires
        0 <= i <= a,
        0 <= j <= b,
        err == a * (1 + j) - b * (1 + i),
        i < a || j < b,
    ensures
        i == a ==> 2 * err < -b,
        j == b ==> 2 * err > a,
{
    if i == a {
        assert(a * (1 + j) - b * (1 + a) <= -b && b >= 1) by (nonlinear_arith)
            requires 0 <= j < b, 0 <= a;
    }
    if j == b {
        assert(a * (1 + b) - b * (1 + i) >= a && a >= 1) by (nonlinear_arith)
            requires 0 <= i < a, 0 <= b;
    }
}

/// One step of the walk keeps it on track and moves the coordinate of the
/// longer extent.
proof fn lemma_step(p0: Point, p1: Point, x: int, y: int, err: int, fuel: nat, i: int, j: int)
    requires
        on_track(p0, p1, x, y, err, fuel, i, j),
        !(x == p1.x && y == p1.y),
    ensures
        fuel > 0,
        ({
            let a = span_x(p0, p1);
            let b = span_y(p0, p1);
            let e2 = 2 * err;
            let nx = if e2 >= -b { x + unit_toward(p0.x as int, p1.x as int) } else { x };
            let err1 = if e2 >= -b { err - b } else { err };
            let ny = if e2 <= a { y + unit_toward(p0.y as int, p1.y as int) } else { y };
            let err2 = if e2 <= a { err1 + a } else { err1 };
            let ni = if e2 >= -b { i + 1 } else { i };
            let nj = if e2 <= a { j + 1 } else { j };
            &&& on_track(p0, p1, nx, ny, err2, (fuel - 1) as nat, ni, nj)
            &&& (a >= b ==> ni == i + 1)
            &&& (a < b ==> nj == j + 1)
            &&& unit_step(p0, p1, (x, y), (nx, ny))
        }),
{
    let a = span_x(p0, p1);
    let b = span_y(p0, p1);
    assert(i < a || j < b);
    lemma_no_overshoot(a, b, i, j, err);
    assert(b * (1 + (i + 1)) == b * (1 + i) + b) by (nonlinear_arith);
    assert(a * (1 + (j + 1)) == a * (1 + j) + a) by (nonlinear_arith);
}

/// The deviation that the error term keeps is that of the pixel.
proof fn lemma_deviation(p0: Point, p1: Point, x: int, y: int, err: int, fuel: nat, i: int, j: int)
    requires
        on_track(p0, p1, x, y, err, fuel, i, j),
    ensures
        near_line(p0, p1, (x, y)),
{
    let a = span_x(p0, p1);
    let b = span_y(p0, p1);
    assert(abs_diff(p0.x as int, x) == i);
    assert(abs_diff(p0.y as int, y) == j);
    assert(a * (1 + j) - b * (1 + i) - a + b == a * j - b * i) by (nonlinear_arith);
}

/// The walk from a state on track starts where it is, ends at `p1`, moves by
/// unit steps toward `p1`, stays near the line, and visits one pixel more
/// than the steps left along the longer extent.
proof fn lemma_walk_shape(p0: Point, p1: Point, x: int, y: int, err: int, fuel: nat, i: int, j: int)
    requires
        on_track(p0, p1, x, y, err, fuel, i, j),
    ensures
        walk(p0, p1, x, y, err, fuel)[0] == (x, y),
        walk(p0, p1, x, y, err, fuel).last() == (p1.x as int, p1.y as int),
        walk(p0, p1, x, y, err, fuel).len() == (if span_x(p0, p1) >= span_y(p0, p1) {
            span_x(p0, p1) - i
        } else {
            span_y(p0, p1) - j
        }) + 1,
        forall|k: int|
            0 <= k < walk(p0, p1, x, y, err, fuel).len() - 1 ==> unit_step(
                p0,
                p1,
                #[trigger] walk(p0, p1, x, y, err, fuel)[k],
                walk(p0, p1, x, y, err, fuel)[k + 1],
            ),
        forall|k: int|
            0 <= k < walk(p0, p1, x, y, err, fuel).len() ==> near_line(
                p0,
                p1,
                #[trigger] walk(p0, p1, x, y, err, fuel)[k],
            ),
    decreases fuel,
{
    let w = walk(p0, p1, x, y, err, fuel);
    lemma_deviation(p0, p1, x, y, err, fuel, i, j);
    if x == p1.x && y == p1.y {
        assert(i == span_x(p0, p1) && j == span_y(p0, p1));
    } else {
        lemma_step(p0, p1, x, y, err, fuel, i, j);
        let a = span_x(p0, p1);
        let b = span_y(p0, p1);
        let e2 = 2 * err;
        let nx = if e2 >= -b { x + unit_toward(p0.x as int, p1.x as int) } else { x };
        let err1 = if e2 >= -b { err - b } else { err };
        let ny = if e2 <= a { y + unit_toward(p0.y as int, p1.y as int) } else { y };
        let err2 = if e2 <= a { err1 + a } else { err1 };
        let ni = if e2 >= -b { i + 1 } else { i };
        let nj = if e2 <= a { j + 1 } else { j };
        let rest = walk(p0, p1, nx, ny, err2, (fuel - 1) as nat);
        lemma_walk_shape(p0, p1, nx, ny, err2, (fuel - 1) as nat, ni, nj);
        assert(w == seq![(x, y)] + rest);
        assert forall|k: int| 0 <= k < w.len() - 1 implies unit_step(p0, p1, #[trigger] w[k], w[k + 1]) by {
            if k > 0 {
                assert(w[k] == rest[k - 1]);
                assert(w[k + 1] == rest[k]);
            }
        }
        assert forall|k: int| 0 <= k < w.len() implies near_line(p0, p1, #[trigger] w[k]) by {
            if k > 0 {
                assert(w[k] == rest[k - 1]);
            }
        }
    }
}

/// The pixels of a segment start at its first point and end at its second;
/// each pixel follows the one before it by a unit step toward the end point
/// that always moves along the longer extent, so that there are exactly
/// `span_max + 1` of them; and each lies within half a pixel of the straight
/// line between the two points, measured along the shorter axis, ties
/// rounded away from the first point.
pub proof fn lemma_line_pixels_shape(p0: Point, p1: Point)
    ensures
        line_pixels(p0, p1)[0] == (p0.x as int, p0.y as int),
        line_pixels(p0, p1).last() == (p1.x as int, p1.y as int),
        line_pixels(p0, p1).len() == span_max(p0, p1) + 1,
        forall|k: int|
            0 <= k < line_pixels(p0, p1).len() - 1 ==> unit_step(
                p0,
                p1,
                #[trigger] line_pixels(p0, p1)[k],
                line_pixels(p0, p1)[k + 1],
            ),
        forall|k: int| 0 <= k < line_pixels(p0, p1).len() ==> near_line(p0, p1, #[trigger] line_pixels(p0, p1)[k]),
{
    let a = span_x(p0, p1);
    let b = span_y(p0, p1);
    assert(a * (1 + 0) - b * (1 + 0) == a - b) by (nonlinear_arith);
    lemma_walk_shape(p0, p1, p0.x as int, p0.y as int, a - b, (a + b) as nat, 0, 0);
}

/// `walk` never yields an empty sequence.
proof fn lemma_walk_nonempty(p0: Point, p1: Point, x: int, y: int, err: int, fuel: nat)
    ensures
        walk(p0, p1, x, y, err, fuel).len() >= 1,
        walk(p0, p1, x, y, err, fuel)[0] == (x, y),
{
}

proof fn lemma_error_fits(a: int, b: int, i: int, j: int)
    requires
        0 <= i <= a <= 0xffff_ffff,
        0 <= j <= b <= 0xffff_ffff,
    ensures
        -0x4_0000_0000_0000_0000 < a * (1 + j) - b * (1 + i) < 0x4_0000_0000_0000_0000,
{
    lemma_product_bounds(a, b, i, j);
    assert(a * (1 + b) <= 0xffff_ffff * 0x1_0000_0000) by (nonlinear_arith)
        requires 0 <= a <= 0xffff_ffff, 0 <= b <= 0xffff_ffff;
    assert(b * (1 + a) <= 0xffff_ffff * 0x1_0000_0000) by (nonlinear_arith)
        requires 0 <= a <= 0xffff_ffff, 0 <= b <= 0xffff_ffff;
}

/// The line walk of one segment, step by step.
pub(crate) struct LineWalk {
    p0: Point,
    p1: Point,
    x: i64,
    y: i64,
    err: i128,
    a: i64,
    b: i64,
    sx: i64,
    sy: i64,
    fuel: Ghost<nat>,
    i: Ghost<int>,
    j: Ghost<int>,
}

impl LineWalk {
    /// The fields agree with the segment and the walk is on track.
    pub(crate) closed spec fn wf(&self) -> bool {
        &&& self.a == span_x(self.p0, self.p1)
        &&& self.b == span_y(self.p0, self.p1)
        &&& self.sx == unit_toward(self.p0.x as int, self.p1.x as int)
        &&& self.sy == unit_toward(self.p0.y as int, self.p1.y as int)
        &&& on_track(
            self.p0,
            self.p1,
            self.x as int,
            self.y as int,
            self.err as int,
            self.fuel@,
            self.i@,
            self.j@,
        )
    }

    /// The pixels that the walk still has to visit, the current one first.
    pub(crate) closed spec fn remaining(&self) -> Seq<(int, int)> {
        walk(self.p0, self.p1, self.x as int, self.y as int, self.err as int, self.fuel@)
    }

    /// A walk at the first pixel of the segment from `p0` to `p1`.
    pub(crate) fn new(p0: Point, p1: Point) -> (w: LineWalk)
        ensures
            w.wf(),
            w.remaining() == line_pixels(p0, p1),
    {
        let x0 = p0.x as i64;
        let y0 = p0.y as i64;
        let x1 = p1.x as i64;
        let y1 = p1.y as i64;
        let a: i64 = if x0 <= x1 { x1 - x0 } else { x0 - x1 };
        let b: i64 = if y0 <= y1 { y1 - y0 } else { y0 - y1 };
        let sx: i64 = if x0 < x1 { 1 } else { -1 };
        let sy: i64 = if y0 < y1 { 1 } else { -1 };
        let err: i128 = a as i128 - b as i128;
        proof {
            assert(a * (1 + 0int) - b * (1 + 0int) == a - b) by (nonlinear_arith);
        }
        LineWalk {
            p0,
            p1,
            x: x0,
            y: y0,
            err,
            a,
            b,
            sx,
            sy,
            fuel: Ghost((a + b) as nat),
            i: Ghost(0),
            j: Ghost(0),
        }
    }

    /// The pixel the walk is at.
    pub(crate) fn position(&self) -> (p: (i64, i64))
        requires
            self.wf(),
        ensures
            (p.0 as int, p.1 as int) == self.remaining()[0],
    {
        proof {
            lemma_walk_nonempty(self.p0, self.p1, self.x as int, self.y as int, self.err as int, self.fuel@);
        }
        (self.x, self.y)
    }

    /// Whether the walk is at its last pixel, the end point of the segment.
    pub(crate) fn is_last(&self) -> (b: bool)
        requires
            self.wf(),
        ensures
            b == (self.remaining().len() == 1),
    {
        let at_end = self.x == self.p1.x as i64 && self.y == self.p1.y as i64;
        proof {
            if !at_end {
                lemma_step(self.p0, self.p1, self.x as int, self.y as int, self.err as int, self.fuel@, self.i@, self.j@);
                let e2 = 2 * self.err;
                let a = self.a as int;
                let b = self.b as int;
                let nx = if e2 >= -b { self.x + self.sx } else { self.x as int };
                let err1 = if e2 >= -b { self.err - b } else { self.err as int };
                let ny = if e2 <= a { self.y + self.sy } else { self.y as int };
                let err2 = if e2 <= a { err1 + a } else { err1 };
                lemma_walk_nonempty(self.p0, self.p1, nx, ny, err2, (self.fuel@ - 1) as nat);
            }
        }
        at_end
    }

    /// Moves the walk to its next pixel.
    pub(crate) fn advance(&mut self)
        requires
            old(self).wf(),
            old(self).remaining().len() > 1,
        ensures
            final(self).wf(),
            final(self).remaining() == old(self).remaining().drop_first(),
    {
        let ghost before = self.remaining();
        proof {
            lemma_step(self.p0, self.p1, self.x as int, self.y as int, self.err as int, self.fuel@, self.i@, self.j@);
            lemma_error_fits(self.a as int, self.b as int, self.i@, self.j@);
        }
        let e2: i128 = 2 * self.err;
        let err0: i128 = self.err;
        let mut err: i128 = self.err;
        if e2 >= -(self.b as i128) {
            err = err - self.b as i128;
            self.x = self.x + self.sx;
            self.i = Ghost(self.i@ + 1);
        }
        if e2 <= self.a as i128 {
            err = err + self.a as i128;
            self.y = self.y + self.sy;
            self.j = Ghost(self.j@ + 1);
        }
        self.err = err;
        self.fuel = Ghost((self.fuel@ - 1) as nat);
        proof {
            assert(before == seq![before[0]] + self.remaining());
            assert(before.drop_first() =~= self.remaining());
        }
    }
}

} // verus!
