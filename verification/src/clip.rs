//! Clipping of a triangle against the near plane, in clip space.
use crate::fixed::{lemma_lerp_between, lemma_product_of_differences, lerp};
use crate::structs::FragIn;
use vstd::prelude::*;

verus! {

/// A vertex lies behind the near plane where its `z` is negative.
pub open spec fn behind(v: FragIn) -> bool {
    v.position.z < 0
}

/// The point at which the edge from `front` to `back` crosses the near
/// plane.  Every component is interpolated with the same parameter, the
/// share `front.z / (front.z - back.z)` of the way, so the `z` of the result
/// is zero.
pub open spec fn crossing(front: FragIn, back: FragIn) -> FragIn {
    front.lerp_spec(back, front.position.z as int, front.position.z - back.position.z)
}

/// What is left of a triangle of which only `c` lies behind the plane: the
/// quadrilateral `a`, `b`, crossing of `bc`, crossing of `ac`, as two
/// triangles.
pub open spec fn one_behind(a: FragIn, b: FragIn, c: FragIn) -> Seq<FragIn> {
    seq![a, b, crossing(a, c), crossing(a, c), b, crossing(b, c)]
}

/// What is left of a triangle of which only `a` lies in front of the plane.
pub open spec fn two_behind(a: FragIn, b: FragIn, c: FragIn) -> Seq<FragIn> {
    seq![a, crossing(a, b), crossing(a, c)]
}

/// The part of the triangle `v0`, `v1`, `v2` in front of the near plane, as
/// the vertices of no, one or two triangles.  The vertices keep their
/// order round the triangle.
pub open spec fn clip(v0: FragIn, v1: FragIn, v2: FragIn) -> Seq<FragIn> {
    match (behind(v0), behind(v1), behind(v2)) {
        (false, false, false) => seq![v0, v1, v2],
        (true, false, false) => one_behind(v1, v2, v0),
        (false, true, false) => one_behind(v2, v0, v1),
        (false, false, true) => one_behind(v0, v1, v2),
        (false, true, true) => two_behind(v0, v1, v2),
        (true, false, true) => two_behind(v1, v2, v0),
        (true, true, false) => two_behind(v2, v0, v1),
        (true, true, true) => Seq::empty(),
    }
}

fn crossing_exec(front: FragIn, back: FragIn) -> (r: FragIn)
    requires
        !behind(front),
        behind(back),
    ensures
        r == crossing(front, back),
{
    front.lerp(back, front.position.z as i64, front.position.z as i64 - back.position.z as i64)
}

fn one_behind_exec(a: FragIn, b: FragIn, c: FragIn) -> (out: Vec<FragIn>)
    requires
        !behind(a),
        !behind(b),
        behind(c),
    ensures
        out@ == one_behind(a, b, c),
{
    let mid_ac: FragIn = crossing_exec(a, c);
    let mid_bc: FragIn = crossing_exec(b, c);
    let mut out: Vec<FragIn> = Vec::new();
    out.push(a);
    out.push(b);
    out.push(mid_ac);
    out.push(mid_ac);
    out.push(b);
    out.push(mid_bc);
    assert(out@ =~= one_behind(a, b, c));
    out
}

fn two_behind_exec(a: FragIn, b: FragIn, c: FragIn) -> (out: Vec<FragIn>)
    requires
        !behind(a),
        behind(b),
        behind(c),
    ensures
        out@ == two_behind(a, b, c),
{
    let mid_ab: FragIn = crossing_exec(a, b);
    let mid_ac: FragIn = crossing_exec(a, c);
    let mut out: Vec<FragIn> = Vec::new();
    out.push(a);
    out.push(mid_ab);
    out.push(mid_ac);
    assert(out@ =~= two_behind(a, b, c));
    out
}

/// Clips a triangle against the near plane.  A triangle that lies wholly in
/// front comes back as it is, one that lies wholly behind leaves nothing.
pub fn clip_near_plane(v0: FragIn, v1: FragIn, v2: FragIn) -> (out: Vec<FragIn>)
    ensures
        out@ == clip(v0, v1, v2),
        !behind(v0) && !behind(v1) && !behind(v2) ==> out@ == seq![v0, v1, v2],
        behind(v0) && behind(v1) && behind(v2) ==> out@ == Seq::<FragIn>::empty(),
        out@.len() == 0 || out@.len() == 3 || out@.len() == 6,
{
    let b0: bool = v0.position.z < 0;
    let b1: bool = v1.position.z < 0;
    let b2: bool = v2.position.z < 0;
    if !b0 && !b1 && !b2 {
        let mut out: Vec<FragIn> = Vec::new();
        out.push(v0);
        out.push(v1);
        out.push(v2);
        assert(out@ =~= seq![v0, v1, v2]);
        out
    } else if b0 && b1 && b2 {
        Vec::new()
    } else if b0 && !b1 && !b2 {
        one_behind_exec(v1, v2, v0)
    } else if !b0 && b1 && !b2 {
        one_behind_exec(v2, v0, v1)
    } else if !b0 && !b1 && b2 {
        one_behind_exec(v0, v1, v2)
    } else if !b0 {
        two_behind_exec(v0, v1, v2)
    } else if !b1 {
        two_behind_exec(v1, v2, v0)
    } else {
        two_behind_exec(v2, v0, v1)
    }
}

/// Twice the signed area of the triangle `a`, `b`, `c` in the plane of `x`
/// and `y`.
pub open spec fn plane_area(a: FragIn, b: FragIn, c: FragIn) -> int {
    (c.position.x - a.position.x) * (b.position.y - a.position.y) - (c.position.y - a.position.y)
        * (b.position.x - a.position.x)
}

/// The crossing of the edge from `front` to `back` lies on the edge itself:
/// neither its `x` nor its `y` had to be rounded.
pub open spec fn crosses_exactly(front: FragIn, back: FragIn) -> bool {
    let depth = front.position.z - back.position.z;
    &&& ((back.position.x - front.position.x) * front.position.z) % depth == 0
    &&& ((back.position.y - front.position.y) * front.position.z) % depth == 0
}

/// The cross product of two vectors of the plane.
pub open spec fn cross(ux: int, uy: int, vx: int, vy: int) -> int {
    ux * vy - uy * vx
}

/// Twice the area of a triangle, from the cross products of its corners.
proof fn lemma_area_by_corners(a: FragIn, b: FragIn, c: FragIn)
    ensures
        plane_area(a, b, c) == -(cross(
            a.position.x as int,
            a.position.y as int,
            b.position.x as int,
            b.position.y as int,
        ) + cross(
            b.position.x as int,
            b.position.y as int,
            c.position.x as int,
            c.position.y as int,
        ) + cross(
            c.position.x as int,
            c.position.y as int,
            a.position.x as int,
            a.position.y as int,
        )),
        cross(a.position.x as int, a.position.y as int, b.position.x as int, b.position.y as int)
            == -cross(
            b.position.x as int,
            b.position.y as int,
            a.position.x as int,
            a.position.y as int,
        ),
{
    let (ax, ay) = (a.position.x as int, a.position.y as int);
    let (bx, by) = (b.position.x as int, b.position.y as int);
    let (cx, cy) = (c.position.x as int, c.position.y as int);
    lemma_product_of_differences(cx, ax, by, ay);
    lemma_product_of_differences(cy, ay, bx, ax);
    lemma_product_of_differences(ax, ay, by, bx);
    lemma_product_of_differences(bx, by, cy, cx);
    lemma_product_of_differences(cx, cy, ay, ax);
}

/// The area that a crossing spans with the ends of its edge, times the depth
/// of the edge: it comes from what was cut off the two coordinates of the
/// crossing when they were rounded down.
proof fn lemma_crossing_area(front: FragIn, back: FragIn)
    requires
        !behind(front),
        behind(back),
    ensures
        (front.position.z - back.position.z) * plane_area(front, crossing(front, back), back) == (
        back.position.y - front.position.y) * (((back.position.x - front.position.x)
            * front.position.z) % (front.position.z - back.position.z)) - (back.position.x
            - front.position.x) * (((back.position.y - front.position.y) * front.position.z) % (
        front.position.z - back.position.z)),
{
    let m = crossing(front, back);
    let d: int = front.position.z - back.position.z;
    let n: int = front.position.z as int;
    let (ax, ay) = (front.position.x as int, front.position.y as int);
    let (cx, cy) = (back.position.x as int, back.position.y as int);
    lemma_lerp_between(ax, cx, n, d);
    lemma_lerp_between(ay, cy, n, d);
    let (dx, dy) = (cx - ax, cy - ay);
    vstd::arithmetic::div_mod::lemma_fundamental_div_mod(dx * n, d);
    vstd::arithmetic::div_mod::lemma_fundamental_div_mod(dy * n, d);
    let rx = (dx * n) % d;
    let ry = (dy * n) % d;
    let run = m.position.x - ax;
    let rise = m.position.y - ay;
    assert(d * run == dx * n - rx);
    assert(d * rise == dy * n - ry);
    let area = dx * rise - dy * run;
    assert(plane_area(front, m, back) == area);
    assert(d * area == dx * (d * rise) - dy * (d * run)) by (nonlinear_arith)
        requires
            area == dx * rise - dy * run,
    ;
    assert(dx * (dy * n - ry) == dx * (dy * n) - dx * ry) by (nonlinear_arith);
    assert(dy * (dx * n - rx) == dy * (dx * n) - dy * rx) by (nonlinear_arith);
    assert(dx * (dy * n) == dy * (dx * n)) by (nonlinear_arith);
}

/// Where the crossing of an edge was not rounded, it spans no area with the
/// ends of the edge.
proof fn lemma_crossing_spans_nothing(front: FragIn, back: FragIn)
    requires
        !behind(front),
        behind(back),
        crosses_exactly(front, back),
    ensures
        plane_area(front, crossing(front, back), back) == 0,
{
    lemma_crossing_area(front, back);
    let d: int = front.position.z - back.position.z;
    let area = plane_area(front, crossing(front, back), back);
    let dx = back.position.x - front.position.x;
    let dy = back.position.y - front.position.y;
    assert(dy * 0 - dx * 0 == 0);
    assert(area == 0) by (nonlinear_arith)
        requires
            d * area == 0,
            d > 0,
    ;
}

/// Clipping a triangle with one vertex behind the near plane neither adds
/// nor loses area: where the two crossings are exact, the two triangles that
/// are kept and the corner that is cut off add up to the triangle.
pub proof fn lemma_one_behind_keeps_area(a: FragIn, b: FragIn, c: FragIn)
    requires
        !behind(a),
        !behind(b),
        behind(c),
        crosses_exactly(a, c),
        crosses_exactly(b, c),
    ensures
        plane_area(one_behind(a, b, c)[0], one_behind(a, b, c)[1], one_behind(a, b, c)[2])
            + plane_area(one_behind(a, b, c)[3], one_behind(a, b, c)[4], one_behind(a, b, c)[5])
            + plane_area(crossing(a, c), crossing(b, c), c) == plane_area(a, b, c),
{
    let m = crossing(a, c);
    let n = crossing(b, c);
    lemma_crossing_spans_nothing(a, c);
    lemma_crossing_spans_nothing(b, c);
    lemma_area_by_corners(a, m, c);
    lemma_area_by_corners(b, n, c);
    lemma_area_by_corners(a, b, m);
    lemma_area_by_corners(m, b, n);
    lemma_area_by_corners(m, n, c);
    lemma_area_by_corners(a, b, c);
    lemma_area_by_corners(b, c, a);
    lemma_area_by_corners(c, a, b);
    lemma_area_by_corners(m, a, b);
    lemma_area_by_corners(c, m, a);
    lemma_area_by_corners(n, m, b);
}

/// Clipping a triangle with two vertices behind the near plane neither adds
/// nor loses area: where the two crossings are exact, the triangle that is
/// kept and the quadrilateral that is cut off add up to the triangle.
pub proof fn lemma_two_behind_keeps_area(a: FragIn, b: FragIn, c: FragIn)
    requires
        !behind(a),
        behind(b),
        behind(c),
        crosses_exactly(a, b),
        crosses_exactly(a, c),
    ensures
        plane_area(two_behind(a, b, c)[0], two_behind(a, b, c)[1], two_behind(a, b, c)[2])
            + plane_area(crossing(a, b), b, c) + plane_area(crossing(a, b), c, crossing(a, c))
            == plane_area(a, b, c),
{
    let m = crossing(a, b);
    let n = crossing(a, c);
    lemma_crossing_spans_nothing(a, b);
    lemma_crossing_spans_nothing(a, c);
    lemma_area_by_corners(a, m, b);
    lemma_area_by_corners(a, n, c);
    lemma_area_by_corners(a, m, n);
    lemma_area_by_corners(m, b, c);
    lemma_area_by_corners(m, c, n);
    lemma_area_by_corners(a, b, c);
    lemma_area_by_corners(b, c, a);
    lemma_area_by_corners(c, a, b);
    lemma_area_by_corners(m, n, a);
    lemma_area_by_corners(n, a, m);
    lemma_area_by_corners(n, c, m);
    lemma_area_by_corners(c, m, b);
}

/// The sum of the width and the height of the box around two vertices.
pub open spec fn reach(a: FragIn, b: FragIn) -> int {
    (if b.position.x >= a.position.x {
        b.position.x - a.position.x
    } else {
        a.position.x - b.position.x
    }) + (if b.position.y >= a.position.y {
        b.position.y - a.position.y
    } else {
        a.position.y - b.position.y
    })
}

/// A crossing lies on its edge but for the rounding of its two coordinates:
/// with the ends of the edge it spans no more area than the reach of the
/// edge.
pub proof fn lemma_crossing_near_edge(front: FragIn, back: FragIn)
    requires
        !behind(front),
        behind(back),
    ensures
        -reach(front, back) <= plane_area(front, crossing(front, back), back) <= reach(front, back),
{
    lemma_crossing_area(front, back);
    let d: int = front.position.z - back.position.z;
    let n: int = front.position.z as int;
    let dx = back.position.x - front.position.x;
    let dy = back.position.y - front.position.y;
    let rx = (dx * n) % d;
    let ry = (dy * n) % d;
    vstd::arithmetic::div_mod::lemma_fundamental_div_mod(dx * n, d);
    vstd::arithmetic::div_mod::lemma_fundamental_div_mod(dy * n, d);
    let area = plane_area(front, crossing(front, back), back);
    let wide: int = if dx >= 0 {
        dx
    } else {
        -dx
    };
    let high: int = if dy >= 0 {
        dy
    } else {
        -dy
    };
    assert(-(high * d) <= dy * rx <= high * d) by (nonlinear_arith)
        requires
            0 <= rx < d,
            -high <= dy <= high,
    ;
    assert(-(wide * d) <= dx * ry <= wide * d) by (nonlinear_arith)
        requires
            0 <= ry < d,
            -wide <= dx <= wide,
    ;
    assert((wide + high) * d == wide * d + high * d) by (nonlinear_arith);
    assert(-(wide + high) <= area <= wide + high) by (nonlinear_arith)
        requires
            -((wide + high) * d) <= d * area <= (wide + high) * d,
            d > 0,
    ;
}

/// Clipping a triangle with one vertex behind the near plane neither adds
/// nor loses area, but for the rounding of the two crossings: the two
/// triangles that are kept and the corner that is cut off add up to the
/// triangle, to within the reach of the two edges that are cut.
pub proof fn lemma_one_behind_keeps_area_nearly(a: FragIn, b: FragIn, c: FragIn)
    requires
        !behind(a),
        !behind(b),
        behind(c),
    ensures
        plane_area(one_behind(a, b, c)[0], one_behind(a, b, c)[1], one_behind(a, b, c)[2])
            + plane_area(one_behind(a, b, c)[3], one_behind(a, b, c)[4], one_behind(a, b, c)[5])
            + plane_area(crossing(a, c), crossing(b, c), c) - plane_area(a, b, c) == plane_area(
            b,
            crossing(b, c),
            c,
        ) - plane_area(a, crossing(a, c), c),
        -(reach(a, c) + reach(b, c)) <= plane_area(
            one_behind(a, b, c)[0],
            one_behind(a, b, c)[1],
            one_behind(a, b, c)[2],
        ) + plane_area(one_behind(a, b, c)[3], one_behind(a, b, c)[4], one_behind(a, b, c)[5])
            + plane_area(crossing(a, c), crossing(b, c), c) - plane_area(a, b, c) <= reach(a, c)
            + reach(b, c),
{
    let m = crossing(a, c);
    let n = crossing(b, c);
    lemma_crossing_near_edge(a, c);
    lemma_crossing_near_edge(b, c);
    lemma_area_by_corners(a, m, c);
    lemma_area_by_corners(b, n, c);
    lemma_area_by_corners(a, b, m);
    lemma_area_by_corners(m, b, n);
    lemma_area_by_corners(m, n, c);
    lemma_area_by_corners(a, b, c);
    lemma_area_by_corners(b, c, a);
    lemma_area_by_corners(c, a, b);
    lemma_area_by_corners(m, a, b);
    lemma_area_by_corners(c, m, a);
    lemma_area_by_corners(n, m, b);
}

/// Clipping a triangle with two vertices behind the near plane neither adds
/// nor loses area, but for the rounding of the two crossings: the triangle
/// that is kept and the quadrilateral that is cut off add up to the
/// triangle, to within the reach of the two edges that are cut.
pub proof fn lemma_two_behind_keeps_area_nearly(a: FragIn, b: FragIn, c: FragIn)
    requires
        !behind(a),
        behind(b),
        behind(c),
    ensures
        plane_area(two_behind(a, b, c)[0], two_behind(a, b, c)[1], two_behind(a, b, c)[2])
            + plane_area(crossing(a, b), b, c) + plane_area(crossing(a, b), c, crossing(a, c))
            - plane_area(a, b, c) == plane_area(a, crossing(a, b), b) - plane_area(
            a,
            crossing(a, c),
            c,
        ),
        -(reach(a, b) + reach(a, c)) <= plane_area(
            two_behind(a, b, c)[0],
            two_behind(a, b, c)[1],
            two_behind(a, b, c)[2],
        ) + plane_area(crossing(a, b), b, c) + plane_area(crossing(a, b), c, crossing(a, c))
            - plane_area(a, b, c) <= reach(a, b) + reach(a, c),
{
    let m = crossing(a, b);
    let n = crossing(a, c);
    lemma_crossing_near_edge(a, b);
    lemma_crossing_near_edge(a, c);
    lemma_area_by_corners(a, m, b);
    lemma_area_by_corners(a, n, c);
    lemma_area_by_corners(a, m, n);
    lemma_area_by_corners(m, b, c);
    lemma_area_by_corners(m, c, n);
    lemma_area_by_corners(a, b, c);
    lemma_area_by_corners(b, c, a);
    lemma_area_by_corners(c, a, b);
    lemma_area_by_corners(m, n, a);
    lemma_area_by_corners(n, a, m);
    lemma_area_by_corners(n, c, m);
    lemma_area_by_corners(c, m, b);
}

} // verus!
