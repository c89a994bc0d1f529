//! Plane geometry for cursor picking: points and triangles on an integer
//! grid, with the classic same-sign containment test.
use vstd::prelude::*;

verus! {

/// A point in world space, in integer units.
#[derive(Clone, Copy, PartialEq, Eq, Structural, Debug)]
pub struct Point {
    pub x: i32,
    pub y: i32,
}

/// A triangle given by its three vertices, in an entity's local space.
#[derive(Clone, Copy, PartialEq, Eq, Structural, Debug)]
pub struct Triangle {
    pub p1: Point,
    pub p2: Point,
    pub p3: Point,
}

/// The signed-area form of the edge from `(ax, ay)` to `(bx, by)` evaluated
/// at `(px, py)`: positive on one side of the directed edge, negative on the
/// other, zero on the line through it.
pub open spec fn edge_sign(px: int, py: int, ax: int, ay: int, bx: int, by: int) -> int {
    (px - bx) * (ay - by) - (ax - bx) * (py - by)
}

/// Same-sign containment: `(qx, qy)` lies in the triangle (boundary
/// included) iff the three edge signs are not strictly mixed.
pub open spec fn tri_contains(t: Triangle, qx: int, qy: int) -> bool {
    let d1 = edge_sign(qx, qy, t.p1.x as int, t.p1.y as int, t.p2.x as int, t.p2.y as int);
    let d2 = edge_sign(qx, qy, t.p2.x as int, t.p2.y as int, t.p3.x as int, t.p3.y as int);
    let d3 = edge_sign(qx, qy, t.p3.x as int, t.p3.y as int, t.p1.x as int, t.p1.y as int);
    let has_neg = d1 < 0 || d2 < 0 || d3 < 0;
    let has_pos = d1 > 0 || d2 > 0 || d3 > 0;
    !(has_neg && has_pos)
}

/// Bound on query coordinates accepted by `edge_sign_at`: wide enough for
/// any world point shifted by any entity translation, and small enough that
/// the sign arithmetic cannot overflow `i128`.
pub open spec fn query_in_range(q: i64) -> bool {
    -0x1_0000_0000_0000 <= q <= 0x1_0000_0000_0000
}

fn edge_sign_at(px: i64, py: i64, a: &Point, b: &Point) -> (s: i128)
    requires
        query_in_range(px),
        query_in_range(py),
    ensures
        s == edge_sign(px as int, py as int, a.x as int, a.y as int, b.x as int, b.y as int),
{
    let pbx: i128 = px as i128 - b.x as i128;
    let aby: i128 = a.y as i128 - b.y as i128;
    let abx: i128 = a.x as i128 - b.x as i128;
    let pby: i128 = py as i128 - b.y as i128;
    proof {
        lemma_product_in_range(pbx as int, aby as int);
        lemma_product_in_range(pby as int, abx as int);
        assert(abx * pby == pby * abx) by (nonlinear_arith);
    }
    pbx * aby - abx * pby
}

/// Products of a shifted query coordinate and a vertex difference stay far
/// inside the `i128` range.
proof fn lemma_product_in_range(d: int, e: int)
    requires
        -0x2_0000_0000_0000 <= d <= 0x2_0000_0000_0000,
        -0x1_0000_0000 <= e <= 0x1_0000_0000,
    ensures
        -0x2_0000_0000_0000_0000_0000 <= d * e <= 0x2_0000_0000_0000_0000_0000,
{
    assert(-0x2_0000_0000_0000_0000_0000 <= d * e <= 0x2_0000_0000_0000_0000_0000)
        by (nonlinear_arith)
        requires
            -0x2_0000_0000_0000 <= d <= 0x2_0000_0000_0000,
            -0x1_0000_0000 <= e <= 0x1_0000_0000,
    ;
}

impl Triangle {
    /// Builds the triangle with the given vertices.
    pub fn new(p1: Point, p2: Point, p3: Point) -> (t: Triangle)
        ensures
            t == (Triangle { p1, p2, p3 }),
    {
        Triangle { p1, p2, p3 }
    }

    /// Containment test for a query point already shifted into this
    /// triangle's local space; the shift may leave the `i32` range, so the
    /// query is taken as `i64`.
    pub fn contains_shifted(&self, qx: i64, qy: i64) -> (r: bool)
        requires
            query_in_range(qx),
            query_in_range(qy),
        ensures
            r == tri_contains(*self, qx as int, qy as int),
    {
        let d1 = edge_sign_at(qx, qy, &self.p1, &self.p2);
        let d2 = edge_sign_at(qx, qy, &self.p2, &self.p3);
        let d3 = edge_sign_at(qx, qy, &self.p3, &self.p1);
        let has_neg = d1 < 0 || d2 < 0 || d3 < 0;
        let has_pos = d1 > 0 || d2 > 0 || d3 > 0;
        !(has_neg && has_pos)
    }

    /// True iff `pt` lies in this triangle, boundary included.
    pub fn contains(&self, pt: &Point) -> (r: bool)
        ensures
            r == tri_contains(*self, pt.x as int, pt.y as int),
    {
        self.contains_shifted(pt.x as i64, pt.y as i64)
    }
}

/// The edge sign vanishes when the query point is the edge's start point.
proof fn lemma_edge_sign_at_start(px: int, py: int, bx: int, by: int)
    ensures
        edge_sign(px, py, px, py, bx, by) == 0,
{
}

/// The edge sign vanishes when the query point is the edge's end point.
proof fn lemma_edge_sign_at_end(px: int, py: int, ax: int, ay: int)
    ensures
        edge_sign(px, py, ax, ay, px, py) == 0,
{
    assert((px - px) * (ay - py) - (ax - px) * (py - py) == 0) by (nonlinear_arith);
}

/// Law: containment is reflexive on vertices — every triangle contains each
/// of its own vertices.
pub proof fn lemma_contains_vertex(t: Triangle)
    ensures
        tri_contains(t, t.p1.x as int, t.p1.y as int),
        tri_contains(t, t.p2.x as int, t.p2.y as int),
        tri_contains(t, t.p3.x as int, t.p3.y as int),
{
    lemma_edge_sign_at_start(t.p1.x as int, t.p1.y as int, t.p2.x as int, t.p2.y as int);
    lemma_edge_sign_at_end(t.p1.x as int, t.p1.y as int, t.p3.x as int, t.p3.y as int);
    lemma_edge_sign_at_start(t.p2.x as int, t.p2.y as int, t.p3.x as int, t.p3.y as int);
    lemma_edge_sign_at_end(t.p2.x as int, t.p2.y as int, t.p1.x as int, t.p1.y as int);
    lemma_edge_sign_at_start(t.p3.x as int, t.p3.y as int, t.p1.x as int, t.p1.y as int);
    lemma_edge_sign_at_end(t.p3.x as int, t.p3.y as int, t.p2.x as int, t.p2.y as int);
}

} // verus!
