//! Plane geometry in fixed-point coordinates: points in millionths of a
//! map unit, geometry kinds mirroring the common geospatial shapes, and
//! the centroid rule the symbology commands anchor on.
use vstd::prelude::*;

use crate::error::{ApplyError, ApplyErrorV};

verus! {

/// A 2D point, both coordinates in millionths of a map unit.
#[derive(Debug, Clone, Copy, PartialEq, Eq, Structural)]
pub struct Point {
    pub x: i64,
    pub y: i64,
}

/// Builds a point.
pub fn point(x: i64, y: i64) -> (p: Point)
    ensures
        p == (Point { x, y }),
{
    Point { x, y }
}

/// A geometry: a point, a run of points, or rings of points.
#[derive(Debug, Clone, PartialEq)]
pub enum Geometry {
    Point(Point),
    MultiPoint(Vec<Point>),
    LineString(Vec<Point>),
    MultiLineString(Vec<Vec<Point>>),
    Polygon(Vec<Vec<Point>>),
    MultiPolygon(Vec<Vec<Vec<Point>>>),
}

/// Mathematical view of `Geometry`.
pub enum GeometryV {
    Point(Point),
    MultiPoint(Seq<Point>),
    LineString(Seq<Point>),
    MultiLineString(Seq<Seq<Point>>),
    Polygon(Seq<Seq<Point>>),
    MultiPolygon(Seq<Seq<Seq<Point>>>),
}

impl View for Geometry {
    type V = GeometryV;

    open spec fn view(&self) -> GeometryV {
        match self {
            Geometry::Point(p) => GeometryV::Point(*p),
            Geometry::MultiPoint(ps) => GeometryV::MultiPoint(ps@),
            Geometry::LineString(ps) => GeometryV::LineString(ps@),
            Geometry::MultiLineString(ls) => GeometryV::MultiLineString(
                ls@.map(|i: int, l: Vec<Point>| l@),
            ),
            Geometry::Polygon(rs) => GeometryV::Polygon(rs@.map(|i: int, r: Vec<Point>| r@)),
            Geometry::MultiPolygon(ps) => GeometryV::MultiPolygon(
                ps@.map(|i: int, p: Vec<Vec<Point>>| p@.map(|j: int, r: Vec<Point>| r@)),
            ),
        }
    }
}

/// The points a centroid averages over: a point itself; the points of a
/// point run; the points of every part of a multi-line; the outer ring
/// of a polygon; the outer rings of every polygon of a multi-polygon.
pub open spec fn anchor_points(g: GeometryV) -> Seq<Point> {
    match g {
        GeometryV::Point(p) => seq![p],
        GeometryV::MultiPoint(ps) => ps,
        GeometryV::LineString(ps) => ps,
        GeometryV::MultiLineString(ls) => flatten_points(ls),
        GeometryV::Polygon(rs) => if rs.len() > 0 {
            rs.first()
        } else {
            Seq::empty()
        },
        GeometryV::MultiPolygon(ps) => flatten_points(
            ps.map(
                |i: int, rings: Seq<Seq<Point>>|
                    if rings.len() > 0 {
                        rings.first()
                    } else {
                        Seq::<Point>::empty()
                    },
            ),
        ),
    }
}

/// All points of a run of point lists, in order.
pub open spec fn flatten_points(ls: Seq<Seq<Point>>) -> Seq<Point>
    decreases ls.len(),
{
    if ls.len() == 0 {
        Seq::empty()
    } else {
        ls.first() + flatten_points(ls.drop_first())
    }
}

/// The sums of the coordinates of a point run.
pub open spec fn sum_x(ps: Seq<Point>) -> int
    decreases ps.len(),
{
    if ps.len() == 0 {
        0
    } else {
        sum_x(ps.drop_last()) + ps.last().x
    }
}

/// The sums of the coordinates of a point run.
pub open spec fn sum_y(ps: Seq<Point>) -> int
    decreases ps.len(),
{
    if ps.len() == 0 {
        0
    } else {
        sum_y(ps.drop_last()) + ps.last().y
    }
}

/// Signed division truncating towards zero, the rounding the centroid
/// uses.
pub open spec fn div_trunc(a: int, b: int) -> int {
    if a >= 0 {
        a / b
    } else {
        -((-a) / b)
    }
}

/// The arithmetic mean of a point run, each coordinate truncated
/// towards zero; the anchor rule for point sets and for degenerate
/// shapes whose weights vanish.
pub open spec fn mean_point(ps: Seq<Point>) -> Result<Point, ApplyErrorV> {
    if ps.len() == 0 {
        Err(ApplyErrorV::Geometry)
    } else {
        Ok(
            Point {
                x: div_trunc(sum_x(ps), ps.len() as int) as i64,
                y: div_trunc(sum_y(ps), ps.len() as int) as i64,
            },
        )
    }
}

/// How far a vertex may sit from a shape's first vertex for the
/// weighted centroids to be computed: the fixed-point evaluation works
/// in 128 bits and refuses wider shapes.
pub const COORD_SPAN_CAP: i64 = 2_199_023_255_552;

/// The bound every running sum of the weighted centroids must keep to.
pub const SUM_CAP: i128 = 0x2000_0000_0000_0000_0000_0000_0000_0000;

/// A ring without its closing duplicate vertex, where it has one.
pub open spec fn open_ring(r: Seq<Point>) -> Seq<Point> {
    if r.len() > 1 && r.last() == r.first() {
        r.drop_last()
    } else {
        r
    }
}

/// A vertex's offset from the anchor.
pub open spec fn rel_x(p: Point, anchor: Point) -> int {
    p.x - anchor.x
}

/// A vertex's offset from the anchor.
pub open spec fn rel_y(p: Point, anchor: Point) -> int {
    p.y - anchor.y
}

/// Whether a vertex sits within the supported span of the anchor.
pub open spec fn pt_bounded(p: Point, anchor: Point) -> bool {
    -(COORD_SPAN_CAP as int) <= rel_x(p, anchor) <= COORD_SPAN_CAP as int && -(
    COORD_SPAN_CAP as int) <= rel_y(p, anchor) <= COORD_SPAN_CAP as int
}

/// The successor of a position around a ring.
pub open spec fn ring_nxt(k: int, m: int) -> int {
    if k + 1 == m {
        0
    } else {
        k + 1
    }
}

/// Twice the signed area a ring segment contributes, in
/// anchor-relative coordinates.
pub open spec fn seg_cross(r: Seq<Point>, anchor: Point, k: int) -> int {
    let j = ring_nxt(k, r.len() as int);
    rel_x(r[k], anchor) * rel_y(r[j], anchor) - rel_x(r[j], anchor) * rel_y(r[k], anchor)
}

/// The running shoelace sums of a ring's first `k` segments: twice the
/// signed area and the two first moments.
pub open spec fn ring_sums(r: Seq<Point>, anchor: Point, k: int) -> (int, int, int)
    decreases k,
{
    if k <= 0 {
        (0, 0, 0)
    } else {
        let prev = ring_sums(r, anchor, k - 1);
        let j = ring_nxt(k - 1, r.len() as int);
        let c = seg_cross(r, anchor, k - 1);
        (
            prev.0 + c,
            prev.1 + (rel_x(r[k - 1], anchor) + rel_x(r[j], anchor)) * c,
            prev.2 + (rel_y(r[k - 1], anchor) + rel_y(r[j], anchor)) * c,
        )
    }
}

/// Whether a triple of running sums stays within the evaluation range.
pub open spec fn sums_in_cap(t: (int, int, int)) -> bool {
    -(SUM_CAP as int) <= t.0 <= SUM_CAP as int && -(SUM_CAP as int) <= t.1 <= SUM_CAP as int
        && -(SUM_CAP as int) <= t.2 <= SUM_CAP as int
}

/// Whether one ring can be folded into the shoelace sums: every vertex
/// within span of the anchor, every running sum within range.
pub open spec fn ring_ok(r: Seq<Point>, anchor: Point) -> bool {
    (forall|i: int| 0 <= i < r.len() ==> pt_bounded(#[trigger] r[i], anchor)) && (forall|k: int|
        0 <= k <= r.len() ==> sums_in_cap(#[trigger] ring_sums(r, anchor, k)))
}

/// The shoelace sums of the first `j` rings taken together.
pub open spec fn rings_sums(rs: Seq<Seq<Point>>, anchor: Point, j: int) -> (int, int, int)
    decreases j,
{
    if j <= 0 {
        (0, 0, 0)
    } else {
        let prev = rings_sums(rs, anchor, j - 1);
        let r = open_ring(rs[j - 1]);
        let t = ring_sums(r, anchor, r.len() as int);
        (prev.0 + t.0, prev.1 + t.1, prev.2 + t.2)
    }
}

/// Whether a run of rings can be folded into the shoelace sums.
pub open spec fn rings_ok(rs: Seq<Seq<Point>>, anchor: Point) -> bool {
    (forall|j: int| 0 <= j < rs.len() ==> ring_ok(open_ring(#[trigger] rs[j]), anchor)) && (
    forall|j: int| 0 <= j <= rs.len() ==> sums_in_cap(#[trigger] rings_sums(rs, anchor, j)))
}

/// The area-weighted centroid of a run of rings, anchored at the given
/// vertex: the classical shoelace centroid, each coordinate truncated
/// towards zero.  Rings wider than the supported span or whose sums
/// leave the evaluation range are refused; rings of vanishing total
/// area fall back to the arithmetic mean of the fallback points.
pub open spec fn spec_rings_centroid(
    rs: Seq<Seq<Point>>,
    anchor: Point,
    fallback: Seq<Point>,
) -> Result<Point, ApplyErrorV> {
    if !rings_ok(rs, anchor) {
        Err(ApplyErrorV::Geometry)
    } else {
        let t = rings_sums(rs, anchor, rs.len() as int);
        if t.0 == 0 {
            mean_point(fallback)
        } else {
            let d = if t.0 >= 0 {
                3 * t.0
            } else {
                -(3 * t.0)
            };
            let mx = if t.0 >= 0 {
                t.1
            } else {
                -t.1
            };
            let my = if t.0 >= 0 {
                t.2
            } else {
                -t.2
            };
            let cx = anchor.x + div_trunc(mx, d);
            let cy = anchor.y + div_trunc(my, d);
            if i64::MIN <= cx <= i64::MAX && i64::MIN <= cy <= i64::MAX {
                Ok(Point { x: cx as i64, y: cy as i64 })
            } else {
                Err(ApplyErrorV::Geometry)
            }
        }
    }
}

/// The outer rings a weighted polygon centroid averages over.
pub open spec fn outer_rings(g: GeometryV) -> Seq<Seq<Point>> {
    match g {
        GeometryV::Polygon(rs) => if rs.len() > 0 {
            seq![rs.first()]
        } else {
            Seq::empty()
        },
        GeometryV::MultiPolygon(ps) => ps.map(
            |i: int, rings: Seq<Seq<Point>>|
                if rings.len() > 0 {
                    rings.first()
                } else {
                    Seq::<Point>::empty()
                },
        ),
        _ => Seq::empty(),
    }
}


/// The integer square root: the greatest `r` with `r * r <= n`,
/// computed by halving the argument's digits.
pub open spec fn isqrt(n: int) -> int
    decreases n,
{
    if n < 1 {
        0
    } else {
        let r = 2 * isqrt(n / 4);
        if (r + 1) * (r + 1) <= n {
            r + 1
        } else {
            r
        }
    }
}

/// `isqrt` squares to at most its argument, and one more squares past
/// it.
pub proof fn lemma_isqrt(n: int)
    requires
        n >= 0,
    ensures
        isqrt(n) >= 0,
        isqrt(n) * isqrt(n) <= n,
        (isqrt(n) + 1) * (isqrt(n) + 1) > n,
    decreases n,
{
    if n >= 1 {
        lemma_isqrt(n / 4);
        let r0 = isqrt(n / 4);
        let r = 2 * r0;
        assert(4 * (n / 4) <= n && n <= 4 * (n / 4) + 3) by (nonlinear_arith);
        assert(r * r == 4 * (r0 * r0)) by (nonlinear_arith)
            requires r == 2 * r0;
        assert(r * r <= n) by (nonlinear_arith)
            requires r * r == 4 * (r0 * r0) && r0 * r0 <= n / 4 && 4 * (n / 4) <= n;
        assert((r + 2) * (r + 2) == 4 * ((r0 + 1) * (r0 + 1))) by (nonlinear_arith)
            requires r == 2 * r0;
        assert((r + 2) * (r + 2) > n) by (nonlinear_arith)
            requires (r + 2) * (r + 2) == 4 * ((r0 + 1) * (r0 + 1)) && (r0 + 1) * (r0 + 1) > n
                / 4 && n <= 4 * (n / 4) + 3;
        if (r + 1) * (r + 1) <= n {
            assert(isqrt(n) == r + 1);
        } else {
            assert(isqrt(n) == r);
        }
    }
}

/// Computes the integer square root.
fn isqrt_exec(n: u128) -> (r: u128)
    requires
        n as int <= 0x400_0000_0000_0000_0000_0000,
    ensures
        r as int == isqrt(n as int),
    decreases n,
{
    proof {
        lemma_isqrt(n as int);
        if n >= 1 {
            lemma_isqrt((n as int) / 4);
        }
    }
    if n < 1 {
        0
    } else {
        let r0 = isqrt_exec(n / 4);
        proof {
            assert(r0 as int <= 0x1000_0000_0000) by (nonlinear_arith)
                requires r0 as int * r0 as int <= (n as int) / 4 && (n as int) / 4
                    <= 0x100_0000_0000_0000_0000_0000 && r0 >= 0;
        }
        let r = 2 * r0;
        proof {
            assert((r as int + 1) * (r as int + 1) < 0x1000_0000_0000_0000_0000_0000_0000)
                by (nonlinear_arith)
                requires r as int <= 0x2000_0000_0000;
        }
        if (r + 1) * (r + 1) <= n {
            r + 1
        } else {
            r
        }
    }
}

/// The squared length of a segment.
pub open spec fn seg_len2(a: Point, b: Point) -> int {
    (b.x - a.x) * (b.x - a.x) + (b.y - a.y) * (b.y - a.y)
}

/// How many segments a line of `r` points holds.
pub open spec fn seg_count(r: Seq<Point>) -> int {
    if r.len() == 0 {
        0
    } else {
        r.len() - 1
    }
}

/// The running length-weighted sums of a line's first `k` segments:
/// the total length and the two weighted coordinate sums, each segment
/// weighted by its rounded length at both endpoints.
pub open spec fn line_sums(r: Seq<Point>, anchor: Point, k: int) -> (int, int, int)
    decreases k,
{
    if k <= 0 {
        (0, 0, 0)
    } else {
        let prev = line_sums(r, anchor, k - 1);
        let l = isqrt(seg_len2(r[k - 1], r[k]));
        (
            prev.0 + l,
            prev.1 + (rel_x(r[k - 1], anchor) + rel_x(r[k], anchor)) * l,
            prev.2 + (rel_y(r[k - 1], anchor) + rel_y(r[k], anchor)) * l,
        )
    }
}

/// Whether one line can be folded into the weighted sums.
pub open spec fn line_ok(r: Seq<Point>, anchor: Point) -> bool {
    (forall|i: int| 0 <= i < r.len() ==> pt_bounded(#[trigger] r[i], anchor)) && (forall|k: int|
        0 <= k <= seg_count(r) ==> sums_in_cap(#[trigger] line_sums(r, anchor, k)))
}

/// The weighted sums of the first `j` lines taken together.
pub open spec fn lines_sums(ls: Seq<Seq<Point>>, anchor: Point, j: int) -> (int, int, int)
    decreases j,
{
    if j <= 0 {
        (0, 0, 0)
    } else {
        let prev = lines_sums(ls, anchor, j - 1);
        let t = line_sums(ls[j - 1], anchor, seg_count(ls[j - 1]));
        (prev.0 + t.0, prev.1 + t.1, prev.2 + t.2)
    }
}

/// Whether a run of lines can be folded into the weighted sums.
pub open spec fn lines_ok(ls: Seq<Seq<Point>>, anchor: Point) -> bool {
    (forall|j: int| 0 <= j < ls.len() ==> line_ok(#[trigger] ls[j], anchor)) && (forall|j: int|
        0 <= j <= ls.len() ==> sums_in_cap(#[trigger] lines_sums(ls, anchor, j)))
}

/// The length-weighted centroid of a run of lines, anchored at the
/// first fallback point: segment midpoints weighted by rounded segment
/// length, each coordinate truncated towards zero.  Lines wider than
/// the supported span or whose sums leave the evaluation range are
/// refused; lines of vanishing total length fall back to the
/// arithmetic mean of the fallback points.
pub open spec fn spec_lines_centroid(ls: Seq<Seq<Point>>, fallback: Seq<Point>) -> Result<
    Point,
    ApplyErrorV,
> {
    if fallback.len() == 0 {
        Err(ApplyErrorV::Geometry)
    } else {
        let anchor = fallback.first();
        if !lines_ok(ls, anchor) {
            Err(ApplyErrorV::Geometry)
        } else {
            let t = lines_sums(ls, anchor, ls.len() as int);
            if t.0 == 0 {
                mean_point(fallback)
            } else {
                let d = if t.0 >= 0 {
                    2 * t.0
                } else {
                    -(2 * t.0)
                };
                let wx = if t.0 >= 0 {
                    t.1
                } else {
                    -t.1
                };
                let wy = if t.0 >= 0 {
                    t.2
                } else {
                    -t.2
                };
                let cx = anchor.x + div_trunc(wx, d);
                let cy = anchor.y + div_trunc(wy, d);
                if i64::MIN <= cx <= i64::MAX && i64::MIN <= cy <= i64::MAX {
                    Ok(Point { x: cx as i64, y: cy as i64 })
                } else {
                    Err(ApplyErrorV::Geometry)
                }
            }
        }
    }
}

/// The centroid of a geometry, the algebraic one: a point is its own
/// centroid; a point run averages arithmetically; a line run weights
/// segment midpoints by segment length; polygons and multi-polygons
/// take the area-weighted shoelace centroid of their outer rings.
/// Degenerate shapes (vanishing area or length) fall back to the
/// arithmetic mean of their anchor points; an empty geometry has no
/// centroid, and one wider than the supported fixed-point span is
/// refused.  Every division truncates towards zero.
pub open spec fn spec_centroid(g: GeometryV) -> Result<Point, ApplyErrorV> {
    match g {
        GeometryV::Point(p) => Ok(p),
        GeometryV::MultiPoint(ps) => mean_point(ps),
        GeometryV::LineString(ps) => spec_lines_centroid(seq![ps], anchor_points(g)),
        GeometryV::MultiLineString(ls) => spec_lines_centroid(ls, anchor_points(g)),
        GeometryV::Polygon(_) => if anchor_points(g).len() == 0 {
            Err(ApplyErrorV::Geometry)
        } else {
            spec_rings_centroid(outer_rings(g), anchor_points(g).first(), anchor_points(g))
        },
        GeometryV::MultiPolygon(_) => if anchor_points(g).len() == 0 {
            Err(ApplyErrorV::Geometry)
        } else {
            spec_rings_centroid(outer_rings(g), anchor_points(g).first(), anchor_points(g))
        },
    }
}

/// Coordinate sums stay within `len` times the coordinate range.
proof fn lemma_sum_bounds(ps: Seq<Point>)
    ensures
        -(ps.len() as int) * (0x8000_0000_0000_0000) <= sum_x(ps) <= (ps.len() as int) * (
        0x7fff_ffff_ffff_ffff),
        -(ps.len() as int) * (0x8000_0000_0000_0000) <= sum_y(ps) <= (ps.len() as int) * (
        0x7fff_ffff_ffff_ffff),
    decreases ps.len(),
{
    if ps.len() > 0 {
        lemma_sum_bounds(ps.drop_last());
        assert((ps.len() as int) * 0x7fff_ffff_ffff_ffff == (ps.len() - 1) * 0x7fff_ffff_ffff_ffff
            + 0x7fff_ffff_ffff_ffff) by (nonlinear_arith);
        assert((ps.len() as int) * 0x8000_0000_0000_0000 == (ps.len() - 1) * 0x8000_0000_0000_0000
            + 0x8000_0000_0000_0000) by (nonlinear_arith);
    }
}

/// A mean of values in a range stays in that range.
proof fn lemma_mean_in_range(s: int, n: int)
    requires
        n >= 1,
        -n * 0x8000_0000_0000_0000 <= s <= n * 0x7fff_ffff_ffff_ffff,
    ensures
        -0x8000_0000_0000_0000 <= div_trunc(s, n) <= 0x7fff_ffff_ffff_ffff,
{
    if s >= 0 {
        vstd::arithmetic::div_mod::lemma_div_is_ordered(s, n * 0x7fff_ffff_ffff_ffff, n);
        vstd::arithmetic::div_mod::lemma_div_multiples_vanish(0x7fff_ffff_ffff_ffff, n);
        vstd::arithmetic::div_mod::lemma_div_pos_is_pos(s, n);
    } else {
        vstd::arithmetic::div_mod::lemma_div_is_ordered(-s, n * 0x8000_0000_0000_0000, n);
        vstd::arithmetic::div_mod::lemma_div_multiples_vanish(0x8000_0000_0000_0000, n);
        vstd::arithmetic::div_mod::lemma_div_pos_is_pos(-s, n);
    }
}

/// Sums the coordinates of a point run.
fn sum_points(ps: &Vec<Point>) -> (r: (i128, i128))
    ensures
        r.0 as int == sum_x(ps@),
        r.1 as int == sum_y(ps@),
{
    let mut sx: i128 = 0;
    let mut sy: i128 = 0;
    let mut k: usize = 0;
    proof {
        assert(ps@.subrange(0, 0) =~= Seq::<Point>::empty());
    }
    while k < ps.len()
        invariant
            0 <= k <= ps@.len(),
            sx as int == sum_x(ps@.subrange(0, k as int)),
            sy as int == sum_y(ps@.subrange(0, k as int)),
        decreases ps@.len() - k,
    {
        proof {
            lemma_sum_bounds(ps@.subrange(0, k as int));
            assert(ps@.subrange(0, k as int + 1).drop_last() =~= ps@.subrange(0, k as int));
            assert(ps@.subrange(0, k as int + 1).last() == ps@[k as int]);
            assert((k as int) * 0x7fff_ffff_ffff_ffff < 0x7fff_ffff_ffff_ffff_ffff_ffff_ffff_ffff)
                by (nonlinear_arith)
                requires k as int <= 0xffff_ffff_ffff_ffff;
            assert((k as int) * 0x8000_0000_0000_0000 < 0x8000_0000_0000_0000_0000_0000_0000_0000)
                by (nonlinear_arith)
                requires k as int <= 0xffff_ffff_ffff_ffff;
        }
        sx = sx + (ps[k].x as i128);
        sy = sy + (ps[k].y as i128);
        k = k + 1;
    }
    proof {
        assert(ps@.subrange(0, ps@.len() as int) =~= ps@);
    }
    (sx, sy)
}

/// Divides truncating towards zero.
fn div_trunc_i128(a: i128, n: usize) -> (r: i128)
    requires
        n >= 1,
        -0x8000_0000_0000_0000_0000_0000_0000_0000 < a as int,
    ensures
        r as int == div_trunc(a as int, n as int),
{
    if a >= 0 {
        let q = (a as u128) / (n as u128);
        proof {
            vstd::arithmetic::div_mod::lemma_div_is_ordered(a as int, a as int, n as int);
            vstd::arithmetic::div_mod::lemma_div_pos_is_pos(a as int, n as int);
            assert((a as int) / (n as int) <= a as int) by {
                vstd::arithmetic::div_mod::lemma_div_is_ordered_by_denominator(a as int, 1, n as int);
                vstd::arithmetic::div_mod::lemma_div_basics(a as int);
            }
        }
        q as i128
    } else {
        let m = (0 - a) as u128;
        let q = m / (n as u128);
        proof {
            vstd::arithmetic::div_mod::lemma_div_pos_is_pos(m as int, n as int);
            assert((m as int) / (n as int) <= m as int) by {
                vstd::arithmetic::div_mod::lemma_div_is_ordered_by_denominator(m as int, 1, n as int);
                vstd::arithmetic::div_mod::lemma_div_basics(m as int);
            }
        }
        0 - (q as i128)
    }
}

/// The arithmetic mean of a point run.
fn mean_of(pts: &Vec<Point>) -> (r: Result<Point, ApplyError>)
    ensures
        match (r, mean_point(pts@)) {
            (Ok(p), Ok(q)) => p == q,
            (Err(e1), Err(e2)) => e1@ == e2,
            _ => false,
        },
{
    if pts.len() == 0 {
        return Err(ApplyError::Geometry);
    }
    let (sx, sy) = sum_points(pts);
    proof {
        lemma_sum_bounds(pts@);
        assert((pts@.len() as int) * 0x7fff_ffff_ffff_ffff
            < 0x8000_0000_0000_0000_0000_0000_0000_0000) by (nonlinear_arith)
            requires pts@.len() as int <= 0xffff_ffff_ffff_ffff;
        assert((pts@.len() as int) * 0x8000_0000_0000_0000
            < 0x8000_0000_0000_0000_0000_0000_0000_0000) by (nonlinear_arith)
            requires pts@.len() as int <= 0xffff_ffff_ffff_ffff;
        lemma_mean_in_range(sum_x(pts@), pts@.len() as int);
        lemma_mean_in_range(sum_y(pts@), pts@.len() as int);
    }
    let n: usize = pts.len();
    let cx = div_trunc_i128(sx, n);
    let cy = div_trunc_i128(sy, n);
    Ok(Point { x: cx as i64, y: cy as i64 })
}

/// Divides by a positive divisor, truncating towards zero.
fn div_i128_pos(a: i128, d: i128) -> (r: i128)
    requires
        d > 0,
        a > i128::MIN,
    ensures
        r as int == div_trunc(a as int, d as int),
        r as int <= if a >= 0 {
            a as int
        } else {
            -(a as int)
        },
        -r as int <= if a >= 0 {
            a as int
        } else {
            -(a as int)
        },
{
    if a >= 0 {
        let q: u128 = (a as u128) / (d as u128);
        proof {
            vstd::arithmetic::div_mod::lemma_div_pos_is_pos(a as int, d as int);
            assert((a as int) / (d as int) <= a as int) by {
                vstd::arithmetic::div_mod::lemma_div_is_ordered_by_denominator(
                    a as int,
                    1,
                    d as int,
                );
                vstd::arithmetic::div_mod::lemma_div_basics(a as int);
            }
        }
        q as i128
    } else {
        let m: u128 = (0 - a) as u128;
        let q: u128 = m / (d as u128);
        proof {
            vstd::arithmetic::div_mod::lemma_div_pos_is_pos(m as int, d as int);
            assert((m as int) / (d as int) <= m as int) by {
                vstd::arithmetic::div_mod::lemma_div_is_ordered_by_denominator(
                    m as int,
                    1,
                    d as int,
                );
                vstd::arithmetic::div_mod::lemma_div_basics(m as int);
            }
        }
        0 - (q as i128)
    }
}

/// Turns normalized shoelace or length sums into the centroid point,
/// dividing the moments by `scale` times the (positive) weight.
fn weighted_point(anchor: Point, w: i128, mx: i128, my: i128, scale: i128) -> (r: Result<
    Point,
    ApplyError,
>)
    requires
        w != 0,
        scale == 2 || scale == 3,
        -(SUM_CAP as int) <= w as int <= SUM_CAP as int,
        -(SUM_CAP as int) <= mx as int <= SUM_CAP as int,
        -(SUM_CAP as int) <= my as int <= SUM_CAP as int,
    ensures
        ({
            let d = if w as int >= 0 {
                scale as int * w as int
            } else {
                -(scale as int * w as int)
            };
            let nx = if w as int >= 0 {
                mx as int
            } else {
                -(mx as int)
            };
            let ny = if w as int >= 0 {
                my as int
            } else {
                -(my as int)
            };
            let cx = anchor.x + div_trunc(nx, d);
            let cy = anchor.y + div_trunc(ny, d);
            match r {
                Ok(p) => i64::MIN <= cx <= i64::MAX && i64::MIN <= cy <= i64::MAX && p == (Point {
                    x: cx as i64,
                    y: cy as i64,
                }),
                Err(e) => (cx < i64::MIN || cx > i64::MAX || cy < i64::MIN || cy > i64::MAX)
                    && e@ == ApplyErrorV::Geometry,
            }
        }),
{
    let d: i128;
    let nx: i128;
    let ny: i128;
    if w >= 0 {
        d = scale * w;
        nx = mx;
        ny = my;
    } else {
        d = 0 - (scale * w);
        nx = 0 - mx;
        ny = 0 - my;
    }
    let qx = div_i128_pos(nx, d);
    let qy = div_i128_pos(ny, d);
    let cx = (anchor.x as i128) + qx;
    let cy = (anchor.y as i128) + qy;
    if i64::MIN as i128 <= cx && cx <= i64::MAX as i128 && i64::MIN as i128 <= cy && cy
        <= i64::MAX as i128 {
        Ok(Point { x: cx as i64, y: cy as i64 })
    } else {
        Err(ApplyError::Geometry)
    }
}

/// A vertex's offset from the anchor, where it stays within the
/// supported span.
fn rel_of(p: Point, anchor: Point) -> (r: Option<(i128, i128)>)
    ensures
        match r {
            Some(q) => pt_bounded(p, anchor) && q.0 as int == rel_x(p, anchor) && q.1 as int
                == rel_y(p, anchor),
            None => !pt_bounded(p, anchor),
        },
{
    let rx = (p.x as i128) - (anchor.x as i128);
    let ry = (p.y as i128) - (anchor.y as i128);
    let cap = COORD_SPAN_CAP as i128;
    if -cap <= rx && rx <= cap && -cap <= ry && ry <= cap {
        Some((rx, ry))
    } else {
        None
    }
}

/// Folds the rings of a polygon run into the area-weighted centroid.
#[verifier::rlimit(100)]
#[verifier::spinoff_prover]
fn rings_centroid_exec(rings: &Vec<Vec<Point>>, anchor: Point, fallback: &Vec<Point>) -> (res:
    Result<Point, ApplyError>)
    ensures
        match (
            res,
            spec_rings_centroid(rings@.map(|i: int, r: Vec<Point>| r@), anchor, fallback@),
        ) {
            (Ok(p), Ok(q)) => p == q,
            (Err(e1), Err(e2)) => e1@ == e2,
            _ => false,
        },
{
    let ghost rsv = rings@.map(|i: int, r: Vec<Point>| r@);
    let mut g0: i128 = 0;
    let mut g1: i128 = 0;
    let mut g2: i128 = 0;
    let mut j: usize = 0;
    while j < rings.len()
        invariant
            0 <= j <= rings@.len(),
            rsv == rings@.map(|i: int, r: Vec<Point>| r@),
            rsv.len() == rings@.len(),
            forall|jj: int| 0 <= jj < j ==> ring_ok(open_ring(#[trigger] rsv[jj]), anchor),
            forall|jj: int| 0 <= jj <= j ==> sums_in_cap(#[trigger] rings_sums(rsv, anchor, jj)),
            g0 as int == rings_sums(rsv, anchor, j as int).0,
            g1 as int == rings_sums(rsv, anchor, j as int).1,
            g2 as int == rings_sums(rsv, anchor, j as int).2,
        decreases rings@.len() - j,
    {
        let ring: &Vec<Point> = &rings[j];
        let m_full = ring.len();
        let m: usize = if m_full > 1 && ring[m_full - 1] == ring[0] {
            m_full - 1
        } else {
            m_full
        };
        let ghost rv = open_ring(rsv[j as int]);
        proof {
            assert(rsv[j as int] == ring@);
            assert(rv =~= ring@.subrange(0, m as int));
        }
        let mut i: usize = 0;
        while i < m
            invariant
                0 <= i <= m <= ring@.len(),
                rsv == rings@.map(|i3: int, r: Vec<Point>| r@),
                rsv.len() == rings@.len(),
                0 <= j < rings@.len(),
                ring@ == rings@[j as int]@,
                rv == open_ring(rsv[j as int]),
                rv == ring@.subrange(0, m as int),
                rv.len() == m,
                forall|i2: int| 0 <= i2 < i ==> pt_bounded(#[trigger] rv[i2], anchor),
            decreases m - i,
        {
            if rel_of(ring[i], anchor).is_none() {
                proof {
                    assert(rv[i as int] == ring@[i as int]);
                    assert(!pt_bounded(rv[i as int], anchor));
                    assert(!ring_ok(rv, anchor));
                    assert(!rings_ok(rsv, anchor)) by {
                        if rings_ok(rsv, anchor) {
                            assert(ring_ok(open_ring(rsv[j as int]), anchor));
                        }
                    }
                }
                return Err(ApplyError::Geometry);
            }
            i = i + 1;
        }
        let mut l0: i128 = 0;
        let mut l1: i128 = 0;
        let mut l2: i128 = 0;
        let mut k: usize = 0;
        while k < m
            invariant
                0 <= k <= m <= ring@.len(),
                rsv == rings@.map(|i3: int, r: Vec<Point>| r@),
                rsv.len() == rings@.len(),
                0 <= j < rings@.len(),
                ring@ == rings@[j as int]@,
                rv == open_ring(rsv[j as int]),
                rv == ring@.subrange(0, m as int),
                rv.len() == m,
                forall|i2: int| 0 <= i2 < m ==> pt_bounded(#[trigger] rv[i2], anchor),
                forall|kk: int| 0 <= kk <= k ==> sums_in_cap(#[trigger] ring_sums(rv, anchor, kk)),
                l0 as int == ring_sums(rv, anchor, k as int).0,
                l1 as int == ring_sums(rv, anchor, k as int).1,
                l2 as int == ring_sums(rv, anchor, k as int).2,
            decreases m - k,
        {
            let jn: usize = if k + 1 == m {
                0
            } else {
                k + 1
            };
            proof {
                assert(rv[k as int] == ring@[k as int]);
                assert(rv[jn as int] == ring@[jn as int]);
                assert(pt_bounded(ring@[k as int], anchor));
                assert(pt_bounded(ring@[jn as int], anchor));
            }
            let a = rel_of(ring[k], anchor).unwrap();
            let b = rel_of(ring[jn], anchor).unwrap();
            let (rxk, ryk) = a;
            let (rxj, ryj) = b;
            proof {
                assert(jn as int == ring_nxt(k as int, rv.len() as int));
                let q = COORD_SPAN_CAP as int;
                assert(rxk as int * ryj as int <= q * q && rxk as int * ryj as int >= -(q * q))
                    by (nonlinear_arith)
                    requires -q <= rxk as int <= q && -q <= ryj as int <= q && q > 0;
                assert(rxj as int * ryk as int <= q * q && rxj as int * ryk as int >= -(q * q))
                    by (nonlinear_arith)
                    requires -q <= rxj as int <= q && -q <= ryk as int <= q && q > 0;
            }
            let cross: i128 = rxk * ryj - rxj * ryk;
            proof {
                let q = COORD_SPAN_CAP as int;
                assert((rxk as int + rxj as int) * cross as int <= SUM_CAP as int && (rxk as int
                    + rxj as int) * cross as int >= -(SUM_CAP as int)) by (nonlinear_arith)
                    requires -2 * q <= rxk as int + rxj as int <= 2 * q && -2 * (q * q)
                        <= cross as int <= 2 * (q * q) && q == 0x200_0000_0000 && SUM_CAP as int
                        == 0x2000_0000_0000_0000_0000_0000_0000_0000;
                assert((ryk as int + ryj as int) * cross as int <= SUM_CAP as int && (ryk as int
                    + ryj as int) * cross as int >= -(SUM_CAP as int)) by (nonlinear_arith)
                    requires -2 * q <= ryk as int + ryj as int <= 2 * q && -2 * (q * q)
                        <= cross as int <= 2 * (q * q) && q == 0x200_0000_0000 && SUM_CAP as int
                        == 0x2000_0000_0000_0000_0000_0000_0000_0000;
            }
            let t1: i128 = (rxk + rxj) * cross;
            let t2: i128 = (ryk + ryj) * cross;
            let n0 = l0 + cross;
            let n1 = l1 + t1;
            let n2 = l2 + t2;
            proof {
                assert(ring_sums(rv, anchor, k as int + 1).0 == n0 as int && ring_sums(
                    rv,
                    anchor,
                    k as int + 1,
                ).1 == n1 as int && ring_sums(rv, anchor, k as int + 1).2 == n2 as int);
            }
            if n0 > SUM_CAP || n0 < -SUM_CAP || n1 > SUM_CAP || n1 < -SUM_CAP || n2 > SUM_CAP
                || n2 < -SUM_CAP {
                proof {
                    assert(!sums_in_cap(ring_sums(rv, anchor, k as int + 1)));
                    assert(!ring_ok(rv, anchor));
                    assert(!rings_ok(rsv, anchor)) by {
                        if rings_ok(rsv, anchor) {
                            assert(ring_ok(open_ring(rsv[j as int]), anchor));
                        }
                    }
                }
                return Err(ApplyError::Geometry);
            }
            l0 = n0;
            l1 = n1;
            l2 = n2;
            k = k + 1;
        }
        proof {
            assert(ring_ok(rv, anchor));
            assert(rings_sums(rsv, anchor, j as int + 1).0 == rings_sums(rsv, anchor, j as int).0
                + ring_sums(rv, anchor, rv.len() as int).0);
        }
        let h0 = g0 + l0;
        let h1 = g1 + l1;
        let h2 = g2 + l2;
        if h0 > SUM_CAP || h0 < -SUM_CAP || h1 > SUM_CAP || h1 < -SUM_CAP || h2 > SUM_CAP || h2
            < -SUM_CAP {
            proof {
                assert(!sums_in_cap(rings_sums(rsv, anchor, j as int + 1)));
                assert(!rings_ok(rsv, anchor));
            }
            return Err(ApplyError::Geometry);
        }
        g0 = h0;
        g1 = h1;
        g2 = h2;
        j = j + 1;
    }
    proof {
        assert(rings_ok(rsv, anchor));
    }
    if g0 == 0 {
        mean_of(fallback)
    } else {
        weighted_point(anchor, g0, g1, g2, 3)
    }
}


/// Folds a run of lines into the length-weighted centroid.
#[verifier::rlimit(100)]
#[verifier::spinoff_prover]
fn lines_centroid_exec(lines: &Vec<Vec<Point>>, fallback: &Vec<Point>) -> (res: Result<
    Point,
    ApplyError,
>)
    ensures
        match (
            res,
            spec_lines_centroid(lines@.map(|i: int, l: Vec<Point>| l@), fallback@),
        ) {
            (Ok(p), Ok(q)) => p == q,
            (Err(e1), Err(e2)) => e1@ == e2,
            _ => false,
        },
{
    if fallback.len() == 0 {
        return Err(ApplyError::Geometry);
    }
    let anchor = fallback[0];
    let ghost lsv = lines@.map(|i: int, l: Vec<Point>| l@);
    let mut g0: i128 = 0;
    let mut g1: i128 = 0;
    let mut g2: i128 = 0;
    let mut j: usize = 0;
    while j < lines.len()
        invariant
            0 <= j <= lines@.len(),
            lsv == lines@.map(|i: int, l: Vec<Point>| l@),
            lsv.len() == lines@.len(),
            anchor == fallback@.first(),
            fallback@.len() > 0,
            forall|jj: int| 0 <= jj < j ==> line_ok(#[trigger] lsv[jj], anchor),
            forall|jj: int| 0 <= jj <= j ==> sums_in_cap(#[trigger] lines_sums(lsv, anchor, jj)),
            g0 as int == lines_sums(lsv, anchor, j as int).0,
            g1 as int == lines_sums(lsv, anchor, j as int).1,
            g2 as int == lines_sums(lsv, anchor, j as int).2,
        decreases lines@.len() - j,
    {
        let line: &Vec<Point> = &lines[j];
        let m = line.len();
        let ghost rv = lsv[j as int];
        proof {
            assert(rv == line@);
        }
        let mut i: usize = 0;
        while i < m
            invariant
                0 <= i <= m == line@.len(),
                lsv == lines@.map(|i3: int, l: Vec<Point>| l@),
                lsv.len() == lines@.len(),
                0 <= j < lines@.len(),
                line@ == lines@[j as int]@,
                rv == lsv[j as int],
                rv == line@,
                fallback@.len() > 0,
                anchor == fallback@.first(),
                forall|i2: int| 0 <= i2 < i ==> pt_bounded(#[trigger] rv[i2], anchor),
            decreases m - i,
        {
            if rel_of(line[i], anchor).is_none() {
                proof {
                    assert(!pt_bounded(rv[i as int], anchor));
                    assert(!line_ok(rv, anchor));
                    assert(!lines_ok(lsv, anchor)) by {
                        if lines_ok(lsv, anchor) {
                            assert(line_ok(lsv[j as int], anchor));
                        }
                    }
                }
                return Err(ApplyError::Geometry);
            }
            i = i + 1;
        }
        let segs: usize = if m == 0 {
            0
        } else {
            m - 1
        };
        let mut l0: i128 = 0;
        let mut l1: i128 = 0;
        let mut l2: i128 = 0;
        let mut k: usize = 0;
        while k < segs
            invariant
                0 <= k <= segs,
                segs as int == seg_count(rv),
                lsv == lines@.map(|i3: int, l: Vec<Point>| l@),
                lsv.len() == lines@.len(),
                0 <= j < lines@.len(),
                line@ == lines@[j as int]@,
                rv == lsv[j as int],
                rv == line@,
                m == line@.len(),
                fallback@.len() > 0,
                anchor == fallback@.first(),
                forall|i2: int| 0 <= i2 < m ==> pt_bounded(#[trigger] rv[i2], anchor),
                forall|kk: int| 0 <= kk <= k ==> sums_in_cap(#[trigger] line_sums(rv, anchor, kk)),
                l0 as int == line_sums(rv, anchor, k as int).0,
                l1 as int == line_sums(rv, anchor, k as int).1,
                l2 as int == line_sums(rv, anchor, k as int).2,
            decreases segs - k,
        {
            proof {
                assert(pt_bounded(line@[k as int], anchor));
                assert(pt_bounded(line@[k as int + 1], anchor));
            }
            let a = rel_of(line[k], anchor).unwrap();
            let b = rel_of(line[k + 1], anchor).unwrap();
            let (rxk, ryk) = a;
            let (rxj, ryj) = b;
            let dx = rxj - rxk;
            let dy = ryj - ryk;
            proof {
                let q = COORD_SPAN_CAP as int;
                assert(dx as int * dx as int <= 4 * (q * q) && dx as int * dx as int >= 0)
                    by (nonlinear_arith)
                    requires -2 * q <= dx as int <= 2 * q && q > 0;
                assert(dy as int * dy as int <= 4 * (q * q) && dy as int * dy as int >= 0)
                    by (nonlinear_arith)
                    requires -2 * q <= dy as int <= 2 * q && q > 0;
            }
            let len2: i128 = dx * dx + dy * dy;
            let lw: u128 = isqrt_exec(len2 as u128);
            proof {
                lemma_isqrt(len2 as int);
                let q = COORD_SPAN_CAP as int;
                assert(lw as int <= 0x800_0000_0000) by (nonlinear_arith)
                    requires lw as int * lw as int <= 8 * (q * q) && q == 0x200_0000_0000
                        && lw as int >= 0;
                assert((rxk as int + rxj as int) * lw as int <= SUM_CAP as int && (rxk as int
                    + rxj as int) * lw as int >= -(SUM_CAP as int)) by (nonlinear_arith)
                    requires -2 * q <= rxk as int + rxj as int <= 2 * q && 0 <= lw as int
                        <= 0x800_0000_0000 && q == 0x200_0000_0000 && SUM_CAP as int
                        == 0x2000_0000_0000_0000_0000_0000_0000_0000;
                assert((ryk as int + ryj as int) * lw as int <= SUM_CAP as int && (ryk as int
                    + ryj as int) * lw as int >= -(SUM_CAP as int)) by (nonlinear_arith)
                    requires -2 * q <= ryk as int + ryj as int <= 2 * q && 0 <= lw as int
                        <= 0x800_0000_0000 && q == 0x200_0000_0000 && SUM_CAP as int
                        == 0x2000_0000_0000_0000_0000_0000_0000_0000;
            }
            let lwi = lw as i128;
            let t1: i128 = (rxk + rxj) * lwi;
            let t2: i128 = (ryk + ryj) * lwi;
            let n0 = l0 + lwi;
            let n1 = l1 + t1;
            let n2 = l2 + t2;
            proof {
                assert(seg_len2(rv[k as int], rv[k as int + 1]) == len2 as int);
                assert(line_sums(rv, anchor, k as int + 1).0 == n0 as int && line_sums(
                    rv,
                    anchor,
                    k as int + 1,
                ).1 == n1 as int && line_sums(rv, anchor, k as int + 1).2 == n2 as int);
            }
            if n0 > SUM_CAP || n0 < -SUM_CAP || n1 > SUM_CAP || n1 < -SUM_CAP || n2 > SUM_CAP
                || n2 < -SUM_CAP {
                proof {
                    assert(!sums_in_cap(line_sums(rv, anchor, k as int + 1)));
                    assert(!line_ok(rv, anchor));
                    assert(!lines_ok(lsv, anchor)) by {
                        if lines_ok(lsv, anchor) {
                            assert(line_ok(lsv[j as int], anchor));
                        }
                    }
                }
                return Err(ApplyError::Geometry);
            }
            l0 = n0;
            l1 = n1;
            l2 = n2;
            k = k + 1;
        }
        proof {
            assert(line_ok(rv, anchor));
            assert(lines_sums(lsv, anchor, j as int + 1).0 == lines_sums(lsv, anchor, j as int).0
                + line_sums(rv, anchor, seg_count(rv)).0);
        }
        let h0 = g0 + l0;
        let h1 = g1 + l1;
        let h2 = g2 + l2;
        if h0 > SUM_CAP || h0 < -SUM_CAP || h1 > SUM_CAP || h1 < -SUM_CAP || h2 > SUM_CAP || h2
            < -SUM_CAP {
            proof {
                assert(!sums_in_cap(lines_sums(lsv, anchor, j as int + 1)));
                assert(!lines_ok(lsv, anchor));
            }
            return Err(ApplyError::Geometry);
        }
        g0 = h0;
        g1 = h1;
        g2 = h2;
        j = j + 1;
    }
    proof {
        assert(lines_ok(lsv, anchor));
    }
    if g0 == 0 {
        mean_of(fallback)
    } else {
        weighted_point(anchor, g0, g1, g2, 2)
    }
}

/// The centroid of a geometry, the anchor point of marker and text
/// commands: the algebraic centroid per geometry kind, per
/// `spec_centroid`.
pub fn centroid(geom: &Geometry) -> (r: Result<Point, ApplyError>)
    ensures
        match (r, spec_centroid(geom@)) {
            (Ok(p), Ok(q)) => p == q,
            (Err(e1), Err(e2)) => e1@ == e2,
            _ => false,
        },
{
    match geom {
        Geometry::Point(p) => Ok(*p),
        Geometry::MultiPoint(ps) => mean_of(ps),
        Geometry::LineString(ps) => {
            let fb = collect_anchor_points(geom);
            let mut one: Vec<Vec<Point>> = Vec::new();
            one.push(copy_points(ps));
            proof {
                assert(one@.map(|i: int, l: Vec<Point>| l@) =~= seq![ps@]);
            }
            lines_centroid_exec(&one, &fb)
        },
        Geometry::MultiLineString(ls) => {
            let fb = collect_anchor_points(geom);
            lines_centroid_exec(ls, &fb)
        },
        Geometry::Polygon(rs) => {
            let fb = collect_anchor_points(geom);
            if fb.len() == 0 {
                return Err(ApplyError::Geometry);
            }
            let mut outers: Vec<Vec<Point>> = Vec::new();
            if rs.len() > 0 {
                outers.push(copy_points(&rs[0]));
            }
            proof {
                assert(rs@.len() > 0);
                assert(outers@.map(|i: int, r: Vec<Point>| r@) =~= outer_rings(geom@));
            }
            rings_centroid_exec(&outers, fb[0], &fb)
        },
        Geometry::MultiPolygon(ps) => {
            let fb = collect_anchor_points(geom);
            if fb.len() == 0 {
                return Err(ApplyError::Geometry);
            }
            let mut outers: Vec<Vec<Point>> = Vec::new();
            let mut k: usize = 0;
            while k < ps.len()
                invariant
                    0 <= k <= ps@.len(),
                    outers@.len() == k,
                    forall|i: int|
                        0 <= i < k ==> (#[trigger] outers@[i])@ == (if ps@[i]@.len() > 0 {
                            ps@[i]@[0]@
                        } else {
                            Seq::<Point>::empty()
                        }),
                decreases ps@.len() - k,
            {
                if ps[k].len() > 0 {
                    outers.push(copy_points(&ps[k][0]));
                } else {
                    outers.push(Vec::new());
                }
                k = k + 1;
            }
            proof {
                assert(outers@.map(|i: int, r: Vec<Point>| r@) =~= outer_rings(geom@));
            }
            rings_centroid_exec(&outers, fb[0], &fb)
        },
    }
}

/// Gathers the anchor points of a geometry.
fn collect_anchor_points(geom: &Geometry) -> (r: Vec<Point>)
    ensures
        r@ == anchor_points(geom@),
{
    match geom {
        Geometry::Point(p) => {
            let mut v: Vec<Point> = Vec::new();
            v.push(*p);
            proof {
                assert(v@ =~= seq![*p]);
            }
            v
        },
        Geometry::MultiPoint(ps) => copy_points(ps),
        Geometry::LineString(ps) => copy_points(ps),
        Geometry::MultiLineString(ls) => {
            let mut v: Vec<Point> = Vec::new();
            let mut k: usize = 0;
            let ghost lsv = ls@.map(|i: int, l: Vec<Point>| l@);
            proof {
                lemma_flatten_points_take(lsv, 0);
                assert(v@ =~= flatten_points(lsv.subrange(0, 0)));
            }
            while k < ls.len()
                invariant
                    0 <= k <= ls@.len(),
                    lsv == ls@.map(|i: int, l: Vec<Point>| l@),
                    lsv.len() == ls@.len(),
                    v@ == flatten_points(lsv.subrange(0, k as int)),
                decreases ls@.len() - k,
            {
                let mut part = copy_points(&ls[k]);
                proof {
                    assert(lsv[k as int] == ls@[k as int]@);
                    lemma_flatten_points_snoc(lsv, k as int);
                }
                let ghost before = v@;
                v.append(&mut part);
                proof {
                    assert(v@ =~= flatten_points(lsv.subrange(0, k as int + 1)));
                }
                k = k + 1;
            }
            proof {
                assert(lsv.subrange(0, lsv.len() as int) =~= lsv);
            }
            v
        },
        Geometry::Polygon(rs) => {
            if rs.len() > 0 {
                let r0 = copy_points(&rs[0]);
                proof {
                    assert(rs@.map(|i: int, r: Vec<Point>| r@).first() == rs@[0]@);
                }
                r0
            } else {
                let v: Vec<Point> = Vec::new();
                proof {
                    assert(v@ =~= Seq::<Point>::empty());
                }
                v
            }
        },
        Geometry::MultiPolygon(ps) => {
            let mut v: Vec<Point> = Vec::new();
            let mut k: usize = 0;
            let ghost psv = ps@.map(
                |i: int, p: Vec<Vec<Point>>| p@.map(|j: int, r: Vec<Point>| r@),
            );
            let ghost outers = psv.map(
                |i: int, rings: Seq<Seq<Point>>|
                    if rings.len() > 0 {
                        rings.first()
                    } else {
                        Seq::<Point>::empty()
                    },
            );
            proof {
                lemma_flatten_points_take(outers, 0);
                assert(v@ =~= flatten_points(outers.subrange(0, 0)));
            }
            while k < ps.len()
                invariant
                    0 <= k <= ps@.len(),
                    psv == ps@.map(
                        |i: int, p: Vec<Vec<Point>>| p@.map(|j: int, r: Vec<Point>| r@),
                    ),
                    outers == psv.map(
                        |i: int, rings: Seq<Seq<Point>>|
                            if rings.len() > 0 {
                                rings.first()
                            } else {
                                Seq::<Point>::empty()
                            },
                    ),
                    outers.len() == ps@.len(),
                    psv.len() == ps@.len(),
                    v@ == flatten_points(outers.subrange(0, k as int)),
                decreases ps@.len() - k,
            {
                let mut part: Vec<Point> = if ps[k].len() > 0 {
                    copy_points(&ps[k][0])
                } else {
                    Vec::new()
                };
                proof {
                    assert(psv[k as int] == ps@[k as int]@.map(|j: int, r: Vec<Point>| r@));
                    if ps@[k as int]@.len() > 0 {
                        assert(psv[k as int].first() == ps@[k as int]@[0]@);
                    }
                    assert(part@ == outers[k as int]);
                    lemma_flatten_points_snoc(outers, k as int);
                }
                let ghost before = v@;
                v.append(&mut part);
                proof {
                    assert(v@ =~= flatten_points(outers.subrange(0, k as int + 1)));
                }
                k = k + 1;
            }
            proof {
                assert(outers.subrange(0, outers.len() as int) =~= outers);
            }
            v
        },
    }
}

/// Flattening a prefix extended by one list appends that list.
proof fn lemma_flatten_points_snoc(ls: Seq<Seq<Point>>, k: int)
    requires
        0 <= k < ls.len(),
    ensures
        flatten_points(ls.subrange(0, k + 1)) == flatten_points(ls.subrange(0, k)) + ls[k],
    decreases k,
{
    if k == 0 {
        assert(ls.subrange(0, 1).first() == ls[0]);
        assert(ls.subrange(0, 1).drop_first() =~= Seq::<Seq<Point>>::empty());
        assert(flatten_points(ls.subrange(0, 0)) =~= Seq::<Point>::empty());
        assert(flatten_points(Seq::<Seq<Point>>::empty()) =~= Seq::<Point>::empty());
        assert(ls[0] + Seq::<Point>::empty() =~= ls[0]);
        assert(flatten_points(ls.subrange(0, 1)) =~= ls[0]);
        assert(flatten_points(ls.subrange(0, 0)) + ls[0] =~= ls[0]);
    } else {
        lemma_flatten_points_snoc(ls.drop_first(), k - 1);
        assert(ls.subrange(0, k + 1).first() == ls[0]);
        assert(ls.subrange(0, k + 1).drop_first() =~= ls.drop_first().subrange(0, k));
        assert(ls.subrange(0, k).first() == ls[0]);
        assert(ls.subrange(0, k).drop_first() =~= ls.drop_first().subrange(0, k - 1));
        assert(ls.drop_first()[k - 1] == ls[k]);
        assert(ls[0] + (flatten_points(ls.drop_first().subrange(0, k - 1)) + ls[k]) =~= (ls[0]
            + flatten_points(ls.drop_first().subrange(0, k - 1))) + ls[k]);
    }
}

/// Flattening nothing yields nothing.
proof fn lemma_flatten_points_take(ls: Seq<Seq<Point>>, k: int)
    ensures
        flatten_points(ls.subrange(0, 0)) == Seq::<Point>::empty(),
{
    assert(ls.subrange(0, 0) =~= Seq::<Seq<Point>>::empty());
}

/// Copies a point run.
fn copy_points(ps: &Vec<Point>) -> (r: Vec<Point>)
    ensures
        r@ == ps@,
{
    let mut v: Vec<Point> = Vec::new();
    let mut k: usize = 0;
    proof {
        assert(v@ =~= ps@.subrange(0, 0));
    }
    while k < ps.len()
        invariant
            0 <= k <= ps@.len(),
            v@ == ps@.subrange(0, k as int),
        decreases ps@.len() - k,
    {
        v.push(ps[k]);
        proof {
            assert(ps@.subrange(0, k as int + 1) =~= ps@.subrange(0, k as int).push(
                ps@[k as int],
            ));
        }
        k = k + 1;
    }
    proof {
        assert(ps@.subrange(0, ps@.len() as int) =~= ps@);
    }
    v
}

} // verus!
