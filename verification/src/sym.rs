//! The symbology executor: for each feature that satisfies a rule's
//! predicate, runs the rule's commands in order, each appending drawing
//! operations, and concatenates every feature's contribution.
//!
//! Trigonometry cannot be computed here, so circle sampling reads unit
//! vectors, one per whole degree, from a caller-supplied table; sample
//! angles are rounded down to whole degrees.
use vstd::prelude::*;

use crate::ast::{Command, CommandV, PredGroupV, Predicate, PredGroup, PredicateV, SymV, Sym, view_command, view_commands, view_value, ValueV};
use crate::error::{ApplyError, ApplyErrorV};
use crate::geom::{centroid, div_trunc, spec_centroid, Geometry, GeometryV, Point};
use crate::num::{lit_cmp, lit_cmp_spec, lit_eq, lit_eq_spec, Cmp};
use crate::op::{Op, OpV, view_ops};
use crate::resolve::{
    resolve, resolve_micro, resolve_text, spec_resolve, spec_resolve_micro, spec_resolve_text,
};
use crate::source::{Feature, FeatureV};

verus! {

/// Unit vectors around the circle, one per whole degree from 0 to 360
/// inclusive, in millionths.
#[derive(Debug)]
pub struct CircleTable {
    pub cos_micro: Vec<i64>,
    pub sin_micro: Vec<i64>,
}

impl CircleTable {
    /// Well-formed: one entry per degree, each within the unit range.
    pub open spec fn wf(&self) -> bool {
        self.cos_micro@.len() == 361 && self.sin_micro@.len() == 361 && (forall|i: int|
            0 <= i < 361 ==> -1_000_000 <= #[trigger] self.cos_micro@[i] <= 1_000_000) && (
        forall|i: int| 0 <= i < 361 ==> -1_000_000 <= #[trigger] self.sin_micro@[i] <= 1_000_000)
    }
}

/// The absolute value.
pub open spec fn abs_of(v: int) -> int {
    if v >= 0 {
        v
    } else {
        -v
    }
}

/// Whether every point within `spread` of the centre stays in
/// coordinate range.
pub open spec fn in_coord_range(c: Point, spread: int) -> bool {
    c.x - spread >= i64::MIN && c.x + spread <= i64::MAX && c.y - spread >= i64::MIN && c.y
        + spread <= i64::MAX
}

/// How many line samples a circle of the given radius gets: ten per
/// unit of radius, rounded down, at most 360, none for a radius that is
/// not positive.
pub open spec fn circle_steps(r_micro: int) -> int {
    if r_micro <= 0 {
        0
    } else if r_micro / 100_000 > 360 {
        360
    } else {
        r_micro / 100_000
    }
}

/// The sample point at the given unit vector: the centre plus the
/// radius scaled by the vector, truncating towards zero.
pub open spec fn circle_pt(c: Point, r: int, cosv: int, sinv: int) -> Point {
    Point {
        x: (c.x + div_trunc(r * cosv, 1_000_000)) as i64,
        y: (c.y + div_trunc(r * sinv, 1_000_000)) as i64,
    }
}

/// The line samples of a circle, angles descending from the full turn:
/// sample `k` of `n` sits at `(k * 360) / n` whole degrees.
pub open spec fn circle_lines(
    c: Point,
    r: int,
    k: int,
    n: int,
    cos: Seq<i64>,
    sin: Seq<i64>,
) -> Seq<OpV>
    decreases k,
{
    if k <= 0 || n <= 0 {
        Seq::empty()
    } else {
        let a = (k * 360) / n;
        seq![OpV::Line(circle_pt(c, r, cos[a] as int, sin[a] as int))] + circle_lines(c, r, k - 1, n, cos, sin)
    }
}

/// The operations of a circle of the given radius at the given centre:
/// a path start, a move to the rightmost point, the line samples, and a
/// close.  A circle that would leave the coordinate range is a geometry
/// failure.
pub open spec fn spec_circle_ops(c: Point, r: i64, cos: Seq<i64>, sin: Seq<i64>) -> Result<
    Seq<OpV>,
    ApplyErrorV,
> {
    if !in_coord_range(c, abs_of(r as int)) {
        Err(ApplyErrorV::Geometry)
    } else {
        let n = circle_steps(r as int);
        Ok(
            seq![OpV::Start, OpV::Move(Point { x: (c.x + r) as i64, y: c.y })] + circle_lines(
                c,
                r as int,
                n,
                n,
                cos,
                sin,
            ) + seq![OpV::Close],
        )
    }
}

/// A scaled unit component stays within the radius.
proof fn lemma_scale_bound(r: int, cv: int)
    requires
        r >= 0,
        -1_000_000 <= cv <= 1_000_000,
    ensures
        -r <= div_trunc(r * cv, 1_000_000) <= r,
{
    if cv >= 0 {
        assert(r * cv >= 0) by (nonlinear_arith)
            requires r >= 0 && cv >= 0;
        assert(r * cv <= r * 1_000_000) by (nonlinear_arith)
            requires r >= 0 && cv <= 1_000_000;
        vstd::arithmetic::div_mod::lemma_div_is_ordered(r * cv, r * 1_000_000, 1_000_000);
        vstd::arithmetic::div_mod::lemma_div_multiples_vanish(r, 1_000_000);
        vstd::arithmetic::div_mod::lemma_div_pos_is_pos(r * cv, 1_000_000);
    } else {
        assert(r * cv == -(r * (-cv))) by (nonlinear_arith);
        assert(r * (-cv) >= 0) by (nonlinear_arith)
            requires r >= 0 && cv < 0;
        assert(r * (-cv) <= r * 1_000_000) by (nonlinear_arith)
            requires r >= 0 && 0 - cv <= 1_000_000;
        vstd::arithmetic::div_mod::lemma_div_is_ordered(r * (-cv), r * 1_000_000, 1_000_000);
        vstd::arithmetic::div_mod::lemma_div_multiples_vanish(r, 1_000_000);
        vstd::arithmetic::div_mod::lemma_div_pos_is_pos(r * (-cv), 1_000_000);
    }
}

/// The sample angle of sample `k` of `n` is a whole degree of the
/// table's range.
proof fn lemma_angle_range(k: int, n: int)
    requires
        1 <= k <= n,
        n >= 1,
    ensures
        0 <= (k * 360) / n <= 360,
{
    assert(k * 360 >= 0) by (nonlinear_arith)
        requires k >= 0;
    assert(k * 360 <= n * 360) by (nonlinear_arith)
        requires k <= n;
    vstd::arithmetic::div_mod::lemma_div_is_ordered(k * 360, n * 360, n);
    vstd::arithmetic::div_mod::lemma_div_multiples_vanish(360, n);
    vstd::arithmetic::div_mod::lemma_div_pos_is_pos(k * 360, n);
}

/// How many samples `circle_lines` holds, and what each one is.
pub proof fn lemma_circle_lines_shape(
    c: Point,
    r: int,
    k: int,
    n: int,
    cos: Seq<i64>,
    sin: Seq<i64>,
)
    requires
        k <= n,
    ensures
        circle_lines(c, r, k, n, cos, sin).len() == if k <= 0 || n <= 0 {
            0int
        } else {
            k
        },
        forall|j: int|
            0 <= j < circle_lines(c, r, k, n, cos, sin).len()
                ==> (#[trigger] circle_lines(c, r, k, n, cos, sin)[j]) matches OpV::Line(_),
    decreases k,
{
    if k > 0 && n > 0 {
        lemma_circle_lines_shape(c, r, k - 1, n, cos, sin);
        let a = (k * 360) / n;
        let whole = circle_lines(c, r, k, n, cos, sin);
        let rest = circle_lines(c, r, k - 1, n, cos, sin);
        assert forall|j: int| 0 <= j < whole.len() implies (#[trigger] whole[j]) matches
            OpV::Line(_) by {
            if j > 0 {
                assert(whole[j] == rest[j - 1]);
            }
        }
    }
}

/// Sample `j` of `circle_lines` sits at the angle of sample `k - j`.
proof fn lemma_circle_lines_index(
    c: Point,
    r: int,
    k: int,
    n: int,
    cos: Seq<i64>,
    sin: Seq<i64>,
    j: int,
)
    requires
        0 < n,
        0 <= j < k,
        k <= n,
    ensures
        circle_lines(c, r, k, n, cos, sin).len() == k,
        circle_lines(c, r, k, n, cos, sin)[j] == OpV::Line(
            circle_pt(
                c,
                r,
                cos[((k - j) * 360) / n] as int,
                sin[((k - j) * 360) / n] as int,
            ),
        ),
    decreases j,
{
    lemma_circle_lines_shape(c, r, k, n, cos, sin);
    if j == 0 {
    } else {
        lemma_circle_lines_index(c, r, k - 1, n, cos, sin, j - 1);
        assert(circle_lines(c, r, k, n, cos, sin)[j] == circle_lines(c, r, k - 1, n, cos, sin)[j
            - 1]);
    }
}

/// Scales the radius by one unit-vector component, truncating towards
/// zero.
fn scale_unit(r: i64, comp: i64) -> (d: i128)
    requires
        r >= 0,
        -1_000_000 <= comp <= 1_000_000,
    ensures
        d as int == div_trunc(r as int * comp as int, 1_000_000),
        -(r as int) <= d as int <= r as int,
{
    proof {
        lemma_scale_bound(r as int, comp as int);
    }
    let prod: i128 = (r as i128) * (comp as i128);
    if prod >= 0 {
        let q: u128 = (prod as u128) / 1_000_000u128;
        q as i128
    } else {
        let q: u128 = ((0 - prod) as u128) / 1_000_000u128;
        0 - (q as i128)
    }
}

/// Builds the operations of a circle.
#[verifier::rlimit(100)]
#[verifier::spinoff_prover]
pub fn circle_ops(c: Point, r: i64, t: &CircleTable) -> (res: Result<Vec<Op>, ApplyError>)
    requires
        t.wf(),
    ensures
        match (res, spec_circle_ops(c, r, t.cos_micro@, t.sin_micro@)) {
            (Ok(a), Ok(b)) => view_ops(a@) == b,
            (Err(e1), Err(e2)) => e1@ == e2,
            _ => false,
        },
{
    let spread: i128 = if r >= 0 {
        r as i128
    } else {
        -(r as i128)
    };
    if !((c.x as i128) - spread >= i64::MIN as i128 && (c.x as i128) + spread <= i64::MAX as i128
        && (c.y as i128) - spread >= i64::MIN as i128 && (c.y as i128) + spread
        <= i64::MAX as i128) {
        return Err(ApplyError::Geometry);
    }
    let n: u64 = if r <= 0 {
        0
    } else {
        let q: u64 = (r as u64) / 100_000u64;
        if q > 360 {
            360
        } else {
            q
        }
    };
    let mut ops: Vec<Op> = Vec::new();
    ops.push(Op::Start);
    ops.push(Op::Move(Point { x: c.x + r, y: c.y }));
    let ghost lines = circle_lines(c, r as int, n as int, n as int, t.cos_micro@, t.sin_micro@);
    let ghost head: Seq<OpV> = seq![
        OpV::Start,
        OpV::Move(Point { x: (c.x + r) as i64, y: c.y }),
    ];
    proof {
        lemma_circle_lines_shape(c, r as int, n as int, n as int, t.cos_micro@, t.sin_micro@);
        assert(lines.subrange(0, 0) =~= Seq::<OpV>::empty());
        assert(view_ops(ops@) =~= head + lines.subrange(0, 0));
    }
    let mut k: u64 = n;
    while k >= 1
        invariant
            t.wf(),
            0 <= k <= n,
            n as int == circle_steps(r as int),
            n <= 360,
            n >= 1 ==> r as int > 0,
            in_coord_range(c, abs_of(r as int)),
            lines == circle_lines(c, r as int, n as int, n as int, t.cos_micro@, t.sin_micro@),
            lines.len() == n,
            head == seq![OpV::Start, OpV::Move(Point { x: (c.x + r) as i64, y: c.y })],
            view_ops(ops@) == head + lines.subrange(0, n - k),
        decreases k,
    {
        proof {
            lemma_angle_range(k as int, n as int);
            vstd::arithmetic::div_mod::lemma_div_pos_is_pos(k as int * 360, n as int);
        }
        let a: usize = (((k * 360) / n)) as usize;
        let dx: i128 = scale_unit(r, t.cos_micro[a]);
        let dy: i128 = scale_unit(r, t.sin_micro[a]);
        let px: i64 = ((c.x as i128) + dx) as i64;
        let py: i64 = ((c.y as i128) + dy) as i64;
        let ghost before = ops@;
        ops.push(Op::Line(Point { x: px, y: py }));
        proof {
            lemma_circle_lines_index(
                c,
                r as int,
                n as int,
                n as int,
                t.cos_micro@,
                t.sin_micro@,
                n - k,
            );
            assert((((n - (n - k)) * 360) / (n as int)) == (k as int * 360) / (n as int));
            assert(lines[n - k] == OpV::Line(
                circle_pt(
                    c,
                    r as int,
                    t.cos_micro@[a as int] as int,
                    t.sin_micro@[a as int] as int,
                ),
            ));
            assert(Point { x: px, y: py } == circle_pt(
                c,
                r as int,
                t.cos_micro@[a as int] as int,
                t.sin_micro@[a as int] as int,
            ));
            assert(view_ops(ops@) =~= view_ops(before).push(lines[n - k]));
            assert(lines.subrange(0, n - k + 1) =~= lines.subrange(0, n - k).push(
                lines[n - k],
            ));
            assert(head + lines.subrange(0, n - k + 1) =~= (head + lines.subrange(0, n - k)).push(
                lines[n - k],
            ));
        }
        k = k - 1;
    }
    let ghost before_close = ops@;
    ops.push(Op::Close);
    proof {
        assert(lines.subrange(0, n as int) =~= lines);
        assert(view_ops(ops@) =~= view_ops(before_close).push(OpV::Close));
        assert((head + lines) + seq![OpV::Close] =~= (head + lines).push(OpV::Close));
    }
    Ok(ops)
}


/// The operations of a square of the given side at the given centre:
/// the four corners as a move and three lines, then a close.  A square
/// that would leave the coordinate range is a geometry failure.
pub open spec fn spec_square_ops(c: Point, size: i64) -> Result<Seq<OpV>, ApplyErrorV> {
    let h = div_trunc(size as int, 2);
    if !in_coord_range(c, abs_of(h)) {
        Err(ApplyErrorV::Geometry)
    } else {
        Ok(
            seq![
                OpV::Move(Point { x: (c.x - h) as i64, y: (c.y - h) as i64 }),
                OpV::Line(Point { x: (c.x - h) as i64, y: (c.y + h) as i64 }),
                OpV::Line(Point { x: (c.x + h) as i64, y: (c.y + h) as i64 }),
                OpV::Line(Point { x: (c.x + h) as i64, y: (c.y - h) as i64 }),
                OpV::Close,
            ],
        )
    }
}

/// Builds the operations of a square.
pub fn square_ops(c: Point, size: i64) -> (res: Result<Vec<Op>, ApplyError>)
    ensures
        match (res, spec_square_ops(c, size)) {
            (Ok(a), Ok(b)) => view_ops(a@) == b,
            (Err(e1), Err(e2)) => e1@ == e2,
            _ => false,
        },
{
    let h: i128 = if size >= 0 {
        ((size as u64) / 2) as i128
    } else {
        0 - ((((0 - (size as i128)) as u128) / 2) as i128)
    };
    let spread: i128 = if h >= 0 {
        h
    } else {
        0 - h
    };
    if !((c.x as i128) - spread >= i64::MIN as i128 && (c.x as i128) + spread <= i64::MAX as i128
        && (c.y as i128) - spread >= i64::MIN as i128 && (c.y as i128) + spread
        <= i64::MAX as i128) {
        return Err(ApplyError::Geometry);
    }
    let xm: i64 = ((c.x as i128) - h) as i64;
    let xp: i64 = ((c.x as i128) + h) as i64;
    let ym: i64 = ((c.y as i128) - h) as i64;
    let yp: i64 = ((c.y as i128) + h) as i64;
    let mut ops: Vec<Op> = Vec::new();
    ops.push(Op::Move(Point { x: xm, y: ym }));
    ops.push(Op::Line(Point { x: xm, y: yp }));
    ops.push(Op::Line(Point { x: xp, y: yp }));
    ops.push(Op::Line(Point { x: xp, y: ym }));
    ops.push(Op::Close);
    proof {
        assert(view_ops(ops@) =~= spec_square_ops(c, size)->Ok_0);
    }
    Ok(ops)
}

/// A marker shape: the two marker kinds the language draws.
#[derive(Debug, Clone, Copy, PartialEq, Eq, Structural)]
pub enum Shape {
    Square,
    Circle,
}

impl Shape {
    /// Draws this shape at a centre with the given size: a circle's
    /// size is its radius, a square's its side.
    pub fn draw(&self, center: Point, size: i64, t: &CircleTable) -> (res: Result<
        Vec<Op>,
        ApplyError,
    >)
        requires
            t.wf(),
        ensures
            *self is Square ==> match (res, spec_square_ops(center, size)) {
                (Ok(a), Ok(b)) => view_ops(a@) == b,
                (Err(e1), Err(e2)) => e1@ == e2,
                _ => false,
            },
            *self is Circle ==> match (
                res,
                spec_circle_ops(center, size, t.cos_micro@, t.sin_micro@),
            ) {
                (Ok(a), Ok(b)) => view_ops(a@) == b,
                (Err(e1), Err(e2)) => e1@ == e2,
                _ => false,
            },
    {
        match self {
            Shape::Square => self.draw_square(center, size),
            Shape::Circle => self.draw_circle(center, size, t),
        }
    }

    /// Draws a square marker.
    pub fn draw_square(&self, center: Point, size: i64) -> (res: Result<Vec<Op>, ApplyError>)
        ensures
            match (res, spec_square_ops(center, size)) {
                (Ok(a), Ok(b)) => view_ops(a@) == b,
                (Err(e1), Err(e2)) => e1@ == e2,
                _ => false,
            },
    {
        square_ops(center, size)
    }

    /// Draws a circle marker.
    pub fn draw_circle(&self, center: Point, size: i64, t: &CircleTable) -> (res: Result<
        Vec<Op>,
        ApplyError,
    >)
        requires
            t.wf(),
        ensures
            match (res, spec_circle_ops(center, size, t.cos_micro@, t.sin_micro@)) {
                (Ok(a), Ok(b)) => view_ops(a@) == b,
                (Err(e1), Err(e2)) => e1@ == e2,
                _ => false,
            },
    {
        circle_ops(center, size, t)
    }
}

/// The path of a point run: a move to its first point, a line to each
/// further one.
pub open spec fn path_ops(ps: Seq<Point>) -> Seq<OpV> {
    if ps.len() == 0 {
        Seq::empty()
    } else {
        seq![OpV::Move(ps.first())] + ps.drop_first().map(|i: int, p: Point| OpV::Line(p))
    }
}

/// The path of a ring: its path, closed.
pub open spec fn ring_ops(ps: Seq<Point>) -> Seq<OpV> {
    if ps.len() == 0 {
        Seq::empty()
    } else {
        path_ops(ps) + seq![OpV::Close]
    }
}

/// All operations of a run of operation lists, in order.
pub open spec fn flatten_op_lists(s: Seq<Seq<OpV>>) -> Seq<OpV>
    decreases s.len(),
{
    if s.len() == 0 {
        Seq::empty()
    } else {
        s.first() + flatten_op_lists(s.drop_first())
    }
}

/// Flattening a prefix extended by one list appends that list.
pub proof fn lemma_flatten_op_snoc(s: Seq<Seq<OpV>>, k: int)
    requires
        0 <= k < s.len(),
    ensures
        flatten_op_lists(s.subrange(0, k + 1)) == flatten_op_lists(s.subrange(0, k)) + s[k],
    decreases k,
{
    if k == 0 {
        assert(s.subrange(0, 1).first() == s[0]);
        assert(s.subrange(0, 1).drop_first() =~= Seq::<Seq<OpV>>::empty());
        assert(flatten_op_lists(s.subrange(0, 0)) =~= Seq::<OpV>::empty());
        assert(flatten_op_lists(Seq::<Seq<OpV>>::empty()) =~= Seq::<OpV>::empty());
        assert(s[0] + Seq::<OpV>::empty() =~= s[0]);
        assert(flatten_op_lists(s.subrange(0, 1)) =~= s[0]);
        assert(flatten_op_lists(s.subrange(0, 0)) + s[0] =~= s[0]);
    } else {
        lemma_flatten_op_snoc(s.drop_first(), k - 1);
        assert(s.subrange(0, k + 1).first() == s[0]);
        assert(s.subrange(0, k + 1).drop_first() =~= s.drop_first().subrange(0, k));
        assert(s.subrange(0, k).first() == s[0]);
        assert(s.subrange(0, k).drop_first() =~= s.drop_first().subrange(0, k - 1));
        assert(s.drop_first()[k - 1] == s[k]);
        assert(s[0] + (flatten_op_lists(s.drop_first().subrange(0, k - 1)) + s[k]) =~= (s[0]
            + flatten_op_lists(s.drop_first().subrange(0, k - 1))) + s[k]);
    }
}

/// What tracing a geometry draws: moves and lines along each part,
/// rings closed.
pub open spec fn spec_trace(g: GeometryV) -> Seq<OpV> {
    match g {
        GeometryV::Point(p) => seq![OpV::Move(p)],
        GeometryV::MultiPoint(ps) => ps.map(|i: int, p: Point| OpV::Move(p)),
        GeometryV::LineString(ps) => path_ops(ps),
        GeometryV::MultiLineString(ls) => flatten_op_lists(ls.map(|i: int, l: Seq<Point>| path_ops(l))),
        GeometryV::Polygon(rs) => flatten_op_lists(rs.map(|i: int, r: Seq<Point>| ring_ops(r))),
        GeometryV::MultiPolygon(ps) => flatten_op_lists(
            ps.map(
                |i: int, rings: Seq<Seq<Point>>|
                    flatten_op_lists(rings.map(|j: int, r: Seq<Point>| ring_ops(r))),
            ),
        ),
    }
}

/// Emits the path of one point run into `out`.
fn push_path_ops(out: &mut Vec<Op>, ps: &Vec<Point>)
    ensures
        view_ops(final(out)@) == view_ops(old(out)@) + path_ops(ps@),
{
    if ps.len() == 0 {
        proof {
            assert(view_ops(out@) =~= view_ops(out@) + path_ops(ps@));
        }
        return ;
    }
    let ghost base = view_ops(out@);
    out.push(Op::Move(ps[0]));
    proof {
        assert(view_ops(out@) =~= base.push(OpV::Move(ps@[0])));
    }
    let mut k: usize = 1;
    while k < ps.len()
        invariant
            1 <= k <= ps@.len(),
            ps@.len() > 0,
            view_ops(out@) == base + seq![OpV::Move(ps@.first())] + ps@.subrange(1, k as int).map(
                |i: int, p: Point| OpV::Line(p),
            ),
        decreases ps@.len() - k,
    {
        let ghost before = view_ops(out@);
        out.push(Op::Line(ps[k]));
        proof {
            assert(view_ops(out@) =~= before.push(OpV::Line(ps@[k as int])));
            assert(ps@.subrange(1, k as int + 1) =~= ps@.subrange(1, k as int).push(
                ps@[k as int],
            ));
            assert(ps@.subrange(1, k as int + 1).map(|i: int, p: Point| OpV::Line(p))
                =~= ps@.subrange(1, k as int).map(|i: int, p: Point| OpV::Line(p)).push(
                OpV::Line(ps@[k as int]),
            ));
            assert(base + seq![OpV::Move(ps@.first())] + ps@.subrange(1, k as int + 1).map(
                |i: int, p: Point| OpV::Line(p),
            ) =~= (base + seq![OpV::Move(ps@.first())] + ps@.subrange(1, k as int).map(
                |i: int, p: Point| OpV::Line(p),
            )).push(OpV::Line(ps@[k as int])));
        }
        k = k + 1;
    }
    proof {
        assert(ps@.subrange(1, ps@.len() as int) =~= ps@.drop_first());
        assert(view_ops(out@) =~= view_ops(old(out)@) + path_ops(ps@));
    }
}

/// Emits the closed path of one ring into `out`.
fn push_ring_ops(out: &mut Vec<Op>, ps: &Vec<Point>)
    ensures
        view_ops(final(out)@) == view_ops(old(out)@) + ring_ops(ps@),
{
    if ps.len() == 0 {
        proof {
            assert(view_ops(out@) =~= view_ops(out@) + ring_ops(ps@));
        }
        return ;
    }
    push_path_ops(out, ps);
    let ghost before = view_ops(out@);
    out.push(Op::Close);
    proof {
        assert(view_ops(out@) =~= before.push(OpV::Close));
        assert(view_ops(old(out)@) + ring_ops(ps@) =~= (view_ops(old(out)@) + path_ops(
            ps@,
        )).push(OpV::Close));
    }
}

/// Traces a geometry as drawing operations.
pub fn trace_geometry(geom: &Geometry) -> (r: Vec<Op>)
    ensures
        view_ops(r@) == spec_trace(geom@),
{
    let mut out: Vec<Op> = Vec::new();
    proof {
        assert(view_ops(out@) =~= Seq::<OpV>::empty());
    }
    match geom {
        Geometry::Point(p) => {
            out.push(Op::Move(*p));
            proof {
                assert(view_ops(out@) =~= spec_trace(geom@));
            }
        },
        Geometry::MultiPoint(ps) => {
            let mut k: usize = 0;
            while k < ps.len()
                invariant
                    0 <= k <= ps@.len(),
                    view_ops(out@) == ps@.subrange(0, k as int).map(
                        |i: int, p: Point| OpV::Move(p),
                    ),
                decreases ps@.len() - k,
            {
                let ghost before = view_ops(out@);
                out.push(Op::Move(ps[k]));
                proof {
                    assert(view_ops(out@) =~= before.push(OpV::Move(ps@[k as int])));
                    assert(ps@.subrange(0, k as int + 1).map(|i: int, p: Point| OpV::Move(p))
                        =~= ps@.subrange(0, k as int).map(|i: int, p: Point| OpV::Move(p)).push(
                        OpV::Move(ps@[k as int]),
                    ));
                }
                k = k + 1;
            }
            proof {
                assert(ps@.subrange(0, ps@.len() as int) =~= ps@);
            }
        },
        Geometry::LineString(ps) => {
            push_path_ops(&mut out, ps);
            proof {
                assert(view_ops(out@) =~= spec_trace(geom@));
            }
        },
        Geometry::MultiLineString(ls) => {
            let ghost lsv = ls@.map(|i: int, l: Vec<Point>| l@);
            let ghost parts = lsv.map(|i: int, l: Seq<Point>| path_ops(l));
            let mut k: usize = 0;
            proof {
                assert(parts.subrange(0, 0) =~= Seq::<Seq<OpV>>::empty());
                assert(view_ops(out@) =~= flatten_op_lists(parts.subrange(0, 0)));
            }
            while k < ls.len()
                invariant
                    0 <= k <= ls@.len(),
                    lsv == ls@.map(|i: int, l: Vec<Point>| l@),
                    parts == lsv.map(|i: int, l: Seq<Point>| path_ops(l)),
                    parts.len() == ls@.len(),
                    view_ops(out@) == flatten_op_lists(parts.subrange(0, k as int)),
                decreases ls@.len() - k,
            {
                push_path_ops(&mut out, &ls[k]);
                proof {
                    assert(parts[k as int] == path_ops(ls@[k as int]@));
                    lemma_flatten_op_snoc(parts, k as int);
                }
                k = k + 1;
            }
            proof {
                assert(parts.subrange(0, parts.len() as int) =~= parts);
            }
        },
        Geometry::Polygon(rs) => {
            let ghost rsv = rs@.map(|i: int, r: Vec<Point>| r@);
            let ghost parts = rsv.map(|i: int, r: Seq<Point>| ring_ops(r));
            let mut k: usize = 0;
            proof {
                assert(parts.subrange(0, 0) =~= Seq::<Seq<OpV>>::empty());
                assert(view_ops(out@) =~= flatten_op_lists(parts.subrange(0, 0)));
            }
            while k < rs.len()
                invariant
                    0 <= k <= rs@.len(),
                    rsv == rs@.map(|i: int, r: Vec<Point>| r@),
                    parts == rsv.map(|i: int, r: Seq<Point>| ring_ops(r)),
                    parts.len() == rs@.len(),
                    view_ops(out@) == flatten_op_lists(parts.subrange(0, k as int)),
                decreases rs@.len() - k,
            {
                push_ring_ops(&mut out, &rs[k]);
                proof {
                    assert(parts[k as int] == ring_ops(rs@[k as int]@));
                    lemma_flatten_op_snoc(parts, k as int);
                }
                k = k + 1;
            }
            proof {
                assert(parts.subrange(0, parts.len() as int) =~= parts);
            }
        },
        Geometry::MultiPolygon(ps) => {
            let ghost psv = ps@.map(
                |i: int, p: Vec<Vec<Point>>| p@.map(|j: int, r: Vec<Point>| r@),
            );
            let ghost outer = psv.map(
                |i: int, rings: Seq<Seq<Point>>|
                    flatten_op_lists(rings.map(|j: int, r: Seq<Point>| ring_ops(r))),
            );
            let mut k: usize = 0;
            proof {
                assert(outer.subrange(0, 0) =~= Seq::<Seq<OpV>>::empty());
                assert(view_ops(out@) =~= flatten_op_lists(outer.subrange(0, 0)));
            }
            while k < ps.len()
                invariant
                    0 <= k <= ps@.len(),
                    psv == ps@.map(
                        |i: int, p: Vec<Vec<Point>>| p@.map(|j2: int, r: Vec<Point>| r@),
                    ),
                    outer == psv.map(
                        |i: int, rings: Seq<Seq<Point>>|
                            flatten_op_lists(rings.map(|j2: int, r: Seq<Point>| ring_ops(r))),
                    ),
                    outer.len() == ps@.len(),
                    psv.len() == ps@.len(),
                    view_ops(out@) == flatten_op_lists(outer.subrange(0, k as int)),
                decreases ps@.len() - k,
            {
                let inner: &Vec<Vec<Point>> = &ps[k];
                let ghost innerv = inner@.map(|j2: int, r: Vec<Point>| r@);
                let ghost inner_parts = innerv.map(|j2: int, r: Seq<Point>| ring_ops(r));
                let ghost base = view_ops(out@);
                let mut j: usize = 0;
                proof {
                    assert(inner_parts.subrange(0, 0) =~= Seq::<Seq<OpV>>::empty());
                    assert(base + flatten_op_lists(inner_parts.subrange(0, 0)) =~= base);
                }
                while j < inner.len()
                    invariant
                        0 <= j <= inner@.len(),
                        0 <= k < ps@.len(),
                        inner == &ps@[k as int],
                        innerv == inner@.map(|j2: int, r: Vec<Point>| r@),
                        inner_parts == innerv.map(|j2: int, r: Seq<Point>| ring_ops(r)),
                        inner_parts.len() == inner@.len(),
                        view_ops(out@) == base + flatten_op_lists(
                            inner_parts.subrange(0, j as int),
                        ),
                    decreases inner@.len() - j,
                {
                    push_ring_ops(&mut out, &inner[j]);
                    proof {
                        assert(inner_parts[j as int] == ring_ops(inner@[j as int]@));
                        lemma_flatten_op_snoc(inner_parts, j as int);
                        assert(base + flatten_op_lists(inner_parts.subrange(0, j as int + 1))
                            =~= (base + flatten_op_lists(inner_parts.subrange(0, j as int)))
                            + inner_parts[j as int]);
                    }
                    j = j + 1;
                }
                proof {
                    assert(inner_parts.subrange(0, inner_parts.len() as int) =~= inner_parts);
                    assert(psv[k as int] == inner@.map(|j2: int, r: Vec<Point>| r@));
                    assert(outer[k as int] == flatten_op_lists(inner_parts));
                    lemma_flatten_op_snoc(outer, k as int);
                }
                k = k + 1;
            }
            proof {
                assert(outer.subrange(0, outer.len() as int) =~= outer);
            }
        },
    }
    out
}


/// What evaluating one comparison yields: both sides resolve, left
/// first; equality across different literal shapes is false, ordering
/// across them fails to convert.
pub open spec fn spec_eval_predicate(p: PredicateV, f: FeatureV) -> Result<bool, ApplyErrorV> {
    match p {
        PredicateV::Equal((l, r)) => match (spec_resolve(*l, f), spec_resolve(*r, f)) {
            (Ok(lv), Ok(rv)) => Ok(lit_eq_spec(lv, rv)),
            (Err(e), _) => Err(e),
            (_, Err(e)) => Err(e),
        },
        PredicateV::NotEqual((l, r)) => match (spec_resolve(*l, f), spec_resolve(*r, f)) {
            (Ok(lv), Ok(rv)) => Ok(!lit_eq_spec(lv, rv)),
            (Err(e), _) => Err(e),
            (_, Err(e)) => Err(e),
        },
        PredicateV::GreaterThan((l, r)) => spec_eval_ordering(*l, *r, f, Cmp::Gt, false),
        PredicateV::GreaterThanOrEqual((l, r)) => spec_eval_ordering(*l, *r, f, Cmp::Gt, true),
        PredicateV::LesserThan((l, r)) => spec_eval_ordering(*l, *r, f, Cmp::Lt, false),
        PredicateV::LesserThanOrEqual((l, r)) => spec_eval_ordering(*l, *r, f, Cmp::Lt, true),
    }
}

/// An ordering comparison: true when the sides order as `want`, or are
/// equal where equality is allowed.
pub open spec fn spec_eval_ordering(
    l: ValueV,
    r: ValueV,
    f: FeatureV,
    want: Cmp,
    or_equal: bool,
) -> Result<bool, ApplyErrorV> {
    match (spec_resolve(l, f), spec_resolve(r, f)) {
        (Ok(lv), Ok(rv)) => match lit_cmp_spec(lv, rv) {
            Some(c) => Ok(c == want || (or_equal && c == Cmp::Eq)),
            None => Err(ApplyErrorV::Conversion),
        },
        (Err(e), _) => Err(e),
        (_, Err(e)) => Err(e),
    }
}

/// Evaluates an ordering comparison.
fn eval_ordering(l: &crate::ast::Value, r: &crate::ast::Value, f: &Feature, want: Cmp, or_equal: bool) -> (res:
    Result<bool, ApplyError>)
    ensures
        match (res, spec_eval_ordering(view_value(*l), view_value(*r), f@, want, or_equal)) {
            (Ok(a), Ok(b)) => a == b,
            (Err(e1), Err(e2)) => e1@ == e2,
            _ => false,
        },
{
    match resolve(l, f) {
        Err(e) => Err(e),
        Ok(lv) => match resolve(r, f) {
            Err(e) => Err(e),
            Ok(rv) => match lit_cmp(&lv, &rv) {
                Some(c) => Ok(c == want || (or_equal && c == Cmp::Eq)),
                None => Err(ApplyError::Conversion),
            },
        },
    }
}

/// Evaluates one comparison against a feature.
pub fn eval_predicate(p: &Predicate, f: &Feature) -> (res: Result<bool, ApplyError>)
    ensures
        match (res, spec_eval_predicate(crate::ast::view_predicate(*p), f@)) {
            (Ok(a), Ok(b)) => a == b,
            (Err(e1), Err(e2)) => e1@ == e2,
            _ => false,
        },
{
    match p {
        Predicate::Equal((l, r)) => match resolve(l, f) {
            Err(e) => Err(e),
            Ok(lv) => match resolve(r, f) {
                Err(e) => Err(e),
                Ok(rv) => Ok(lit_eq(&lv, &rv)),
            },
        },
        Predicate::NotEqual((l, r)) => match resolve(l, f) {
            Err(e) => Err(e),
            Ok(lv) => match resolve(r, f) {
                Err(e) => Err(e),
                Ok(rv) => Ok(!lit_eq(&lv, &rv)),
            },
        },
        Predicate::GreaterThan((l, r)) => eval_ordering(l, r, f, Cmp::Gt, false),
        Predicate::GreaterThanOrEqual((l, r)) => eval_ordering(l, r, f, Cmp::Gt, true),
        Predicate::LesserThan((l, r)) => eval_ordering(l, r, f, Cmp::Lt, false),
        Predicate::LesserThanOrEqual((l, r)) => eval_ordering(l, r, f, Cmp::Lt, true),
    }
}

/// What evaluating a predicate tree yields: an empty tree is false, and
/// both conjunction and disjunction short-circuit, so the right side's
/// failures are not seen once the left side decides.
pub open spec fn spec_eval_pred_group(g: PredGroupV, f: FeatureV) -> Result<bool, ApplyErrorV>
    decreases g,
{
    match g {
        PredGroupV::Empty => Ok(false),
        PredGroupV::Pred(p) => spec_eval_predicate(p, f),
        PredGroupV::And { left, right } => match spec_eval_pred_group(*left, f) {
            Ok(false) => Ok(false),
            Ok(true) => spec_eval_pred_group(*right, f),
            Err(e) => Err(e),
        },
        PredGroupV::Or { left, right } => match spec_eval_pred_group(*left, f) {
            Ok(true) => Ok(true),
            Ok(false) => spec_eval_pred_group(*right, f),
            Err(e) => Err(e),
        },
    }
}

/// Evaluates a predicate tree against a feature, short-circuiting.
pub fn eval_predicate_group(g: &PredGroup, f: &Feature) -> (res: Result<bool, ApplyError>)
    ensures
        match (res, spec_eval_pred_group(crate::ast::view_pred_group(*g), f@)) {
            (Ok(a), Ok(b)) => a == b,
            (Err(e1), Err(e2)) => e1@ == e2,
            _ => false,
        },
    decreases g,
{
    match g {
        PredGroup::Empty => Ok(false),
        PredGroup::Pred(p) => eval_predicate(p, f),
        PredGroup::And { left, right } => match eval_predicate_group(left, f) {
            Ok(false) => Ok(false),
            Ok(true) => eval_predicate_group(right, f),
            Err(e) => Err(e),
        },
        PredGroup::Or { left, right } => match eval_predicate_group(left, f) {
            Ok(true) => Ok(true),
            Ok(false) => eval_predicate_group(right, f),
            Err(e) => Err(e),
        },
    }
}

/// Parenthesizing the conjunction of a left-folded `a & b | c` changes
/// nothing: the flat reading is already the parenthesized tree, so the
/// two evaluate identically, short-circuit and all.
pub proof fn lemma_pred_associativity(a: PredGroupV, b: PredGroupV, c: PredGroupV, f: FeatureV)
    ensures
        spec_eval_pred_group(
            PredGroupV::Or {
                left: Box::new(PredGroupV::And { left: Box::new(a), right: Box::new(b) }),
                right: Box::new(c),
            },
            f,
        ) == (match spec_eval_pred_group(
            PredGroupV::And { left: Box::new(a), right: Box::new(b) },
            f,
        ) {
            Ok(true) => Ok::<bool, ApplyErrorV>(true),
            Ok(false) => spec_eval_pred_group(c, f),
            Err(e) => Err(e),
        }),
{
}

/// What one command adds to the operations gathered so far: a feature
/// without a geometry passes through untouched; `clear` discards the
/// gathered operations; every other command appends its own.
pub open spec fn spec_exec_command(
    cmd: CommandV,
    f: FeatureV,
    ops: Seq<OpV>,
    cos: Seq<i64>,
    sin: Seq<i64>,
) -> Result<Seq<OpV>, ApplyErrorV> {
    match f.geometry {
        None => Ok(ops),
        Some(g) => match cmd {
            CommandV::Clear => Ok(Seq::empty()),
            CommandV::DrawGeometry => Ok(ops + spec_trace(g)),
            CommandV::Circle { radius } => match spec_centroid(g) {
                Err(e) => Err(e),
                Ok(ctr) => match spec_resolve_micro(radius, f) {
                    Err(e) => Err(e),
                    Ok(r) => match spec_circle_ops(ctr, r, cos, sin) {
                        Err(e) => Err(e),
                        Ok(c_ops) => Ok(ops + c_ops),
                    },
                },
            },
            CommandV::Square { size } => match spec_centroid(g) {
                Err(e) => Err(e),
                Ok(ctr) => match spec_resolve_micro(size, f) {
                    Err(e) => Err(e),
                    Ok(sz) => match spec_square_ops(ctr, sz) {
                        Err(e) => Err(e),
                        Ok(s_ops) => Ok(ops + s_ops),
                    },
                },
            },
            CommandV::Fill { color } => match spec_resolve_text(color, f) {
                Err(e) => Err(e),
                Ok(c) => Ok(ops + seq![OpV::Fill(c)]),
            },
            CommandV::Stroke { color, size } => match spec_resolve_micro(size, f) {
                Err(e) => Err(e),
                Ok(sz) => match spec_resolve_text(color, f) {
                    Err(e) => Err(e),
                    Ok(c) => Ok(ops + seq![OpV::Stroke { color: c, size: sz }]),
                },
            },
            CommandV::Pattern { path } => match spec_resolve_text(path, f) {
                Err(e) => Err(e),
                Ok(p) => Ok(ops + seq![OpV::Fill(p)]),
            },
            CommandV::Label { content } => match spec_centroid(g) {
                Err(e) => Err(e),
                Ok(ctr) => match spec_resolve(content, f) {
                    Err(e) => Err(e),
                    Ok(l) => Ok(
                        ops + seq![
                            OpV::Text {
                                text: crate::resolve::lit_text(l),
                                color: Seq::empty(),
                                x: ctr.x,
                                y: ctr.y,
                            },
                        ],
                    ),
                },
            },
        },
    }
}

/// Runs one command, threading the operations gathered so far.
#[verifier::rlimit(100)]
#[verifier::spinoff_prover]
pub fn exec_command(cmd: &Command, f: &Feature, ops: Vec<Op>, t: &CircleTable) -> (res: Result<
    Vec<Op>,
    ApplyError,
>)
    requires
        t.wf(),
    ensures
        match (
            res,
            spec_exec_command(view_command(*cmd), f@, view_ops(ops@), t.cos_micro@, t.sin_micro@),
        ) {
            (Ok(a), Ok(b)) => view_ops(a@) == b,
            (Err(e1), Err(e2)) => e1@ == e2,
            _ => false,
        },
{
    let geom = match &f.geometry {
        None => {
            return Ok(ops);
        },
        Some(g) => g,
    };
    match cmd {
        Command::Clear(_) => {
            proof {
                assert(view_ops(Seq::<Op>::empty()) =~= Seq::<OpV>::empty());
            }
            Ok(Vec::new())
        },
        Command::DrawGeometry(_) => {
            let mut out = ops;
            let ghost base = view_ops(out@);
            let mut traced = trace_geometry(geom);
            let ghost tr = view_ops(traced@);
            out.append(&mut traced);
            proof {
                assert(view_ops(out@) =~= base + tr);
            }
            Ok(out)
        },
        Command::Circle(cc) => match centroid(geom) {
            Err(e) => Err(e),
            Ok(ctr) => match resolve_micro(&cc.radius, f) {
                Err(e) => Err(e),
                Ok(r) => match circle_ops(ctr, r, t) {
                    Err(e) => Err(e),
                    Ok(mut c_ops) => {
                        let mut out = ops;
                        let ghost base = view_ops(out@);
                        let ghost added = view_ops(c_ops@);
                        out.append(&mut c_ops);
                        proof {
                            assert(view_ops(out@) =~= base + added);
                        }
                        Ok(out)
                    },
                },
            },
        },
        Command::Square(sc) => match centroid(geom) {
            Err(e) => Err(e),
            Ok(ctr) => match resolve_micro(&sc.size, f) {
                Err(e) => Err(e),
                Ok(sz) => match square_ops(ctr, sz) {
                    Err(e) => Err(e),
                    Ok(mut s_ops) => {
                        let mut out = ops;
                        let ghost base = view_ops(out@);
                        let ghost added = view_ops(s_ops@);
                        out.append(&mut s_ops);
                        proof {
                            assert(view_ops(out@) =~= base + added);
                        }
                        Ok(out)
                    },
                },
            },
        },
        Command::Fill(fc) => match resolve_text(&fc.color, f) {
            Err(e) => Err(e),
            Ok(c) => {
                let mut out = ops;
                let ghost base = view_ops(out@);
                out.push(Op::Fill(c));
                proof {
                    assert(view_ops(out@) =~= base + seq![view_ops(out@).last()]);
                }
                Ok(out)
            },
        },
        Command::Stroke(sc) => match resolve_micro(&sc.size, f) {
            Err(e) => Err(e),
            Ok(sz) => match resolve_text(&sc.color, f) {
                Err(e) => Err(e),
                Ok(c) => {
                    let mut out = ops;
                    let ghost base = view_ops(out@);
                    out.push(Op::Stroke { color: c, size: sz });
                    proof {
                        assert(view_ops(out@) =~= base + seq![view_ops(out@).last()]);
                    }
                    Ok(out)
                },
            },
        },
        Command::Pattern(pc) => match resolve_text(&pc.path, f) {
            Err(e) => Err(e),
            Ok(p) => {
                let mut out = ops;
                let ghost base = view_ops(out@);
                out.push(Op::Fill(p));
                proof {
                    assert(view_ops(out@) =~= base + seq![view_ops(out@).last()]);
                }
                Ok(out)
            },
        },
        Command::Label(lc) => match centroid(geom) {
            Err(e) => Err(e),
            Ok(ctr) => match resolve(&lc.content, f) {
                Err(e) => Err(e),
                Ok(l) => {
                    let content = crate::resolve::lit_text_exec(&l);
                    let mut out = ops;
                    let ghost base = view_ops(out@);
                    out.push(Op::Text { text: content, color: Vec::new(), x: ctr.x, y: ctr.y });
                    proof {
                        assert(view_ops(out@) =~= base + seq![view_ops(out@).last()]);
                    }
                    Ok(out)
                },
            },
        },
    }
}

/// What a consequent's left fold yields, command by command.
pub open spec fn spec_exec_consequent(
    cmds: Seq<CommandV>,
    f: FeatureV,
    acc: Seq<OpV>,
    cos: Seq<i64>,
    sin: Seq<i64>,
) -> Result<Seq<OpV>, ApplyErrorV>
    decreases cmds.len(),
{
    if cmds.len() == 0 {
        Ok(acc)
    } else {
        match spec_exec_command(cmds.first(), f, acc, cos, sin) {
            Ok(o2) => spec_exec_consequent(cmds.drop_first(), f, o2, cos, sin),
            Err(e) => Err(e),
        }
    }
}

/// Runs a consequent: a left fold over its commands, seeded with no
/// operations.
pub fn exec_consequent(cmds: &Vec<Command>, f: &Feature, t: &CircleTable) -> (res: Result<
    Vec<Op>,
    ApplyError,
>)
    requires
        t.wf(),
    ensures
        match (
            res,
            spec_exec_consequent(
                view_commands(cmds@),
                f@,
                Seq::empty(),
                t.cos_micro@,
                t.sin_micro@,
            ),
        ) {
            (Ok(a), Ok(b)) => view_ops(a@) == b,
            (Err(e1), Err(e2)) => e1@ == e2,
            _ => false,
        },
{
    let mut ops: Vec<Op> = Vec::new();
    let mut k: usize = 0;
    let ghost cmdsv = view_commands(cmds@);
    proof {
        assert(view_ops(ops@) =~= Seq::<OpV>::empty());
        assert(cmdsv.subrange(0, cmdsv.len() as int) =~= cmdsv);
    }
    while k < cmds.len()
        invariant
            0 <= k <= cmds@.len(),
            t.wf(),
            cmdsv == view_commands(cmds@),
            cmdsv.len() == cmds@.len(),
            spec_exec_consequent(cmdsv, f@, Seq::empty(), t.cos_micro@, t.sin_micro@)
                == spec_exec_consequent(
                cmdsv.subrange(k as int, cmdsv.len() as int),
                f@,
                view_ops(ops@),
                t.cos_micro@,
                t.sin_micro@,
            ),
        decreases cmds@.len() - k,
    {
        let ghost rest = cmdsv.subrange(k as int, cmdsv.len() as int);
        proof {
            assert(rest.first() == cmdsv[k as int]);
            assert(cmdsv[k as int] == view_command(cmds@[k as int]));
            assert(rest.drop_first() =~= cmdsv.subrange(k as int + 1, cmdsv.len() as int));
        }
        match exec_command(&cmds[k], f, ops, t) {
            Ok(o2) => {
                ops = o2;
            },
            Err(e) => {
                return Err(e);
            },
        }
        k = k + 1;
    }
    proof {
        assert(cmdsv.subrange(cmdsv.len() as int, cmdsv.len() as int) =~= Seq::<
            CommandV,
        >::empty());
    }
    Ok(ops)
}

/// A rule's output on one feature: nothing unless the predicate holds,
/// else the consequent's operations.
pub open spec fn spec_symbology_for_feature(
    sym: SymV,
    f: FeatureV,
    cos: Seq<i64>,
    sin: Seq<i64>,
) -> Result<Seq<OpV>, ApplyErrorV> {
    match spec_eval_pred_group(sym.predicate, f) {
        Err(e) => Err(e),
        Ok(false) => Ok(Seq::empty()),
        Ok(true) => spec_exec_consequent(sym.consequent, f, Seq::empty(), cos, sin),
    }
}

/// Runs one rule on one feature.
pub fn make_symbology_for_feature(sym: &Sym, f: &Feature, t: &CircleTable) -> (res: Result<
    Vec<Op>,
    ApplyError,
>)
    requires
        t.wf(),
    ensures
        match (res, spec_symbology_for_feature(sym@, f@, t.cos_micro@, t.sin_micro@)) {
            (Ok(a), Ok(b)) => view_ops(a@) == b,
            (Err(e1), Err(e2)) => e1@ == e2,
            _ => false,
        },
{
    match eval_predicate_group(&sym.predicate, f) {
        Err(e) => Err(e),
        Ok(false) => {
            let v: Vec<Op> = Vec::new();
            proof {
                assert(view_ops(v@) =~= Seq::<OpV>::empty());
            }
            Ok(v)
        },
        Ok(true) => exec_consequent(&sym.consequent, f, t),
    }
}

/// One feature's contribution to a rule's output: its operations where
/// the rule applies and executes, nothing where it does not apply or
/// fails.
#[verifier::opaque]
pub open spec fn spec_feature_ops(sym: SymV, f: FeatureV, cos: Seq<i64>, sin: Seq<i64>) -> Seq<
    OpV,
> {
    match spec_symbology_for_feature(sym, f, cos, sin) {
        Ok(ops) => ops,
        Err(_) => Seq::empty(),
    }
}

/// A rule's output over a run of features: each feature's contribution,
/// in source order.  A feature whose evaluation fails contributes
/// nothing and costs its neighbours nothing.
pub open spec fn spec_symbology_ops(
    sym: SymV,
    fs: Seq<FeatureV>,
    cos: Seq<i64>,
    sin: Seq<i64>,
) -> Seq<OpV>
    decreases fs.len(),
{
    if fs.len() == 0 {
        Seq::empty()
    } else {
        spec_symbology_ops(sym, fs.drop_last(), cos, sin) + spec_feature_ops(
            sym,
            fs.last(),
            cos,
            sin,
        )
    }
}

/// Runs one rule over a run of features.
pub fn make_symbology(sym: &Sym, features: &Vec<Feature>, t: &CircleTable) -> (res: Vec<Op>)
    requires
        t.wf(),
    ensures
        view_ops(res@) == spec_symbology_ops(
            sym@,
            features@.map(|i: int, f: Feature| f@),
            t.cos_micro@,
            t.sin_micro@,
        ),
{
    let mut out: Vec<Op> = Vec::new();
    let mut k: usize = 0;
    let ghost fsv = features@.map(|i: int, f: Feature| f@);
    proof {
        reveal(spec_feature_ops);
        assert(fsv.subrange(0, 0) =~= Seq::<FeatureV>::empty());
        assert(view_ops(out@) =~= spec_symbology_ops(sym@, fsv.subrange(0, 0), t.cos_micro@, t.sin_micro@));
    }
    while k < features.len()
        invariant
            0 <= k <= features@.len(),
            t.wf(),
            fsv == features@.map(|i: int, f: Feature| f@),
            fsv.len() == features@.len(),
            view_ops(out@) == spec_symbology_ops(
                sym@,
                fsv.subrange(0, k as int),
                t.cos_micro@,
                t.sin_micro@,
            ),
        decreases features@.len() - k,
    {
        let ghost pre = fsv.subrange(0, k as int);
        proof {
            reveal(spec_feature_ops);
            assert(fsv.subrange(0, k as int + 1).drop_last() =~= pre);
            assert(fsv.subrange(0, k as int + 1).last() == fsv[k as int]);
            assert(fsv[k as int] == features@[k as int]@);
        }
        match make_symbology_for_feature(sym, &features[k], t) {
            Ok(mut piece) => {
                let ghost base = view_ops(out@);
                let ghost added = view_ops(piece@);
                out.append(&mut piece);
                proof {
                    assert(view_ops(out@) =~= base + added);
                }
            },
            Err(_) => {
                proof {
                    assert(view_ops(out@) + Seq::<OpV>::empty() =~= view_ops(out@));
                }
            },
        }
        k = k + 1;
    }
    proof {
        assert(fsv.subrange(0, fsv.len() as int) =~= fsv);
    }
    out
}

/// A rule's output over two runs of features, one after the other, is
/// its output over the first followed by its output over the second.
pub proof fn lemma_symbology_ops_concat(
    sym: SymV,
    a: Seq<FeatureV>,
    b: Seq<FeatureV>,
    cos: Seq<i64>,
    sin: Seq<i64>,
)
    ensures
        spec_symbology_ops(sym, a + b, cos, sin) == spec_symbology_ops(sym, a, cos, sin)
            + spec_symbology_ops(sym, b, cos, sin),
    decreases b.len(),
{
    if b.len() == 0 {
        assert(a + b =~= a);
        assert(spec_symbology_ops(sym, a, cos, sin) + spec_symbology_ops(sym, b, cos, sin)
            =~= spec_symbology_ops(sym, a, cos, sin));
    } else {
        lemma_symbology_ops_concat(sym, a, b.drop_last(), cos, sin);
        assert((a + b).drop_last() =~= a + b.drop_last());
        assert((a + b).last() == b.last());
        assert(spec_symbology_ops(sym, a, cos, sin) + (spec_symbology_ops(
            sym,
            b.drop_last(),
            cos,
            sin,
        ) + spec_feature_ops(sym, b.last(), cos, sin)) =~= (spec_symbology_ops(sym, a, cos, sin)
            + spec_symbology_ops(sym, b.drop_last(), cos, sin)) + spec_feature_ops(
            sym,
            b.last(),
            cos,
            sin,
        ));
    }
}

/// Removing one feature from a run removes exactly that feature's
/// contribution: the rest of the output stands unchanged around the
/// gap.
#[verifier::rlimit(100)]
#[verifier::spinoff_prover]
pub proof fn lemma_feature_independence(
    sym: SymV,
    fs: Seq<FeatureV>,
    i: int,
    cos: Seq<i64>,
    sin: Seq<i64>,
)
    requires
        0 <= i < fs.len(),
    ensures
        spec_symbology_ops(sym, fs, cos, sin) == spec_symbology_ops(
            sym,
            fs.subrange(0, i),
            cos,
            sin,
        ) + spec_feature_ops(sym, fs[i], cos, sin) + spec_symbology_ops(
            sym,
            fs.subrange(i + 1, fs.len() as int),
            cos,
            sin,
        ),
        spec_symbology_ops(sym, fs.remove(i), cos, sin) == spec_symbology_ops(
            sym,
            fs.subrange(0, i),
            cos,
            sin,
        ) + spec_symbology_ops(sym, fs.subrange(i + 1, fs.len() as int), cos, sin),
{
    let front = fs.subrange(0, i);
    let middle = fs.subrange(i, i + 1);
    let back = fs.subrange(i + 1, fs.len() as int);
    assert(fs =~= front + middle + back);
    lemma_symbology_ops_concat(sym, front + middle, back, cos, sin);
    lemma_symbology_ops_concat(sym, front, middle, cos, sin);
    assert(middle.drop_last() =~= Seq::<FeatureV>::empty());
    assert(middle.last() == fs[i]);
    assert(spec_symbology_ops(sym, Seq::<FeatureV>::empty(), cos, sin) =~= Seq::<OpV>::empty());
    assert(spec_symbology_ops(sym, middle, cos, sin) =~= Seq::<OpV>::empty() + spec_feature_ops(
        sym,
        fs[i],
        cos,
        sin,
    ));
    assert(Seq::<OpV>::empty() + spec_feature_ops(sym, fs[i], cos, sin) =~= spec_feature_ops(
        sym,
        fs[i],
        cos,
        sin,
    ));
    assert(fs.remove(i) =~= front + back);
    lemma_symbology_ops_concat(sym, front, back, cos, sin);
}


/// For a circle of radius `r`, the `Line` samples between the `Move`
/// and the `Close` number exactly `min(360, r * 10)` rounded down: the
/// operations are a `Start`, a `Move`, that many `Line`s and a `Close`.
pub proof fn lemma_circle_sample_count(c: Point, r: i64, cos: Seq<i64>, sin: Seq<i64>)
    requires
        spec_circle_ops(c, r, cos, sin) is Ok,
    ensures
        spec_circle_ops(c, r, cos, sin)->Ok_0.len() == 3 + circle_steps(r as int),
        spec_circle_ops(c, r, cos, sin)->Ok_0[0] == OpV::Start,
        spec_circle_ops(c, r, cos, sin)->Ok_0[1] matches OpV::Move(_),
        spec_circle_ops(c, r, cos, sin)->Ok_0.last() == OpV::Close,
        forall|j: int|
            2 <= j < 2 + circle_steps(r as int) ==> (#[trigger] spec_circle_ops(
                c,
                r,
                cos,
                sin,
            )->Ok_0[j]) matches OpV::Line(_),
        r > 0 ==> circle_steps(r as int) == if (r as int) / 100_000 > 360 {
            360int
        } else {
            (r as int) / 100_000
        },
        r <= 0 ==> circle_steps(r as int) == 0,
{
    let n = circle_steps(r as int);
    lemma_circle_lines_shape(c, r as int, n, n, cos, sin);
    let ops = spec_circle_ops(c, r, cos, sin)->Ok_0;
    let lines = circle_lines(c, r as int, n, n, cos, sin);
    assert(ops.len() == 3 + n);
    assert forall|j: int| 2 <= j < 2 + n implies (#[trigger] ops[j]) matches OpV::Line(_) by {
        assert(ops[j] == lines[j - 2]);
    }
}


/// A feature whose evaluation under a rule fails contributes nothing:
/// the rule's run equals the run without that feature, so a select
/// miss on one feature spares every neighbour.
pub proof fn lemma_failing_feature_drops_out(
    sym: SymV,
    fs: Seq<FeatureV>,
    i: int,
    cos: Seq<i64>,
    sin: Seq<i64>,
)
    requires
        0 <= i < fs.len(),
        spec_symbology_for_feature(sym, fs[i], cos, sin) is Err,
    ensures
        spec_symbology_ops(sym, fs, cos, sin) == spec_symbology_ops(sym, fs.remove(i), cos, sin),
{
    lemma_feature_independence(sym, fs, i, cos, sin);
    reveal(spec_feature_ops);
    assert(spec_feature_ops(sym, fs[i], cos, sin) =~= Seq::<OpV>::empty());
    let front = spec_symbology_ops(sym, fs.subrange(0, i), cos, sin);
    let back = spec_symbology_ops(sym, fs.subrange(i + 1, fs.len() as int), cos, sin);
    assert(front + Seq::<OpV>::empty() + back =~= front + back);
}

} // verus!
