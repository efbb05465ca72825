//! The drawing operations the pipeline emits: an ordered list of
//! primitives for a 2D backend.  Coordinates and sizes are in millionths
//! of a map unit; colours and text are byte strings.
use vstd::prelude::*;

use crate::geom::Point;

verus! {

/// An affine transform's six coefficients.
#[derive(Debug, Clone, Copy, PartialEq, Eq, Structural)]
pub struct Mat {
    pub a: i64,
    pub b: i64,
    pub c: i64,
    pub d: i64,
    pub e: i64,
    pub f: i64,
}

/// One drawing operation.
#[derive(Debug, Clone, PartialEq)]
pub enum Op {
    Text { text: Vec<u8>, color: Vec<u8>, x: i64, y: i64 },
    Font { name: Vec<u8>, size: i64 },
    Fill(Vec<u8>),
    Stroke { color: Vec<u8>, size: i64 },
    Start,
    Move(Point),
    Line(Point),
    Cubic { control_1: Point, control_2: Point, end: Point },
    Close,
    Transform(Mat),
    Save,
    Restore,
}

/// Mathematical view of `Op`.
pub enum OpV {
    Text { text: Seq<u8>, color: Seq<u8>, x: i64, y: i64 },
    Font { name: Seq<u8>, size: i64 },
    Fill(Seq<u8>),
    Stroke { color: Seq<u8>, size: i64 },
    Start,
    Move(Point),
    Line(Point),
    Cubic { control_1: Point, control_2: Point, end: Point },
    Close,
    Transform(Mat),
    Save,
    Restore,
}

impl View for Op {
    type V = OpV;

    open spec fn view(&self) -> OpV {
        match self {
            Op::Text { text, color, x, y } => OpV::Text {
                text: text@,
                color: color@,
                x: *x,
                y: *y,
            },
            Op::Font { name, size } => OpV::Font { name: name@, size: *size },
            Op::Fill(c) => OpV::Fill(c@),
            Op::Stroke { color, size } => OpV::Stroke { color: color@, size: *size },
            Op::Start => OpV::Start,
            Op::Move(p) => OpV::Move(*p),
            Op::Line(p) => OpV::Line(*p),
            Op::Cubic { control_1, control_2, end } => OpV::Cubic {
                control_1: *control_1,
                control_2: *control_2,
                end: *end,
            },
            Op::Close => OpV::Close,
            Op::Transform(m) => OpV::Transform(*m),
            Op::Save => OpV::Save,
            Op::Restore => OpV::Restore,
        }
    }
}

pub type OpList = Vec<Op>;

/// View of an operation list, element by element.
pub open spec fn view_ops(s: Seq<Op>) -> Seq<OpV> {
    s.map(|i: int, o: Op| o@)
}

/// Begins a path.
pub fn start() -> (r: Op)
    ensures
        r@ == OpV::Start,
{
    Op::Start
}

/// Moves the pen.
pub fn move_to(x: i64, y: i64) -> (r: Op)
    ensures
        r@ == OpV::Move(Point { x, y }),
{
    Op::Move(Point { x, y })
}

/// Draws a line.
pub fn line_to(x: i64, y: i64) -> (r: Op)
    ensures
        r@ == OpV::Line(Point { x, y }),
{
    Op::Line(Point { x, y })
}

/// Closes the path.
pub fn close() -> (r: Op)
    ensures
        r@ == OpV::Close,
{
    Op::Close
}

/// Paints the path's inside.
pub fn fill(color: Vec<u8>) -> (r: Op)
    ensures
        r@ == OpV::Fill(color@),
{
    Op::Fill(color)
}

/// Outlines the path.
pub fn stroke(color: Vec<u8>, size: i64) -> (r: Op)
    ensures
        r@ == (OpV::Stroke { color: color@, size }),
{
    Op::Stroke { color, size }
}

/// Writes text.
pub fn text(content: Vec<u8>, color: Vec<u8>, x: i64, y: i64) -> (r: Op)
    ensures
        r@ == (OpV::Text { text: content@, color: color@, x, y }),
{
    Op::Text { text: content, color, x, y }
}

/// The display piece `[text `.
pub open spec fn txt_text() -> Seq<u8> {
    seq!['[' as u8, 't' as u8, 'e' as u8, 'x' as u8, 't' as u8, ' ' as u8]
}

/// Builds the display piece `[text `.
fn txt_text_vec() -> (r: Vec<u8>)
    ensures
        r@ == txt_text(),
{
    let mut v: Vec<u8> = Vec::new();
    v.push('[' as u8);
    v.push('t' as u8);
    v.push('e' as u8);
    v.push('x' as u8);
    v.push('t' as u8);
    v.push(' ' as u8);
    proof {
        assert(v@ =~= txt_text());
    }
    v
}

/// The display piece `[font `.
pub open spec fn txt_font() -> Seq<u8> {
    seq!['[' as u8, 'f' as u8, 'o' as u8, 'n' as u8, 't' as u8, ' ' as u8]
}

/// Builds the display piece `[font `.
fn txt_font_vec() -> (r: Vec<u8>)
    ensures
        r@ == txt_font(),
{
    let mut v: Vec<u8> = Vec::new();
    v.push('[' as u8);
    v.push('f' as u8);
    v.push('o' as u8);
    v.push('n' as u8);
    v.push('t' as u8);
    v.push(' ' as u8);
    proof {
        assert(v@ =~= txt_font());
    }
    v
}

/// The display piece `[fill `.
pub open spec fn txt_fill() -> Seq<u8> {
    seq!['[' as u8, 'f' as u8, 'i' as u8, 'l' as u8, 'l' as u8, ' ' as u8]
}

/// Builds the display piece `[fill `.
fn txt_fill_vec() -> (r: Vec<u8>)
    ensures
        r@ == txt_fill(),
{
    let mut v: Vec<u8> = Vec::new();
    v.push('[' as u8);
    v.push('f' as u8);
    v.push('i' as u8);
    v.push('l' as u8);
    v.push('l' as u8);
    v.push(' ' as u8);
    proof {
        assert(v@ =~= txt_fill());
    }
    v
}

/// The display piece `[stroke `.
pub open spec fn txt_stroke() -> Seq<u8> {
    seq!['[' as u8, 's' as u8, 't' as u8, 'r' as u8, 'o' as u8, 'k' as u8, 'e' as u8, ' ' as u8]
}

/// Builds the display piece `[stroke `.
fn txt_stroke_vec() -> (r: Vec<u8>)
    ensures
        r@ == txt_stroke(),
{
    let mut v: Vec<u8> = Vec::new();
    v.push('[' as u8);
    v.push('s' as u8);
    v.push('t' as u8);
    v.push('r' as u8);
    v.push('o' as u8);
    v.push('k' as u8);
    v.push('e' as u8);
    v.push(' ' as u8);
    proof {
        assert(v@ =~= txt_stroke());
    }
    v
}

/// The display piece `[start]`.
pub open spec fn txt_start() -> Seq<u8> {
    seq!['[' as u8, 's' as u8, 't' as u8, 'a' as u8, 'r' as u8, 't' as u8, ']' as u8]
}

/// Builds the display piece `[start]`.
fn txt_start_vec() -> (r: Vec<u8>)
    ensures
        r@ == txt_start(),
{
    let mut v: Vec<u8> = Vec::new();
    v.push('[' as u8);
    v.push('s' as u8);
    v.push('t' as u8);
    v.push('a' as u8);
    v.push('r' as u8);
    v.push('t' as u8);
    v.push(']' as u8);
    proof {
        assert(v@ =~= txt_start());
    }
    v
}

/// The display piece `[move `.
pub open spec fn txt_move() -> Seq<u8> {
    seq!['[' as u8, 'm' as u8, 'o' as u8, 'v' as u8, 'e' as u8, ' ' as u8]
}

/// Builds the display piece `[move `.
fn txt_move_vec() -> (r: Vec<u8>)
    ensures
        r@ == txt_move(),
{
    let mut v: Vec<u8> = Vec::new();
    v.push('[' as u8);
    v.push('m' as u8);
    v.push('o' as u8);
    v.push('v' as u8);
    v.push('e' as u8);
    v.push(' ' as u8);
    proof {
        assert(v@ =~= txt_move());
    }
    v
}

/// The display piece `[line `.
pub open spec fn txt_line() -> Seq<u8> {
    seq!['[' as u8, 'l' as u8, 'i' as u8, 'n' as u8, 'e' as u8, ' ' as u8]
}

/// Builds the display piece `[line `.
fn txt_line_vec() -> (r: Vec<u8>)
    ensures
        r@ == txt_line(),
{
    let mut v: Vec<u8> = Vec::new();
    v.push('[' as u8);
    v.push('l' as u8);
    v.push('i' as u8);
    v.push('n' as u8);
    v.push('e' as u8);
    v.push(' ' as u8);
    proof {
        assert(v@ =~= txt_line());
    }
    v
}

/// The display piece `[cubic `.
pub open spec fn txt_cubic() -> Seq<u8> {
    seq!['[' as u8, 'c' as u8, 'u' as u8, 'b' as u8, 'i' as u8, 'c' as u8, ' ' as u8]
}

/// Builds the display piece `[cubic `.
fn txt_cubic_vec() -> (r: Vec<u8>)
    ensures
        r@ == txt_cubic(),
{
    let mut v: Vec<u8> = Vec::new();
    v.push('[' as u8);
    v.push('c' as u8);
    v.push('u' as u8);
    v.push('b' as u8);
    v.push('i' as u8);
    v.push('c' as u8);
    v.push(' ' as u8);
    proof {
        assert(v@ =~= txt_cubic());
    }
    v
}

/// The display piece `[close]`.
pub open spec fn txt_close() -> Seq<u8> {
    seq!['[' as u8, 'c' as u8, 'l' as u8, 'o' as u8, 's' as u8, 'e' as u8, ']' as u8]
}

/// Builds the display piece `[close]`.
fn txt_close_vec() -> (r: Vec<u8>)
    ensures
        r@ == txt_close(),
{
    let mut v: Vec<u8> = Vec::new();
    v.push('[' as u8);
    v.push('c' as u8);
    v.push('l' as u8);
    v.push('o' as u8);
    v.push('s' as u8);
    v.push('e' as u8);
    v.push(']' as u8);
    proof {
        assert(v@ =~= txt_close());
    }
    v
}

/// The display piece `[transform `.
pub open spec fn txt_transform() -> Seq<u8> {
    seq!['[' as u8, 't' as u8, 'r' as u8, 'a' as u8, 'n' as u8, 's' as u8, 'f' as u8, 'o' as u8, 'r' as u8, 'm' as u8, ' ' as u8]
}

/// Builds the display piece `[transform `.
fn txt_transform_vec() -> (r: Vec<u8>)
    ensures
        r@ == txt_transform(),
{
    let mut v: Vec<u8> = Vec::new();
    v.push('[' as u8);
    v.push('t' as u8);
    v.push('r' as u8);
    v.push('a' as u8);
    v.push('n' as u8);
    v.push('s' as u8);
    v.push('f' as u8);
    v.push('o' as u8);
    v.push('r' as u8);
    v.push('m' as u8);
    v.push(' ' as u8);
    proof {
        assert(v@ =~= txt_transform());
    }
    v
}

/// The display piece `[save]`.
pub open spec fn txt_save() -> Seq<u8> {
    seq!['[' as u8, 's' as u8, 'a' as u8, 'v' as u8, 'e' as u8, ']' as u8]
}

/// Builds the display piece `[save]`.
fn txt_save_vec() -> (r: Vec<u8>)
    ensures
        r@ == txt_save(),
{
    let mut v: Vec<u8> = Vec::new();
    v.push('[' as u8);
    v.push('s' as u8);
    v.push('a' as u8);
    v.push('v' as u8);
    v.push('e' as u8);
    v.push(']' as u8);
    proof {
        assert(v@ =~= txt_save());
    }
    v
}

/// The display piece `[restore]`.
pub open spec fn txt_restore() -> Seq<u8> {
    seq!['[' as u8, 'r' as u8, 'e' as u8, 's' as u8, 't' as u8, 'o' as u8, 'r' as u8, 'e' as u8, ']' as u8]
}

/// Builds the display piece `[restore]`.
fn txt_restore_vec() -> (r: Vec<u8>)
    ensures
        r@ == txt_restore(),
{
    let mut v: Vec<u8> = Vec::new();
    v.push('[' as u8);
    v.push('r' as u8);
    v.push('e' as u8);
    v.push('s' as u8);
    v.push('t' as u8);
    v.push('o' as u8);
    v.push('r' as u8);
    v.push('e' as u8);
    v.push(']' as u8);
    proof {
        assert(v@ =~= txt_restore());
    }
    v
}

/// The display text of a point: its coordinates in parentheses.
pub open spec fn point_text(p: Point) -> Seq<u8> {
    seq!['(' as u8] + crate::num::micro_text(p.x as int) + seq![',' as u8, ' ' as u8]
        + crate::num::micro_text(p.y as int) + seq![')' as u8]
}

/// Renders a point's display text.
fn fmt_point(p: Point) -> (r: Vec<u8>)
    ensures
        r@ == point_text(p),
{
    let mut v: Vec<u8> = Vec::new();
    v.push('(' as u8);
    let ghost h0 = v@;
    proof {
        assert(h0 =~= seq!['(' as u8]);
    }
    let mut xs = crate::num::fmt_micro(p.x);
    v.append(&mut xs);
    v.push(',' as u8);
    v.push(' ' as u8);
    proof {
        assert(v@ =~= seq!['(' as u8] + crate::num::micro_text(p.x as int) + seq![
            ',' as u8,
            ' ' as u8,
        ]);
    }
    let mut ys = crate::num::fmt_micro(p.y);
    v.append(&mut ys);
    v.push(')' as u8);
    proof {
        assert(v@ =~= point_text(p));
    }
    v
}

/// The display text of one drawing operation, the debug form the
/// emitted stream prints as: the bracketed kind, then its operands,
/// coordinates and sizes written as fixed-point decimals.
pub open spec fn op_text(o: OpV) -> Seq<u8> {
    match o {
        OpV::Text { text, color, x, y } => txt_text() + text + seq![' ' as u8] + color + seq![
            ' ' as u8,
        ] + crate::num::micro_text(x as int) + seq![' ' as u8] + crate::num::micro_text(y as int)
            + seq![']' as u8],
        OpV::Font { name, size } => txt_font() + name + seq![' ' as u8] + crate::num::micro_text(
            size as int,
        ) + seq![']' as u8],
        OpV::Fill(color) => txt_fill() + color + seq![']' as u8],
        OpV::Stroke { color, size } => txt_stroke() + color + seq![' ' as u8]
            + crate::num::micro_text(size as int) + seq![']' as u8],
        OpV::Start => txt_start(),
        OpV::Move(p) => txt_move() + point_text(p) + seq![']' as u8],
        OpV::Line(p) => txt_line() + point_text(p) + seq![']' as u8],
        OpV::Cubic { control_1, control_2, end } => txt_cubic() + point_text(control_1) + seq![
            ' ' as u8,
        ] + point_text(control_2) + seq![' ' as u8] + point_text(end) + seq![']' as u8],
        OpV::Close => txt_close(),
        OpV::Transform(m) => txt_transform() + crate::num::micro_text(m.a as int) + seq![
            ' ' as u8,
        ] + crate::num::micro_text(m.b as int) + seq![' ' as u8] + crate::num::micro_text(
            m.c as int,
        ) + seq![' ' as u8] + crate::num::micro_text(m.d as int) + seq![' ' as u8]
            + crate::num::micro_text(m.e as int) + seq![' ' as u8] + crate::num::micro_text(
            m.f as int,
        ) + seq![']' as u8],
        OpV::Save => txt_save(),
        OpV::Restore => txt_restore(),
    }
}

/// Renders one drawing operation's display text.
#[verifier::rlimit(100)]
#[verifier::spinoff_prover]
pub fn fmt_op(o: &Op) -> (r: Vec<u8>)
    ensures
        r@ == op_text(o@),
{
    match o {
        Op::Text { text, color, x, y } => {
            let mut v = txt_text_vec();
            let mut t = crate::ast::clone_bytes(text);
            v.append(&mut t);
            v.push(' ' as u8);
            let mut c = crate::ast::clone_bytes(color);
            v.append(&mut c);
            v.push(' ' as u8);
            let mut xs = crate::num::fmt_micro(*x);
            v.append(&mut xs);
            v.push(' ' as u8);
            let mut ys = crate::num::fmt_micro(*y);
            v.append(&mut ys);
            v.push(']' as u8);
            proof {
                assert(v@ =~= op_text(o@));
            }
            v
        },
        Op::Font { name, size } => {
            let mut v = txt_font_vec();
            let mut n = crate::ast::clone_bytes(name);
            v.append(&mut n);
            v.push(' ' as u8);
            let mut ss = crate::num::fmt_micro(*size);
            v.append(&mut ss);
            v.push(']' as u8);
            proof {
                assert(v@ =~= op_text(o@));
            }
            v
        },
        Op::Fill(color) => {
            let mut v = txt_fill_vec();
            let mut c = crate::ast::clone_bytes(color);
            v.append(&mut c);
            v.push(']' as u8);
            proof {
                assert(v@ =~= op_text(o@));
            }
            v
        },
        Op::Stroke { color, size } => {
            let mut v = txt_stroke_vec();
            let mut c = crate::ast::clone_bytes(color);
            v.append(&mut c);
            v.push(' ' as u8);
            let mut ss = crate::num::fmt_micro(*size);
            v.append(&mut ss);
            v.push(']' as u8);
            proof {
                assert(v@ =~= op_text(o@));
            }
            v
        },
        Op::Start => txt_start_vec(),
        Op::Move(p) => {
            let mut v = txt_move_vec();
            let mut ps = fmt_point(*p);
            v.append(&mut ps);
            v.push(']' as u8);
            proof {
                assert(v@ =~= op_text(o@));
            }
            v
        },
        Op::Line(p) => {
            let mut v = txt_line_vec();
            let mut ps = fmt_point(*p);
            v.append(&mut ps);
            v.push(']' as u8);
            proof {
                assert(v@ =~= op_text(o@));
            }
            v
        },
        Op::Cubic { control_1, control_2, end } => {
            let mut v = txt_cubic_vec();
            let mut a = fmt_point(*control_1);
            v.append(&mut a);
            v.push(' ' as u8);
            let mut b = fmt_point(*control_2);
            v.append(&mut b);
            v.push(' ' as u8);
            let mut e = fmt_point(*end);
            v.append(&mut e);
            v.push(']' as u8);
            proof {
                assert(v@ =~= op_text(o@));
            }
            v
        },
        Op::Close => txt_close_vec(),
        Op::Transform(m) => {
            let mut v = txt_transform_vec();
            let mut a = crate::num::fmt_micro(m.a);
            v.append(&mut a);
            v.push(' ' as u8);
            let mut b = crate::num::fmt_micro(m.b);
            v.append(&mut b);
            v.push(' ' as u8);
            let mut c = crate::num::fmt_micro(m.c);
            v.append(&mut c);
            v.push(' ' as u8);
            let mut d = crate::num::fmt_micro(m.d);
            v.append(&mut d);
            v.push(' ' as u8);
            let mut e = crate::num::fmt_micro(m.e);
            v.append(&mut e);
            v.push(' ' as u8);
            let mut f = crate::num::fmt_micro(m.f);
            v.append(&mut f);
            v.push(']' as u8);
            proof {
                assert(v@ =~= op_text(o@));
            }
            v
        },
        Op::Save => txt_save_vec(),
        Op::Restore => txt_restore_vec(),
    }
}

} // verus!
