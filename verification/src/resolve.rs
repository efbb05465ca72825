//! The value resolver: reduces a `Value` tree to a `Literal` against a
//! feature, dispatching function calls to the built-in functions and
//! `select` constructors to the feature's attributes.
use vstd::prelude::*;

use crate::ast::{
    clone_literal, view_value, view_values, Constructor, Literal, LiteralV, Num, Value, ValueV,
};
use crate::error::{ApplyError, ApplyErrorV};
use crate::num::{fmt_hex_min2, fmt_i64, fmt_micro, hex_min2, int_text, micro_text};
use crate::source::{select_literal, spec_select, Feature, FeatureV};

verus! {

/// View of a literal list, element by element.
pub open spec fn view_literals(s: Seq<Literal>) -> Seq<LiteralV>
    decreases s,
{
    if s.len() == 0 {
        Seq::empty()
    } else {
        view_literals(s.drop_last()).push(s.last()@)
    }
}

/// Appending one literal appends its view.
pub proof fn lemma_view_literals_push(s: Seq<Literal>, x: Literal)
    ensures
        view_literals(s.push(x)) == view_literals(s).push(x@),
{
    assert(s.push(x).drop_last() =~= s);
    assert(s.push(x).last() == x);
}

/// The display text of a literal: `nil`, `true` or `false`, a number's
/// decimal text, or a string's own bytes.
pub open spec fn lit_text(l: LiteralV) -> Seq<u8> {
    match l {
        LiteralV::Nil => seq!['n' as u8, 'i' as u8, 'l' as u8],
        LiteralV::Boolean(b) => if b {
            seq!['t' as u8, 'r' as u8, 'u' as u8, 'e' as u8]
        } else {
            seq!['f' as u8, 'a' as u8, 'l' as u8, 's' as u8, 'e' as u8]
        },
        LiteralV::Number(Num::Integer(i)) => int_text(i as int),
        LiteralV::Number(Num::Float(m)) => micro_text(m as int),
        LiteralV::Str(s) => s,
    }
}

/// Renders a literal's display text.
pub fn lit_text_exec(l: &Literal) -> (r: Vec<u8>)
    ensures
        r@ == lit_text(l@),
{
    match l {
        Literal::Nil => {
            let mut v: Vec<u8> = Vec::new();
            v.push('n' as u8);
            v.push('i' as u8);
            v.push('l' as u8);
            proof {
                assert(v@ =~= lit_text(l@));
            }
            v
        },
        Literal::Boolean(b) => {
            let mut v: Vec<u8> = Vec::new();
            if *b {
                v.push('t' as u8);
                v.push('r' as u8);
                v.push('u' as u8);
                v.push('e' as u8);
            } else {
                v.push('f' as u8);
                v.push('a' as u8);
                v.push('l' as u8);
                v.push('s' as u8);
                v.push('e' as u8);
            }
            proof {
                assert(v@ =~= lit_text(l@));
            }
            v
        },
        Literal::Number(Num::Integer(i)) => fmt_i64(*i),
        Literal::Number(Num::Float(m)) => fmt_micro(*m),
        Literal::Str(s) => crate::ast::clone_bytes(s),
    }
}

/// The colour text `#RRGGBB`: a hash, then each component as uppercase
/// hexadecimal at least two digits wide, negative components shown in
/// two's complement.
pub open spec fn rgb_text(r: i64, g: i64, b: i64) -> Seq<u8> {
    seq!['#' as u8] + hex_min2((r as u64) as int) + hex_min2((g as u64) as int) + hex_min2(
        (b as u64) as int,
    )
}

/// A colour of three components.
#[derive(Debug, Clone, Copy, PartialEq, Eq, Structural)]
pub struct RGBColor {
    pub r: i64,
    pub g: i64,
    pub b: i64,
}

impl RGBColor {
    /// This colour's `#RRGGBB` text.
    pub fn as_string(&self) -> (t: Vec<u8>)
        ensures
            t@ == rgb_text(self.r, self.g, self.b),
    {
        let mut v: Vec<u8> = Vec::new();
        v.push('#' as u8);
        let ghost first = v@;
        proof {
            assert(first =~= seq!['#' as u8]);
        }
        let mut h = fmt_hex_min2(self.r as u64);
        v.append(&mut h);
        let mut h2 = fmt_hex_min2(self.g as u64);
        v.append(&mut h2);
        let mut h3 = fmt_hex_min2(self.b as u64);
        v.append(&mut h3);
        v
    }
}

/// What `rgb` returns: with exactly three integer arguments, the colour
/// text; anything else fails to convert.
pub open spec fn spec_rgb(args: Seq<LiteralV>) -> Result<LiteralV, ApplyErrorV> {
    if args.len() == 3 {
        match (args[0], args[1], args[2]) {
            (
                LiteralV::Number(Num::Integer(r)),
                LiteralV::Number(Num::Integer(g)),
                LiteralV::Number(Num::Integer(b)),
            ) => Ok(LiteralV::Str(rgb_text(r, g, b))),
            _ => Err(ApplyErrorV::Conversion),
        }
    } else {
        Err(ApplyErrorV::Conversion)
    }
}

/// The concatenation of the display texts of a run of literals.
pub open spec fn concat_text(args: Seq<LiteralV>) -> Seq<u8>
    decreases args.len(),
{
    if args.len() == 0 {
        Seq::empty()
    } else {
        concat_text(args.drop_last()) + lit_text(args.last())
    }
}

/// What `concat` returns: its arguments' display texts, joined.
pub open spec fn spec_concat(args: Seq<LiteralV>) -> Result<LiteralV, ApplyErrorV> {
    Ok(LiteralV::Str(concat_text(args)))
}

/// The `rgb` built-in.
#[derive(Debug, Clone, Copy, PartialEq, Eq, Structural)]
pub struct RGB;

impl RGB {
    /// Reads three integer arguments as a colour.
    fn make_color(&self, args: &Vec<Literal>) -> (r: Option<RGBColor>)
        ensures
            match r {
                Some(c) => args@.len() == 3 && view_literals(args@)[0] == LiteralV::Number(
                    Num::Integer(c.r),
                ) && view_literals(args@)[1] == LiteralV::Number(Num::Integer(c.g))
                    && view_literals(args@)[2] == LiteralV::Number(Num::Integer(c.b)),
                None => spec_rgb(view_literals(args@)) == Err::<LiteralV, _>(
                    ApplyErrorV::Conversion,
                ),
            },
    {
        proof {
            lemma_view_literals_index(args@);
        }
        if args.len() == 3 {
            match (&args[0], &args[1], &args[2]) {
                (
                    Literal::Number(Num::Integer(r)),
                    Literal::Number(Num::Integer(g)),
                    Literal::Number(Num::Integer(b)),
                ) => Some(RGBColor { r: *r, g: *g, b: *b }),
                _ => None,
            }
        } else {
            None
        }
    }

    /// Applies `rgb` to resolved arguments.
    pub fn call(&self, args: &Vec<Literal>) -> (r: Result<Literal, ApplyError>)
        ensures
            match (r, spec_rgb(view_literals(args@))) {
                (Ok(l), Ok(lv)) => l@ == lv,
                (Err(e1), Err(e2)) => e1@ == e2,
                _ => false,
            },
    {
        proof {
            lemma_view_literals_index(args@);
        }
        match self.make_color(args) {
            Some(c) => Ok(Literal::Str(c.as_string())),
            None => Err(ApplyError::Conversion),
        }
    }
}

/// The `concat` built-in.
#[derive(Debug, Clone, Copy, PartialEq, Eq, Structural)]
pub struct Concat;

impl Concat {
    /// Applies `concat` to resolved arguments.
    pub fn call(&self, args: &Vec<Literal>) -> (r: Result<Literal, ApplyError>)
        ensures
            match (r, spec_concat(view_literals(args@))) {
                (Ok(l), Ok(lv)) => l@ == lv,
                (Err(e1), Err(e2)) => e1@ == e2,
                _ => false,
            },
    {
        let mut out: Vec<u8> = Vec::new();
        let mut k: usize = 0;
        proof {
            lemma_view_literals_index(args@);
            assert(view_literals(args@).subrange(0, 0) =~= Seq::<LiteralV>::empty());
            assert(out@ =~= concat_text(view_literals(args@).subrange(0, 0)));
        }
        while k < args.len()
            invariant
                0 <= k <= args@.len(),
                view_literals(args@).len() == args@.len(),
                forall|i: int| 0 <= i < args@.len() ==> view_literals(args@)[i] == (
                #[trigger] args@[i])@,
                out@ == concat_text(view_literals(args@).subrange(0, k as int)),
            decreases args@.len() - k,
        {
            let mut piece = lit_text_exec(&args[k]);
            proof {
                assert(view_literals(args@).subrange(0, k as int + 1).drop_last()
                    =~= view_literals(args@).subrange(0, k as int));
                assert(view_literals(args@).subrange(0, k as int + 1).last() == view_literals(
                    args@,
                )[k as int]);
            }
            out.append(&mut piece);
            k = k + 1;
        }
        proof {
            assert(view_literals(args@).subrange(0, args@.len() as int) =~= view_literals(
                args@,
            ));
        }
        Ok(Literal::Str(out))
    }
}

/// `view_literals` gives one view per literal.
pub proof fn lemma_view_literals_index(s: Seq<Literal>)
    ensures
        view_literals(s).len() == s.len(),
        forall|i: int| 0 <= i < s.len() ==> view_literals(s)[i] == (#[trigger] s[i])@,
    decreases s,
{
    if s.len() > 0 {
        lemma_view_literals_index(s.drop_last());
        assert forall|i: int| 0 <= i < s.len() implies view_literals(s)[i] == (
        #[trigger] s[i])@ by {
            if i < s.len() - 1 {
                assert(s.drop_last()[i] == s[i]);
                assert(view_literals(s)[i] == view_literals(s.drop_last())[i]);
            } else {
                assert(s[i] == s.last());
            }
        }
    }
}

/// What calling a built-in by name returns: `rgb` and `concat` are
/// known; any other name is not found.
pub open spec fn spec_call_function(name: Seq<u8>, args: Seq<LiteralV>) -> Result<
    LiteralV,
    ApplyErrorV,
> {
    if name == crate::parser::kw_rgb_name() {
        spec_rgb(args)
    } else if name == crate::parser::kw_concat_name() {
        spec_concat(args)
    } else {
        Err(ApplyErrorV::FunctionNotFound(name))
    }
}

/// Calls a built-in function by name.
pub fn call_function(name: &Vec<u8>, args: &Vec<Literal>) -> (r: Result<Literal, ApplyError>)
    ensures
        match (r, spec_call_function(name@, view_literals(args@))) {
            (Ok(l), Ok(lv)) => l@ == lv,
            (Err(e1), Err(e2)) => e1@ == e2,
            _ => false,
        },
{
    let rgb_name = crate::parser::kw_rgb_name_vec();
    let c1 = crate::num::bytes_cmp(name, &rgb_name);
    proof {
        crate::num::lemma_bytes_cmp_eq(name@, rgb_name@);
    }
    if matches!(c1, crate::num::Cmp::Eq) {
        return RGB.call(args);
    }
    let concat_name = crate::parser::kw_concat_name_vec();
    let c2 = crate::num::bytes_cmp(name, &concat_name);
    proof {
        crate::num::lemma_bytes_cmp_eq(name@, concat_name@);
    }
    if matches!(c2, crate::num::Cmp::Eq) {
        return Concat.call(args);
    }
    Err(ApplyError::FunctionNotFound(crate::ast::clone_bytes(name)))
}

/// What resolving a value against a feature yields: a literal stands
/// for itself; a function call resolves its arguments left to right and
/// applies the built-in; a binding resolves its inline value, or reads
/// its selection from the feature.
pub open spec fn spec_resolve(v: ValueV, f: FeatureV) -> Result<LiteralV, ApplyErrorV>
    decreases v,
{
    match v {
        ValueV::Lit(l) => Ok(l),
        ValueV::Fn(fc) => match spec_resolve_args(fc.args, f) {
            Ok(lits) => spec_call_function(fc.name, lits),
            Err(e) => Err(e),
        },
        ValueV::Data(d) => match d.constructor {
            crate::ast::ConstructorV::Val(inner) => spec_resolve(*inner, f),
            crate::ast::ConstructorV::Select(sel) => spec_select(sel, f),
        },
    }
}

/// Resolves each argument in turn; the first failure is the failure of
/// the whole list.
pub open spec fn spec_resolve_args(args: Seq<ValueV>, f: FeatureV) -> Result<
    Seq<LiteralV>,
    ApplyErrorV,
>
    decreases args,
{
    if args.len() == 0 {
        Ok(Seq::empty())
    } else {
        match spec_resolve_args(args.drop_last(), f) {
            Ok(lits) => match spec_resolve(args.last(), f) {
                Ok(l) => Ok(lits.push(l)),
                Err(e) => Err(e),
            },
            Err(e) => Err(e),
        }
    }
}

/// Resolves a value against a feature.
pub fn resolve(v: &Value, f: &Feature) -> (r: Result<Literal, ApplyError>)
    ensures
        match (r, spec_resolve(view_value(*v), f@)) {
            (Ok(l), Ok(lv)) => l@ == lv,
            (Err(e1), Err(e2)) => e1@ == e2,
            _ => false,
        },
    decreases v,
{
    match v {
        Value::Lit(l) => Ok(clone_literal(l)),
        Value::Fn(fc) => {
            proof {
                crate::ast::lemma_view_values_index(fc.args@);
            }
            match resolve_args(&fc.args, f) {
                Ok(lits) => call_function(&fc.name, &lits),
                Err(e) => Err(e),
            }
        },
        Value::Data(d) => match &*d.constructor {
            Constructor::Val(inner) => {
                proof {
                    assert(view_value(*v) == ValueV::Data(crate::ast::view_data(*d)));
                    assert(crate::ast::view_constructor(*d.constructor)
                        == crate::ast::ConstructorV::Val(Box::new(view_value(*inner))));
                }
                resolve(inner, f)
            },
            Constructor::Select(sel) => select_literal(sel, f),
        },
    }
}

/// A failure at one argument is the failure of the whole list, once
/// every earlier argument resolved.
proof fn lemma_resolve_args_err(s: Seq<ValueV>, f: FeatureV, k: int)
    requires
        0 <= k < s.len(),
        spec_resolve_args(s.subrange(0, k), f) is Ok,
        spec_resolve(s[k], f) is Err,
    ensures
        spec_resolve_args(s, f) == Err::<Seq<LiteralV>, _>(
            spec_resolve(s[k], f)->Err_0,
        ),
    decreases s.len(),
{
    if k == s.len() - 1 {
        assert(s.drop_last() =~= s.subrange(0, k));
        assert(s.last() == s[k]);
    } else {
        assert(s.drop_last().subrange(0, k) =~= s.subrange(0, k));
        assert(s.drop_last()[k] == s[k]);
        lemma_resolve_args_err(s.drop_last(), f, k);
    }
}

/// Resolves a list of argument values.
fn resolve_args(args: &Vec<Value>, f: &Feature) -> (r: Result<Vec<Literal>, ApplyError>)
    ensures
        match (r, spec_resolve_args(view_values(args@), f@)) {
            (Ok(a), Ok(b)) => view_literals(a@) == b,
            (Err(e1), Err(e2)) => e1@ == e2,
            _ => false,
        },
    decreases args,
{
    let mut out: Vec<Literal> = Vec::new();
    let mut k: usize = 0;
    proof {
        crate::ast::lemma_view_values_index(args@);
        assert(view_values(args@).subrange(0, 0) =~= Seq::<ValueV>::empty());
        assert(view_literals(out@) =~= Seq::<LiteralV>::empty());
    }
    while k < args.len()
        invariant
            0 <= k <= args@.len(),
            view_values(args@).len() == args@.len(),
            forall|i: int| 0 <= i < args@.len() ==> view_values(args@)[i] == view_value(
                #[trigger] args@[i],
            ),
            spec_resolve_args(view_values(args@).subrange(0, k as int), f@) == Ok::<
                _,
                ApplyErrorV,
            >(view_literals(out@)),
        decreases args@.len() - k,
    {
        let ghost pre = view_values(args@).subrange(0, k as int);
        proof {
            assert(view_values(args@).subrange(0, k as int + 1).drop_last() =~= pre);
            assert(view_values(args@).subrange(0, k as int + 1).last() == view_values(
                args@,
            )[k as int]);
        }
        match resolve(&args[k], f) {
            Ok(l) => {
                proof {
                    lemma_view_literals_push(out@, l);
                }
                out.push(l);
            },
            Err(e) => {
                proof {
                    lemma_resolve_args_err(view_values(args@), f@, k as int);
                }
                return Err(e);
            },
        }
        k = k + 1;
    }
    proof {
        assert(view_values(args@).subrange(0, args@.len() as int) =~= view_values(args@));
    }
    Ok(out)
}

/// What resolving to a fixed-point quantity yields: the number's value
/// in millionths where the literal is a number in range, and a
/// conversion failure otherwise.
pub open spec fn spec_resolve_micro(v: ValueV, f: FeatureV) -> Result<i64, ApplyErrorV> {
    match spec_resolve(v, f) {
        Ok(LiteralV::Number(n)) => if i64::MIN <= n.micro_value() <= i64::MAX {
            Ok(n.micro_value() as i64)
        } else {
            Err(ApplyErrorV::Conversion)
        },
        Ok(_) => Err(ApplyErrorV::Conversion),
        Err(e) => Err(e),
    }
}

/// Resolves a value to a fixed-point quantity in millionths.
pub fn resolve_micro(v: &Value, f: &Feature) -> (r: Result<i64, ApplyError>)
    ensures
        match (r, spec_resolve_micro(view_value(*v), f@)) {
            (Ok(a), Ok(b)) => a == b,
            (Err(e1), Err(e2)) => e1@ == e2,
            _ => false,
        },
{
    match resolve(v, f) {
        Ok(Literal::Number(n)) => {
            match n {
                Num::Float(m) => Ok(m),
                Num::Integer(i) => {
                    if -9_223_372_036_854i64 <= i && i <= 9_223_372_036_854i64 {
                        Ok(i * 1_000_000)
                    } else {
                        Err(ApplyError::Conversion)
                    }
                },
            }
        },
        Ok(_) => Err(ApplyError::Conversion),
        Err(e) => Err(e),
    }
}

/// What resolving to text yields: the string's bytes where the literal
/// is a string, and a conversion failure otherwise.
pub open spec fn spec_resolve_text(v: ValueV, f: FeatureV) -> Result<Seq<u8>, ApplyErrorV> {
    match spec_resolve(v, f) {
        Ok(LiteralV::Str(s)) => Ok(s),
        Ok(_) => Err(ApplyErrorV::Conversion),
        Err(e) => Err(e),
    }
}

/// Resolves a value to text.
pub fn resolve_text(v: &Value, f: &Feature) -> (r: Result<Vec<u8>, ApplyError>)
    ensures
        match (r, spec_resolve_text(view_value(*v), f@)) {
            (Ok(a), Ok(b)) => a@ == b,
            (Err(e1), Err(e2)) => e1@ == e2,
            _ => false,
        },
{
    match resolve(v, f) {
        Ok(Literal::Str(s)) => Ok(s),
        Ok(_) => Err(ApplyError::Conversion),
        Err(e) => Err(e),
    }
}

} // verus!
