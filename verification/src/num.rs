//! Equality, ordering and text rendering for numbers and literals.
//!
//! Numbers compare by their value in millionths of a unit, so an integer
//! and a fixed-point number holding the same quantity are equal and order
//! together.  Literals of the same variant compare by value; literals of
//! different variants are equal-comparable (never equal) but not
//! order-comparable.
use vstd::prelude::*;

use crate::ast::{Literal, LiteralV, Num, MICRO};

verus! {

/// Result of an order comparison.
#[derive(Debug, Clone, Copy, PartialEq, Eq, Structural)]
pub enum Cmp {
    Lt,
    Eq,
    Gt,
}

/// The ordering of two unbounded integers.
pub open spec fn int_cmp(a: int, b: int) -> Cmp {
    if a < b {
        Cmp::Lt
    } else if a == b {
        Cmp::Eq
    } else {
        Cmp::Gt
    }
}

/// Whether two numbers hold the same quantity.
pub fn num_eq(a: &Num, b: &Num) -> (r: bool)
    ensures
        r == (a.micro_value() == b.micro_value()),
{
    micro_128(a) == micro_128(b)
}

/// How two numbers order.
pub fn num_cmp(a: &Num, b: &Num) -> (r: Cmp)
    ensures
        r == int_cmp(a.micro_value(), b.micro_value()),
{
    let x = micro_128(a);
    let y = micro_128(b);
    if x < y {
        Cmp::Lt
    } else if x == y {
        Cmp::Eq
    } else {
        Cmp::Gt
    }
}

/// The value of a number in millionths, widened so that promotion of an
/// integer can never overflow.
fn micro_128(n: &Num) -> (r: i128)
    ensures
        r as int == n.micro_value(),
{
    match n {
        Num::Integer(i) => (*i as i128) * 1_000_000i128,
        Num::Float(m) => *m as i128,
    }
}

/// Lexicographic order of two byte strings.
pub open spec fn bytes_cmp_spec(a: Seq<u8>, b: Seq<u8>) -> Cmp
    decreases a.len(),
{
    if a.len() == 0 && b.len() == 0 {
        Cmp::Eq
    } else if a.len() == 0 {
        Cmp::Lt
    } else if b.len() == 0 {
        Cmp::Gt
    } else if a[0] < b[0] {
        Cmp::Lt
    } else if a[0] > b[0] {
        Cmp::Gt
    } else {
        bytes_cmp_spec(a.drop_first(), b.drop_first())
    }
}

/// Compares two byte strings lexicographically.
pub fn bytes_cmp(a: &Vec<u8>, b: &Vec<u8>) -> (r: Cmp)
    ensures
        r == bytes_cmp_spec(a@, b@),
{
    let mut i: usize = 0;
    proof {
        assert(a@.subrange(0, a@.len() as int) =~= a@);
        assert(b@.subrange(0, b@.len() as int) =~= b@);
    }
    while i < a.len() && i < b.len()
        invariant
            0 <= i <= a.len(),
            0 <= i <= b.len(),
            bytes_cmp_spec(a@, b@) == bytes_cmp_spec(
                a@.subrange(i as int, a@.len() as int),
                b@.subrange(i as int, b@.len() as int),
            ),
            forall|j: int| 0 <= j < i ==> a@[j] == b@[j],
        decreases a.len() - i,
    {
        let x = a[i];
        let y = b[i];
        proof {
            let sa = a@.subrange(i as int, a@.len() as int);
            let sb = b@.subrange(i as int, b@.len() as int);
            assert(sa[0] == a@[i as int]);
            assert(sb[0] == b@[i as int]);
            assert(sa.drop_first() =~= a@.subrange(i as int + 1, a@.len() as int));
            assert(sb.drop_first() =~= b@.subrange(i as int + 1, b@.len() as int));
        }
        if x < y {
            return Cmp::Lt;
        } else if x > y {
            return Cmp::Gt;
        }
        i = i + 1;
    }
    proof {
        let sa = a@.subrange(i as int, a@.len() as int);
        let sb = b@.subrange(i as int, b@.len() as int);
        assert(sa.len() == 0 || sb.len() == 0);
    }
    if a.len() == b.len() {
        proof {
            assert(a@ =~= b@);
        }
        Cmp::Eq
    } else if i < b.len() {
        Cmp::Lt
    } else {
        Cmp::Gt
    }
}

/// Whether two literals are equal: same variant and same content.
/// Literals of different variants are unequal, never an error.
pub open spec fn lit_eq_spec(a: LiteralV, b: LiteralV) -> bool {
    match (a, b) {
        (LiteralV::Nil, LiteralV::Nil) => true,
        (LiteralV::Number(x), LiteralV::Number(y)) => x.micro_value() == y.micro_value(),
        (LiteralV::Str(x), LiteralV::Str(y)) => x == y,
        (LiteralV::Boolean(x), LiteralV::Boolean(y)) => x == y,
        _ => false,
    }
}

/// How two literals order, where they do: numbers by quantity, strings
/// lexicographically, booleans with `false` before `true`, `Nil` equal to
/// itself.  Literals of different variants do not order.
pub open spec fn lit_cmp_spec(a: LiteralV, b: LiteralV) -> Option<Cmp> {
    match (a, b) {
        (LiteralV::Nil, LiteralV::Nil) => Some(Cmp::Eq),
        (LiteralV::Number(x), LiteralV::Number(y)) => Some(
            int_cmp(x.micro_value(), y.micro_value()),
        ),
        (LiteralV::Str(x), LiteralV::Str(y)) => Some(bytes_cmp_spec(x, y)),
        (LiteralV::Boolean(x), LiteralV::Boolean(y)) => Some(
            if x == y {
                Cmp::Eq
            } else if y {
                Cmp::Lt
            } else {
                Cmp::Gt
            },
        ),
        _ => None,
    }
}

/// Tests two literals for equality.
pub fn lit_eq(a: &Literal, b: &Literal) -> (r: bool)
    ensures
        r == lit_eq_spec(a@, b@),
{
    match (a, b) {
        (Literal::Nil, Literal::Nil) => true,
        (Literal::Number(x), Literal::Number(y)) => num_eq(x, y),
        (Literal::Str(x), Literal::Str(y)) => {
            let c = bytes_cmp(x, y);
            proof {
                lemma_bytes_cmp_eq(x@, y@);
            }
            matches!(c, Cmp::Eq)
        },
        (Literal::Boolean(x), Literal::Boolean(y)) => x == y,
        _ => false,
    }
}

/// Orders two literals, where their variants allow it.
pub fn lit_cmp(a: &Literal, b: &Literal) -> (r: Option<Cmp>)
    ensures
        r == lit_cmp_spec(a@, b@),
{
    match (a, b) {
        (Literal::Nil, Literal::Nil) => Some(Cmp::Eq),
        (Literal::Number(x), Literal::Number(y)) => Some(num_cmp(x, y)),
        (Literal::Str(x), Literal::Str(y)) => Some(bytes_cmp(x, y)),
        (Literal::Boolean(x), Literal::Boolean(y)) => Some(
            if x == y {
                Cmp::Eq
            } else if *y {
                Cmp::Lt
            } else {
                Cmp::Gt
            },
        ),
        _ => None,
    }
}

/// Decimal digits of a non-negative integer, most significant first.
pub open spec fn dec_digits(n: int) -> Seq<u8>
    decreases n,
{
    if n < 10 {
        seq![(48 + n) as u8]
    } else {
        dec_digits(n / 10).push((48 + n % 10) as u8)
    }
}

/// Renders a non-negative integer in decimal.
pub fn fmt_u64(n: u64) -> (r: Vec<u8>)
    ensures
        r@ == dec_digits(n as int),
    decreases n,
{
    if n < 10 {
        let mut v: Vec<u8> = Vec::new();
        v.push(48 + (n as u8));
        proof {
            assert(v@ =~= dec_digits(n as int));
        }
        v
    } else {
        let mut v = fmt_u64(n / 10);
        v.push(48 + ((n % 10) as u8));
        v
    }
}

/// Text of a signed integer: decimal digits with a leading `-` where the
/// value is negative.
pub open spec fn int_text(v: int) -> Seq<u8> {
    if v >= 0 {
        dec_digits(v)
    } else {
        seq![45u8] + dec_digits(-v)
    }
}

/// Renders a signed integer in decimal.
pub fn fmt_i64(i: i64) -> (r: Vec<u8>)
    ensures
        r@ == int_text(i as int),
{
    if i >= 0 {
        fmt_u64(i as u64)
    } else {
        let mag: u64 = if i == i64::MIN {
            9223372036854775808u64
        } else {
            (0 - i) as u64
        };
        let digits = fmt_u64(mag);
        let mut v: Vec<u8> = Vec::new();
        v.push(45);
        let mut k: usize = 0;
        while k < digits.len()
            invariant
                0 <= k <= digits.len(),
                v@ == seq![45u8] + digits@.subrange(0, k as int),
            decreases digits.len() - k,
        {
            v.push(digits[k]);
            proof {
                assert(seq![45u8] + digits@.subrange(0, k as int + 1) =~= (seq![45u8]
                    + digits@.subrange(0, k as int)).push(digits@[k as int]));
            }
            k = k + 1;
        }
        proof {
            assert(digits@.subrange(0, digits@.len() as int) =~= digits@);
        }
        v
    }
}

/// Exactly `w` decimal digits of `n`, zero padded, most significant first.
pub open spec fn padded_digits(n: int, w: nat) -> Seq<u8>
    decreases w,
{
    if w == 0 {
        Seq::empty()
    } else {
        padded_digits(n / 10, (w - 1) as nat).push((48 + n % 10) as u8)
    }
}

/// Renders exactly `w` zero-padded decimal digits of `n`.
pub fn fmt_padded(n: u64, w: usize) -> (r: Vec<u8>)
    ensures
        r@ == padded_digits(n as int, w as nat),
    decreases w,
{
    if w == 0 {
        Vec::new()
    } else {
        let mut v = fmt_padded(n / 10, w - 1);
        v.push(48 + ((n % 10) as u8));
        v
    }
}

/// `s` with its trailing `0` digits removed.
pub open spec fn trim_zeros(s: Seq<u8>) -> Seq<u8>
    decreases s.len(),
{
    if s.len() > 0 && s.last() == 48u8 {
        trim_zeros(s.drop_last())
    } else {
        s
    }
}

/// Text of a fixed-point value held in millionths: the integer part, then,
/// where the fraction is not zero, a point and the fraction's digits with
/// trailing zeros removed.
pub open spec fn micro_text(mv: int) -> Seq<u8> {
    let sign: Seq<u8> = if mv < 0 {
        seq![45u8]
    } else {
        Seq::empty()
    };
    let a = if mv < 0 {
        -mv
    } else {
        mv
    };
    let whole = dec_digits(a / 1_000_000);
    let frac = a % 1_000_000;
    if frac == 0 {
        sign + whole
    } else {
        sign + whole + seq![46u8] + trim_zeros(padded_digits(frac, 6))
    }
}

/// Renders a fixed-point value held in millionths.
pub fn fmt_micro(m: i64) -> (r: Vec<u8>)
    ensures
        r@ == micro_text(m as int),
{
    let mag: u64 = if m == i64::MIN {
        9223372036854775808u64
    } else if m < 0 {
        (0 - m) as u64
    } else {
        m as u64
    };
    let whole = fmt_u64(mag / 1_000_000);
    let frac: u64 = mag % 1_000_000;
    let mut v: Vec<u8> = Vec::new();
    if m < 0 {
        v.push(45);
    }
    let mut k: usize = 0;
    let ghost sign: Seq<u8> = if m < 0 {
        seq![45u8]
    } else {
        Seq::<u8>::empty()
    };
    while k < whole.len()
        invariant
            0 <= k <= whole.len(),
            v@ == sign + whole@.subrange(0, k as int),
        decreases whole.len() - k,
    {
        v.push(whole[k]);
        proof {
            assert(sign + whole@.subrange(0, k as int + 1) =~= (sign + whole@.subrange(
                0,
                k as int,
            )).push(whole@[k as int]));
        }
        k = k + 1;
    }
    proof {
        assert(whole@.subrange(0, whole@.len() as int) =~= whole@);
    }
    if frac == 0 {
        return v;
    }
    v.push(46);
    let mut fd = fmt_padded(frac, 6);
    while fd.len() > 0 && fd[fd.len() - 1] == 48
        invariant
            trim_zeros(fd@) == trim_zeros(padded_digits(frac as int, 6)),
        decreases fd.len(),
    {
        let _last = fd.pop();
    }
    proof {
        assert(trim_zeros(fd@) == fd@);
    }
    let ghost before: Seq<u8> = v@;
    let mut k2: usize = 0;
    while k2 < fd.len()
        invariant
            0 <= k2 <= fd.len(),
            v@ == before + fd@.subrange(0, k2 as int),
        decreases fd.len() - k2,
    {
        v.push(fd[k2]);
        proof {
            assert(before + fd@.subrange(0, k2 as int + 1) =~= (before + fd@.subrange(
                0,
                k2 as int,
            )).push(fd@[k2 as int]));
        }
        k2 = k2 + 1;
    }
    proof {
        assert(fd@.subrange(0, fd@.len() as int) =~= fd@);
        assert(v@ =~= micro_text(m as int));
    }
    v
}

/// Uppercase hexadecimal digits of a non-negative integer, most
/// significant first.
pub open spec fn hex_digits(n: int) -> Seq<u8>
    decreases n,
{
    if n < 16 {
        seq![hex_digit(n)]
    } else {
        hex_digits(n / 16).push(hex_digit(n % 16))
    }
}

/// One uppercase hexadecimal digit.
pub open spec fn hex_digit(d: int) -> u8 {
    if d < 10 {
        (48 + d) as u8
    } else {
        (55 + d) as u8
    }
}

/// Hexadecimal text at least two digits wide, as colour components use.
pub open spec fn hex_min2(n: int) -> Seq<u8> {
    if n < 16 {
        seq![48u8, hex_digit(n)]
    } else {
        hex_digits(n)
    }
}

/// Renders `n` as uppercase hexadecimal, zero padded to two digits.
pub fn fmt_hex_min2(n: u64) -> (r: Vec<u8>)
    ensures
        r@ == hex_min2(n as int),
{
    if n < 16 {
        let mut v: Vec<u8> = Vec::new();
        v.push(48);
        v.push(hex_digit_exec(n as u8));
        proof {
            assert(v@ =~= hex_min2(n as int));
        }
        v
    } else {
        fmt_hex(n)
    }
}

/// Renders the hexadecimal digits of `n`.
fn fmt_hex(n: u64) -> (r: Vec<u8>)
    ensures
        r@ == hex_digits(n as int),
    decreases n,
{
    if n < 16 {
        let mut v: Vec<u8> = Vec::new();
        v.push(hex_digit_exec(n as u8));
        proof {
            assert(v@ =~= hex_digits(n as int));
        }
        v
    } else {
        let mut v = fmt_hex(n / 16);
        v.push(hex_digit_exec((n % 16) as u8));
        v
    }
}

/// One uppercase hexadecimal digit.
fn hex_digit_exec(d: u8) -> (r: u8)
    requires
        d < 16,
    ensures
        r == hex_digit(d as int),
{
    if d < 10 {
        48 + d
    } else {
        55 + d
    }
}

/// Byte-string comparison returns `Eq` exactly on equal strings.
pub proof fn lemma_bytes_cmp_eq(a: Seq<u8>, b: Seq<u8>)
    ensures
        (bytes_cmp_spec(a, b) == Cmp::Eq) == (a == b),
    decreases a.len(),
{
    if a.len() == 0 && b.len() == 0 {
        assert(a =~= b);
    } else if a.len() == 0 || b.len() == 0 {
    } else if a[0] == b[0] {
        lemma_bytes_cmp_eq(a.drop_first(), b.drop_first());
        if bytes_cmp_spec(a, b) == Cmp::Eq {
            assert(a.drop_first() == b.drop_first());
            assert(a.len() == b.len());
            assert forall|i: int| 0 <= i < a.len() implies a[i] == b[i] by {
                if i > 0 {
                    assert(a[i] == a.drop_first()[i - 1]);
                    assert(b[i] == b.drop_first()[i - 1]);
                }
            }
            assert(a =~= b);
        } else {
            if a == b {
                assert(a.drop_first() =~= b.drop_first());
            }
        }
    } else {
        if a == b {
            assert(a[0] == b[0]);
        }
    }
}

} // verus!
