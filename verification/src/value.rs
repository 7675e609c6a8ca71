//! The machine's tagged values and the numeric promotion rule.
//!
//! `Float` and `Double` hold IEEE-754 binary32 / binary64 bit patterns;
//! the promotion order is `Int < Long < Float < Double`, and a string
//! never takes part in arithmetic.  All arithmetic routes through
//! binary64 and is narrowed back to the selected precedence, exactly as
//! the abstract functions of `fp` describe.

use vstd::prelude::*;
use vstd::string::StringExecFns;
use crate::opcode::Opcode;
use crate::fp::{
    add_double, div_double, double_add, double_div, double_mul, double_of_float, double_of_long,
    double_rem, double_sub, double_text, double_to_float, double_to_int, double_to_long,
    double_to_text, f32_is_snan, f64_is_nan, float_of_double, float_text, float_to_double,
    float_to_text, int_of_double, long_of_double, long_to_double, mul_double, rem_double,
    sub_double,
};

verus! {

/// A value held on the operand stack or in the constant pool.  `Float`
/// and `Double` carry IEEE-754 binary32 / binary64 bit patterns.
#[derive(Debug)]
pub enum Stackable {
    Int(i32),
    Long(i64),
    Float(u32),
    Double(u64),
    String(String),
}

/// The mathematical shape of a `Stackable`: the same five variants, with
/// a string abstracted to its character sequence.
pub enum StackVal {
    Int(i32),
    Long(i64),
    Float(u32),
    Double(u64),
    Str(Seq<char>),
}

impl View for Stackable {
    type V = StackVal;

    open spec fn view(&self) -> StackVal {
        match self {
            Stackable::Int(i) => StackVal::Int(*i),
            Stackable::Long(l) => StackVal::Long(*l),
            Stackable::Float(f) => StackVal::Float(*f),
            Stackable::Double(d) => StackVal::Double(*d),
            Stackable::String(s) => StackVal::Str(s@),
        }
    }
}

impl DeepView for Stackable {
    type V = StackVal;

    open spec fn deep_view(&self) -> StackVal {
        self.view()
    }
}

impl Clone for Stackable {
    fn clone(&self) -> (r: Self)
        ensures
            r@ == self@,
    {
        match self {
            Stackable::Int(i) => Stackable::Int(*i),
            Stackable::Long(l) => Stackable::Long(*l),
            Stackable::Float(f) => Stackable::Float(*f),
            Stackable::Double(d) => Stackable::Double(*d),
            Stackable::String(s) => Stackable::String(s.clone()),
        }
    }
}

impl PartialEq for Stackable {
    /// Structural equality: same variant, same payload (for `Float` and
    /// `Double`, the same bit pattern).
    fn eq(&self, other: &Self) -> (r: bool)
        ensures
            r == (self@ == other@),
    {
        match (self, other) {
            (Stackable::Int(a), Stackable::Int(b)) => *a == *b,
            (Stackable::Long(a), Stackable::Long(b)) => *a == *b,
            (Stackable::Float(a), Stackable::Float(b)) => *a == *b,
            (Stackable::Double(a), Stackable::Double(b)) => *a == *b,
            (Stackable::String(a), Stackable::String(b)) => *a == *b,
            _ => false,
        }
    }
}

impl vstd::std_specs::cmp::PartialEqSpecImpl for Stackable {
    open spec fn obeys_eq_spec() -> bool {
        true
    }

    open spec fn eq_spec(&self, other: &Stackable) -> bool {
        self@ == other@
    }
}

/// The promotion precedence of a numeric value.
pub open spec fn prec_of(v: StackVal) -> int {
    match v {
        StackVal::Int(_) => 0,
        StackVal::Long(_) => 1,
        StackVal::Float(_) => 2,
        StackVal::Double(_) => 3,
        StackVal::Str(_) => vstd::pervasive::arbitrary(),
    }
}

/// The binary64 bit pattern of a numeric value, as the machine widens it
/// before any arithmetic.
pub open spec fn double_of_val(v: StackVal) -> u64 {
    match v {
        StackVal::Int(i) => double_of_long(i as i64),
        StackVal::Long(l) => double_of_long(l),
        StackVal::Float(f) => double_of_float(f),
        StackVal::Double(d) => d,
        StackVal::Str(_) => vstd::pervasive::arbitrary(),
    }
}

/// The value of precedence `p` obtained by narrowing a binary64 bit
/// pattern.
pub open spec fn val_of_double(p: int, d: u64) -> StackVal {
    if p == 0 {
        StackVal::Int(int_of_double(d))
    } else if p == 1 {
        StackVal::Long(long_of_double(d))
    } else if p == 2 {
        StackVal::Float(float_of_double(d))
    } else {
        StackVal::Double(d)
    }
}

/// A numeric value widened (through binary64) to precedence `p`.
pub open spec fn widen_to(v: StackVal, p: int) -> StackVal {
    val_of_double(p, double_of_val(v))
}

/// What `promote` returns: both operands widened to the larger
/// precedence, and that precedence.
pub open spec fn promoted(a: StackVal, b: StackVal) -> (StackVal, StackVal, int) {
    let p = if prec_of(a) >= prec_of(b) {
        prec_of(a)
    } else {
        prec_of(b)
    };
    (widen_to(a, p), widen_to(b, p), p)
}

impl Stackable {
    /// Whether this value is a string (and so can take no part in
    /// arithmetic).
    pub fn is_string(&self) -> (r: bool)
        ensures
            r == (self@ is Str),
    {
        match self {
            Stackable::String(_) => true,
            _ => false,
        }
    }

    /// The promotion precedence of this value; a string has none.
    pub(crate) fn promotion_precedence(&self) -> (r: i8)
        requires
            !(self@ is Str),
        ensures
            r as int == prec_of(self@),
            0 <= r <= 3,
    {
        match self {
            Stackable::Int(_) => 0,
            Stackable::Long(_) => 1,
            Stackable::Float(_) => 2,
            Stackable::Double(_) => 3,
            Stackable::String(_) => 0,
        }
    }

    /// This value's binary64 bit pattern, the form all arithmetic uses.
    /// An `Int` survives the round trip exactly, and so does a `Float`
    /// unless it is a signaling NaN (the conversion quiets those).
    pub(crate) fn to_double_bits(&self) -> (r: u64)
        requires
            !(self@ is Str),
        ensures
            r == double_of_val(self@),
            self@ matches StackVal::Int(i) ==> int_of_double(r) == i && long_of_double(r)
                == i as i64,
            self@ matches StackVal::Float(f) ==> (!f32_is_snan(f) ==> float_of_double(r) == f),
    {
        match self {
            Stackable::Int(i) => long_to_double(*i as i64),
            Stackable::Long(l) => long_to_double(*l),
            Stackable::Float(f) => float_to_double(*f),
            Stackable::Double(d) => *d,
            Stackable::String(_) => 0,
        }
    }

    /// Narrow a binary64 bit pattern to the value of precedence `p`.
    pub(crate) fn from_double_bits(p: i8, d: u64) -> (r: Stackable)
        requires
            0 <= p <= 3,
        ensures
            r@ == val_of_double(p as int, d),
    {
        if p == 0 {
            Stackable::Int(double_to_int(d))
        } else if p == 1 {
            Stackable::Long(double_to_long(d))
        } else if p == 2 {
            Stackable::Float(double_to_float(d))
        } else {
            Stackable::Double(d)
        }
    }

    /// Widen both operands to their common precedence and return it with
    /// them.  On a pair of `Int`s the round trip through binary64 is
    /// exact, so the operands come back unchanged; so does a pair of
    /// `Float`s, unless one is a signaling NaN (the widening quiets it).
    pub(crate) fn promote(stackable1: Stackable, stackable2: Stackable) -> (r: (
        Stackable,
        Stackable,
        i8,
    ))
        requires
            !(stackable1@ is Str),
            !(stackable2@ is Str),
        ensures
            (r.0@, r.1@, r.2 as int) == promoted(stackable1@, stackable2@),
            0 <= r.2 <= 3,
            stackable1@ is Int && stackable2@ is Int ==> r.0@ == stackable1@ && r.1@
                == stackable2@,
            stackable1@ matches StackVal::Float(f1) ==> (stackable2@ matches StackVal::Float(f2)
                ==> (!f32_is_snan(f1) && !f32_is_snan(f2) ==> r.0@ == stackable1@ && r.1@
                == stackable2@)),
    {
        let left_precedence = stackable1.promotion_precedence();
        let right_precedence = stackable2.promotion_precedence();
        let max_precedence = if left_precedence >= right_precedence {
            left_precedence
        } else {
            right_precedence
        };
        let d1 = stackable1.to_double_bits();
        let d2 = stackable2.to_double_bits();
        (
            Stackable::from_double_bits(max_precedence, d1),
            Stackable::from_double_bits(max_precedence, d2),
            max_precedence,
        )
    }
}

/// Promotion selects the larger precedence, the widened operands carry
/// exactly that precedence, and each is the widening of its source.
pub proof fn lemma_promote_precedence(a: StackVal, b: StackVal)
    requires
        !(a is Str),
        !(b is Str),
    ensures
        ({
            let (wa, wb, p) = promoted(a, b);
            &&& p == if prec_of(a) >= prec_of(b) {
                prec_of(a)
            } else {
                prec_of(b)
            }
            &&& prec_of(wa) == p
            &&& prec_of(wb) == p
            &&& wa == widen_to(a, p)
            &&& wb == widen_to(b, p)
        }),
{
}

/// The binary64 result bits of one arithmetic instruction, applied to the
/// already-widened operands exactly as the machine does: `top` is the
/// popped top of the stack (the left operand), `below` the value under it.
pub open spec fn arith_bits(op: Opcode, top: StackVal, below: StackVal) -> u64 {
    let (wb, wt, p) = promoted(below, top);
    let x = double_of_val(wt);
    let y = double_of_val(wb);
    match op {
        Opcode::Add => double_add(x, y),
        Opcode::Sub => double_sub(x, y),
        Opcode::Mul => double_mul(x, y),
        Opcode::Div => double_div(x, y),
        Opcode::Mod => double_rem(x, y),
        _ => vstd::pervasive::arbitrary(),
    }
}

/// The value an arithmetic instruction pushes: the binary64 result,
/// narrowed back to the operands' common precedence.
pub open spec fn arith_val(op: Opcode, top: StackVal, below: StackVal) -> StackVal {
    val_of_double(promoted(below, top).2, arith_bits(op, top, below))
}

/// Both operands, widened as the machine widens them, are NaN bit
/// patterns — the one case IEEE-754 order-insensitivity does not cover
/// (each order propagates its left operand's payload).
pub open spec fn both_nan(top: StackVal, below: StackVal) -> bool {
    let p = promoted(below, top).2;
    f64_is_nan(double_of_val(widen_to(top, p))) && f64_is_nan(double_of_val(widen_to(below, p)))
}

/// Commutativity of `Add` and `Mul`: swapping the two operands leaves
/// the pushed value unchanged, except when both widened operands are
/// NaNs.
pub open spec fn arith_commutes(op: Opcode, top: StackVal, below: StackVal) -> bool {
    !both_nan(top, below) ==> arith_val(op, top, below) == arith_val(op, below, top)
}

/// Decimal digits of a non-negative integer.
pub open spec fn dec_digits(n: nat) -> Seq<char>
    decreases n,
{
    if n < 10 {
        seq![((n + 0x30) as u8) as char]
    } else {
        dec_digits(n / 10) + seq![((n % 10 + 0x30) as u8) as char]
    }
}

/// Decimal text of an integer, with a leading minus sign if negative.
pub open spec fn dec_text(n: int) -> Seq<char> {
    if n < 0 {
        seq!['-'] + dec_digits((-n) as nat)
    } else {
        dec_digits(n as nat)
    }
}

/// What `Dump` prints for a value: the variant-tagged text.
pub open spec fn text_of(v: StackVal) -> Seq<char> {
    match v {
        StackVal::Int(i) => dec_text(i as int),
        StackVal::Long(l) => dec_text(l as int) + seq!['L'],
        StackVal::Float(f) => float_text(f) + seq!['F'],
        StackVal::Double(d) => double_text(d) + seq!['D'],
        StackVal::Str(s) => s,
    }
}

/// Relies on `i64`'s `Display`: decimal digits with a leading `-` for a
/// negative value.
#[verifier::external_body]
fn long_to_dec(l: i64) -> (r: String)
    ensures
        r@ == dec_text(l as int),
{
    format!("{}", l)
}

impl Stackable {
    /// The variant-tagged text that `Dump` prints for this value.
    pub fn render(&self) -> (r: String)
        ensures
            r@ == text_of(self@),
    {
        match self {
            Stackable::Int(i) => long_to_dec(*i as i64),
            Stackable::Long(l) => {
                let mut s = long_to_dec(*l);
                s.append("L");
                proof {
                    reveal_strlit("L");
                    assert(s@ =~= text_of(self@));
                }
                s
            },
            Stackable::Float(f) => {
                let mut s = float_to_text(*f);
                s.append("F");
                proof {
                    reveal_strlit("F");
                    assert(s@ =~= text_of(self@));
                }
                s
            },
            Stackable::Double(d) => {
                let mut s = double_to_text(*d);
                s.append("D");
                proof {
                    reveal_strlit("D");
                    assert(s@ =~= text_of(self@));
                }
                s
            },
            Stackable::String(s) => s.clone(),
        }
    }
}

/// The arithmetic helpers the interpreter dispatches to, one per
/// instruction, on already-promoted binary64 bit patterns.
pub(crate) fn apply_arith(op: &Opcode, x: u64, y: u64) -> (r: u64)
    requires
        op matches Opcode::Add || op matches Opcode::Sub || op matches Opcode::Mul
            || op matches Opcode::Div || op matches Opcode::Mod,
    ensures
        r == match op {
            Opcode::Add => double_add(x, y),
            Opcode::Sub => double_sub(x, y),
            Opcode::Mul => double_mul(x, y),
            Opcode::Div => double_div(x, y),
            Opcode::Mod => double_rem(x, y),
            _ => vstd::pervasive::arbitrary(),
        },
        (op is Add || op is Mul) && !(f64_is_nan(x) && f64_is_nan(y)) ==> r == match op {
            Opcode::Add => double_add(y, x),
            Opcode::Mul => double_mul(y, x),
            _ => vstd::pervasive::arbitrary(),
        },
{
    match op {
        Opcode::Add => add_double(x, y),
        Opcode::Sub => sub_double(x, y),
        Opcode::Mul => mul_double(x, y),
        Opcode::Div => div_double(x, y),
        Opcode::Mod => rem_double(x, y),
        _ => 0,
    }
}

} // verus!
