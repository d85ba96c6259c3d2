use vstd::prelude::*;

use crate::token::Symbol;

verus! {

/// A number as it flows through a postfix evaluation: the exact fraction
/// `num / den`, or `NotANumber` where a division by zero, or a numerator or
/// denominator beyond the range of `i64`, left no defined value.
#[derive(Debug, Clone, Copy, PartialEq, Eq, Structural)]
pub enum Value {
    Ratio { num: i64, den: i64 },
    NotANumber,
}

pub open spec fn fits_i64(x: int) -> bool {
    i64::MIN <= x <= i64::MAX
}

/// The fraction `n / d` where it is defined and representable.
pub open spec fn ratio_or_nan(n: int, d: int) -> Value {
    if d != 0 && fits_i64(n) && fits_i64(d) {
        Value::Ratio { num: n as i64, den: d as i64 }
    } else {
        Value::NotANumber
    }
}

/// The integer `v` as a value.
pub open spec fn int_value(v: i64) -> Value {
    Value::Ratio { num: v, den: 1 }
}

/// `a OP b` in fraction arithmetic: `a / b` has the denominator `a.den * b.num`,
/// which is zero exactly when `b` is zero.
pub open spec fn apply_spec(s: Symbol, a: Value, b: Value) -> Value {
    match (a, b) {
        (Value::Ratio { num: an, den: ad }, Value::Ratio { num: bn, den: bd }) => match s {
            Symbol::Add => ratio_or_nan(an * bd + bn * ad, ad * bd),
            Symbol::Subtract => ratio_or_nan(an * bd - bn * ad, ad * bd),
            Symbol::Multiply => ratio_or_nan(an * bn, ad * bd),
            Symbol::Divide => ratio_or_nan(an * bd, ad * bn),
        },
        _ => Value::NotANumber,
    }
}

/// Two values are equal when both are defined fractions with the same quotient.
pub open spec fn same_value(a: Value, b: Value) -> bool {
    match (a, b) {
        (Value::Ratio { num: an, den: ad }, Value::Ratio { num: bn, den: bd }) => ad != 0 && bd
            != 0 && an * bd == bn * ad,
        _ => false,
    }
}

proof fn lemma_product_bound(x: int, y: int)
    requires
        fits_i64(x),
        fits_i64(y),
    ensures
        -0x4000_0000_0000_0000_0000_0000_0000_0000 <= x * y <= 0x4000_0000_0000_0000_0000_0000_0000_0000,
{
    let b: int = 0x8000_0000_0000_0000;
    assert(-b <= x <= b && -b <= y <= b);
    assert(-b * b <= x * y <= b * b) by (nonlinear_arith)
        requires
            -b <= x <= b,
            -b <= y <= b,
            b >= 0,
    ;
}

fn make_ratio(n: i128, d: i128) -> (r: Value)
    ensures
        r == ratio_or_nan(n as int, d as int),
{
    if d != 0 && i64::MIN as i128 <= n && n <= i64::MAX as i128 && i64::MIN as i128 <= d && d
        <= i64::MAX as i128 {
        Value::Ratio { num: n as i64, den: d as i64 }
    } else {
        Value::NotANumber
    }
}

impl Value {
    /// The integer `v` as a value.
    pub fn from_int(v: i64) -> (r: Value)
        ensures
            r == int_value(v),
    {
        Value::Ratio { num: v, den: 1 }
    }

    /// Applies the operator `s` with `self` as its left operand and `b` as its right.
    pub fn apply(self, s: Symbol, b: Value) -> (r: Value)
        ensures
            r == apply_spec(s, self, b),
    {
        match (self, b) {
            (Value::Ratio { num: an, den: ad }, Value::Ratio { num: bn, den: bd }) => {
                proof {
                    lemma_product_bound(an as int, bd as int);
                    lemma_product_bound(bn as int, ad as int);
                    lemma_product_bound(an as int, bn as int);
                    lemma_product_bound(ad as int, bd as int);
                    lemma_product_bound(ad as int, bn as int);
                }
                let (an, ad, bn, bd) = (an as i128, ad as i128, bn as i128, bd as i128);
                match s {
                    Symbol::Add => match (an * bd).checked_add(bn * ad) {
                        Some(n) => make_ratio(n, ad * bd),
                        None => Value::NotANumber,
                    },
                    Symbol::Subtract => match (an * bd).checked_sub(bn * ad) {
                        Some(n) => make_ratio(n, ad * bd),
                        None => Value::NotANumber,
                    },
                    Symbol::Multiply => make_ratio(an * bn, ad * bd),
                    Symbol::Divide => make_ratio(an * bd, ad * bn),
                }
            },
            _ => Value::NotANumber,
        }
    }
}

/// Whether two values are equal numbers. Values here are exact fractions, so
/// no tolerance for rounding is needed; a value that is not a number equals
/// nothing, itself included.
pub fn float_eq(a: Value, b: Value) -> (r: bool)
    ensures
        r == same_value(a, b),
{
    match (a, b) {
        (Value::Ratio { num: an, den: ad }, Value::Ratio { num: bn, den: bd }) => {
            proof {
                lemma_product_bound(an as int, bd as int);
                lemma_product_bound(bn as int, ad as int);
            }
            ad != 0 && bd != 0 && (an as i128) * (bd as i128) == (bn as i128) * (ad as i128)
        },
        _ => false,
    }
}

} // verus!
