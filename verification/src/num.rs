//! Exact rational numbers on 64-bit components.
//!
//! A value is `num / den` with `den > 0`.  Representations are not reduced:
//! `8/4` and `2/1` are the same mathematical value, compared with `rat_eq`.
//! Every operation either returns the exact result or reports that it does
//! not fit the representation (`EvalError::Overflow`), or that it is
//! mathematically undefined (`EvalError::DomainError`).

use vstd::prelude::*;
use vstd::arithmetic::div_mod::{lemma_div_nonincreasing, lemma_mod_bound};
use crate::error::EvalError;

verus! {

/// An exact rational number; well-formed when `den > 0`.
#[derive(Clone, Copy, Debug, PartialEq, Eq, Structural)]
pub struct Rat {
    pub num: i64,
    pub den: i64,
}

impl Rat {
    /// Well-formedness: the denominator is positive.
    pub open spec fn wf(self) -> bool {
        self.den > 0
    }

    /// The rational with the given numerator and (positive) denominator.
    pub fn new(num: i64, den: i64) -> (r: Rat)
        requires
            den > 0,
        ensures
            r.num == num,
            r.den == den,
            r.wf(),
    {
        Rat { num, den }
    }

    /// The rational equal to the integer `n`.
    pub fn from_int(n: i64) -> (r: Rat)
        ensures
            r.num == n,
            r.den == 1,
            r.wf(),
    {
        Rat { num: n, den: 1 }
    }

    /// Mathematical equality of the two values (cross multiplication).
    pub fn eq_value(self, o: Rat) -> (r: bool)
        requires
            self.wf(),
            o.wf(),
        ensures
            r == rat_eq(self, o),
    {
        proof {
            lemma_mul_den_fits(self.num as int, o.den as int);
            lemma_mul_den_fits(o.num as int, self.den as int);
        }
        (self.num as i128) * (o.den as i128) == (o.num as i128) * (self.den as i128)
    }

    /// Mathematical order: `self <= o`.
    pub fn le_value(self, o: Rat) -> (r: bool)
        requires
            self.wf(),
            o.wf(),
        ensures
            r == rat_le(self, o),
    {
        proof {
            lemma_mul_den_fits(self.num as int, o.den as int);
            lemma_mul_den_fits(o.num as int, self.den as int);
        }
        (self.num as i128) * (o.den as i128) <= (o.num as i128) * (self.den as i128)
    }
}

/// Does the mathematical integer `x` fit an `i64`?
pub open spec fn in_i64(x: int) -> bool {
    i64::MIN <= x <= i64::MAX
}

/// Absolute value of a mathematical integer.
pub open spec fn abs_i(x: int) -> int {
    if x < 0 {
        -x
    } else {
        x
    }
}

/// The two rationals denote the same value.
pub open spec fn rat_eq(a: Rat, b: Rat) -> bool {
    a.num * b.den == b.num * a.den
}

/// The value of `a` is at most the value of `b` (for well-formed operands).
pub open spec fn rat_le(a: Rat, b: Rat) -> bool {
    a.num * b.den <= b.num * a.den
}

/// Exact sum, or `Overflow` where a component leaves `i64`.
pub open spec fn add_v(a: Rat, b: Rat) -> Result<Rat, EvalError> {
    let n = a.num * b.den + b.num * a.den;
    let d = a.den * b.den;
    if in_i64(n) && in_i64(d) {
        Ok(Rat { num: n as i64, den: d as i64 })
    } else {
        Err(EvalError::Overflow)
    }
}

/// Exact difference, or `Overflow`.
pub open spec fn sub_v(a: Rat, b: Rat) -> Result<Rat, EvalError> {
    let n = a.num * b.den - b.num * a.den;
    let d = a.den * b.den;
    if in_i64(n) && in_i64(d) {
        Ok(Rat { num: n as i64, den: d as i64 })
    } else {
        Err(EvalError::Overflow)
    }
}

/// Exact product, or `Overflow`.
pub open spec fn mul_v(a: Rat, b: Rat) -> Result<Rat, EvalError> {
    let n = a.num * b.num;
    let d = a.den * b.den;
    if in_i64(n) && in_i64(d) {
        Ok(Rat { num: n as i64, den: d as i64 })
    } else {
        Err(EvalError::Overflow)
    }
}

/// Exact quotient; `DomainError` on a zero divisor, else `Overflow` where a
/// component leaves `i64`.
pub open spec fn div_v(a: Rat, b: Rat) -> Result<Rat, EvalError> {
    if b.num == 0 {
        Err(EvalError::DomainError)
    } else {
        let n0 = a.num * b.den;
        let d0 = a.den * b.num;
        let n = if b.num > 0 { n0 } else { -n0 };
        let d = if b.num > 0 { d0 } else { -d0 };
        if in_i64(n) && in_i64(d) {
            Ok(Rat { num: n as i64, den: d as i64 })
        } else {
            Err(EvalError::Overflow)
        }
    }
}

/// Exact negation, or `Overflow` (only for the numerator `i64::MIN`).
pub open spec fn neg_v(a: Rat) -> Result<Rat, EvalError> {
    if in_i64(-a.num) {
        Ok(Rat { num: (-a.num) as i64, den: a.den })
    } else {
        Err(EvalError::Overflow)
    }
}

/// Does `a` denote a mathematical integer?
pub open spec fn is_int(a: Rat) -> bool {
    abs_i(a.num as int) % (a.den as int) == 0
}

/// The integer denoted by `a` (meaningful when `is_int(a)`).
pub open spec fn int_val(a: Rat) -> int {
    if a.num >= 0 {
        a.num / a.den
    } else {
        -(abs_i(a.num as int) / (a.den as int))
    }
}

/// Truncated remainder of integers: the sign of the dividend, magnitude
/// `|x| % |m|`.
pub open spec fn tmod(x: int, m: int) -> int {
    if x >= 0 {
        x % abs_i(m)
    } else {
        -(abs_i(x) % abs_i(m))
    }
}

/// Remainder of two integer-valued rationals, truncated toward zero;
/// `DomainError` where an operand is not an integer or the divisor is zero.
pub open spec fn mod_v(a: Rat, b: Rat) -> Result<Rat, EvalError> {
    if !is_int(a) || !is_int(b) {
        Err(EvalError::DomainError)
    } else {
        let m = int_val(b);
        if m == 0 {
            Err(EvalError::DomainError)
        } else {
            Ok(Rat { num: tmod(int_val(a), m) as i64, den: 1 })
        }
    }
}

/// `a` multiplied by itself `e` times, left to right, each step exact or
/// `Overflow`.
pub open spec fn rpow(a: Rat, e: nat) -> Result<Rat, EvalError>
    decreases e,
{
    if e == 0 {
        Ok(Rat { num: 1, den: 1 })
    } else {
        match rpow(a, (e - 1) as nat) {
            Ok(p) => mul_v(p, a),
            Err(er) => Err(er),
        }
    }
}

/// Exponentiation `a ** b`.  The exponent must denote an integer
/// (`DomainError` otherwise); `0` to a negative power is a `DomainError`;
/// bases denoting `0`, `1` and `-1` are closed under every integer exponent,
/// every other base is raised by repeated exact multiplication.
pub open spec fn pow_v(a: Rat, b: Rat) -> Result<Rat, EvalError> {
    if !is_int(b) {
        Err(EvalError::DomainError)
    } else {
        let e = int_val(b);
        if a.num == 0 {
            if e > 0 {
                Ok(Rat { num: 0, den: 1 })
            } else if e == 0 {
                Ok(Rat { num: 1, den: 1 })
            } else {
                Err(EvalError::DomainError)
            }
        } else if a.num == a.den {
            Ok(Rat { num: 1, den: 1 })
        } else if a.num == -a.den {
            if abs_i(e) % 2 == 0 {
                Ok(Rat { num: 1, den: 1 })
            } else {
                Ok(Rat { num: -1i64, den: 1 })
            }
        } else if e >= 0 {
            rpow(a, e as nat)
        } else {
            if a.num > 0 {
                rpow(Rat { num: a.den, den: a.num }, (-e) as nat)
            } else if a.num == i64::MIN {
                Err(EvalError::Overflow)
            } else {
                rpow(Rat { num: (-a.den) as i64, den: (-a.num) as i64 }, (-e) as nat)
            }
        }
    }
}

/// Absolute value, exact or `Overflow` (only for the numerator `i64::MIN`).
pub open spec fn abs_v(a: Rat) -> Result<Rat, EvalError> {
    if a.num >= 0 {
        Ok(a)
    } else {
        neg_v(a)
    }
}

/// The smaller of the two values (the left one where equal).
pub open spec fn min_v(a: Rat, b: Rat) -> Rat {
    if rat_le(a, b) {
        a
    } else {
        b
    }
}

/// The larger of the two values (the left one where `b <= a`).
pub open spec fn max_v(a: Rat, b: Rat) -> Rat {
    if rat_le(b, a) {
        a
    } else {
        b
    }
}

proof fn lemma_mul_den_fits(a: int, d: int)
    requires
        i64::MIN <= a <= i64::MAX,
        1 <= d <= i64::MAX,
    ensures
        -0x4000_0000_0000_0000_0000_0000_0000_0000 < a * d,
        a * d < 0x4000_0000_0000_0000_0000_0000_0000_0000,
{
    assert(-0x4000_0000_0000_0000_0000_0000_0000_0000 < a * d
        && a * d < 0x4000_0000_0000_0000_0000_0000_0000_0000) by (nonlinear_arith)
        requires
            i64::MIN <= a <= i64::MAX,
            1 <= d <= i64::MAX,
    ;
}

proof fn lemma_mul_num_fits(a: int, b: int)
    requires
        i64::MIN <= a <= i64::MAX,
        i64::MIN <= b <= i64::MAX,
    ensures
        -0x4000_0000_0000_0000_0000_0000_0000_0000 <= a * b,
        a * b <= 0x4000_0000_0000_0000_0000_0000_0000_0000,
{
    assert(-0x4000_0000_0000_0000_0000_0000_0000_0000 <= a * b
        && a * b <= 0x4000_0000_0000_0000_0000_0000_0000_0000) by (nonlinear_arith)
        requires
            i64::MIN <= a <= i64::MAX,
            i64::MIN <= b <= i64::MAX,
    ;
}

proof fn lemma_pos_mul(a: int, b: int)
    requires
        a > 0,
        b > 0,
    ensures
        a * b > 0,
{
    assert(a * b > 0) by (nonlinear_arith)
        requires
            a > 0,
            b > 0,
    ;
}

/// Exact sum.
pub fn rat_add(a: Rat, b: Rat) -> (r: Result<Rat, EvalError>)
    requires
        a.wf(),
        b.wf(),
    ensures
        r == add_v(a, b),
        r matches Ok(v) ==> v.wf(),
{
    proof {
        lemma_mul_den_fits(a.num as int, b.den as int);
        lemma_mul_den_fits(b.num as int, a.den as int);
        lemma_mul_den_fits(a.den as int, b.den as int);
        lemma_pos_mul(a.den as int, b.den as int);
    }
    let n: i128 = (a.num as i128) * (b.den as i128) + (b.num as i128) * (a.den as i128);
    let d: i128 = (a.den as i128) * (b.den as i128);
    if n < i64::MIN as i128 || n > i64::MAX as i128 || d > i64::MAX as i128 {
        Err(EvalError::Overflow)
    } else {
        Ok(Rat { num: n as i64, den: d as i64 })
    }
}

/// Exact difference.
pub fn rat_sub(a: Rat, b: Rat) -> (r: Result<Rat, EvalError>)
    requires
        a.wf(),
        b.wf(),
    ensures
        r == sub_v(a, b),
        r matches Ok(v) ==> v.wf(),
{
    proof {
        lemma_mul_den_fits(a.num as int, b.den as int);
        lemma_mul_den_fits(b.num as int, a.den as int);
        lemma_mul_den_fits(a.den as int, b.den as int);
        lemma_pos_mul(a.den as int, b.den as int);
    }
    let n: i128 = (a.num as i128) * (b.den as i128) - (b.num as i128) * (a.den as i128);
    let d: i128 = (a.den as i128) * (b.den as i128);
    if n < i64::MIN as i128 || n > i64::MAX as i128 || d > i64::MAX as i128 {
        Err(EvalError::Overflow)
    } else {
        Ok(Rat { num: n as i64, den: d as i64 })
    }
}

/// Exact product.
pub fn rat_mul(a: Rat, b: Rat) -> (r: Result<Rat, EvalError>)
    requires
        a.wf(),
        b.wf(),
    ensures
        r == mul_v(a, b),
        r matches Ok(v) ==> v.wf(),
{
    proof {
        lemma_mul_num_fits(a.num as int, b.num as int);
        lemma_mul_den_fits(a.den as int, b.den as int);
        lemma_pos_mul(a.den as int, b.den as int);
    }
    let n: i128 = (a.num as i128) * (b.num as i128);
    let d: i128 = (a.den as i128) * (b.den as i128);
    if n < i64::MIN as i128 || n > i64::MAX as i128 || d > i64::MAX as i128 {
        Err(EvalError::Overflow)
    } else {
        Ok(Rat { num: n as i64, den: d as i64 })
    }
}

/// Exact quotient.
pub fn rat_div(a: Rat, b: Rat) -> (r: Result<Rat, EvalError>)
    requires
        a.wf(),
        b.wf(),
    ensures
        r == div_v(a, b),
        r matches Ok(v) ==> v.wf(),
{
    if b.num == 0 {
        return Err(EvalError::DomainError);
    }
    proof {
        lemma_mul_den_fits(a.num as int, b.den as int);
        lemma_mul_num_fits(a.den as int, b.num as int);
        if b.num > 0 {
            lemma_pos_mul(a.den as int, b.num as int);
        } else {
            lemma_pos_mul(a.den as int, -(b.num as int));
        }
    }
    let n0: i128 = (a.num as i128) * (b.den as i128);
    let d0: i128 = (a.den as i128) * (b.num as i128);
    let n: i128 = if b.num > 0 { n0 } else { -n0 };
    let d: i128 = if b.num > 0 { d0 } else { -d0 };
    proof {
        assert((a.den as int) * (b.num as int) == -((a.den as int) * (-(b.num as int))))
            by (nonlinear_arith);
    }
    if n < i64::MIN as i128 || n > i64::MAX as i128 || d > i64::MAX as i128 {
        Err(EvalError::Overflow)
    } else {
        Ok(Rat { num: n as i64, den: d as i64 })
    }
}

/// Exact negation.
pub fn rat_neg(a: Rat) -> (r: Result<Rat, EvalError>)
    requires
        a.wf(),
    ensures
        r == neg_v(a),
        r matches Ok(v) ==> v.wf(),
{
    let n: i128 = -(a.num as i128);
    if n > i64::MAX as i128 {
        Err(EvalError::Overflow)
    } else {
        Ok(Rat { num: n as i64, den: a.den })
    }
}

/// The integer a rational denotes, where it denotes one.
pub fn int_value(x: Rat) -> (r: Option<i64>)
    requires
        x.wf(),
    ensures
        is_int(x) ==> (r matches Some(v) && v as int == int_val(x)),
        !is_int(x) ==> r is None,
{
    let mag: u64 = if x.num < 0 {
        (-(x.num as i128)) as u64
    } else {
        x.num as u64
    };
    let d: u64 = x.den as u64;
    if mag % d != 0 {
        return None;
    }
    let q: u64 = mag / d;
    proof {
        lemma_div_nonincreasing(mag as int, d as int);
        vstd::arithmetic::div_mod::lemma_div_pos_is_pos(mag as int, d as int);
    }
    if x.num >= 0 {
        Some(q as i64)
    } else {
        Some((-(q as i128)) as i64)
    }
}

/// Remainder of two integer-valued rationals, truncated toward zero.
pub fn rat_mod(a: Rat, b: Rat) -> (r: Result<Rat, EvalError>)
    requires
        a.wf(),
        b.wf(),
    ensures
        r == mod_v(a, b),
        r matches Ok(v) ==> v.wf(),
{
    let va = match int_value(a) {
        Some(v) => v,
        None => {
            return Err(EvalError::DomainError);
        },
    };
    let vb = match int_value(b) {
        Some(v) => v,
        None => {
            return Err(EvalError::DomainError);
        },
    };
    if vb == 0 {
        return Err(EvalError::DomainError);
    }
    let xm: u64 = if va < 0 {
        (-(va as i128)) as u64
    } else {
        va as u64
    };
    let mm: u64 = if vb < 0 {
        (-(vb as i128)) as u64
    } else {
        vb as u64
    };
    proof {
        lemma_mod_bound(xm as int, mm as int);
    }
    let rm: u64 = xm % mm;
    let n: i64 = if va >= 0 {
        rm as i64
    } else {
        (-(rm as i128)) as i64
    };
    Ok(Rat { num: n, den: 1 })
}

proof fn lemma_rpow_err(a: Rat, k: nat, e: nat)
    requires
        k <= e,
        rpow(a, k) is Err,
    ensures
        rpow(a, e) == rpow(a, k),
    decreases e,
{
    if e > k {
        lemma_rpow_err(a, k, (e - 1) as nat);
    }
}

fn rpow_loop(base: Rat, e: u64) -> (r: Result<Rat, EvalError>)
    requires
        base.wf(),
    ensures
        r == rpow(base, e as nat),
        r matches Ok(v) ==> v.wf(),
{
    let mut acc = Rat { num: 1, den: 1 };
    let mut k: u64 = 0;
    while k < e
        invariant
            k <= e,
            base.wf(),
            acc.wf(),
            rpow(base, k as nat) == Ok::<Rat, EvalError>(acc),
        decreases e - k,
    {
        match rat_mul(acc, base) {
            Ok(v) => {
                proof {
                    assert(rpow(base, (k + 1) as nat) == mul_v(acc, base));
                }
                acc = v;
                k = k + 1;
            },
            Err(er) => {
                proof {
                    assert(rpow(base, (k + 1) as nat) == mul_v(acc, base));
                    lemma_rpow_err(base, (k + 1) as nat, e as nat);
                }
                return Err(er);
            },
        }
    }
    Ok(acc)
}

/// Exponentiation `a ** b` with an integer-valued exponent.
pub fn rat_pow(a: Rat, b: Rat) -> (r: Result<Rat, EvalError>)
    requires
        a.wf(),
        b.wf(),
    ensures
        r == pow_v(a, b),
        r matches Ok(v) ==> v.wf(),
{
    let e = match int_value(b) {
        Some(v) => v,
        None => {
            return Err(EvalError::DomainError);
        },
    };
    if a.num == 0 {
        if e > 0 {
            Ok(Rat { num: 0, den: 1 })
        } else if e == 0 {
            Ok(Rat { num: 1, den: 1 })
        } else {
            Err(EvalError::DomainError)
        }
    } else if (a.num as i128) == (a.den as i128) {
        Ok(Rat { num: 1, den: 1 })
    } else if (a.num as i128) == -(a.den as i128) {
        if (if e < 0 {
            (-(e as i128)) as u64
        } else {
            e as u64
        }) % 2 == 0 {
            Ok(Rat { num: 1, den: 1 })
        } else {
            Ok(Rat { num: -1, den: 1 })
        }
    } else if e >= 0 {
        rpow_loop(a, e as u64)
    } else {
        let emag: u64 = (-(e as i128)) as u64;
        if a.num > 0 {
            rpow_loop(Rat { num: a.den, den: a.num }, emag)
        } else if a.num == i64::MIN {
            Err(EvalError::Overflow)
        } else {
            rpow_loop(Rat { num: -a.den, den: -a.num }, emag)
        }
    }
}

/// Absolute value.
pub fn rat_abs(a: Rat) -> (r: Result<Rat, EvalError>)
    requires
        a.wf(),
    ensures
        r == abs_v(a),
        r matches Ok(v) ==> v.wf(),
{
    if a.num >= 0 {
        Ok(a)
    } else {
        rat_neg(a)
    }
}

/// The smaller value.
pub fn rat_min(a: Rat, b: Rat) -> (r: Rat)
    requires
        a.wf(),
        b.wf(),
    ensures
        r == min_v(a, b),
        r.wf(),
{
    if a.le_value(b) {
        a
    } else {
        b
    }
}

/// The larger value.
pub fn rat_max(a: Rat, b: Rat) -> (r: Rat)
    requires
        a.wf(),
        b.wf(),
    ensures
        r == max_v(a, b),
        r.wf(),
{
    if b.le_value(a) {
        a
    } else {
        b
    }
}

} // verus!
