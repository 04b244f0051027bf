//! Exact rational numbers with overflow-checked operations.
//!
//! A `Rat` is `num / den` with a positive denominator. Values are not kept in
//! lowest terms: every operation states exactly which (unreduced) numerator
//! and denominator it produces, so each computation is a fully determined
//! function of its inputs. Comparisons are exact, by cross-multiplication.
//! An operation whose unreduced components would leave the `i64` range
//! returns `None` instead of a wrong value.

use vstd::prelude::*;

verus! {

/// An exact rational number `num / den`; well formed when `den > 0`.
#[derive(Clone, Copy, Debug, PartialEq, Eq, Structural)]
pub struct Rat {
    pub num: i64,
    pub den: i64,
}

/// Whether `n` fits the `i64` range.
pub open spec fn in_i64(n: int) -> bool {
    -0x8000_0000_0000_0000 <= n <= 0x7fff_ffff_ffff_ffff
}

/// The rational zero, `0 / 1`.
pub open spec fn rat_zero() -> Rat {
    Rat { num: 0, den: 1 }
}

/// Exact order: `a <= b` as rationals (denominators positive).
pub open spec fn spec_le(a: Rat, b: Rat) -> bool {
    a.num * b.den <= b.num * a.den
}

/// Exact strict order: `a < b` as rationals (denominators positive).
pub open spec fn spec_lt(a: Rat, b: Rat) -> bool {
    a.num * b.den < b.num * a.den
}

/// Exact equality of the represented values (not of the representations).
pub open spec fn spec_eqv(a: Rat, b: Rat) -> bool {
    a.num * b.den == b.num * a.den
}

/// The checked sum. Equal denominators are kept (the numerators are added);
/// otherwise the cross-multiplied sum is taken. The result is `None` when a
/// component leaves the `i64` range.
pub open spec fn spec_add(a: Rat, b: Rat) -> Option<Rat> {
    if a.den == b.den {
        let n = a.num + b.num;
        if in_i64(n) {
            Some(Rat { num: n as i64, den: a.den })
        } else {
            None
        }
    } else {
        let n = a.num * b.den + b.num * a.den;
        let d = a.den * b.den;
        if in_i64(n) && in_i64(d) {
            Some(Rat { num: n as i64, den: d as i64 })
        } else {
            None
        }
    }
}

/// The checked difference. Equal denominators are kept (the numerators are
/// subtracted); otherwise the cross-multiplied difference is taken. The
/// result is `None` when a component leaves the `i64` range.
pub open spec fn spec_sub(a: Rat, b: Rat) -> Option<Rat> {
    if a.den == b.den {
        let n = a.num - b.num;
        if in_i64(n) {
            Some(Rat { num: n as i64, den: a.den })
        } else {
            None
        }
    } else {
        let n = a.num * b.den - b.num * a.den;
        let d = a.den * b.den;
        if in_i64(n) && in_i64(d) {
            Some(Rat { num: n as i64, den: d as i64 })
        } else {
            None
        }
    }
}

/// The checked product: the unreduced product when it fits `i64`.
pub open spec fn spec_mul(a: Rat, b: Rat) -> Option<Rat> {
    let n = a.num * b.num;
    let d = a.den * b.den;
    if in_i64(n) && in_i64(d) {
        Some(Rat { num: n as i64, den: d as i64 })
    } else {
        None
    }
}

/// The checked quotient of `a` by a positive count `k`: scales the
/// denominator, when the scaled denominator fits `i64`.
pub open spec fn spec_div_count(a: Rat, k: int) -> Option<Rat> {
    let d = a.den * k;
    if in_i64(d) {
        Some(Rat { num: a.num, den: d as i64 })
    } else {
        None
    }
}

impl Rat {
    /// A rational is well formed when its denominator is positive.
    pub open spec fn wf(self) -> bool {
        self.den > 0
    }

    /// Builds `num / den` from a positive denominator.
    pub fn new(num: i64, den: i64) -> (r: Rat)
        requires
            den > 0,
        ensures
            r == (Rat { num, den }),
            r.wf(),
    {
        Rat { num, den }
    }

    /// Builds the integer `n` as the rational `n / 1`.
    pub fn from_int(n: i64) -> (r: Rat)
        ensures
            r == (Rat { num: n, den: 1i64 }),
            r.wf(),
    {
        Rat { num: n, den: 1 }
    }

    /// Builds the rational zero.
    pub fn zero() -> (r: Rat)
        ensures
            r == rat_zero(),
            r.wf(),
    {
        Rat { num: 0, den: 1 }
    }
}

/// A product of an `i64` with a positive `i64` stays well inside `i128`.
proof fn lemma_prod_signed_pos(x: int, y: int)
    by (nonlinear_arith)
    requires
        -0x8000_0000_0000_0000 <= x <= 0x7fff_ffff_ffff_ffff,
        1 <= y <= 0x7fff_ffff_ffff_ffff,
    ensures
        -0x4000_0000_0000_0000_0000_0000_0000_0000 <= x * y,
        x * y <= 0x3fff_ffff_ffff_ffff_8000_0000_0000_0000,
{
}

/// A product of two `i64` values stays inside `i128`.
proof fn lemma_prod_signed(x: int, y: int)
    by (nonlinear_arith)
    requires
        -0x8000_0000_0000_0000 <= x <= 0x7fff_ffff_ffff_ffff,
        -0x8000_0000_0000_0000 <= y <= 0x7fff_ffff_ffff_ffff,
    ensures
        -0x4000_0000_0000_0000_0000_0000_0000_0000 <= x * y,
        x * y <= 0x4000_0000_0000_0000_0000_0000_0000_0000,
{
}

/// A product of two positive factors is positive.
proof fn lemma_prod_pos(x: int, y: int)
    by (nonlinear_arith)
    requires
        x >= 1,
        y >= 1,
    ensures
        x * y >= 1,
{
}

/// A positive `i64` times a positive `u64`-ranged count stays inside `i128`.
proof fn lemma_prod_pos_wide(x: int, y: int)
    by (nonlinear_arith)
    requires
        1 <= x <= 0x7fff_ffff_ffff_ffff,
        1 <= y <= 0xffff_ffff_ffff_ffff,
    ensures
        1 <= x * y,
        x * y <= 0x7fff_ffff_ffff_ffff_ffff_ffff_ffff_ffff,
{
}

/// Transitivity of the exact order, stated over cross-multiplied components.
proof fn lemma_cross_trans(an: int, ad: int, bn: int, bd: int, cn: int, cd: int)
    by (nonlinear_arith)
    requires
        ad > 0,
        bd > 0,
        cd > 0,
        an * bd <= bn * ad,
        bn * cd <= cn * bd,
    ensures
        an * cd <= cn * ad,
{
}

/// Transitivity of `<=` for well-formed rationals.
pub proof fn lemma_le_trans(a: Rat, b: Rat, c: Rat)
    requires
        a.wf(),
        b.wf(),
        c.wf(),
        spec_le(a, b),
        spec_le(b, c),
    ensures
        spec_le(a, c),
{
    lemma_cross_trans(a.num as int, a.den as int, b.num as int, b.den as int, c.num as int,
        c.den as int);
}

/// A checked sum of well-formed rationals is well formed.
pub proof fn lemma_add_wf(a: Rat, b: Rat)
    requires
        a.wf(),
        b.wf(),
    ensures
        spec_add(a, b) matches Some(c) ==> c.wf(),
{
    lemma_prod_pos(a.den as int, b.den as int);
}

/// A checked difference of well-formed rationals is well formed.
pub proof fn lemma_sub_wf(a: Rat, b: Rat)
    requires
        a.wf(),
        b.wf(),
    ensures
        spec_sub(a, b) matches Some(c) ==> c.wf(),
{
    lemma_prod_pos(a.den as int, b.den as int);
}

/// A checked product of well-formed rationals is well formed.
pub proof fn lemma_mul_wf(a: Rat, b: Rat)
    requires
        a.wf(),
        b.wf(),
    ensures
        spec_mul(a, b) matches Some(c) ==> c.wf(),
{
    lemma_prod_pos(a.den as int, b.den as int);
}

/// A checked division by a positive count keeps well-formedness.
pub proof fn lemma_div_count_wf(a: Rat, k: int)
    requires
        a.wf(),
        k >= 1,
    ensures
        spec_div_count(a, k) matches Some(c) ==> c.wf(),
{
    lemma_prod_pos(a.den as int, k);
}

/// Exact comparison `a <= b`.
pub fn rat_le(a: &Rat, b: &Rat) -> (r: bool)
    requires
        a.wf(),
        b.wf(),
    ensures
        r == spec_le(*a, *b),
{
    proof {
        lemma_prod_signed_pos(a.num as int, b.den as int);
        lemma_prod_signed_pos(b.num as int, a.den as int);
    }
    (a.num as i128) * (b.den as i128) <= (b.num as i128) * (a.den as i128)
}

/// Exact comparison `a < b`.
pub fn rat_lt(a: &Rat, b: &Rat) -> (r: bool)
    requires
        a.wf(),
        b.wf(),
    ensures
        r == spec_lt(*a, *b),
{
    proof {
        lemma_prod_signed_pos(a.num as int, b.den as int);
        lemma_prod_signed_pos(b.num as int, a.den as int);
    }
    (a.num as i128) * (b.den as i128) < (b.num as i128) * (a.den as i128)
}

/// Exact value equality `a == b` (independent of the representation).
pub fn rat_eqv(a: &Rat, b: &Rat) -> (r: bool)
    requires
        a.wf(),
        b.wf(),
    ensures
        r == spec_eqv(*a, *b),
{
    proof {
        lemma_prod_signed_pos(a.num as int, b.den as int);
        lemma_prod_signed_pos(b.num as int, a.den as int);
    }
    (a.num as i128) * (b.den as i128) == (b.num as i128) * (a.den as i128)
}

/// Checked addition.
pub fn rat_add(a: &Rat, b: &Rat) -> (r: Option<Rat>)
    requires
        a.wf(),
        b.wf(),
    ensures
        r == spec_add(*a, *b),
        r matches Some(c) ==> c.wf(),
{
    if a.den == b.den {
        let n: i128 = (a.num as i128) + (b.num as i128);
        if n < -0x8000_0000_0000_0000i128 || n > 0x7fff_ffff_ffff_ffffi128 {
            None
        } else {
            Some(Rat { num: n as i64, den: a.den })
        }
    } else {
        proof {
            lemma_prod_signed_pos(a.num as int, b.den as int);
            lemma_prod_signed_pos(b.num as int, a.den as int);
            lemma_prod_signed_pos(a.den as int, b.den as int);
            lemma_prod_pos(a.den as int, b.den as int);
        }
        let t1: i128 = (a.num as i128) * (b.den as i128);
        let t2: i128 = (b.num as i128) * (a.den as i128);
        let n: i128 = t1 + t2;
        let d: i128 = (a.den as i128) * (b.den as i128);
        if n < -0x8000_0000_0000_0000i128 || n > 0x7fff_ffff_ffff_ffffi128
            || d > 0x7fff_ffff_ffff_ffffi128 {
            None
        } else {
            Some(Rat { num: n as i64, den: d as i64 })
        }
    }
}

/// Checked subtraction.
pub fn rat_sub(a: &Rat, b: &Rat) -> (r: Option<Rat>)
    requires
        a.wf(),
        b.wf(),
    ensures
        r == spec_sub(*a, *b),
        r matches Some(c) ==> c.wf(),
{
    if a.den == b.den {
        let n: i128 = (a.num as i128) - (b.num as i128);
        if n < -0x8000_0000_0000_0000i128 || n > 0x7fff_ffff_ffff_ffffi128 {
            None
        } else {
            Some(Rat { num: n as i64, den: a.den })
        }
    } else {
        proof {
            lemma_prod_signed_pos(a.num as int, b.den as int);
            lemma_prod_signed_pos(b.num as int, a.den as int);
            lemma_prod_signed_pos(a.den as int, b.den as int);
            lemma_prod_pos(a.den as int, b.den as int);
        }
        let t1: i128 = (a.num as i128) * (b.den as i128);
        let t2: i128 = (b.num as i128) * (a.den as i128);
        let n: i128 = t1 - t2;
        let d: i128 = (a.den as i128) * (b.den as i128);
        if n < -0x8000_0000_0000_0000i128 || n > 0x7fff_ffff_ffff_ffffi128
            || d > 0x7fff_ffff_ffff_ffffi128 {
            None
        } else {
            Some(Rat { num: n as i64, den: d as i64 })
        }
    }
}

/// Checked multiplication.
pub fn rat_mul(a: &Rat, b: &Rat) -> (r: Option<Rat>)
    requires
        a.wf(),
        b.wf(),
    ensures
        r == spec_mul(*a, *b),
        r matches Some(c) ==> c.wf(),
{
    proof {
        lemma_prod_signed(a.num as int, b.num as int);
        lemma_prod_signed_pos(a.den as int, b.den as int);
        lemma_prod_pos(a.den as int, b.den as int);
    }
    let n: i128 = (a.num as i128) * (b.num as i128);
    let d: i128 = (a.den as i128) * (b.den as i128);
    if n < -0x8000_0000_0000_0000i128 || n > 0x7fff_ffff_ffff_ffffi128
        || d > 0x7fff_ffff_ffff_ffffi128 {
        None
    } else {
        Some(Rat { num: n as i64, den: d as i64 })
    }
}

/// Checked division by a positive count (scales the denominator).
pub fn rat_div_count(a: &Rat, k: usize) -> (r: Option<Rat>)
    requires
        a.wf(),
        k >= 1,
    ensures
        r == spec_div_count(*a, k as int),
        r matches Some(c) ==> c.wf(),
{
    proof {
        lemma_prod_pos_wide(a.den as int, k as int);
    }
    let d: i128 = (a.den as i128) * (k as i128);
    if d > 0x7fff_ffff_ffff_ffffi128 {
        None
    } else {
        Some(Rat { num: a.num, den: d as i64 })
    }
}

} // verus!
