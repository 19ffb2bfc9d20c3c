//! Exact numbers for the calculator: a quotient of two machine integers.
//!
//! Every arithmetic operation is bounded: it either returns the exact
//! quotient with both components still in `i64` range, or reports that
//! the computation left that range.

use vstd::prelude::*;

verus! {

/// The mathematical value of a number: an integer pair read as `n / d`.
pub struct Rat {
    pub n: int,
    pub d: int,
}

/// Why an evaluation failed.
#[derive(Debug, Clone, PartialEq, Eq)]
pub enum EvalError {
    /// A variable was read that the bindings do not hold; carries its name.
    UnboundVariable(String),
    /// A division whose right operand is zero.
    DivisionByZero,
    /// An exponent that is not a whole number.
    NonIntegerExponent,
    /// An intermediate result left the representable range.
    Overflow,
}

/// A number: the exact quotient `n / d` with `d > 0`.
#[derive(Debug, Clone, Copy, PartialEq, Eq)]
pub struct Num {
    pub n: i64,
    pub d: i64,
}

impl View for Num {
    type V = Rat;

    open spec fn view(&self) -> Rat {
        Rat { n: self.n as int, d: self.d as int }
    }
}

pub open spec fn in_i64(x: int) -> bool {
    i64::MIN <= x <= i64::MAX
}

pub open spec fn rat_one() -> Rat {
    Rat { n: 1, d: 1 }
}

/// The exact sum of two quotients, over unbounded integers.
pub open spec fn rat_add(a: Rat, b: Rat) -> Rat {
    Rat { n: a.n * b.d + b.n * a.d, d: a.d * b.d }
}

/// The exact difference of two quotients, over unbounded integers.
pub open spec fn rat_sub(a: Rat, b: Rat) -> Rat {
    Rat { n: a.n * b.d - b.n * a.d, d: a.d * b.d }
}

/// The exact product of two quotients, over unbounded integers.
pub open spec fn rat_mul(a: Rat, b: Rat) -> Rat {
    Rat { n: a.n * b.n, d: a.d * b.d }
}

/// The exact quotient of two quotients, with the sign moved into the
/// numerator so that the denominator stays positive.
pub open spec fn rat_div(a: Rat, b: Rat) -> Rat {
    if b.n < 0 {
        Rat { n: -(a.n * b.d), d: -(a.d * b.n) }
    } else {
        Rat { n: a.n * b.d, d: a.d * b.n }
    }
}

/// Clamps an exact result to the representable range: `Some` exactly
/// when both components fit in `i64`.
pub open spec fn bounded(c: Rat) -> Option<Rat> {
    if in_i64(c.n) && in_i64(c.d) {
        Some(c)
    } else {
        None
    }
}

pub open spec fn spec_add(a: Rat, b: Rat) -> Option<Rat> {
    bounded(rat_add(a, b))
}

pub open spec fn spec_sub(a: Rat, b: Rat) -> Option<Rat> {
    bounded(rat_sub(a, b))
}

pub open spec fn spec_mul(a: Rat, b: Rat) -> Option<Rat> {
    bounded(rat_mul(a, b))
}

proof fn lemma_prod_pos_bound(x: int, y: int)
    requires
        in_i64(x),
        1 <= y <= i64::MAX,
    ensures
        (i64::MIN as int) * (i64::MAX as int) <= x * y <= (i64::MAX as int) * (i64::MAX as int),
{
    assert((i64::MIN as int) * (i64::MAX as int) <= x * y <= (i64::MAX as int) * (i64::MAX as int))
        by (nonlinear_arith)
        requires
            i64::MIN <= x <= i64::MAX,
            1 <= y <= i64::MAX,
    ;
}

proof fn lemma_pos_prod(x: int, y: int)
    requires
        1 <= x,
        1 <= y,
    ensures
        1 <= x * y,
        x * y == y * x,
{
    assert(1 <= x * y && x * y == y * x) by (nonlinear_arith)
        requires
            1 <= x,
            1 <= y,
    ;
}

impl Num {
    /// Well-formed: the denominator is positive.
    pub open spec fn wf(&self) -> bool {
        self.d > 0
    }

    /// Builds the number `n / d`.
    pub fn new(n: i64, d: i64) -> (r: Num)
        requires
            d > 0,
        ensures
            r.wf(),
            r@ == (Rat { n: n as int, d: d as int }),
    {
        Num { n, d }
    }

    /// The number one.
    pub fn one() -> (r: Num)
        ensures
            r.wf(),
            r@ == rat_one(),
    {
        Num { n: 1, d: 1 }
    }

    /// Exact addition; fails exactly when the result leaves `i64` range.
    pub fn add(&self, other: &Num) -> (r: Result<Num, EvalError>)
        requires
            self.wf(),
            other.wf(),
        ensures
            match r {
                Ok(v) => v.wf() && spec_add(self@, other@) == Some(v@),
                Err(e) => e == EvalError::Overflow && spec_add(self@, other@) is None,
            },
    {
        proof {
            lemma_prod_pos_bound(self.n as int, other.d as int);
            lemma_prod_pos_bound(other.n as int, self.d as int);
            lemma_prod_pos_bound(self.d as int, other.d as int);
            lemma_pos_prod(self.d as int, other.d as int);
        }
        let n: i128 = (self.n as i128) * (other.d as i128) + (other.n as i128) * (self.d as i128);
        let d: i128 = (self.d as i128) * (other.d as i128);
        if n >= (i64::MIN as i128) && n <= (i64::MAX as i128) && d <= (i64::MAX as i128) {
            Ok(Num { n: n as i64, d: d as i64 })
        } else {
            Err(EvalError::Overflow)
        }
    }

    /// Exact subtraction; fails exactly when the result leaves `i64` range.
    pub fn sub(&self, other: &Num) -> (r: Result<Num, EvalError>)
        requires
            self.wf(),
            other.wf(),
        ensures
            match r {
                Ok(v) => v.wf() && spec_sub(self@, other@) == Some(v@),
                Err(e) => e == EvalError::Overflow && spec_sub(self@, other@) is None,
            },
    {
        proof {
            lemma_prod_pos_bound(self.n as int, other.d as int);
            lemma_prod_pos_bound(other.n as int, self.d as int);
            lemma_prod_pos_bound(self.d as int, other.d as int);
            lemma_pos_prod(self.d as int, other.d as int);
        }
        let n: i128 = (self.n as i128) * (other.d as i128) - (other.n as i128) * (self.d as i128);
        let d: i128 = (self.d as i128) * (other.d as i128);
        if n >= (i64::MIN as i128) && n <= (i64::MAX as i128) && d <= (i64::MAX as i128) {
            Ok(Num { n: n as i64, d: d as i64 })
        } else {
            Err(EvalError::Overflow)
        }
    }

    /// Exact multiplication; fails exactly when the result leaves `i64` range.
    pub fn mul(&self, other: &Num) -> (r: Result<Num, EvalError>)
        requires
            self.wf(),
            other.wf(),
        ensures
            match r {
                Ok(v) => v.wf() && spec_mul(self@, other@) == Some(v@),
                Err(e) => e == EvalError::Overflow && spec_mul(self@, other@) is None,
            },
    {
        proof {
            lemma_prod_pos_bound(self.n as int, other.d as int);
            lemma_prod_pos_bound(self.d as int, other.d as int);
            lemma_pos_prod(self.d as int, other.d as int);
            assert((self.n as int) * (other.n as int) == (other.n as int) * (self.n as int)
                && (i64::MIN as int) * (i64::MAX as int) + (i64::MIN as int)
                    <= (self.n as int) * (other.n as int)
                    <= (i64::MIN as int) * (i64::MIN as int)) by (nonlinear_arith)
                requires
                    i64::MIN <= self.n <= i64::MAX,
                    i64::MIN <= other.n <= i64::MAX,
            ;
        }
        let n: i128 = (self.n as i128) * (other.n as i128);
        let d: i128 = (self.d as i128) * (other.d as i128);
        if n >= (i64::MIN as i128) && n <= (i64::MAX as i128) && d <= (i64::MAX as i128) {
            Ok(Num { n: n as i64, d: d as i64 })
        } else {
            Err(EvalError::Overflow)
        }
    }

    /// Exact division. Fails with `DivisionByZero` when `other` is zero,
    /// and with `Overflow` exactly when the result leaves `i64` range.
    pub fn div(&self, other: &Num) -> (r: Result<Num, EvalError>)
        requires
            self.wf(),
            other.wf(),
        ensures
            match r {
                Ok(v) => v.wf() && other@.n != 0 && spec_div(self@, other@) == Some(v@),
                Err(e) => if e == EvalError::DivisionByZero {
                    other@.n == 0
                } else {
                    e == EvalError::Overflow && other@.n != 0 && spec_div(self@, other@) is None
                },
            },
    {
        if other.n == 0 {
            return Err(EvalError::DivisionByZero);
        }
        proof {
            lemma_prod_pos_bound(self.n as int, other.d as int);
            lemma_prod_pos_bound(other.n as int, self.d as int);
            assert((self.d as int) * (other.n as int) == (other.n as int) * (self.d as int))
                by (nonlinear_arith);
            assert(other.n < 0 ==> (other.n as int) * (self.d as int) <= -1) by (nonlinear_arith)
                requires
                    self.d >= 1,
            ;
            assert(other.n > 0 ==> (other.n as int) * (self.d as int) >= 1) by (nonlinear_arith)
                requires
                    self.d >= 1,
            ;
        }
        let n0: i128 = (self.n as i128) * (other.d as i128);
        let d0: i128 = (self.d as i128) * (other.n as i128);
        let (n, d): (i128, i128) = if other.n < 0 {
            (-n0, -d0)
        } else {
            (n0, d0)
        };
        if n >= (i64::MIN as i128) && n <= (i64::MAX as i128) && d <= (i64::MAX as i128) {
            Ok(Num { n: n as i64, d: d as i64 })
        } else {
            Err(EvalError::Overflow)
        }
    }
}

pub open spec fn spec_div(a: Rat, b: Rat) -> Option<Rat>
    recommends
        b.n != 0,
{
    bounded(rat_div(a, b))
}

/// What raising to a whole power means: zero and quotients of equal or
/// opposite components have closed forms; every other base is folded by
/// repeated bounded multiplication.
pub open spec fn spec_powi(a: Rat, k: int) -> Option<Rat> {
    if a.n == a.d {
        Some(rat_one())
    } else if a.n == -a.d {
        Some(if k % 2 == 0 { rat_one() } else { Rat { n: -1, d: 1 } })
    } else if a.n == 0 {
        Some(if k == 0 { rat_one() } else { Rat { n: 0, d: 1 } })
    } else {
        spec_pow_loop(rat_one(), a, k)
    }
}

pub open spec fn spec_pow_loop(acc: Rat, base: Rat, k: int) -> Option<Rat>
    decreases k,
{
    if k <= 0 {
        Some(acc)
    } else {
        match spec_mul(acc, base) {
            Some(x) => spec_pow_loop(x, base, k - 1),
            None => None,
        }
    }
}

/// The outcome of raising one bounded quotient to another.
pub enum PowOut {
    PVal(Rat),
    PDivZero,
    PNonInt,
    POverflow,
}

/// What the power operator returns: the exponent must be a whole number;
/// a negative exponent takes the reciprocal of the positive power.
pub open spec fn spec_pow(a: Rat, b: Rat) -> PowOut {
    if b.n % b.d != 0 {
        PowOut::PNonInt
    } else {
        let e = b.n / b.d;
        if e >= 0 {
            match spec_powi(a, e) {
                Some(v) => PowOut::PVal(v),
                None => PowOut::POverflow,
            }
        } else {
            match spec_powi(a, -e) {
                None => PowOut::POverflow,
                Some(p) => if p.n == 0 {
                    PowOut::PDivZero
                } else {
                    match spec_div(rat_one(), p) {
                        Some(v) => PowOut::PVal(v),
                        None => PowOut::POverflow,
                    }
                },
            }
        }
    }
}

impl Num {
    /// Raises the number to the `k`-th power by repeated exact
    /// multiplication; fails exactly when an intermediate product
    /// leaves `i64` range.
    pub fn powi(&self, k: u64) -> (r: Result<Num, EvalError>)
        requires
            self.wf(),
        ensures
            match r {
                Ok(v) => v.wf() && spec_powi(self@, k as int) == Some(v@),
                Err(e) => e == EvalError::Overflow && spec_powi(self@, k as int) is None,
            },
    {
        if self.n == self.d {
            return Ok(Num::one());
        }
        if self.n == -self.d {
            return Ok(if k % 2 == 0 { Num::one() } else { Num { n: -1, d: 1 } });
        }
        if self.n == 0 {
            return Ok(if k == 0 { Num::one() } else { Num { n: 0, d: 1 } });
        }
        let mut acc = Num::one();
        let mut i: u64 = 0;
        while i < k
            invariant
                self.wf(),
                acc.wf(),
                i <= k,
                self.n != self.d && self.n != -self.d && self.n != 0,
                spec_pow_loop(acc@, self@, (k - i) as int) == spec_pow_loop(
                    rat_one(),
                    self@,
                    k as int,
                ),
            decreases k - i,
        {
            match acc.mul(self) {
                Ok(x) => {
                    acc = x;
                },
                Err(e) => {
                    return Err(e);
                },
            }
            i = i + 1;
        }
        Ok(acc)
    }

    /// The power operator. The exponent must be an exact whole number;
    /// a negative exponent takes the reciprocal, failing on a zero base.
    pub fn pow(&self, other: &Num) -> (r: Result<Num, EvalError>)
        requires
            self.wf(),
            other.wf(),
        ensures
            match r {
                Ok(v) => v.wf() && spec_pow(self@, other@) == PowOut::PVal(v@),
                Err(e) => match e {
                    EvalError::NonIntegerExponent => spec_pow(self@, other@) == PowOut::PNonInt,
                    EvalError::DivisionByZero => spec_pow(self@, other@) == PowOut::PDivZero,
                    EvalError::Overflow => spec_pow(self@, other@) == PowOut::POverflow,
                    EvalError::UnboundVariable(_) => false,
                },
            },
    {
        let neg = other.n < 0;
        let mag: u64 = if other.n < 0 {
            (-(other.n as i128)) as u64
        } else {
            other.n as u64
        };
        let du: u64 = other.d as u64;
        let ghost bn = other.n as int;
        let ghost bd = other.d as int;
        proof {
            if bn < 0 && bn % bd == 0 {
                vstd::arithmetic::div_mod::lemma_fundamental_div_mod(bn, bd);
                let q = bn / bd;
                assert(bn == bd * q);
                assert(mag as int == (-q) * bd + 0) by (nonlinear_arith)
                    requires
                        mag as int == -bn,
                        bn == bd * q,
                ;
                vstd::arithmetic::div_mod::lemma_fundamental_div_mod_converse(
                    mag as int,
                    bd,
                    -q,
                    0,
                );
            }
        }
        if mag % du != 0 {
            return Err(EvalError::NonIntegerExponent);
        }
        let k: u64 = mag / du;
        proof {
            if bn < 0 {
                vstd::arithmetic::div_mod::lemma_fundamental_div_mod(mag as int, bd);
                let q = mag as int / bd;
                assert(mag as int == bd * q);
                assert(bn == (-q) * bd + 0) by (nonlinear_arith)
                    requires
                        bn == -(mag as int),
                        mag as int == bd * q,
                ;
                vstd::arithmetic::div_mod::lemma_fundamental_div_mod_converse(bn, bd, -q, 0);
            }
        }
        if !neg {
            self.powi(k)
        } else {
            let p = match self.powi(k) {
                Ok(p) => p,
                Err(e) => {
                    return Err(e);
                },
            };
            Num::one().div(&p)
        }
    }
}

} // verus!
