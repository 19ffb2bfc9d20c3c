//! Laws that relate the library's operations to one another.

use vstd::prelude::*;
use vstd::arithmetic::power::pow;
use crate::expr::{spec_eval, spec_replace, ReplOut, SpecExpr};
use crate::num::{spec_mul, spec_pow_loop, spec_powi, Rat};

verus! {

proof fn lemma_pow_neg(b: int, e: nat)
    ensures
        pow(-b, e) == if e % 2 == 0 {
            pow(b, e)
        } else {
            -pow(b, e)
        },
    decreases e,
{
    reveal(pow);
    if e > 0 {
        lemma_pow_neg(b, (e - 1) as nat);
        let p = pow(b, (e - 1) as nat);
        assert((-b) * p == -(b * p)) by (nonlinear_arith);
        assert((-b) * (-p) == b * p) by (nonlinear_arith);
    }
}

proof fn lemma_pow_loop_exact(acc: Rat, base: Rat, k: int)
    requires
        k >= 0,
    ensures
        match spec_pow_loop(acc, base, k) {
            Some(v) => v.n == acc.n * pow(base.n, k as nat) && v.d == acc.d * pow(
                base.d,
                k as nat,
            ),
            None => true,
        },
    decreases k,
{
    reveal(pow);
    if k <= 0 {
        vstd::arithmetic::power::lemma_pow0(base.n);
        vstd::arithmetic::power::lemma_pow0(base.d);
    } else {
        match spec_mul(acc, base) {
            Some(x) => {
                lemma_pow_loop_exact(x, base, k - 1);
                let pn = pow(base.n, (k - 1) as nat);
                let pd = pow(base.d, (k - 1) as nat);
                assert((acc.n * base.n) * pn == acc.n * (base.n * pn)) by (nonlinear_arith);
                assert((acc.d * base.d) * pd == acc.d * (base.d * pd)) by (nonlinear_arith);
            },
            None => {},
        }
    }
}

/// Raising a number to a whole nonnegative power is exact: whenever the
/// bounded fold returns a value, that value is the base with numerator
/// and denominator each raised to the exponent.
pub proof fn lemma_powi_exact(a: Rat, k: int)
    requires
        k >= 0,
        a.d > 0,
    ensures
        match spec_powi(a, k) {
            Some(v) => v.d > 0 && v.n * pow(a.d, k as nat) == pow(a.n, k as nat) * v.d,
            None => true,
        },
{
    reveal(pow);
    vstd::arithmetic::power::lemma_pow_positive(a.d, k as nat);
    if a.n == a.d {
    } else if a.n == -a.d {
        lemma_pow_neg(a.d, k as nat);
    } else if a.n == 0 {
        if k > 0 {
            vstd::arithmetic::power::lemma0_pow(k as nat);
        }
    } else {
        lemma_pow_loop_exact(Rat { n: 1, d: 1 }, a, k);
    }
}

/// The variable names an expression reads.
pub open spec fn vars_of(e: SpecExpr) -> Set<Seq<char>>
    decreases e,
{
    match e {
        SpecExpr::Value(_) => Set::empty(),
        SpecExpr::Variable(nm) => Set::empty().insert(nm),
        SpecExpr::Operation(_, l, r) => vars_of(*l).union(vars_of(*r)),
    }
}

/// A successful evaluation read only bound variables: when a variable
/// of the expression is absent from the bindings, evaluation cannot
/// return a value — it never falls back to a default.
pub proof fn lemma_eval_needs_bindings(e: SpecExpr, env: Map<Seq<char>, Rat>)
    requires
        spec_eval(e, env) is Val,
    ensures
        forall|v: Seq<char>| vars_of(e).contains(v) ==> env.contains_key(v),
    decreases e,
{
    match e {
        SpecExpr::Value(_) => {},
        SpecExpr::Variable(_) => {},
        SpecExpr::Operation(op, l, r) => {
            lemma_eval_needs_bindings(*l, env);
            lemma_eval_needs_bindings(*r, env);
        },
    }
}

/// Substituting every variable and then evaluating with empty bindings
/// returns exactly what evaluating under the original bindings returns,
/// whenever every variable of the expression is bound.
pub proof fn lemma_replace_then_eval(e: SpecExpr, env: Map<Seq<char>, Rat>)
    requires
        forall|v: Seq<char>| vars_of(e).contains(v) ==> env.contains_key(v),
    ensures
        spec_replace(e, env) is RVal,
        match spec_replace(e, env) {
            ReplOut::RVal(e2) => spec_eval(e2, Map::<Seq<char>, Rat>::empty()) == spec_eval(
                e,
                env,
            ),
            ReplOut::RUnbound(_) => true,
        },
    decreases e,
{
    match e {
        SpecExpr::Value(_) => {},
        SpecExpr::Variable(nm) => {
            assert(vars_of(e).contains(nm));
        },
        SpecExpr::Operation(op, l, r) => {
            assert forall|v: Seq<char>| vars_of(*l).contains(v) implies env.contains_key(v) by {
                assert(vars_of(e).contains(v));
            }
            assert forall|v: Seq<char>| vars_of(*r).contains(v) implies env.contains_key(v) by {
                assert(vars_of(e).contains(v));
            }
            lemma_replace_then_eval(*l, env);
            lemma_replace_then_eval(*r, env);
        },
    }
}

} // verus!
