//! The expression tree: a literal number, a variable reference, or a
//! binary operation over two subtrees.

use vstd::prelude::*;
use crate::bindings::Bindings;
use crate::num::{
    spec_add, spec_div, spec_mul, spec_pow, spec_sub, EvalError, Num, PowOut, Rat,
};

verus! {

/// A binary operator. `Pow` binds tightest, then `Mul`/`Div`, then
/// `Add`/`Sub`; every tier combines left to right.
#[derive(Debug, Clone, Copy, PartialEq, Eq, Structural)]
pub enum Op {
    Add,
    Sub,
    Mul,
    Div,
    Pow,
}

/// An expression tree.
#[derive(Debug, PartialEq, Eq)]
pub enum Expr {
    Operation(Op, Box<Expr>, Box<Expr>),
    Value(Num),
    Variable(String),
}

/// The mathematical shape of an expression tree.
pub enum SpecExpr {
    Operation(Op, Box<SpecExpr>, Box<SpecExpr>),
    Value(Rat),
    Variable(Seq<char>),
}

pub open spec fn expr_view(e: Expr) -> SpecExpr
    decreases e,
{
    match e {
        Expr::Operation(op, l, r) => SpecExpr::Operation(
            op,
            Box::new(expr_view(*l)),
            Box::new(expr_view(*r)),
        ),
        Expr::Value(v) => SpecExpr::Value(v@),
        Expr::Variable(s) => SpecExpr::Variable(s@),
    }
}

impl View for Expr {
    type V = SpecExpr;

    open spec fn view(&self) -> SpecExpr {
        expr_view(*self)
    }
}

/// Well-formed: every literal in the tree has a positive denominator.
pub open spec fn wf_sexpr(e: SpecExpr) -> bool
    decreases e,
{
    match e {
        SpecExpr::Operation(_, l, r) => wf_sexpr(*l) && wf_sexpr(*r),
        SpecExpr::Value(v) => v.d > 0,
        SpecExpr::Variable(_) => true,
    }
}

/// The outcome of evaluating an expression.
pub enum EvalOut {
    Val(Rat),
    Unbound(Seq<char>),
    DivZero,
    NonIntPow,
    Overflow,
}

pub open spec fn lift_opt(o: Option<Rat>) -> EvalOut {
    match o {
        Some(v) => EvalOut::Val(v),
        None => EvalOut::Overflow,
    }
}

/// What one operator returns on two already-evaluated operands.
pub open spec fn spec_op_apply(op: Op, a: Rat, b: Rat) -> EvalOut {
    match op {
        Op::Add => lift_opt(spec_add(a, b)),
        Op::Sub => lift_opt(spec_sub(a, b)),
        Op::Mul => lift_opt(spec_mul(a, b)),
        Op::Div => if b.n == 0 {
            EvalOut::DivZero
        } else {
            lift_opt(spec_div(a, b))
        },
        Op::Pow => match spec_pow(a, b) {
            PowOut::PVal(v) => EvalOut::Val(v),
            PowOut::PDivZero => EvalOut::DivZero,
            PowOut::PNonInt => EvalOut::NonIntPow,
            PowOut::POverflow => EvalOut::Overflow,
        },
    }
}

/// What evaluation returns: literals are themselves, variables are read
/// from the table, and an operation evaluates its left subtree, then its
/// right one, then applies the operator; the first failure propagates.
pub open spec fn spec_eval(e: SpecExpr, env: Map<Seq<char>, Rat>) -> EvalOut
    decreases e,
{
    match e {
        SpecExpr::Value(r) => EvalOut::Val(r),
        SpecExpr::Variable(nm) => if env.contains_key(nm) {
            EvalOut::Val(env[nm])
        } else {
            EvalOut::Unbound(nm)
        },
        SpecExpr::Operation(op, l, r) => match spec_eval(*l, env) {
            EvalOut::Val(a) => match spec_eval(*r, env) {
                EvalOut::Val(b) => spec_op_apply(op, a, b),
                other => other,
            },
            other => other,
        },
    }
}

/// The outcome that an evaluation error reports.
pub open spec fn err_out(e: EvalError) -> EvalOut {
    match e {
        EvalError::UnboundVariable(s) => EvalOut::Unbound(s@),
        EvalError::DivisionByZero => EvalOut::DivZero,
        EvalError::NonIntegerExponent => EvalOut::NonIntPow,
        EvalError::Overflow => EvalOut::Overflow,
    }
}

/// The outcome of substituting every variable in an expression.
pub enum ReplOut {
    RVal(SpecExpr),
    RUnbound(Seq<char>),
}

/// What substitution returns: a structural copy in which every variable
/// is replaced by its bound value; an unbound name is the failure.
pub open spec fn spec_replace(e: SpecExpr, env: Map<Seq<char>, Rat>) -> ReplOut
    decreases e,
{
    match e {
        SpecExpr::Value(r) => ReplOut::RVal(SpecExpr::Value(r)),
        SpecExpr::Variable(nm) => if env.contains_key(nm) {
            ReplOut::RVal(SpecExpr::Value(env[nm]))
        } else {
            ReplOut::RUnbound(nm)
        },
        SpecExpr::Operation(op, l, r) => match spec_replace(*l, env) {
            ReplOut::RVal(l2) => match spec_replace(*r, env) {
                ReplOut::RVal(r2) => ReplOut::RVal(
                    SpecExpr::Operation(op, Box::new(l2), Box::new(r2)),
                ),
                u => u,
            },
            u => u,
        },
    }
}

impl Op {
    /// Applies the operator to two evaluated operands.
    pub fn eval(&self, a: &Num, b: &Num) -> (r: Result<Num, EvalError>)
        requires
            a.wf(),
            b.wf(),
        ensures
            match r {
                Ok(v) => v.wf() && spec_op_apply(*self, a@, b@) == EvalOut::Val(v@),
                Err(e) => spec_op_apply(*self, a@, b@) == err_out(e),
            },
    {
        match self {
            Op::Add => a.add(b),
            Op::Sub => a.sub(b),
            Op::Mul => a.mul(b),
            Op::Div => a.div(b),
            Op::Pow => a.pow(b),
        }
    }
}

impl Expr {
    /// Evaluates the tree against the variable table.
    pub fn eval(&self, vars: &Bindings) -> (r: Result<Num, EvalError>)
        requires
            wf_sexpr(self@),
            vars.wf(),
        ensures
            match r {
                Ok(v) => v.wf() && spec_eval(self@, vars@) == EvalOut::Val(v@),
                Err(e) => spec_eval(self@, vars@) == err_out(e),
            },
        decreases *self,
    {
        match self {
            Expr::Operation(op, left, right) => {
                let a = match left.eval(vars) {
                    Ok(a) => a,
                    Err(e) => {
                        return Err(e);
                    },
                };
                let b = match right.eval(vars) {
                    Ok(b) => b,
                    Err(e) => {
                        return Err(e);
                    },
                };
                op.eval(&a, &b)
            },
            Expr::Value(v) => Ok(*v),
            Expr::Variable(name) => match vars.get(name.as_str()) {
                Some(v) => Ok(v),
                None => Err(EvalError::UnboundVariable(name.clone())),
            },
        }
    }

    /// Copies the tree with every variable replaced by its bound value;
    /// the original tree is left as it was.
    pub fn replace_vars(&self, vars: &Bindings) -> (r: Result<Expr, EvalError>)
        requires
            wf_sexpr(self@),
            vars.wf(),
        ensures
            match r {
                Ok(e2) => spec_replace(self@, vars@) == ReplOut::RVal(e2@) && wf_sexpr(e2@),
                Err(e) => match e {
                    EvalError::UnboundVariable(s) => spec_replace(self@, vars@)
                        == ReplOut::RUnbound(s@),
                    _ => false,
                },
            },
        decreases *self,
    {
        match self {
            Expr::Operation(op, left, right) => {
                let l2 = match left.replace_vars(vars) {
                    Ok(x) => x,
                    Err(e) => {
                        return Err(e);
                    },
                };
                let r2 = match right.replace_vars(vars) {
                    Ok(x) => x,
                    Err(e) => {
                        return Err(e);
                    },
                };
                Ok(Expr::Operation(*op, Box::new(l2), Box::new(r2)))
            },
            Expr::Value(v) => Ok(Expr::Value(*v)),
            Expr::Variable(name) => match vars.get(name.as_str()) {
                Some(v) => Ok(Expr::Value(v)),
                None => Err(EvalError::UnboundVariable(name.clone())),
            },
        }
    }
}

} // verus!
