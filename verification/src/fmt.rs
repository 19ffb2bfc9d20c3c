//! Rendering numbers and expressions back to text.
//!
//! A whole number prints as its decimal digits; any other quotient
//! prints as a parenthesized division, which reads back to the same
//! value. An operation prints its operands around the operator symbol,
//! wrapped in parentheses only where the enclosing operator binds
//! tighter than the node's own.

use vstd::prelude::*;
use vstd::string::StringExecFns;
use crate::expr::{wf_sexpr, Expr, Op, SpecExpr};
use crate::num::{Num, Rat};

verus! {

/// Relies on String::push: appends one character at the end.
#[verifier::external_body]
pub(crate) fn push_char(s: &mut String, c: char)
    ensures
        final(s)@ == old(s)@.push(c),
{
    s.push(c);
}

/// The decimal digit character for `n % 10`.
pub open spec fn digit_char(n: nat) -> char {
    (48 + (n % 10)) as u8 as char
}

/// The decimal digits of a whole number, most significant first.
pub open spec fn spec_nat_str(n: nat) -> Seq<char>
    decreases n,
{
    if n < 10 {
        seq![digit_char(n)]
    } else {
        spec_nat_str(n / 10).push(digit_char(n % 10))
    }
}

/// The decimal rendering of an integer: a minus sign before the digits
/// of its magnitude when it is negative.
pub open spec fn spec_int_str(x: int) -> Seq<char> {
    if x < 0 {
        seq!['-'] + spec_nat_str((-x) as nat)
    } else {
        spec_nat_str(x as nat)
    }
}

/// The rendering of a number: plain digits for a whole value, otherwise
/// a parenthesized division that reads back to the same value.
pub open spec fn spec_num_str(r: Rat) -> Seq<char> {
    if r.n % r.d == 0 {
        spec_int_str(r.n / r.d)
    } else {
        seq!['('] + spec_int_str(r.n) + seq![' ', '/', ' '] + spec_int_str(r.d) + seq![')']
    }
}

fn nat_str(n: u64) -> (r: String)
    ensures
        r@ == spec_nat_str(n as nat),
    decreases n,
{
    if n < 10 {
        let mut s = String::new();
        push_char(&mut s, (48 + (n as u8)) as char);
        proof {
            assert(s@ =~= seq![digit_char(n as nat)]);
        }
        s
    } else {
        let mut s = nat_str(n / 10);
        push_char(&mut s, (48 + ((n % 10) as u8)) as char);
        s
    }
}

fn int_str(v: i64) -> (r: String)
    ensures
        r@ == spec_int_str(v as int),
{
    if v < 0 {
        let m: u64 = (-(v as i128)) as u64;
        let mut s = String::new();
        push_char(&mut s, '-');
        let tail = nat_str(m);
        s.append(tail.as_str());
        proof {
            assert(s@ =~= seq!['-'] + spec_nat_str(m as nat));
        }
        s
    } else {
        nat_str(v as u64)
    }
}

/// How an integer's quotient and remainder by a positive divisor relate
/// to those of its magnitude.
proof fn lemma_signed_div(n: int, d: int, m: int)
    requires
        d > 0,
        m == if n < 0 { -n } else { n },
    ensures
        (n % d == 0) <==> (m % d == 0),
        (n % d == 0 && n < 0) ==> m / d >= 0 && n / d == -(m / d),
{
    vstd::arithmetic::div_mod::lemma_div_pos_is_pos(m, d);
    if n < 0 {
        if n % d == 0 {
            vstd::arithmetic::div_mod::lemma_fundamental_div_mod(n, d);
            let q = n / d;
            assert(m == (-q) * d + 0) by (nonlinear_arith)
                requires
                    m == -n,
                    n == d * q + 0,
            ;
            vstd::arithmetic::div_mod::lemma_fundamental_div_mod_converse(m, d, -q, 0);
        } else if m % d == 0 {
            vstd::arithmetic::div_mod::lemma_fundamental_div_mod(m, d);
            let q = m / d;
            assert(n == (-q) * d + 0) by (nonlinear_arith)
                requires
                    n == -m,
                    m == d * q + 0,
            ;
            vstd::arithmetic::div_mod::lemma_fundamental_div_mod_converse(n, d, -q, 0);
        }
    }
}

impl Num {
    /// Renders the number as text.
    pub fn render(&self) -> (r: String)
        requires
            self.wf(),
        ensures
            r@ == spec_num_str(self@),
    {
        let neg = self.n < 0;
        let mag: u64 = if self.n < 0 {
            (-(self.n as i128)) as u64
        } else {
            self.n as u64
        };
        let du: u64 = self.d as u64;
        proof {
            lemma_signed_div(self.n as int, self.d as int, mag as int);
        }
        if mag % du == 0 {
            let q: u64 = mag / du;
            if neg {
                let mut s = String::new();
                push_char(&mut s, '-');
                let tail = nat_str(q);
                s.append(tail.as_str());
                proof {
                    assert(s@ =~= seq!['-'] + spec_nat_str(q as nat));
                }
                s
            } else {
                nat_str(q)
            }
        } else {
            let mut s = String::new();
            push_char(&mut s, '(');
            let ns = int_str(self.n);
            s.append(ns.as_str());
            push_char(&mut s, ' ');
            push_char(&mut s, '/');
            push_char(&mut s, ' ');
            let ds = int_str(self.d);
            s.append(ds.as_str());
            push_char(&mut s, ')');
            proof {
                assert(s@ =~= spec_num_str(self@));
            }
            s
        }
    }
}

/// The character that prints an operator.
pub open spec fn spec_op_char(op: Op) -> char {
    match op {
        Op::Add => '+',
        Op::Sub => '-',
        Op::Mul => '*',
        Op::Div => '/',
        Op::Pow => '^',
    }
}

/// Whether a node rendered under `outer` must be parenthesized: never at
/// top level or under the additive tier, and within the
/// multiplicative-or-power tiers only an additive node needs them.
pub open spec fn needs_parens(op: Op, outer: Option<Op>) -> bool {
    match outer {
        None => false,
        Some(Op::Add) => false,
        Some(Op::Sub) => false,
        Some(Op::Mul) => op == Op::Add || op == Op::Sub,
        Some(Op::Div) => op == Op::Add || op == Op::Sub,
        Some(Op::Pow) => true,
    }
}

/// The text of an expression rendered under an enclosing operator.
pub open spec fn spec_format(e: SpecExpr, outer: Option<Op>) -> Seq<char>
    decreases e,
{
    match e {
        SpecExpr::Value(v) => spec_num_str(v),
        SpecExpr::Variable(nm) => nm,
        SpecExpr::Operation(op, l, r) => {
            let inner = spec_format(*l, Some(op)) + seq![' ', spec_op_char(op), ' ']
                + spec_format(*r, Some(op));
            if needs_parens(op, outer) {
                seq!['('] + inner + seq![')']
            } else {
                inner
            }
        },
    }
}

impl Op {
    /// The character that prints this operator.
    pub fn symbol(&self) -> (c: char)
        ensures
            c == spec_op_char(*self),
    {
        match self {
            Op::Add => '+',
            Op::Sub => '-',
            Op::Mul => '*',
            Op::Div => '/',
            Op::Pow => '^',
        }
    }
}

fn parens_needed(op: Op, outer: Option<Op>) -> (r: bool)
    ensures
        r == needs_parens(op, outer),
{
    match outer {
        None => false,
        Some(Op::Add) => false,
        Some(Op::Sub) => false,
        Some(Op::Pow) => true,
        Some(Op::Mul) => matches!(op, Op::Add | Op::Sub),
        Some(Op::Div) => matches!(op, Op::Add | Op::Sub),
    }
}

impl Expr {
    /// Renders the tree under an enclosing operator.
    pub fn format(&self, outer: Option<Op>) -> (r: String)
        requires
            wf_sexpr(self@),
        ensures
            r@ == spec_format(self@, outer),
        decreases *self,
    {
        match self {
            Expr::Value(v) => v.render(),
            Expr::Variable(nm) => nm.clone(),
            Expr::Operation(op, l, r) => {
                let ls = l.format(Some(*op));
                let rs = r.format(Some(*op));
                let wrap = parens_needed(*op, outer);
                let mut s = String::new();
                if wrap {
                    push_char(&mut s, '(');
                }
                s.append(ls.as_str());
                push_char(&mut s, ' ');
                push_char(&mut s, op.symbol());
                push_char(&mut s, ' ');
                s.append(rs.as_str());
                if wrap {
                    push_char(&mut s, ')');
                }
                proof {
                    assert(s@ =~= spec_format(self@, outer));
                }
                s
            },
        }
    }

    /// Renders the tree as a whole, with no enclosing operator.
    pub fn render(&self) -> (r: String)
        requires
            wf_sexpr(self@),
        ensures
            r@ == spec_format(self@, None),
    {
        self.format(None)
    }
}

} // verus!
