//! The parser: a character cursor over the input, three lexeme
//! scanners, and a scope reducer that turns one bracketed (or
//! top-level) region into a single expression by three precedence
//! passes over a flat token sequence.

use vstd::prelude::*;
use vstd::string::StringExecFns;
use vstd::string::StrSliceExecFns;
use crate::expr::{wf_sexpr, Expr, Op, SpecExpr};
use crate::fmt::{push_char, spec_format};
use crate::num::Rat;

verus! {

/// Whether the character counts as whitespace; named after the outside
/// routine that decides it.
pub uninterp spec fn is_space_char(c: char) -> bool;

/// Whether the character counts as a letter.
pub uninterp spec fn is_alpha_char(c: char) -> bool;

/// Whether the character counts as a letter or a digit.
pub uninterp spec fn is_alnum_char(c: char) -> bool;

/// Relies on char::is_whitespace: whether the character has the Unicode
/// White_Space property; a function of the character alone.
#[verifier::external_body]
fn char_is_space(c: char) -> (r: bool)
    ensures
        r == is_space_char(c),
{
    c.is_whitespace()
}

/// Relies on char::is_alphabetic: whether the character is a Unicode
/// letter; a function of the character alone. Its documentation states
/// that every alphabetic character is also alphanumeric.
#[verifier::external_body]
fn char_is_alpha(c: char) -> (r: bool)
    ensures
        r == is_alpha_char(c),
        r ==> is_alnum_char(c),
{
    c.is_alphabetic()
}

/// Relies on char::is_alphanumeric: whether the character is a Unicode
/// letter or numeral; a function of the character alone.
#[verifier::external_body]
fn char_is_alnum(c: char) -> (r: bool)
    ensures
        r == is_alnum_char(c),
{
    c.is_alphanumeric()
}

/// The ten ASCII digits.
pub open spec fn is_digit_char(c: char) -> bool {
    48 <= (c as u32) <= 57
}

fn is_digit(c: char) -> (r: bool)
    ensures
        r == is_digit_char(c),
{
    let u = c as u32;
    48 <= u && u <= 57
}

/// A snapshot of where in the input the cursor stood: the full input
/// text and the count of advances made so far.
#[derive(Debug)]
pub struct Lok {
    pub original: Vec<char>,
    pub index: usize,
}

/// A fatal parse failure, fully rendered for display: the message, a
/// blank line, the input text, and a caret under the offending place.
#[derive(Debug)]
pub struct ParseError(pub String);

/// The line of spaces that puts a caret one place before the recorded
/// offset (clamped to the line start).
pub open spec fn spec_caret_line(idx: int) -> Seq<char> {
    Seq::new(if idx > 0 { (idx - 1) as nat } else { 0 }, |k: int| ' ').push('^')
}

/// The full rendering of a located message.
pub open spec fn spec_render_err(msg: Seq<char>, original: Seq<char>, idx: int) -> Seq<char> {
    msg + seq!['\n', '\n'] + original + seq!['\n'] + spec_caret_line(idx)
}

impl Lok {
    /// Renders a message located at this position into a failure.
    pub fn error(&self, msg: String) -> (r: ParseError)
        ensures
            r.0@ == spec_render_err(msg@, self.original@, self.index as int),
    {
        let ghost msg_view = msg@;
        let mut s = msg;
        push_char(&mut s, '\n');
        push_char(&mut s, '\n');
        let n = self.original.len();
        let mut i: usize = 0;
        while i < n
            invariant
                n == self.original@.len(),
                i <= n,
                s@ == msg_view + seq!['\n', '\n'] + self.original@.take(i as int),
            decreases n - i,
        {
            push_char(&mut s, self.original[i]);
            proof {
                assert(self.original@.take(i + 1) =~= self.original@.take(i as int).push(
                    self.original@[i as int],
                ));
            }
            i = i + 1;
        }
        proof {
            assert(self.original@.take(n as int) =~= self.original@);
        }
        push_char(&mut s, '\n');
        let cnt: usize = if self.index > 0 {
            self.index - 1
        } else {
            0
        };
        let ghost head = msg_view + seq!['\n', '\n'] + self.original@ + seq!['\n'];
        let mut j: usize = 0;
        while j < cnt
            invariant
                j <= cnt,
                s@ == head + Seq::new(j as nat, |k: int| ' '),
            decreases cnt - j,
        {
            push_char(&mut s, ' ');
            proof {
                assert(Seq::new((j + 1) as nat, |k: int| ' ') =~= Seq::new(j as nat, |k: int| ' ')
                    .push(' '));
            }
            j = j + 1;
        }
        push_char(&mut s, '^');
        proof {
            assert(s@ =~= spec_render_err(msg_view, self.original@, self.index as int));
        }
        ParseError(s)
    }
}

fn copy_chars(v: &Vec<char>) -> (r: Vec<char>)
    ensures
        r@ == v@,
{
    let n = v.len();
    let mut r: Vec<char> = Vec::new();
    let mut i: usize = 0;
    while i < n
        invariant
            n == v@.len(),
            i <= n,
            r@ == v@.take(i as int),
        decreases n - i,
    {
        r.push(v[i]);
        proof {
            assert(v@.take(i + 1) =~= v@.take(i as int).push(v@[i as int]));
        }
        i = i + 1;
    }
    proof {
        assert(v@.take(n as int) =~= v@);
    }
    r
}

/// The character cursor: the input text and the count of advances made.
pub struct ParserIter {
    pub text: Vec<char>,
    pub index: usize,
}

impl ParserIter {
    /// A cursor at the start of the input.
    pub fn new(input: &str) -> (r: ParserIter)
        ensures
            r.text@ == input@,
            r.index == 0,
    {
        let n = input.unicode_len();
        let mut text: Vec<char> = Vec::new();
        let mut i: usize = 0;
        while i < n
            invariant
                n == input@.len(),
                i <= n,
                text@ == input@.take(i as int),
            decreases n - i,
        {
            text.push(input.get_char(i));
            proof {
                assert(input@.take(i + 1) =~= input@.take(i as int).push(input@[i as int]));
            }
            i = i + 1;
        }
        proof {
            assert(input@.take(n as int) =~= input@);
        }
        ParserIter { text, index: 0 }
    }

    /// Consumes and returns the next character. The offset grows on
    /// every call, whether or not a character was left to consume.
    pub fn next(&mut self) -> (r: Option<char>)
        requires
            old(self).index < usize::MAX,
        ensures
            final(self).text == old(self).text,
            final(self).index == old(self).index + 1,
            r == if old(self).index < old(self).text@.len() {
                Some(old(self).text@[old(self).index as int])
            } else {
                None::<char>
            },
    {
        let r = if self.index < self.text.len() {
            Some(self.text[self.index])
        } else {
            None
        };
        self.index = self.index + 1;
        r
    }

    /// Non-consuming lookahead.
    pub fn peek(&self) -> (r: Option<char>)
        ensures
            r == if self.index < self.text@.len() {
                Some(self.text@[self.index as int])
            } else {
                None::<char>
            },
    {
        if self.index < self.text.len() {
            Some(self.text[self.index])
        } else {
            None
        }
    }

    /// A snapshot of the current position.
    pub fn here(&self) -> (r: Lok)
        ensures
            r.original@ == self.text@,
            r.index == self.index,
    {
        Lok { original: copy_chars(&self.text), index: self.index }
    }
}

/// One bounded accumulation step of the numeric scanner: digit `d` is
/// appended to the mantissa, and to the scale when it follows the
/// decimal point; a step that would leave `i64` range clears `ok`.
pub open spec fn num_step(m: int, dpow: int, had_dot: bool, ok: bool, d: int) -> (int, int, bool) {
    if !ok {
        (m, dpow, false)
    } else if m > (i64::MAX - d) / 10 {
        (m, dpow, false)
    } else if had_dot {
        if dpow > i64::MAX as int / 10 {
            (m, dpow, false)
        } else {
            (m * 10 + d, dpow * 10, true)
        }
    } else {
        (m * 10 + d, dpow, true)
    }
}

/// How the numeric scanner ends.
pub enum ScanNum {
    /// Scanning stopped at `next`; the literal read `m / dpow`, which
    /// fits exactly when `ok`; `val` is the text scanned.
    NumEnd { next: int, m: int, dpow: int, ok: bool, val: Seq<char> },
    /// A second decimal point was consumed; `next` is the position
    /// just after it.
    NumDot { next: int },
}

/// The numeric scanner: consumes a maximal run of digits with at most
/// one decimal point, accumulating the literal's exact value.
pub open spec fn spec_scan_num(
    s: Seq<char>,
    i: int,
    m: int,
    dpow: int,
    had_dot: bool,
    ok: bool,
    val: Seq<char>,
) -> ScanNum
    decreases s.len() - i,
{
    if 0 <= i < s.len() {
        let c = s[i];
        if is_digit_char(c) {
            let d = (c as u32) - 48;
            let st = num_step(m, dpow, had_dot, ok, d as int);
            spec_scan_num(s, i + 1, st.0, st.1, had_dot, st.2, val.push(c))
        } else if c == '.' {
            if !had_dot {
                spec_scan_num(s, i + 1, m, dpow, true, ok, val.push('.'))
            } else {
                ScanNum::NumDot { next: i + 1 }
            }
        } else {
            ScanNum::NumEnd { next: i, m, dpow, ok, val }
        }
    } else {
        ScanNum::NumEnd { next: i, m, dpow, ok, val }
    }
}

/// The identifier scanner's end: the first position at or after `i`
/// that does not hold a letter or digit.
pub open spec fn spec_scan_ident(s: Seq<char>, i: int) -> int
    decreases s.len() - i,
{
    if 0 <= i < s.len() && is_alnum_char(s[i]) {
        spec_scan_ident(s, i + 1)
    } else {
        i
    }
}

pub proof fn lemma_scan_num_bounds(
    s: Seq<char>,
    i: int,
    m: int,
    dpow: int,
    had_dot: bool,
    ok: bool,
    val: Seq<char>,
)
    requires
        0 <= i <= s.len(),
    ensures
        match spec_scan_num(s, i, m, dpow, had_dot, ok, val) {
            ScanNum::NumEnd { next, .. } => i <= next <= s.len(),
            ScanNum::NumDot { next } => i < next <= s.len(),
        },
    decreases s.len() - i,
{
    if 0 <= i < s.len() {
        let c = s[i];
        if is_digit_char(c) {
            let d = (c as u32) - 48;
            let st = num_step(m, dpow, had_dot, ok, d as int);
            lemma_scan_num_bounds(s, i + 1, st.0, st.1, had_dot, st.2, val.push(c));
        } else if c == '.' && !had_dot {
            lemma_scan_num_bounds(s, i + 1, m, dpow, true, ok, val.push('.'));
        }
    }
}

pub proof fn lemma_scan_ident_bounds(s: Seq<char>, i: int)
    requires
        0 <= i <= s.len(),
    ensures
        i <= spec_scan_ident(s, i) <= s.len(),
    decreases s.len() - i,
{
    if 0 <= i < s.len() && is_alnum_char(s[i]) {
        lemma_scan_ident_bounds(s, i + 1);
    }
}

/// Scans a numeric literal at the cursor. `start` locates the first
/// character of the literal for error attribution.
#[verifier::loop_isolation(false)]
pub fn parse_value(input_iter: &mut ParserIter, start: &Lok) -> (r: Result<Expr, ParseError>)
    requires
        old(input_iter).index <= old(input_iter).text@.len(),
        old(input_iter).text@.len() < usize::MAX,
        start.original@ == old(input_iter).text@,
    ensures
        final(input_iter).text@ == old(input_iter).text@,
        final(input_iter).index <= final(input_iter).text@.len(),
        match spec_scan_num(
            old(input_iter).text@,
            old(input_iter).index as int,
            0,
            1,
            false,
            true,
            Seq::empty(),
        ) {
            ScanNum::NumEnd { next, m, dpow, ok, val } => {
                &&& final(input_iter).index == next
                &&& if ok {
                    r matches Ok(e) && e@ == SpecExpr::Value(Rat { n: m, d: dpow }) && dpow >= 1
                } else {
                    r matches Err(pe) && pe.0@ == spec_render_err(
                        "Could not parse value "@ + val,
                        old(input_iter).text@,
                        start.index as int,
                    )
                }
            },
            ScanNum::NumDot { next } => {
                &&& final(input_iter).index == next
                &&& r matches Err(pe) && pe.0@ == spec_render_err(
                    "Encountered decimal point for a second time in this number!"@,
                    old(input_iter).text@,
                    next,
                )
            },
        },
{
    let ghost s = input_iter.text@;
    let ghost i0 = input_iter.index as int;
    let mut val = String::new();
    let mut had_dot = false;
    let mut m: i64 = 0;
    let mut dpow: i64 = 1;
    let mut ok = true;
    let mut done = false;
    while !done
        invariant
            input_iter.text@ == s,
            0 <= i0 <= input_iter.index as int <= s.len() < usize::MAX,
            0 <= m <= i64::MAX,
            1 <= dpow <= i64::MAX,
            !done ==> spec_scan_num(s, input_iter.index as int, m as int, dpow as int, had_dot, ok, val@)
                == spec_scan_num(s, i0, 0, 1, false, true, Seq::empty()),
            done ==> spec_scan_num(s, i0, 0, 1, false, true, Seq::empty()) == (ScanNum::NumEnd {
                next: input_iter.index as int,
                m: m as int,
                dpow: dpow as int,
                ok,
                val: val@,
            }),
        decreases s.len() - input_iter.index as int + (if done { 0int } else { 1int }),
    {
        match input_iter.peek() {
            None => {
                done = true;
            },
            Some(c) => {
                if is_digit(c) {
                    let d: i64 = ((c as u32) - 48) as i64;
                    proof {
                        vstd::arithmetic::div_mod::lemma_fundamental_div_mod(
                            i64::MAX as int - d as int,
                            10,
                        );
                        vstd::arithmetic::div_mod::lemma_fundamental_div_mod(i64::MAX as int, 10);
                    }
                    if ok {
                        if m > (i64::MAX - d) / 10 {
                            ok = false;
                        } else if had_dot {
                            if dpow > i64::MAX / 10 {
                                ok = false;
                            } else {
                                m = m * 10 + d;
                                dpow = dpow * 10;
                            }
                        } else {
                            m = m * 10 + d;
                        }
                    }
                    push_char(&mut val, c);
                    input_iter.next();
                } else if c == '.' {
                    if !had_dot {
                        push_char(&mut val, c);
                        had_dot = true;
                        input_iter.next();
                    } else {
                        input_iter.next();
                        let lok = input_iter.here();
                        let msg = String::from_str(
                            "Encountered decimal point for a second time in this number!",
                        );
                        return Err(lok.error(msg));
                    }
                } else {
                    done = true;
                }
            },
        }
    }
    if ok {
        Ok(Expr::Value(crate::num::Num { n: m, d: dpow }))
    } else {
        let mut msg = String::from_str("Could not parse value ");
        msg.append(val.as_str());
        Err(start.error(msg))
    }
}

/// Scans an identifier at the cursor: a maximal run of letters and
/// digits, returned as a variable reference.
#[verifier::loop_isolation(false)]
pub fn parse_variable(input_iter: &mut ParserIter, start: &Lok) -> (r: Expr)
    requires
        old(input_iter).index <= old(input_iter).text@.len(),
        old(input_iter).text@.len() < usize::MAX,
    ensures
        final(input_iter).text@ == old(input_iter).text@,
        final(input_iter).index == spec_scan_ident(
            old(input_iter).text@,
            old(input_iter).index as int,
        ),
        final(input_iter).index <= final(input_iter).text@.len(),
        r@ == SpecExpr::Variable(
            old(input_iter).text@.subrange(
                old(input_iter).index as int,
                spec_scan_ident(old(input_iter).text@, old(input_iter).index as int),
            ),
        ),
{
    let ghost s = input_iter.text@;
    let ghost i0 = input_iter.index as int;
    let mut var = String::new();
    let mut done = false;
    while !done
        invariant
            input_iter.text@ == s,
            0 <= i0 <= input_iter.index as int <= s.len() < usize::MAX,
            var@ == s.subrange(i0, input_iter.index as int),
            !done ==> spec_scan_ident(s, input_iter.index as int) == spec_scan_ident(s, i0),
            done ==> input_iter.index as int == spec_scan_ident(s, i0),
        decreases s.len() - input_iter.index as int + (if done { 0int } else { 1int }),
    {
        match input_iter.peek() {
            None => {
                done = true;
            },
            Some(c) => {
                if char_is_alnum(c) {
                    push_char(&mut var, c);
                    input_iter.next();
                    proof {
                        assert(s.subrange(i0, input_iter.index as int) =~= s.subrange(
                            i0,
                            input_iter.index as int - 1,
                        ).push(s[input_iter.index as int - 1]));
                    }
                } else {
                    done = true;
                }
            },
        }
    }
    Expr::Variable(var)
}

/// A token of one scope: an already-reduced expression, or an operator
/// of one of the three tiers, each with the position it was read at.
#[derive(Debug)]
pub enum Token {
    Expr(Expr, Lok),
    PowOp(char, Lok),
    DotOp(char, Lok),
    DashOp(char, Lok),
}

/// The mathematical shape of a token: what it holds and its offset.
pub enum STok {
    SExpr(SpecExpr, int),
    SPowOp(char, int),
    SDotOp(char, int),
    SDashOp(char, int),
}

pub open spec fn tok_view(t: Token) -> STok {
    match t {
        Token::Expr(e, lok) => STok::SExpr(e@, lok.index as int),
        Token::PowOp(c, lok) => STok::SPowOp(c, lok.index as int),
        Token::DotOp(c, lok) => STok::SDotOp(c, lok.index as int),
        Token::DashOp(c, lok) => STok::SDashOp(c, lok.index as int),
    }
}

impl View for Token {
    type V = STok;

    open spec fn view(&self) -> STok {
        tok_view(*self)
    }
}

/// The offset a token carries.
pub open spec fn tok_idx(t: STok) -> int {
    match t {
        STok::SExpr(_, i) => i,
        STok::SPowOp(_, i) => i,
        STok::SDotOp(_, i) => i,
        STok::SDashOp(_, i) => i,
    }
}

pub open spec fn tok_orig(t: Token) -> Seq<char> {
    match t {
        Token::Expr(_, lok) => lok.original@,
        Token::PowOp(_, lok) => lok.original@,
        Token::DotOp(_, lok) => lok.original@,
        Token::DashOp(_, lok) => lok.original@,
    }
}

/// A token is sound for input `s` when its position carries `s` and any
/// expression it holds is well-formed.
pub open spec fn tok_wf(t: Token, s: Seq<char>) -> bool {
    tok_orig(t) == s && match t {
        Token::Expr(e, _) => wf_sexpr(e@),
        _ => true,
    }
}

pub open spec fn tviews(v: Seq<Token>) -> Seq<STok> {
    v.map_values(|t: Token| tok_view(t))
}

impl Token {
    /// The position the token carries.
    pub fn lok(&self) -> (r: &Lok)
        ensures
            r.original@ == tok_orig(*self),
            r.index as int == tok_idx(self@),
    {
        match self {
            Token::Expr(_, lok) => lok,
            Token::PowOp(_, lok) => lok,
            Token::DotOp(_, lok) => lok,
            Token::DashOp(_, lok) => lok,
        }
    }
}

/// The text a token shows in a diagnostic: an expression renders
/// itself, an operator its symbol.
pub open spec fn tok_str(t: STok) -> Seq<char> {
    match t {
        STok::SExpr(e, _) => spec_format(e, None),
        STok::SPowOp(c, _) => seq![c],
        STok::SDotOp(c, _) => seq![c],
        STok::SDashOp(c, _) => seq![c],
    }
}

fn token_text(t: &Token) -> (r: String)
    requires
        match t {
            Token::Expr(e, _) => wf_sexpr(e@),
            _ => true,
        },
    ensures
        r@ == tok_str(t@),
{
    match t {
        Token::Expr(e, _) => e.format(None),
        Token::PowOp(c, _) => {
            let mut s = String::new();
            push_char(&mut s, *c);
            proof {
                assert(s@ =~= seq![*c]);
            }
            s
        },
        Token::DotOp(c, _) => {
            let mut s = String::new();
            push_char(&mut s, *c);
            proof {
                assert(s@ =~= seq![*c]);
            }
            s
        },
        Token::DashOp(c, _) => {
            let mut s = String::new();
            push_char(&mut s, *c);
            proof {
                assert(s@ =~= seq![*c]);
            }
            s
        },
    }
}

/// One precedence class, reduced in its own pass.
#[derive(Debug, Clone, Copy, PartialEq, Eq, Structural)]
pub enum Tier {
    PowTier,
    DotTier,
    DashTier,
}

/// The operator symbol and position of a token, when the token belongs
/// to the pass's tier.
pub open spec fn tier_op(t: STok, tier: Tier) -> Option<(char, int)> {
    match (tier, t) {
        (Tier::PowTier, STok::SPowOp(c, i)) => Some((c, i)),
        (Tier::DotTier, STok::SDotOp(c, i)) => Some((c, i)),
        (Tier::DashTier, STok::SDashOp(c, i)) => Some((c, i)),
        _ => None,
    }
}

/// The operator a symbol stands for.
pub open spec fn char_op(c: char) -> Op {
    if c == '+' {
        Op::Add
    } else if c == '-' {
        Op::Sub
    } else if c == '*' {
        Op::Mul
    } else if c == '/' {
        Op::Div
    } else {
        Op::Pow
    }
}

fn op_of_char(c: char) -> (r: Op)
    ensures
        r == char_op(c),
{
    if c == '+' {
        Op::Add
    } else if c == '-' {
        Op::Sub
    } else if c == '*' {
        Op::Mul
    } else if c == '/' {
        Op::Div
    } else {
        Op::Pow
    }
}

pub open spec fn msg_needs_sides(c: char) -> Seq<char> {
    "Operation '"@ + seq![c] + "' requires expressions on both sides"@
}

pub open spec fn msg_invalid_toks(c: char, l: STok, r: STok) -> Seq<char> {
    "Invalid tokens for operation '"@ + seq![c] + "': '"@ + tok_str(l) + "' and '"@ + tok_str(r)
        + "'"@
}

/// How one reduction pass ends.
pub enum RedOut {
    ROk(Seq<STok>),
    RFail { msg: Seq<char>, idx: int },
}

/// One left-to-right reduction pass: each operator of the tier combines
/// the expression already placed before it with the expression that
/// follows it; any other neighborhood is a failure at the operator.
pub open spec fn spec_reduce(toks: Seq<STok>, tier: Tier, acc: Seq<STok>, i: int) -> RedOut
    decreases toks.len() - i,
{
    if i < 0 || i >= toks.len() {
        RedOut::ROk(acc)
    } else {
        let t = toks[i];
        match tier_op(t, tier) {
            Some((c, pos)) => {
                if acc.len() > 0 && i + 1 < toks.len() {
                    match (acc.last(), toks[i + 1]) {
                        (STok::SExpr(le, _), STok::SExpr(re, _)) => spec_reduce(
                            toks,
                            tier,
                            acc.drop_last().push(
                                STok::SExpr(
                                    SpecExpr::Operation(char_op(c), Box::new(le), Box::new(re)),
                                    pos,
                                ),
                            ),
                            i + 2,
                        ),
                        (l, r) => RedOut::RFail { msg: msg_invalid_toks(c, l, r), idx: pos },
                    }
                } else {
                    RedOut::RFail { msg: msg_needs_sides(c), idx: pos }
                }
            },
            None => spec_reduce(toks, tier, acc.push(t), i + 1),
        }
    }
}

/// Runs one reduction pass over the tokens of a scope.
#[verifier::loop_isolation(false)]
fn reduce_tier(tokens: Vec<Token>, tier: Tier, Ghost(s): Ghost<Seq<char>>) -> (r: Result<
    Vec<Token>,
    ParseError,
>)
    requires
        forall|j: int| 0 <= j < tokens@.len() ==> tok_wf(#[trigger] tokens@[j], s),
    ensures
        match r {
            Ok(out) => spec_reduce(tviews(tokens@), tier, Seq::empty(), 0) == RedOut::ROk(
                tviews(out@),
            ) && forall|j: int| 0 <= j < out@.len() ==> tok_wf(#[trigger] out@[j], s),
            Err(pe) => spec_reduce(tviews(tokens@), tier, Seq::empty(), 0) matches RedOut::RFail {
                msg,
                idx,
            } && pe.0@ == spec_render_err(msg, s, idx),
        },
{
    let ghost toks0 = tviews(tokens@);
    let mut input = tokens;
    let mut acc: Vec<Token> = Vec::new();
    let ghost mut i: int = 0;
    proof {
        assert(tviews(input@) =~= toks0.subrange(0, toks0.len() as int));
        assert(tviews(acc@) =~= Seq::<STok>::empty());
    }
    while input.len() > 0
        invariant
            0 <= i <= toks0.len(),
            toks0.len() == tviews(tokens@).len(),
            tviews(input@) == toks0.subrange(i, toks0.len() as int),
            forall|j: int| 0 <= j < input@.len() ==> tok_wf(#[trigger] input@[j], s),
            forall|j: int| 0 <= j < acc@.len() ==> tok_wf(#[trigger] acc@[j], s),
            spec_reduce(toks0, tier, tviews(acc@), i) == spec_reduce(toks0, tier, Seq::empty(), 0),
        decreases input@.len(),
    {
        let ghost input_pre = input@;
        let ghost acc_pre = acc@;
        let t = input.remove(0);
        proof {
            input_pre.remove_ensures(0);
            assert(t@ == tviews(input_pre)[0]);
            assert(tviews(input_pre)[0] == toks0[i]);
            assert forall|k: int| 0 <= k < input@.len() implies #[trigger] tviews(input@)[k]
                == toks0.subrange(i + 1, toks0.len() as int)[k] by {
                assert(input@[k] == input_pre[k + 1]);
                assert(tviews(input_pre)[k + 1] == tok_view(input_pre[k + 1]));
                assert(tviews(input@)[k] == tok_view(input@[k]));
            }
            assert(tviews(input@) =~= toks0.subrange(i + 1, toks0.len() as int));
        }
        let step: Option<(char, Lok)>;
        match t {
            Token::PowOp(c, lok) => {
                if matches!(tier, Tier::PowTier) {
                    step = Some((c, lok));
                } else {
                    acc.push(Token::PowOp(c, lok));
                    step = None;
                }
            },
            Token::DotOp(c, lok) => {
                if matches!(tier, Tier::DotTier) {
                    step = Some((c, lok));
                } else {
                    acc.push(Token::DotOp(c, lok));
                    step = None;
                }
            },
            Token::DashOp(c, lok) => {
                if matches!(tier, Tier::DashTier) {
                    step = Some((c, lok));
                } else {
                    acc.push(Token::DashOp(c, lok));
                    step = None;
                }
            },
            Token::Expr(e, lok) => {
                acc.push(Token::Expr(e, lok));
                step = None;
            },
        }
        match step {
            None => {
                proof {
                    assert(tviews(acc@) =~= tviews(acc_pre).push(toks0[i]));
                    i = i + 1;
                }
            },
            Some((c, lok)) => {
                if acc.len() == 0 || input.len() == 0 {
                    let mut msg = String::from_str("Operation '");
                    push_char(&mut msg, c);
                    msg.append("' requires expressions on both sides");
                    proof {
                        assert(msg@ =~= msg_needs_sides(c));
                    }
                    return Err(lok.error(msg));
                }
                let left = match acc.pop() {
                    Some(l) => l,
                    None => unreached(),
                };
                let ghost input_mid = input@;
                let right = input.remove(0);
                proof {
                    input_mid.remove_ensures(0);
                    assert(left@ == tviews(acc_pre).last());
                    assert(right@ == tviews(input_mid)[0]);
                    assert(tviews(input_mid)[0] == toks0.subrange(i + 1, toks0.len() as int)[0]);
                    assert(right@ == toks0[i + 1]);
                    assert forall|k: int| 0 <= k < input@.len() implies #[trigger] tviews(input@)[k]
                        == toks0.subrange(i + 2, toks0.len() as int)[k] by {
                        assert(input@[k] == input_mid[k + 1]);
                        assert(tviews(input_mid)[k + 1] == tok_view(input_mid[k + 1]));
                        assert(tviews(input@)[k] == tok_view(input@[k]));
                    }
                    assert(tviews(input@) =~= toks0.subrange(i + 2, toks0.len() as int));
                }
                match (left, right) {
                    (Token::Expr(le, _), Token::Expr(re, _)) => {
                        let ghost acc_mid = acc@;
                        acc.push(
                            Token::Expr(Expr::Operation(op_of_char(c), Box::new(le), Box::new(re)), lok),
                        );
                        proof {
                            assert(tviews(acc_mid) =~= tviews(acc_pre).drop_last());
                            assert(tviews(acc@) =~= tviews(acc_mid).push(
                                STok::SExpr(
                                    SpecExpr::Operation(
                                        char_op(c),
                                        Box::new(le@),
                                        Box::new(re@),
                                    ),
                                    lok.index as int,
                                ),
                            ));
                            i = i + 2;
                        }
                    },
                    (l, r) => {
                        let mut msg = String::from_str("Invalid tokens for operation '");
                        push_char(&mut msg, c);
                        msg.append("': '");
                        let lt = token_text(&l);
                        msg.append(lt.as_str());
                        msg.append("' and '");
                        let rt = token_text(&r);
                        msg.append(rt.as_str());
                        msg.append("'");
                        proof {
                            assert(msg@ =~= msg_invalid_toks(c, l@, r@));
                        }
                        return Err(lok.error(msg));
                    },
                }
            },
        }
    }
    proof {
        assert(tviews(input@).len() == 0);
        assert(i == toks0.len());
    }
    Ok(acc)
}

pub open spec fn clip(j: int, lo: int, hi: int) -> int {
    if j < lo {
        lo
    } else if j > hi {
        hi
    } else {
        j
    }
}

/// How scanning one scope's tokens ends.
pub enum ScanScope {
    SOk { toks: Seq<STok>, next: int, closed: bool },
    SFail { msg: Seq<char>, idx: int },
}

/// How parsing one scope ends.
pub enum ParseOut {
    POk { e: SpecExpr, next: int },
    PFail { msg: Seq<char>, idx: int },
}

/// The token scan of one scope: whitespace is skipped, a closing
/// bracket ends the scope, an opening bracket parses a nested scope
/// into a single expression token, and digits, letters and operator
/// symbols scan as their lexeme classes.
pub open spec fn spec_scan_scope(s: Seq<char>, i: int, acc: Seq<STok>) -> ScanScope
    decreases s.len() - i, 0int,
{
    if i < 0 || i >= s.len() {
        ScanScope::SOk { toks: acc, next: i, closed: false }
    } else {
        let c = s[i];
        if is_space_char(c) {
            spec_scan_scope(s, i + 1, acc)
        } else if c == ')' {
            ScanScope::SOk { toks: acc, next: i + 1, closed: true }
        } else if c == '(' {
            match spec_parse_scope(s, i + 1, true, i + 1) {
                ParseOut::POk { e, next } => {
                    let k = clip(next, i + 1, s.len() as int);
                    spec_scan_scope(s, k, acc.push(STok::SExpr(e, k)))
                },
                ParseOut::PFail { msg, idx } => ScanScope::SFail { msg, idx },
            }
        } else if is_digit_char(c) {
            match spec_scan_num(s, i, 0, 1, false, true, Seq::empty()) {
                ScanNum::NumEnd { next, m, dpow, ok, val } => {
                    if ok {
                        let k = clip(next, i + 1, s.len() as int);
                        spec_scan_scope(
                            s,
                            k,
                            acc.push(STok::SExpr(SpecExpr::Value(Rat { n: m, d: dpow }), k)),
                        )
                    } else {
                        ScanScope::SFail { msg: "Could not parse value "@ + val, idx: i }
                    }
                },
                ScanNum::NumDot { next } => ScanScope::SFail {
                    msg: "Encountered decimal point for a second time in this number!"@,
                    idx: next,
                },
            }
        } else if is_alpha_char(c) {
            let end = spec_scan_ident(s, i);
            let k = clip(end, i + 1, s.len() as int);
            spec_scan_scope(s, k, acc.push(STok::SExpr(SpecExpr::Variable(s.subrange(i, k)), k)))
        } else if c == '+' || c == '-' {
            spec_scan_scope(s, i + 1, acc.push(STok::SDashOp(c, i)))
        } else if c == '*' || c == '/' {
            spec_scan_scope(s, i + 1, acc.push(STok::SDotOp(c, i)))
        } else if c == '^' {
            spec_scan_scope(s, i + 1, acc.push(STok::SPowOp(c, i)))
        } else {
            ScanScope::SFail { msg: "Invalid token '"@ + seq![c] + "'"@, idx: i }
        }
    }
}

/// The parse of one scope: scan its tokens, demand the closing bracket
/// of an inner scope, reduce by the three precedence passes in order,
/// and require that a single expression remains; an empty scope stands
/// for zero.
pub open spec fn spec_parse_scope(s: Seq<char>, i: int, is_inner: bool, start: int) -> ParseOut
    decreases s.len() - i, 1int,
{
    match spec_scan_scope(s, i, Seq::empty()) {
        ScanScope::SFail { msg, idx } => ParseOut::PFail { msg, idx },
        ScanScope::SOk { toks, next, closed } => {
            if is_inner && !closed {
                ParseOut::PFail {
                    msg: "Missing closing bracket for this opening bracket"@,
                    idx: start,
                }
            } else {
                match spec_reduce(toks, Tier::PowTier, Seq::empty(), 0) {
                    RedOut::RFail { msg, idx } => ParseOut::PFail { msg, idx },
                    RedOut::ROk(t1) => match spec_reduce(t1, Tier::DotTier, Seq::empty(), 0) {
                        RedOut::RFail { msg, idx } => ParseOut::PFail { msg, idx },
                        RedOut::ROk(t2) => match spec_reduce(t2, Tier::DashTier, Seq::empty(), 0) {
                            RedOut::RFail { msg, idx } => ParseOut::PFail { msg, idx },
                            RedOut::ROk(t3) => {
                                if t3.len() == 1 {
                                    match t3[0] {
                                        STok::SExpr(e, _) => ParseOut::POk { e, next },
                                        _ => ParseOut::POk {
                                            e: SpecExpr::Value(Rat { n: 0, d: 1 }),
                                            next,
                                        },
                                    }
                                } else if t3.len() > 1 {
                                    ParseOut::PFail {
                                        msg: "Found more than one expressions without operator in between!"@,
                                        idx: tok_idx(t3.last()),
                                    }
                                } else {
                                    ParseOut::POk { e: SpecExpr::Value(Rat { n: 0, d: 1 }), next }
                                }
                            },
                        },
                    },
                }
            }
        },
    }
}

pub proof fn lemma_scan_scope_bounds(s: Seq<char>, i: int, acc: Seq<STok>)
    requires
        0 <= i <= s.len(),
    ensures
        match spec_scan_scope(s, i, acc) {
            ScanScope::SOk { next, closed, .. } => i <= next <= s.len() && (closed ==> next >= i
                + 1),
            ScanScope::SFail { .. } => true,
        },
    decreases s.len() - i, 0int,
{
    if 0 <= i < s.len() {
        let c = s[i];
        if is_space_char(c) {
            lemma_scan_scope_bounds(s, i + 1, acc);
        } else if c == ')' {
        } else if c == '(' {
            match spec_parse_scope(s, i + 1, true, i + 1) {
                ParseOut::POk { e, next } => {
                    let k = clip(next, i + 1, s.len() as int);
                    lemma_scan_scope_bounds(s, k, acc.push(STok::SExpr(e, k)));
                },
                ParseOut::PFail { .. } => {},
            }
        } else if is_digit_char(c) {
            match spec_scan_num(s, i, 0, 1, false, true, Seq::empty()) {
                ScanNum::NumEnd { next, m, dpow, ok, val } => {
                    if ok {
                        let k = clip(next, i + 1, s.len() as int);
                        lemma_scan_scope_bounds(
                            s,
                            k,
                            acc.push(STok::SExpr(SpecExpr::Value(Rat { n: m, d: dpow }), k)),
                        );
                    }
                },
                ScanNum::NumDot { .. } => {},
            }
        } else if is_alpha_char(c) {
            let end = spec_scan_ident(s, i);
            let k = clip(end, i + 1, s.len() as int);
            lemma_scan_scope_bounds(
                s,
                k,
                acc.push(STok::SExpr(SpecExpr::Variable(s.subrange(i, k)), k)),
            );
        } else if c == '+' || c == '-' {
            lemma_scan_scope_bounds(s, i + 1, acc.push(STok::SDashOp(c, i)));
        } else if c == '*' || c == '/' {
            lemma_scan_scope_bounds(s, i + 1, acc.push(STok::SDotOp(c, i)));
        } else if c == '^' {
            lemma_scan_scope_bounds(s, i + 1, acc.push(STok::SPowOp(c, i)));
        }
    }
}

pub proof fn lemma_parse_scope_bounds(s: Seq<char>, i: int, is_inner: bool, start: int)
    requires
        0 <= i <= s.len(),
    ensures
        match spec_parse_scope(s, i, is_inner, start) {
            ParseOut::POk { next, .. } => i <= next <= s.len() && (is_inner ==> next >= i + 1),
            ParseOut::PFail { .. } => true,
        },
    decreases s.len() - i, 1int,
{
    lemma_scan_scope_bounds(s, i, Seq::empty());
}

proof fn lemma_tviews_push(v: Seq<Token>, t: Token)
    ensures
        tviews(v.push(t)) == tviews(v).push(tok_view(t)),
{
    assert(tviews(v.push(t)) =~= tviews(v).push(tok_view(t)));
}

/// Parses one bracketed or top-level region into a single expression.
/// `start` locates the region's opening bracket for error attribution.
#[verifier::loop_isolation(false)]
pub fn parse_scope(input_iter: &mut ParserIter, start: &Lok, is_inner: bool) -> (r: Result<
    Expr,
    ParseError,
>)
    requires
        old(input_iter).index <= old(input_iter).text@.len(),
        old(input_iter).text@.len() < usize::MAX,
        start.original@ == old(input_iter).text@,
    ensures
        final(input_iter).text@ == old(input_iter).text@,
        match r {
            Ok(e) => match spec_parse_scope(
                old(input_iter).text@,
                old(input_iter).index as int,
                is_inner,
                start.index as int,
            ) {
                ParseOut::POk { e: se, next } => se == e@ && wf_sexpr(e@)
                    && final(input_iter).index == next
                    && final(input_iter).index <= final(input_iter).text@.len(),
                ParseOut::PFail { .. } => false,
            },
            Err(pe) => match spec_parse_scope(
                old(input_iter).text@,
                old(input_iter).index as int,
                is_inner,
                start.index as int,
            ) {
                ParseOut::PFail { msg, idx } => pe.0@ == spec_render_err(
                    msg,
                    old(input_iter).text@,
                    idx,
                ),
                ParseOut::POk { .. } => false,
            },
        },
    decreases old(input_iter).text@.len() - old(input_iter).index,
{
    let ghost s = input_iter.text@;
    let ghost i0 = input_iter.index as int;
    let mut tokens: Vec<Token> = Vec::new();
    let mut finished_with_bracket = false;
    let mut done = false;
    proof {
        assert(tviews(tokens@) =~= Seq::<STok>::empty());
    }
    while !done
        invariant
            input_iter.text@ == s,
            0 <= i0 <= input_iter.index as int <= s.len(),
            forall|j: int| 0 <= j < tokens@.len() ==> tok_wf(#[trigger] tokens@[j], s),
            !done ==> !finished_with_bracket,
            !done ==> spec_scan_scope(s, input_iter.index as int, tviews(tokens@))
                == spec_scan_scope(s, i0, Seq::empty()),
            done ==> spec_scan_scope(s, i0, Seq::empty()) == (ScanScope::SOk {
                toks: tviews(tokens@),
                next: input_iter.index as int,
                closed: finished_with_bracket,
            }),
        decreases s.len() - input_iter.index as int + (if done { 0int } else { 1int }),
    {
        let ghost ip = input_iter.index as int;
        let ghost toks_pre = tokens@;
        match input_iter.peek() {
            None => {
                done = true;
            },
            Some(c) => {
                if char_is_space(c) {
                    input_iter.next();
                } else if c == ')' {
                    input_iter.next();
                    finished_with_bracket = true;
                    done = true;
                } else if c == '(' {
                    input_iter.next();
                    let start2 = input_iter.here();
                    let sub = match parse_scope(input_iter, &start2, true) {
                        Ok(e) => e,
                        Err(pe) => {
                            return Err(pe);
                        },
                    };
                    proof {
                        lemma_parse_scope_bounds(s, ip + 1, true, ip + 1);
                    }
                    let lok = input_iter.here();
                    tokens.push(Token::Expr(sub, lok));
                    proof {
                        lemma_tviews_push(toks_pre, tokens@.last());
                    }
                } else if is_digit(c) {
                    let start2 = input_iter.here();
                    let v = match parse_value(input_iter, &start2) {
                        Ok(v) => v,
                        Err(pe) => {
                            return Err(pe);
                        },
                    };
                    proof {
                        let d = ((s[ip] as u32) - 48) as int;
                        let st = num_step(0, 1, false, true, d);
                        lemma_scan_num_bounds(
                            s,
                            ip + 1,
                            st.0,
                            st.1,
                            false,
                            st.2,
                            Seq::empty().push(s[ip]),
                        );
                    }
                    let lok = input_iter.here();
                    tokens.push(Token::Expr(v, lok));
                    proof {
                        lemma_tviews_push(toks_pre, tokens@.last());
                    }
                } else if char_is_alpha(c) {
                    let start2 = input_iter.here();
                    let v = parse_variable(input_iter, &start2);
                    proof {
                        lemma_scan_ident_bounds(s, ip + 1);
                    }
                    let lok = input_iter.here();
                    tokens.push(Token::Expr(v, lok));
                    proof {
                        lemma_tviews_push(toks_pre, tokens@.last());
                    }
                } else if c == '+' || c == '-' {
                    let lok = input_iter.here();
                    tokens.push(Token::DashOp(c, lok));
                    input_iter.next();
                    proof {
                        lemma_tviews_push(toks_pre, tokens@.last());
                    }
                } else if c == '*' || c == '/' {
                    let lok = input_iter.here();
                    tokens.push(Token::DotOp(c, lok));
                    input_iter.next();
                    proof {
                        lemma_tviews_push(toks_pre, tokens@.last());
                    }
                } else if c == '^' {
                    let lok = input_iter.here();
                    tokens.push(Token::PowOp(c, lok));
                    input_iter.next();
                    proof {
                        lemma_tviews_push(toks_pre, tokens@.last());
                    }
                } else {
                    let lok = input_iter.here();
                    let mut msg = String::from_str("Invalid token '");
                    push_char(&mut msg, c);
                    msg.append("'");
                    proof {
                        assert(msg@ =~= "Invalid token '"@ + seq![c] + "'"@);
                    }
                    return Err(lok.error(msg));
                }
            },
        }
    }
    if is_inner && !finished_with_bracket {
        let msg = String::from_str("Missing closing bracket for this opening bracket");
        return Err(start.error(msg));
    }
    let t1 = match reduce_tier(tokens, Tier::PowTier, Ghost(s)) {
        Ok(v) => v,
        Err(pe) => {
            return Err(pe);
        },
    };
    let t2 = match reduce_tier(t1, Tier::DotTier, Ghost(s)) {
        Ok(v) => v,
        Err(pe) => {
            return Err(pe);
        },
    };
    let mut t3 = match reduce_tier(t2, Tier::DashTier, Ghost(s)) {
        Ok(v) => v,
        Err(pe) => {
            return Err(pe);
        },
    };
    if t3.len() == 1 {
        let only = match t3.pop() {
            Some(t) => t,
            None => unreached(),
        };
        match only {
            Token::Expr(e, _) => {
                return Ok(e);
            },
            _ => {
                return Ok(Expr::Value(crate::num::Num { n: 0, d: 1 }));
            },
        }
    }
    if t3.len() > 1 {
        let lastt = match t3.pop() {
            Some(t) => t,
            None => unreached(),
        };
        let msg = String::from_str("Found more than one expressions without operator in between!");
        let lok = lastt.lok();
        return Err(lok.error(msg));
    }
    Ok(Expr::Value(crate::num::Num { n: 0, d: 1 }))
}

/// What parsing the whole input returns.
pub open spec fn spec_parse(s: Seq<char>) -> ParseOut {
    spec_parse_scope(s, 0, false, 0)
}

/// The entry point: parses the input text into an expression tree, or
/// a rendered diagnostic.
pub fn parse(input: &str) -> (r: Result<Expr, ParseError>)
    requires
        input@.len() < usize::MAX,
    ensures
        match r {
            Ok(e) => match spec_parse(input@) {
                ParseOut::POk { e: se, .. } => se == e@ && wf_sexpr(e@),
                ParseOut::PFail { .. } => false,
            },
            Err(pe) => match spec_parse(input@) {
                ParseOut::PFail { msg, idx } => pe.0@ == spec_render_err(msg, input@, idx),
                ParseOut::POk { .. } => false,
            },
        },
{
    let mut input_iter = ParserIter::new(input);
    let here = input_iter.here();
    parse_scope(&mut input_iter, &here, false)
}

} // verus!
