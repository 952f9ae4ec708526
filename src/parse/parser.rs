//! The parser: marked tokens to the statements of `int main() { ... }`.
//!
//! Expressions are parsed by precedence: unary minus binds tightest, then
//! `*`, `/` and `%`, then `+` and `-`, each level from left to right. An
//! assignment `x op= e` becomes `x = x op e`.
use vstd::prelude::*;
use vstd::string::StringExecFns;
use crate::middle::{lowerable_expr, lowerable_stmt};
use crate::parse::ast::{Expr, Expr_, Ident, Operator, Statement, Statement_, node_idents_below,
    stmt_idents_below};
use crate::parse::lexer::{MarkedToken, Token, tokens_ok};
use crate::parse::parser_panic;
use crate::util::errors::{Errors, Fatal};
use crate::util::mark::{Mark, Marked, dummy_mark};

verus! {

/// An expression the parser may hand on: its identifiers are below `n` and
/// lowering accepts its operators.
pub open spec fn good_expr(e: Expr, n: nat) -> bool {
    node_idents_below(e.node, n) && lowerable_expr(e)
}

/// A statement the parser may hand on.
pub open spec fn good_stmt(s: Statement, n: nat) -> bool {
    stmt_idents_below(s, n) && lowerable_stmt(s)
}

/// The token at `p`, if there is one.
pub open spec fn tok(toks: Seq<MarkedToken>, p: int) -> Option<Token> {
    if 0 <= p < toks.len() {
        Some(toks[p].node)
    } else {
        None
    }
}

/// The mark from the start of `a` to the end of `b` (empty if `b` ends first).
pub open spec fn spec_span(a: Mark, b: Mark) -> Mark {
    if b.hi < a.lo {
        Mark { lo: a.lo, hi: a.lo }
    } else {
        Mark { lo: a.lo, hi: b.hi }
    }
}

/// `e op e2`, marked from the start of `e` to the end of `e2`.
pub open spec fn binary(op: Operator, e: Expr, e2: Expr) -> Expr {
    Marked { mark: spec_span(e.mark, e2.mark), node: Expr_::Binary(op, Box::new(e), Box::new(e2)) }
}

pub open spec fn mul_op_at(toks: Seq<MarkedToken>, p: int) -> Option<Operator> {
    match tok(toks, p) {
        Some(Token::Star) => Some(Operator::Times),
        Some(Token::Slash) => Some(Operator::DividedBy),
        Some(Token::Percent) => Some(Operator::Modulo),
        _ => None,
    }
}

pub open spec fn add_op_at(toks: Seq<MarkedToken>, p: int) -> Option<Operator> {
    match tok(toks, p) {
        Some(Token::Plus) => Some(Operator::Plus),
        Some(Token::Minus) => Some(Operator::Minus),
        _ => None,
    }
}

/// A factor at `pos`: a negation, a parenthesized expression, a constant or a
/// variable; and the position after it.
pub open spec fn factor_at(toks: Seq<MarkedToken>, pos: int) -> Option<(Expr, int)>
    decreases toks.len() - pos, 0nat,
{
    if pos < 0 || pos >= toks.len() {
        None
    } else {
        let m = toks[pos].mark;
        match toks[pos].node {
            Token::Minus => match factor_at(toks, pos + 1) {
                Some((e, p)) => Some(
                    (
                        Marked {
                            mark: spec_span(m, e.mark),
                            node: Expr_::Unary(Operator::Negative, Box::new(e)),
                        },
                        p,
                    ),
                ),
                None => None,
            },
            Token::Lparen => match exp_at(toks, pos + 1) {
                Some((e, p)) => if tok(toks, p) == Some(Token::Rparen) {
                    Some((e, p + 1))
                } else {
                    None
                },
                None => None,
            },
            Token::Intconst(c) => Some((Marked { mark: m, node: Expr_::Constant(c) }, pos + 1)),
            Token::Ident(s) => Some((Marked { mark: m, node: Expr_::Variable(s) }, pos + 1)),
            _ => None,
        }
    }
}

/// The factors that follow `e` at `p`, joined by `*`, `/` and `%` from the
/// left.
pub open spec fn term_rest(toks: Seq<MarkedToken>, e: Expr, p: int) -> Option<(Expr, int)>
    decreases toks.len() - p, 1nat,
{
    if p < 0 || p > toks.len() {
        None
    } else {
        match mul_op_at(toks, p) {
            Some(op) => match factor_at(toks, p + 1) {
                Some((e2, p2)) => if p < p2 <= toks.len() {
                    term_rest(toks, binary(op, e, e2), p2)
                } else {
                    None
                },
                None => None,
            },
            None => Some((e, p)),
        }
    }
}

pub open spec fn term_at(toks: Seq<MarkedToken>, pos: int) -> Option<(Expr, int)>
    decreases toks.len() - pos, 2nat,
{
    match factor_at(toks, pos) {
        Some((e, p)) => if pos < p <= toks.len() {
            term_rest(toks, e, p)
        } else {
            None
        },
        None => None,
    }
}

/// The terms that follow `e` at `p`, joined by `+` and `-` from the left.
pub open spec fn exp_rest(toks: Seq<MarkedToken>, e: Expr, p: int) -> Option<(Expr, int)>
    decreases toks.len() - p, 3nat,
{
    if p < 0 || p > toks.len() {
        None
    } else {
        match add_op_at(toks, p) {
            Some(op) => match term_at(toks, p + 1) {
                Some((e2, p2)) => if p < p2 <= toks.len() {
                    exp_rest(toks, binary(op, e, e2), p2)
                } else {
                    None
                },
                None => None,
            },
            None => Some((e, p)),
        }
    }
}

/// An expression at `pos`, and the position after it.
pub open spec fn exp_at(toks: Seq<MarkedToken>, pos: int) -> Option<(Expr, int)>
    decreases toks.len() - pos, 4nat,
{
    match term_at(toks, pos) {
        Some((e, p)) => if pos < p <= toks.len() {
            exp_rest(toks, e, p)
        } else {
            None
        },
        None => None,
    }
}

/// The position after the opening parentheses from `p`.
pub open spec fn lparens_end(toks: Seq<MarkedToken>, p: int) -> int
    decreases toks.len() - p,
{
    if 0 <= p < toks.len() && toks[p].node == Token::Lparen {
        lparens_end(toks, p + 1)
    } else {
        p
    }
}

/// The position after `k` closing parentheses from `p`.
pub open spec fn rparens_end(toks: Seq<MarkedToken>, p: int, k: nat) -> Option<int>
    decreases k,
{
    if k == 0 {
        Some(p)
    } else if tok(toks, p) == Some(Token::Rparen) {
        rparens_end(toks, p + 1, (k - 1) as nat)
    } else {
        None
    }
}

/// The assignment operator at `p`: `Some(None)` for `=`, `Some(Some(op))` for
/// `op=`.
pub open spec fn assign_op_at(toks: Seq<MarkedToken>, p: int) -> Option<Option<Operator>> {
    match tok(toks, p) {
        Some(Token::Assign) => Some(None),
        Some(Token::Pluseq) => Some(Some(Operator::Plus)),
        Some(Token::Minuseq) => Some(Some(Operator::Minus)),
        Some(Token::Stareq) => Some(Some(Operator::Times)),
        Some(Token::Slasheq) => Some(Some(Operator::DividedBy)),
        Some(Token::Percenteq) => Some(Some(Operator::Modulo)),
        _ => None,
    }
}

/// An assignment at `pos`, up to and including its `;`.
pub open spec fn assignment_at(toks: Seq<MarkedToken>, pos: int) -> Option<(Statement, int)> {
    let q = lparens_end(toks, pos);
    match tok(toks, q) {
        Some(Token::Ident(id)) => {
            let lv = toks[q].mark;
            match rparens_end(toks, q + 1, (q - pos) as nat) {
                Some(p) => match assign_op_at(toks, p) {
                    Some(op) => match exp_at(toks, p + 1) {
                        Some((e, p2)) => if tok(toks, p2) == Some(Token::Semi) {
                            let rhs = match op {
                                None => e,
                                Some(op) => Marked {
                                    mark: spec_span(lv, toks[p2 - 1].mark),
                                    node: Expr_::Binary(
                                        op,
                                        Box::new(Marked { mark: lv, node: Expr_::Variable(id) }),
                                        Box::new(e),
                                    ),
                                },
                            };
                            Some(
                                (
                                    Marked {
                                        mark: spec_span(toks[pos].mark, toks[p2].mark),
                                        node: Statement_::Assign(id, rhs),
                                    },
                                    p2 + 1,
                                ),
                            )
                        } else {
                            None
                        },
                        None => None,
                    },
                    None => None,
                },
                None => None,
            }
        },
        _ => None,
    }
}

/// A statement at `pos`, up to and including its `;`.
pub open spec fn statement_at(toks: Seq<MarkedToken>, pos: int) -> Option<(Statement, int)> {
    if pos < 0 || pos >= toks.len() {
        None
    } else {
        let first = toks[pos].mark;
        match toks[pos].node {
            Token::Int => match tok(toks, pos + 1) {
                Some(Token::Ident(id)) => if tok(toks, pos + 2) == Some(Token::Semi) {
                    Some(
                        (
                            Marked {
                                mark: spec_span(first, toks[pos + 2].mark),
                                node: Statement_::Decl(id),
                            },
                            pos + 3,
                        ),
                    )
                } else if tok(toks, pos + 2) == Some(Token::Assign) {
                    match exp_at(toks, pos + 3) {
                        Some((e, p)) => if tok(toks, p) == Some(Token::Semi) {
                            Some(
                                (
                                    Marked {
                                        mark: spec_span(first, toks[p].mark),
                                        node: Statement_::DeclAssign(id, e),
                                    },
                                    p + 1,
                                ),
                            )
                        } else {
                            None
                        },
                        None => None,
                    }
                } else {
                    None
                },
                _ => None,
            },
            Token::Return => match exp_at(toks, pos + 1) {
                Some((e, p)) => if tok(toks, p) == Some(Token::Semi) {
                    Some(
                        (
                            Marked { mark: spec_span(first, toks[p].mark), node: Statement_::Return(e) },
                            p + 1,
                        ),
                    )
                } else {
                    None
                },
                None => None,
            },
            Token::Ident(_) => assignment_at(toks, pos),
            Token::Lparen => assignment_at(toks, pos),
            _ => None,
        }
    }
}

/// The statements from `p` up to the closing brace, and its position.
pub open spec fn statements_from(toks: Seq<MarkedToken>, p: int) -> Option<(Seq<Statement>, int)>
    decreases toks.len() - p,
{
    if tok(toks, p) == Some(Token::Rbrace) {
        Some((seq![], p))
    } else if p < 0 || p >= toks.len() {
        None
    } else {
        match statement_at(toks, p) {
            Some((s, p2)) => if p < p2 <= toks.len() {
                match statements_from(toks, p2) {
                    Some((ss, q)) => Some((seq![s] + ss, q)),
                    None => None,
                }
            } else {
                None
            },
            None => None,
        }
    }
}

/// The statements of the program `int main() { ... }` that the tokens spell,
/// if they spell one and nothing follows it.
pub open spec fn program_of(toks: Seq<MarkedToken>) -> Option<Seq<Statement>> {
    if tok(toks, 0) == Some(Token::Int) && tok(toks, 1) == Some(Token::Main) && tok(toks, 2) == Some(
        Token::Lparen,
    ) && tok(toks, 3) == Some(Token::Rparen) && tok(toks, 4) == Some(Token::Lbrace) {
        match statements_from(toks, 5) {
            Some((ss, q)) => if q + 1 < toks.len() {
                None
            } else {
                Some(ss)
            },
            None => None,
        }
    } else {
        None
    }
}

/// The mark from the start of `a` to the end of `b`.
fn span(a: Mark, b: Mark) -> (r: Mark)
    ensures
        r == spec_span(a, b),
        r.lo <= r.hi,
{
    if b.hi < a.lo {
        Mark::new(a.lo, a.lo)
    } else {
        Mark::new(a.lo, b.hi)
    }
}

/// Stops compilation at the token at `pos`, or at the end of the input.
fn unexpected(toks: &Vec<MarkedToken>, pos: usize, errors: &Errors) -> (r: Fatal)
    requires
        errors.wf(),
{
    if pos < toks.len() {
        parser_panic(errors, String::from_str("Parse error: unexpected token"), toks[pos].mark)
    } else {
        parser_panic(errors, String::from_str("Parse error: unexpected end of input"), dummy_mark())
    }
}

/// Whether the token at `pos` is `t`.
fn at(toks: &Vec<MarkedToken>, pos: usize, t: Token) -> (r: bool)
    ensures
        r == (pos < toks@.len() && toks@[pos as int].node == t),
        r == (tok(toks@, pos as int) == Some(t)),
{
    pos < toks.len() && toks[pos].node == t
}

/// Consumes the token `t` at `pos`.
fn expect(toks: &Vec<MarkedToken>, pos: usize, t: Token, errors: &Errors) -> (r: Result<usize, Fatal>)
    requires
        errors.wf(),
        toks@.len() + 3 <= usize::MAX,
    ensures
        r is Ok <==> tok(toks@, pos as int) == Some(t),
        r matches Ok(p) ==> pos < toks@.len() && p == pos + 1 && toks@[pos as int].node == t,
{
    if at(toks, pos, t) {
        Ok(pos + 1)
    } else {
        Err(unexpected(toks, pos, errors))
    }
}

fn factor(toks: &Vec<MarkedToken>, pos: usize, errors: &Errors, Ghost(n): Ghost<nat>) -> (r: Result<
    (Expr, usize),
    Fatal,
>)
    requires
        errors.wf(),
        tokens_ok(toks@, n),
        toks@.len() + 3 <= usize::MAX,
    ensures
        r matches Ok((e, p)) ==> pos < p <= toks@.len() && good_expr(e, n),
        match factor_at(toks@, pos as int) {
            Some((e, p)) => r matches Ok((e2, p2)) && e2 == e && p2 == p,
            None => r is Err,
        },
    decreases toks@.len() - pos, 0nat,
{
    if pos >= toks.len() {
        return Err(unexpected(toks, pos, errors));
    }
    let m = toks[pos].mark;
    assert(tokens_ok(toks@, n) ==> (toks@[pos as int].node matches Token::Ident(s) ==> (s.0 as nat) < n));
    match toks[pos].node {
        Token::Minus => {
            let (e, p) = factor(toks, pos + 1, errors, Ghost(n))?;
            let mk = span(m, e.mark);
            Ok((Marked::new(Expr_::Unary(Operator::Negative, Box::new(e)), mk), p))
        },
        Token::Lparen => {
            let (e, p) = exp(toks, pos + 1, errors, Ghost(n))?;
            let p = expect(toks, p, Token::Rparen, errors)?;
            Ok((e, p))
        },
        Token::Intconst(c) => Ok((Marked::new(Expr_::Constant(c), m), pos + 1)),
        Token::Ident(s) => Ok((Marked::new(Expr_::Variable(s), m), pos + 1)),
        _ => Err(unexpected(toks, pos, errors)),
    }
}

/// The multiplicative operator at `pos`, if there is one.
fn mul_op(toks: &Vec<MarkedToken>, pos: usize) -> (r: Option<Operator>)
    ensures
        r == mul_op_at(toks@, pos as int),
        r matches Some(op) ==> pos < toks@.len() && op != Operator::Decrement,
{
    if pos >= toks.len() {
        None
    } else {
        match toks[pos].node {
            Token::Star => Some(Operator::Times),
            Token::Slash => Some(Operator::DividedBy),
            Token::Percent => Some(Operator::Modulo),
            _ => None,
        }
    }
}

/// The additive operator at `pos`, if there is one.
fn add_op(toks: &Vec<MarkedToken>, pos: usize) -> (r: Option<Operator>)
    ensures
        r == add_op_at(toks@, pos as int),
        r matches Some(op) ==> pos < toks@.len() && op != Operator::Decrement,
{
    if pos >= toks.len() {
        None
    } else {
        match toks[pos].node {
            Token::Plus => Some(Operator::Plus),
            Token::Minus => Some(Operator::Minus),
            _ => None,
        }
    }
}

fn term(toks: &Vec<MarkedToken>, pos: usize, errors: &Errors, Ghost(n): Ghost<nat>) -> (r: Result<
    (Expr, usize),
    Fatal,
>)
    requires
        errors.wf(),
        tokens_ok(toks@, n),
        toks@.len() + 3 <= usize::MAX,
    ensures
        r matches Ok((e, p)) ==> pos < p <= toks@.len() && good_expr(e, n),
        match term_at(toks@, pos as int) {
            Some((e, p)) => r matches Ok((e2, p2)) && e2 == e && p2 == p,
            None => r is Err,
        },
    decreases toks@.len() - pos, 2nat,
{
    let (mut e, mut p) = factor(toks, pos, errors, Ghost(n))?;
    loop
        invariant
            errors.wf(),
            tokens_ok(toks@, n),
            toks@.len() + 3 <= usize::MAX,
            pos < p <= toks@.len(),
            good_expr(e, n),
            term_at(toks@, pos as int) == term_rest(toks@, e, p as int),
        decreases toks@.len() - p,
    {
        match mul_op(toks, p) {
            Some(op) => {
                let (e2, p2) = factor(toks, p + 1, errors, Ghost(n))?;
                let mk = span(e.mark, e2.mark);
                e = Marked::new(Expr_::Binary(op, Box::new(e), Box::new(e2)), mk);
                p = p2;
            },
            None => {
                return Ok((e, p));
            },
        }
    }
}

fn exp(toks: &Vec<MarkedToken>, pos: usize, errors: &Errors, Ghost(n): Ghost<nat>) -> (r: Result<
    (Expr, usize),
    Fatal,
>)
    requires
        errors.wf(),
        tokens_ok(toks@, n),
        toks@.len() + 3 <= usize::MAX,
    ensures
        r matches Ok((e, p)) ==> pos < p <= toks@.len() && good_expr(e, n),
        match exp_at(toks@, pos as int) {
            Some((e, p)) => r matches Ok((e2, p2)) && e2 == e && p2 == p,
            None => r is Err,
        },
    decreases toks@.len() - pos, 4nat,
{
    let (mut e, mut p) = term(toks, pos, errors, Ghost(n))?;
    loop
        invariant
            errors.wf(),
            tokens_ok(toks@, n),
            toks@.len() + 3 <= usize::MAX,
            pos < p <= toks@.len(),
            good_expr(e, n),
            exp_at(toks@, pos as int) == exp_rest(toks@, e, p as int),
        decreases toks@.len() - p,
    {
        match add_op(toks, p) {
            Some(op) => {
                let (e2, p2) = term(toks, p + 1, errors, Ghost(n))?;
                let mk = span(e.mark, e2.mark);
                e = Marked::new(Expr_::Binary(op, Box::new(e), Box::new(e2)), mk);
                p = p2;
            },
            None => {
                return Ok((e, p));
            },
        }
    }
}

/// The operator of a compound assignment token: `None` for a plain `=`.
fn assign_op(toks: &Vec<MarkedToken>, pos: usize, errors: &Errors) -> (r: Result<Option<Operator>, Fatal>)
    requires
        errors.wf(),
    ensures
        r matches Ok(Some(op)) ==> op != Operator::Decrement,
        r is Ok ==> pos < toks@.len(),
        match assign_op_at(toks@, pos as int) {
            Some(op) => r == Ok::<Option<Operator>, Fatal>(op),
            None => r is Err,
        },
{
    if pos >= toks.len() {
        return Err(unexpected(toks, pos, errors));
    }
    match toks[pos].node {
        Token::Assign => Ok(None),
        Token::Pluseq => Ok(Some(Operator::Plus)),
        Token::Minuseq => Ok(Some(Operator::Minus)),
        Token::Stareq => Ok(Some(Operator::Times)),
        Token::Slasheq => Ok(Some(Operator::DividedBy)),
        Token::Percenteq => Ok(Some(Operator::Modulo)),
        _ => Err(unexpected(toks, pos, errors)),
    }
}

/// The identifier at `pos`.
fn ident(toks: &Vec<MarkedToken>, pos: usize, errors: &Errors, Ghost(n): Ghost<nat>) -> (r: Result<
    Ident,
    Fatal,
>)
    requires
        errors.wf(),
        tokens_ok(toks@, n),
    ensures
        r matches Ok(id) ==> pos < toks@.len() && (id.0 as nat) < n,
        match tok(toks@, pos as int) {
            Some(Token::Ident(id)) => r == Ok::<Ident, Fatal>(id),
            _ => r is Err,
        },
{
    if pos >= toks.len() {
        return Err(unexpected(toks, pos, errors));
    }
    assert(toks@[pos as int].node matches Token::Ident(s) ==> (s.0 as nat) < n);
    match toks[pos].node {
        Token::Ident(s) => Ok(s),
        _ => Err(unexpected(toks, pos, errors)),
    }
}

/// An assignment: an identifier, possibly in parentheses, an assignment
/// operator and an expression, up to the `;`.
fn assignment(toks: &Vec<MarkedToken>, pos: usize, errors: &Errors, Ghost(n): Ghost<nat>) -> (r: Result<
    (Statement, usize),
    Fatal,
>)
    requires
        errors.wf(),
        tokens_ok(toks@, n),
        toks@.len() + 3 <= usize::MAX,
        pos < toks@.len(),
    ensures
        r matches Ok((s, p)) ==> pos < p <= toks@.len() && good_stmt(s, n),
        match assignment_at(toks@, pos as int) {
            Some((s, p)) => r matches Ok((s2, p2)) && s2 == s && p2 == p,
            None => r is Err,
        },
{
    let mut depth: usize = 0;
    let mut p = pos;
    while at(toks, p, Token::Lparen)
        invariant
            pos <= p <= toks@.len(),
            toks@.len() + 3 <= usize::MAX,
            depth == p - pos,
            lparens_end(toks@, p as int) == lparens_end(toks@, pos as int),
        decreases toks@.len() - p,
    {
        depth = depth + 1;
        p = p + 1;
    }
    let q = p;
    let id = ident(toks, p, errors, Ghost(n))?;
    let lv_mark = toks[p].mark;
    p = p + 1;
    let ghost depth0 = depth;
    while depth > 0
        invariant
            errors.wf(),
            pos <= q < p <= toks@.len(),
            toks@.len() + 3 <= usize::MAX,
            rparens_end(toks@, p as int, depth as nat) == rparens_end(toks@, q + 1, depth0 as nat),
            q as int == lparens_end(toks@, pos as int),
            depth0 == q - pos,
            tok(toks@, q as int) == Some(Token::Ident(id)),
        decreases depth,
    {
        p = match expect(toks, p, Token::Rparen, errors) {
            Ok(p) => p,
            Err(f) => {
                assert(rparens_end(toks@, q + 1, depth0 as nat) is None);
                return Err(f);
            },
        };
        depth = depth - 1;
    }
    let op = assign_op(toks, p, errors)?;
    let (e, p) = exp(toks, p + 1, errors, Ghost(n))?;
    let end = toks[p - 1].mark;
    if !at(toks, p, Token::Semi) {
        return Err(unexpected(toks, p, errors));
    }
    let mk = span(toks[pos].mark, toks[p].mark);
    let rhs = match op {
        None => e,
        Some(op) => {
            let var = Marked::new(Expr_::Variable(id), lv_mark);
            assert(good_expr(var, n));
            let m = span(lv_mark, end);
            Marked::new(Expr_::Binary(op, Box::new(var), Box::new(e)), m)
        },
    };
    assert(good_expr(rhs, n));
    Ok((Marked::new(Statement_::Assign(id, rhs), mk), p + 1))
}

/// One statement, up to and including its `;`.
fn statement(toks: &Vec<MarkedToken>, pos: usize, errors: &Errors, Ghost(n): Ghost<nat>) -> (r: Result<
    (Statement, usize),
    Fatal,
>)
    requires
        errors.wf(),
        tokens_ok(toks@, n),
        toks@.len() + 3 <= usize::MAX,
        pos < toks@.len(),
    ensures
        r matches Ok((s, p)) ==> pos < p <= toks@.len() && good_stmt(s, n),
        match statement_at(toks@, pos as int) {
            Some((s, p)) => r matches Ok((s2, p2)) && s2 == s && p2 == p,
            None => r is Err,
        },
{
    let first = toks[pos].mark;
    match toks[pos].node {
        Token::Int => {
            let id = ident(toks, pos + 1, errors, Ghost(n))?;
            if at(toks, pos + 2, Token::Semi) {
                Ok((Marked::new(Statement_::Decl(id), span(first, toks[pos + 2].mark)), pos + 3))
            } else {
                let p = expect(toks, pos + 2, Token::Assign, errors)?;
                let (e, p) = exp(toks, p, errors, Ghost(n))?;
                if !at(toks, p, Token::Semi) {
                    return Err(unexpected(toks, p, errors));
                }
                Ok((Marked::new(Statement_::DeclAssign(id, e), span(first, toks[p].mark)), p + 1))
            }
        },
        Token::Return => {
            let (e, p) = exp(toks, pos + 1, errors, Ghost(n))?;
            if !at(toks, p, Token::Semi) {
                return Err(unexpected(toks, p, errors));
            }
            Ok((Marked::new(Statement_::Return(e), span(first, toks[p].mark)), p + 1))
        },
        Token::Ident(_) | Token::Lparen => assignment(toks, pos, errors, Ghost(n)),
        _ => Err(unexpected(toks, pos, errors)),
    }
}

/// Parses `int main() { statements }`, which must be the whole input, exactly
/// as `program_of` says.
pub fn parse_program(toks: &Vec<MarkedToken>, errors: &Errors, Ghost(n): Ghost<nat>) -> (r: Result<
    Vec<Statement>,
    Fatal,
>)
    requires
        errors.wf(),
        tokens_ok(toks@, n),
        toks@.len() + 3 <= usize::MAX,
    ensures
        r matches Ok(stmts) ==> forall|i: int|
            0 <= i < stmts@.len() ==> good_stmt(#[trigger] stmts@[i], n),
        match program_of(toks@) {
            Some(ss) => r matches Ok(stmts) && stmts@ == ss,
            None => r is Err,
        },
{
    let p = expect(toks, 0, Token::Int, errors)?;
    let p = expect(toks, p, Token::Main, errors)?;
    let p = expect(toks, p, Token::Lparen, errors)?;
    let p = expect(toks, p, Token::Rparen, errors)?;
    let mut p = expect(toks, p, Token::Lbrace, errors)?;
    let mut stmts: Vec<Statement> = Vec::new();
    proof {
        if let Some((ss, q)) = statements_from(toks@, 5) {
            assert(stmts@ + ss =~= ss);
        }
    }
    while !at(toks, p, Token::Rbrace)
        invariant
            errors.wf(),
            tokens_ok(toks@, n),
            toks@.len() + 3 <= usize::MAX,
            p <= toks@.len(),
            forall|i: int| 0 <= i < stmts@.len() ==> good_stmt(#[trigger] stmts@[i], n),
            statements_from(toks@, 5) == (match statements_from(toks@, p as int) {
                Some((ss, q)) => Some((stmts@ + ss, q)),
                None => None,
            }),
        decreases toks@.len() - p,
    {
        if p >= toks.len() {
            return Err(unexpected(toks, p, errors));
        }
        let (s, p2) = statement(toks, p, errors, Ghost(n))?;
        let ghost before = stmts@;
        stmts.push(s);
        proof {
            if let Some((ss, q)) = statements_from(toks@, p2 as int) {
                assert(before + (seq![s] + ss) =~= stmts@ + ss);
            }
        }
        p = p2;
    }
    proof {
        assert(stmts@ + seq![] =~= stmts@);
    }
    if p + 1 < toks.len() {
        return Err(unexpected(toks, p + 1, errors));
    }
    Ok(stmts)
}

} // verus!
