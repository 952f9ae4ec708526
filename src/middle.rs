//! Lowering of the syntax tree to the intermediate representation.
//!
//! Every assignment gets a fresh temporary for its variable, so each temporary
//! is assigned once. Translation stops after the first `return`.
use vstd::prelude::*;
use vstd::string::StringExecFns;
use std::collections::HashMap;
use crate::middle::ir::{Binop, Expr, Statement, moves_into_temps};
use crate::parse::ast::{self, Expr_, Ident, Operator, Statement_, expr_idents_below,
    stmt_idents_below};
use crate::util::errors::{Fatal, diagnostic_line};
use crate::util::mark::Mark;
use crate::util::temp::{Temp, TempAllocator};
use crate::util::text::texts;

pub mod ir;

verus! {

broadcast use vstd::std_specs::hash::group_hash_axioms;

/// The operators that can reach lowering: unary minus is the only unary
/// operator, and `--` never stands in an expression.
pub open spec fn lowerable_expr(e: ast::Expr) -> bool
    decreases e,
{
    match e.node {
        Expr_::Variable(_) => true,
        Expr_::Constant(_) => true,
        Expr_::Unary(op, e1) => op == Operator::Negative && lowerable_expr(*e1),
        Expr_::Binary(op, e1, e2) => op != Operator::Decrement && lowerable_expr(*e1)
            && lowerable_expr(*e2),
    }
}

/// Every expression of the statement `s` can be lowered.
pub open spec fn lowerable_stmt(s: ast::Statement) -> bool {
    match s.node {
        Statement_::Decl(_) => true,
        Statement_::DeclAssign(_, e) => lowerable_expr(e),
        Statement_::Assign(_, e) => lowerable_expr(e),
        Statement_::Return(e) => lowerable_expr(e),
    }
}

/// The operator of the intermediate representation for a binary operator.
/// Minus, written as a unary operator, subtracts.
pub open spec fn spec_binop(op: Operator) -> Binop {
    match op {
        Operator::Plus => Binop::Add,
        Operator::Minus => Binop::Sub,
        Operator::Times => Binop::Mul,
        Operator::DividedBy => Binop::Div,
        Operator::Modulo => Binop::Mod,
        _ => Binop::Sub,
    }
}

/// The lowering of `e`, where `env` gives the temporary that holds each
/// assigned variable; or the mark and identifier of the first variable, from
/// the left, that has none.
pub open spec fn lower_expr(env: Map<usize, Temp>, e: ast::Expr) -> Result<Expr, (Mark, Ident)>
    decreases e,
{
    match e.node {
        Expr_::Variable(id) => if env.contains_key(id.0) {
            Ok(Expr::Temp(env[id.0]))
        } else {
            Err((e.mark, id))
        },
        Expr_::Constant(c) => Ok(Expr::Constant(c)),
        Expr_::Unary(_, e1) => match lower_expr(env, *e1) {
            Ok(x) => Ok(Expr::Binop(Binop::Sub, Box::new(Expr::Constant(0)), Box::new(x))),
            Err(f) => Err(f),
        },
        Expr_::Binary(op, e1, e2) => match lower_expr(env, *e1) {
            Ok(x) => match lower_expr(env, *e2) {
                Ok(y) => Ok(Expr::Binop(spec_binop(op), Box::new(x), Box::new(y))),
                Err(f) => Err(f),
            },
            Err(f) => Err(f),
        },
    }
}

/// Where lowering stands: the statements emitted, the temporary of each
/// assigned variable, the number of temporaries used, and whether a `return`
/// has been emitted.
pub ghost struct Lowered {
    pub out: Seq<Statement>,
    pub env: Map<usize, Temp>,
    pub next: nat,
    pub done: bool,
}

/// Lowering one more statement.
pub open spec fn lower_stmt(l: Lowered, s: ast::Statement) -> Result<Lowered, (Mark, Ident)> {
    match s.node {
        Statement_::Decl(_) => Ok(l),
        Statement_::DeclAssign(id, e) => lower_assign(l, id, e),
        Statement_::Assign(id, e) => lower_assign(l, id, e),
        Statement_::Return(e) => match lower_expr(l.env, e) {
            Ok(x) => Ok(Lowered { out: l.out.push(Statement::Return(x)), done: true, ..l }),
            Err(f) => Err(f),
        },
    }
}

/// Lowering `id = e`: the expression with the bindings so far, then a fresh
/// temporary for `id`.
pub open spec fn lower_assign(l: Lowered, id: Ident, e: ast::Expr) -> Result<Lowered, (Mark, Ident)> {
    match lower_expr(l.env, e) {
        Ok(x) => {
            let t = Temp(l.next as usize);
            Ok(
                Lowered {
                    out: l.out.push(Statement::Move(Expr::Temp(t), x)),
                    env: l.env.insert(id.0, t),
                    next: l.next + 1,
                    done: false,
                },
            )
        },
        Err(f) => Err(f),
    }
}

/// Lowering the statements `stmts` in order, up to and including the first
/// `return`; what follows it is dropped.
pub open spec fn lower_stmts(stmts: Seq<ast::Statement>) -> Result<Lowered, (Mark, Ident)>
    decreases stmts.len(),
{
    if stmts.len() == 0 {
        Ok(Lowered { out: seq![], env: Map::empty(), next: 0, done: false })
    } else {
        match lower_stmts(stmts.drop_last()) {
            Ok(l) => if l.done {
                Ok(l)
            } else {
                lower_stmt(l, stmts.last())
            },
            Err(f) => Err(f),
        }
    }
}

/// The expression of a statement, if it has one.
pub open spec fn rhs(s: ast::Statement) -> Option<ast::Expr> {
    match s.node {
        Statement_::Decl(_) => None,
        Statement_::DeclAssign(_, e) => Some(e),
        Statement_::Assign(_, e) => Some(e),
        Statement_::Return(e) => Some(e),
    }
}

/// The message for a variable used before any assignment to it.
pub open spec fn unbound_msg(name: Seq<char>) -> Seq<char> {
    "attempted to use variable `"@ + name + "` before initialization"@
}

/// Translates from the syntax tree to the intermediate representation.
struct Translator {
    temps: TempAllocator,
    syms: HashMap<usize, Temp>,
}

impl Translator {
    fn new() -> (r: Translator)
        ensures
            r.temps.spec_count() == 0,
            r.syms@ == Map::<usize, Temp>::empty(),
    {
        Translator { temps: TempAllocator::new(), syms: HashMap::new() }
    }

    fn exp(&self, e: &ast::Expr) -> (r: Result<Expr, (Mark, Ident)>)
        requires
            lowerable_expr(*e),
        ensures
            r == lower_expr(self.syms@, *e),
        decreases e,
    {
        match &e.node {
            Expr_::Variable(id) => match self.syms.get(&id.0) {
                Some(t) => Ok(Expr::Temp(*t)),
                None => Err((e.mark, *id)),
            },
            Expr_::Constant(c) => Ok(Expr::Constant(*c)),
            Expr_::Unary(_, e1) => match self.exp(e1) {
                Ok(x) => Ok(Expr::Binop(Binop::Sub, Box::new(Expr::Constant(0)), Box::new(x))),
                Err(f) => Err(f),
            },
            Expr_::Binary(op, e1, e2) => match self.exp(e1) {
                Ok(x) => match self.exp(e2) {
                    Ok(y) => Ok(Expr::Binop(self.op(*op), Box::new(x), Box::new(y))),
                    Err(f) => Err(f),
                },
                Err(f) => Err(f),
            },
        }
    }

    fn op(&self, op: Operator) -> (r: Binop)
        requires
            op != Operator::Decrement,
        ensures
            r == spec_binop(op),
    {
        match op {
            Operator::Plus => Binop::Add,
            Operator::Minus => Binop::Sub,
            Operator::Times => Binop::Mul,
            Operator::DividedBy => Binop::Div,
            Operator::Modulo => Binop::Mod,
            Operator::Negative => Binop::Sub,
            Operator::Decrement => Binop::Sub,
        }
    }

    /// A fresh temporary for `id`, which from now on holds it.
    fn temp(&mut self, id: Ident) -> (r: Temp)
        requires
            old(self).temps.spec_count() < usize::MAX,
        ensures
            r.0 as nat == old(self).temps.spec_count(),
            final(self).temps.spec_count() == old(self).temps.spec_count() + 1,
            final(self).syms@ == old(self).syms@.insert(id.0, r),
    {
        let temp = self.temps.gen();
        self.syms.insert(id.0, temp);
        temp
    }

    fn stm(&mut self, stm: &ast::Statement) -> (r: Result<Option<Statement>, (Mark, Ident)>)
        requires
            lowerable_stmt(*stm),
            old(self).temps.spec_count() < usize::MAX,
        ensures
            ({
                let l = Lowered {
                    out: seq![],
                    env: old(self).syms@,
                    next: old(self).temps.spec_count(),
                    done: false,
                };
                match lower_stmt(l, *stm) {
                    Ok(l1) => r matches Ok(o) && final(self).syms@ == l1.env
                        && final(self).temps.spec_count() == l1.next && (match o {
                        Some(s) => l1.out == seq![s],
                        None => l1.out == Seq::<Statement>::empty(),
                    }),
                    Err(f) => r == Err::<Option<Statement>, (Mark, Ident)>(f),
                }
            }),
    {
        match &stm.node {
            Statement_::Assign(id, e) | Statement_::DeclAssign(id, e) => match self.exp(e) {
                Ok(exp) => {
                    let t = self.temp(*id);
                    Ok(Some(Statement::Move(Expr::Temp(t), exp)))
                },
                Err(f) => Err(f),
            },
            Statement_::Return(e) => match self.exp(e) {
                Ok(exp) => Ok(Some(Statement::Return(exp))),
                Err(f) => Err(f),
            },
            Statement_::Decl(_) => Ok(None),
        }
    }
}


/// Once lowering has failed or emitted its `return`, later statements change
/// nothing.
pub proof fn lemma_lower_stops(s: Seq<ast::Statement>, t: Seq<ast::Statement>)
    requires
        lower_stmts(s) matches Ok(l) ==> l.done,
    ensures
        lower_stmts(s + t) == lower_stmts(s),
    decreases t.len(),
{
    if t.len() == 0 {
        assert(s + t =~= s);
    } else {
        lemma_lower_stops(s, t.drop_last());
        assert((s + t).drop_last() =~= s + t.drop_last());
    }
}

proof fn lemma_not_done_before_return(stmts: Seq<ast::Statement>)
    requires
        forall|j: int| 0 <= j < stmts.len() ==> !(#[trigger] stmts[j].node is Return),
    ensures
        lower_stmts(stmts) matches Ok(l) ==> !l.done,
    decreases stmts.len(),
{
    if stmts.len() > 0 {
        let pre = stmts.drop_last();
        assert(forall|j: int| 0 <= j < pre.len() ==> pre[j] == stmts[j]);
        lemma_not_done_before_return(pre);
        assert(!(stmts[stmts.len() - 1].node is Return));
    }
}

/// Lowering emits at most one `return`, as its last statement, and it has
/// emitted one exactly when it stopped.
pub proof fn lemma_lowered_return_last(stmts: Seq<ast::Statement>)
    ensures
        lower_stmts(stmts) matches Ok(l) ==> {
            &&& forall|i: int| 0 <= i < l.out.len() - 1 ==> (#[trigger] l.out[i]) is Move
            &&& l.done <==> (l.out.len() > 0 && l.out.last() is Return)
        },
    decreases stmts.len(),
{
    if stmts.len() > 0 {
        lemma_lowered_return_last(stmts.drop_last());
        if let Ok(l) = lower_stmts(stmts.drop_last()) {
            if !l.done {
                lemma_lower_stmt_out(l, stmts.last());
                if let Ok(l1) = lower_stmt(l, stmts.last()) {
                    assert forall|i: int| 0 <= i < l1.out.len() - 1 implies (#[trigger] l1.out[i]) is Move by {
                        assert(l1.out[i] == l.out[i]);
                        if i == l.out.len() - 1 {
                            assert(!(l.out.last() is Return));
                        }
                    }
                }
            }
        }
    }
}

/// Nothing after the first `return` is lowered: the program lowers exactly as
/// its statements up to and including that `return` do.
pub proof fn lemma_lowering_truncation(stmts: Seq<ast::Statement>, k: int)
    requires
        0 <= k < stmts.len(),
        stmts[k].node is Return,
        forall|j: int| 0 <= j < k ==> !(#[trigger] stmts[j].node is Return),
    ensures
        lower_stmts(stmts) == lower_stmts(stmts.subrange(0, k + 1)),
{
    let pre = stmts.subrange(0, k);
    assert(forall|j: int| 0 <= j < pre.len() ==> pre[j] == stmts[j]);
    lemma_not_done_before_return(pre);
    assert(stmts.subrange(0, k + 1).drop_last() =~= pre);
    lemma_lower_stops(stmts.subrange(0, k + 1), stmts.subrange(k + 1, stmts.len() as int));
    assert(stmts.subrange(0, k + 1) + stmts.subrange(k + 1, stmts.len() as int) =~= stmts);
}

/// Every temporary in `e` is numbered below `n`.
pub open spec fn expr_temps_below(e: Expr, n: nat) -> bool
    decreases e,
{
    match e {
        Expr::Constant(_) => true,
        Expr::Temp(t) => (t.0 as nat) < n,
        Expr::Binop(_, e1, e2) => expr_temps_below(*e1, n) && expr_temps_below(*e2, n),
    }
}

/// Every temporary in the statement `s` is numbered below `n`.
pub open spec fn stmt_temps_below(s: Statement, n: nat) -> bool {
    match s {
        Statement::Move(d, e) => expr_temps_below(d, n) && expr_temps_below(e, n),
        Statement::Return(e) => expr_temps_below(e, n),
    }
}

proof fn lemma_expr_temps_mono(e: Expr, n: nat, m: nat)
    requires
        expr_temps_below(e, n),
        n <= m,
    ensures
        expr_temps_below(e, m),
    decreases e,
{
    if let Expr::Binop(_, e1, e2) = e {
        lemma_expr_temps_mono(*e1, n, m);
        lemma_expr_temps_mono(*e2, n, m);
    }
}

proof fn lemma_lower_expr_temps(env: Map<usize, Temp>, e: ast::Expr, n: nat)
    requires
        forall|k: usize| env.contains_key(k) ==> (#[trigger] env[k].0 as nat) < n,
    ensures
        lower_expr(env, e) matches Ok(x) ==> expr_temps_below(x, n),
    decreases e,
{
    match e.node {
        Expr_::Unary(_, e1) => {
            lemma_lower_expr_temps(env, *e1, n);
            assert(expr_temps_below(Expr::Constant(0), n));
        },
        Expr_::Binary(_, e1, e2) => {
            lemma_lower_expr_temps(env, *e1, n);
            lemma_lower_expr_temps(env, *e2, n);
        },
        _ => {},
    }
}

/// Lowering takes each temporary from a counter: every temporary of the
/// lowered program is numbered below the count it ends with, and so is each
/// variable's.
pub proof fn lemma_lowered_temps(stmts: Seq<ast::Statement>)
    ensures
        lower_stmts(stmts) matches Ok(l) ==> {
            &&& forall|i: int| 0 <= i < l.out.len() ==> stmt_temps_below(#[trigger] l.out[i], l.next)
            &&& forall|k: usize| l.env.contains_key(k) ==> (#[trigger] l.env[k].0 as nat) < l.next
            &&& l.next <= stmts.len()
        },
    decreases stmts.len(),
{
    if stmts.len() > 0 {
        lemma_lowered_temps(stmts.drop_last());
        if let Ok(l) = lower_stmts(stmts.drop_last()) {
            if !l.done {
                let s = stmts.last();
                if let Some(e) = rhs(s) {
                    lemma_lower_expr_temps(l.env, e, l.next);
                }
                if let Ok(l1) = lower_stmt(l, s) {
                    assert forall|i: int| 0 <= i < l1.out.len() implies stmt_temps_below(
                        #[trigger] l1.out[i],
                        l1.next,
                    ) by {
                        if i < l.out.len() {
                            assert(l1.out[i] == l.out[i]);
                            match l.out[i] {
                                Statement::Move(d, x) => {
                                    lemma_expr_temps_mono(d, l.next, l1.next);
                                    lemma_expr_temps_mono(x, l.next, l1.next);
                                },
                                Statement::Return(x) => lemma_expr_temps_mono(x, l.next, l1.next),
                            }
                        } else if let Some(e) = rhs(s) {
                            if let Ok(x) = lower_expr(l.env, e) {
                                lemma_expr_temps_mono(x, l.next, l1.next);
                            }
                        }
                    }
                }
            }
        }
    }
}

/// Lowering a statement appends to what was emitted before and depends on
/// nothing else of it.
proof fn lemma_lower_stmt_out(l: Lowered, s: ast::Statement)
    ensures
        ({
            let l0 = Lowered { out: seq![], ..l };
            match lower_stmt(l0, s) {
                Ok(a) => lower_stmt(l, s) == Ok::<Lowered, (Mark, Ident)>(
                    Lowered { out: l.out + a.out, ..a },
                ) && (a.out.len() == 0 || (a.out.len() == 1 && (a.out[0] is Return <==> a.done)
                    && (a.out[0] matches Statement::Move(d, _) ==> d is Temp))),
                Err(f) => lower_stmt(l, s) == Err::<Lowered, (Mark, Ident)>(f),
            }
        }),
{
    let l0 = Lowered { out: seq![], ..l };
    match s.node {
        Statement_::Decl(_) => {
            assert(l.out + l0.out =~= l.out);
        },
        Statement_::DeclAssign(id, e) => {
            if let Ok(x) = lower_expr(l.env, e) {
                assert(l.out.push(Statement::Move(Expr::Temp(Temp(l.next as usize)), x)) =~= l.out
                    + seq![].push(Statement::Move(Expr::Temp(Temp(l.next as usize)), x)));
            }
        },
        Statement_::Assign(id, e) => {
            if let Ok(x) = lower_expr(l.env, e) {
                assert(l.out.push(Statement::Move(Expr::Temp(Temp(l.next as usize)), x)) =~= l.out
                    + seq![].push(Statement::Move(Expr::Temp(Temp(l.next as usize)), x)));
            }
        },
        Statement_::Return(e) => {
            if let Ok(x) = lower_expr(l.env, e) {
                assert(l.out.push(Statement::Return(x)) =~= l.out + seq![].push(Statement::Return(x)));
            }
        },
    }
}

/// A variable that lowering finds unbound occurs in the expression.
proof fn lemma_unbound_occurs(env: Map<usize, Temp>, e: ast::Expr, n: nat)
    requires
        expr_idents_below(e, n),
    ensures
        lower_expr(env, e) matches Err(f) ==> (f.1.0 as nat) < n,
    decreases e,
{
    match e.node {
        Expr_::Unary(_, e1) => lemma_unbound_occurs(env, *e1, n),
        Expr_::Binary(_, e1, e2) => {
            lemma_unbound_occurs(env, *e1, n);
            lemma_unbound_occurs(env, *e2, n);
        },
        _ => {},
    }
}

/// Lowers the program `p` to the intermediate representation, up to its first
/// `return`. A variable used before any assignment to it stops compilation
/// with an error at the variable (the static checker rules that out first).
pub fn translate(p: ast::Program) -> (r: Result<ir::Program, Fatal>)
    requires
        p.wf(),
        forall|i: int| 0 <= i < p.statements@.len() ==> lowerable_stmt(#[trigger] p.statements@[i]),
    ensures
        match lower_stmts(p.statements@) {
            Ok(l) => r matches Ok(prog) && prog.statements@ == l.out && prog.temps.spec_count()
                == l.next && moves_into_temps(prog.statements@),
            Err(f) => r matches Err(fatal) && texts(fatal.diagnostics@) == p.errors.reported().push(
                diagnostic_line(p.errors.code_map(), f.0, unbound_msg(p.symbols@[f.1.0 as int])),
            ),
        },
{
    let ghost stmts = p.statements@;
    let mut translator = Translator::new();
    let mut out: Vec<Statement> = Vec::new();
    let mut done = false;
    let mut i: usize = 0;
    proof {
        assert(stmts.subrange(0, 0) =~= Seq::<ast::Statement>::empty());
    }
    while i < p.statements.len() && !done
        invariant
            i <= stmts.len(),
            p.statements@ == stmts,
            p.wf(),
            forall|j: int| 0 <= j < stmts.len() ==> lowerable_stmt(#[trigger] stmts[j]),
            translator.temps.spec_count() <= i,
            moves_into_temps(out@),
            lower_stmts(stmts.subrange(0, i as int)) == Ok::<Lowered, (Mark, Ident)>(
                Lowered {
                    out: out@,
                    env: translator.syms@,
                    next: translator.temps.spec_count(),
                    done: done,
                },
            ),
        decreases stmts.len() - i,
    {
        let ghost l = Lowered {
            out: out@,
            env: translator.syms@,
            next: translator.temps.spec_count(),
            done: done,
        };
        proof {
            assert(stmts.subrange(0, i + 1).drop_last() =~= stmts.subrange(0, i as int));
            lemma_lower_stmt_out(l, stmts[i as int]);
        }
        match translator.stm(&p.statements[i]) {
            Ok(Some(new_stm)) => {
                let is_return = match &new_stm {
                    Statement::Return(_) => true,
                    Statement::Move(_, _) => false,
                };
                out.push(new_stm);
                done = is_return;
                proof {
                    assert(out@ =~= l.out + lower_stmt(Lowered { out: seq![], ..l }, stmts[i as int])->Ok_0.out);
                    assert forall|j: int| 0 <= j < out@.len() implies match #[trigger] out@[j] {
                        Statement::Move(d, _) => d is Temp,
                        Statement::Return(_) => true,
                    } by {
                        if j < l.out.len() {
                            assert(out@[j] == l.out[j]);
                        }
                    }
                }
            },
            Ok(None) => {},
            Err(f) => {
                proof {
                    lemma_lower_stops(stmts.subrange(0, i + 1), stmts.subrange(i + 1, stmts.len() as int));
                    assert(stmts.subrange(0, i + 1) + stmts.subrange(i + 1, stmts.len() as int) =~= stmts);
                    assert(stmt_idents_below(stmts[i as int], p.symbols@.len()));
                    if let Some(e) = rhs(stmts[i as int]) {
                        lemma_unbound_occurs(l.env, e, p.symbols@.len());
                    }
                }
                let (m, id) = f;
                let mut msg = String::from_str("attempted to use variable `");
                msg.append(p.symbols.name(id));
                msg.append("` before initialization");
                return Err(p.errors.die(&m, msg.as_str()));
            },
        }
        i = i + 1;
    }
    proof {
        if done {
            lemma_lower_stops(stmts.subrange(0, i as int), stmts.subrange(i as int, stmts.len() as int));
            assert(stmts.subrange(0, i as int) + stmts.subrange(i as int, stmts.len() as int) =~= stmts);
        } else {
            assert(stmts.subrange(0, i as int) =~= stmts);
        }
    }
    Ok(ir::Program { statements: out, temps: translator.temps })
}

} // verus!
