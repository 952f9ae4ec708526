//! Lowering of the syntax tree into the tree language.
//!
//! The program is lowered as `middle::translate` does, and the result is
//! carried over into the tree language node for node.
use vstd::prelude::*;
use crate::ir::ilang;
use crate::middle::{self, ir, lower_stmts, lowerable_stmt, unbound_msg};
use crate::parse::ast;
use crate::util::errors::{Fatal, diagnostic_line};
use crate::util::text::texts;

verus! {

pub open spec fn spec_binop(b: ir::Binop) -> ilang::Binop {
    match b {
        ir::Binop::Add => ilang::Binop::Add,
        ir::Binop::Sub => ilang::Binop::Sub,
        ir::Binop::Mul => ilang::Binop::Mul,
        ir::Binop::Div => ilang::Binop::Div,
        ir::Binop::Mod => ilang::Binop::Mod,
    }
}

/// The expression `e` in the tree language.
pub open spec fn spec_expression(e: ir::Expr) -> ilang::Expression
    decreases e,
{
    match e {
        ir::Expr::Constant(c) => ilang::Expression::Constant(c),
        ir::Expr::Temp(t) => ilang::Expression::Temp(t),
        ir::Expr::Binop(b, e1, e2) => ilang::Expression::Binop(
            spec_binop(b),
            Box::new(spec_expression(*e1)),
            Box::new(spec_expression(*e2)),
        ),
    }
}

/// The statement `s` in the tree language.
pub open spec fn spec_statement(s: ir::Statement) -> ilang::Statement {
    match s {
        ir::Statement::Move(d, e) => ilang::Statement::Move(spec_expression(d), spec_expression(e)),
        ir::Statement::Return(e) => ilang::Statement::Return(spec_expression(e)),
    }
}

fn binop(b: ir::Binop) -> (r: ilang::Binop)
    ensures
        r == spec_binop(b),
{
    match b {
        ir::Binop::Add => ilang::Binop::Add,
        ir::Binop::Sub => ilang::Binop::Sub,
        ir::Binop::Mul => ilang::Binop::Mul,
        ir::Binop::Div => ilang::Binop::Div,
        ir::Binop::Mod => ilang::Binop::Mod,
    }
}

fn exp(e: ir::Expr) -> (r: ilang::Expression)
    ensures
        r == spec_expression(e),
    decreases e,
{
    match e {
        ir::Expr::Constant(c) => ilang::Expression::Constant(c),
        ir::Expr::Temp(t) => ilang::Expression::Temp(t),
        ir::Expr::Binop(b, e1, e2) => ilang::Expression::Binop(
            binop(b),
            Box::new(exp(*e1)),
            Box::new(exp(*e2)),
        ),
    }
}

fn stm(s: ir::Statement) -> (r: ilang::Statement)
    ensures
        r == spec_statement(s),
{
    match s {
        ir::Statement::Move(d, e) => ilang::Statement::Move(exp(d), exp(e)),
        ir::Statement::Return(e) => ilang::Statement::Return(exp(e)),
    }
}

/// Lowers the program `p` into the tree language, up to its first `return`;
/// a variable used before any assignment to it stops compilation with an error
/// at the variable.
pub fn translate(p: ast::Program) -> (r: Result<ilang::Program, Fatal>)
    requires
        p.wf(),
        forall|i: int| 0 <= i < p.statements@.len() ==> lowerable_stmt(#[trigger] p.statements@[i]),
    ensures
        match lower_stmts(p.statements@) {
            Ok(l) => r matches Ok(prog) && prog.statements@ == l.out.map_values(
                |s: ir::Statement| spec_statement(s),
            ) && prog.temps.spec_count() == l.next,
            Err(f) => r matches Err(fatal) && texts(fatal.diagnostics@) == p.errors.reported().push(
                diagnostic_line(p.errors.code_map(), f.0, unbound_msg(p.symbols@[f.1.0 as int])),
            ),
        },
{
    match middle::translate(p) {
        Ok(prog) => {
            let ir::Program { statements, temps } = prog;
            let ghost src = statements@;
            let mut rest = statements;
            let mut rev: Vec<ilang::Statement> = Vec::new();
            while rest.len() > 0
                invariant
                    rest@.len() <= src.len(),
                    rest@ == src.subrange(0, rest@.len() as int),
                    rev@ == src.subrange(rest@.len() as int, src.len() as int).reverse().map_values(
                        |s: ir::Statement| spec_statement(s),
                    ),
                decreases rest@.len(),
            {
                let ghost before = rev@;
                let s = rest.pop().unwrap();
                rev.push(stm(s));
                proof {
                    assert(rev@ =~= src.subrange(rest@.len() as int, src.len() as int).reverse().map_values(
                        |s: ir::Statement| spec_statement(s),
                    ));
                }
            }
            let mut out: Vec<ilang::Statement> = Vec::new();
            while rev.len() > 0
                invariant
                    rev@.len() <= src.len(),
                    rev@ == src.subrange(src.len() - rev@.len(), src.len() as int).reverse().map_values(
                        |s: ir::Statement| spec_statement(s),
                    ),
                    out@ == src.subrange(0, src.len() - rev@.len()).map_values(
                        |s: ir::Statement| spec_statement(s),
                    ),
                decreases rev@.len(),
            {
                let s = rev.pop().unwrap();
                out.push(s);
                proof {
                    assert(out@ =~= src.subrange(0, src.len() - rev@.len()).map_values(
                        |s: ir::Statement| spec_statement(s),
                    ));
                }
            }
            proof {
                assert(src.subrange(0, src.len() as int) =~= src);
            }
            Ok(ilang::Program { statements: out, temps: temps })
        },
        Err(fatal) => Err(fatal),
    }
}

} // verus!
