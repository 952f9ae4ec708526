//! The whole pipeline on one program: parse, check, lower, select, render.
use vstd::prelude::*;
use vstd::string::StringExecFns;
use crate::codegen::{self, binops, lemma_munch_stmts_pairs, lemma_stmts_binops_prefix, munch_stmts, pairs_distinct, stmts_binops};
use crate::codegen::assembly::Instruction;
use crate::middle::{
    self, ir, lemma_lowered_temps, lower_expr, lower_stmt, lower_stmts, lowerable_stmt,
    stmt_temps_below,
};
use crate::parse::{self, ast, parsed};
use crate::parse::ast::program_text;
use crate::util::mark::CodeMap;
use crate::parse::ast::{Expr_, Statement_};
use crate::types::{Status, expr_findings, program_findings, rendered, run, stmt_step, typecheck};
use crate::util::errors::Fatal;
use crate::util::temp::Temp;
use crate::util::text::{join_lines, texts};

verus! {

/// What compiling a program produced: the program as parsed, rendered as
/// source text; and, unless compilation stopped after checking, its
/// intermediate representation and its assembly, both as text.
pub struct Compiled {
    pub ast: String,
    pub ir: Option<String>,
    pub assembly: Option<String>,
}

/// The text of the instructions `ins`, one per line.
pub open spec fn listing(ins: Seq<Instruction>) -> Seq<char> {
    join_lines(ins.map_values(|i: Instruction| i.text()))
}

/// What compiling the statements `stmts`, with identifier texts `names`, gives
/// when diagnostics are placed with `cm` and `reported` holds those reported
/// before (`errored` tells whether any was an error): the checker's errors
/// stop it; otherwise, unless `only_typecheck`, it is lowered, which then
/// always succeeds, and its instructions are selected, with temporaries
/// numbered on from the lowering's. Only a program too large to number its
/// temporaries in a `usize` fails there.
pub open spec fn compiled_from(
    cm: CodeMap,
    errored: bool,
    reported: Seq<Seq<char>>,
    names: Seq<Seq<char>>,
    stmts: Seq<ast::Statement>,
    only_typecheck: bool,
    r: Result<Compiled, Fatal>,
) -> bool {
    let findings = program_findings(names, stmts);
    if errored || findings.len() > 0 {
        r matches Err(f) && texts(f.diagnostics@) == reported + rendered(cm, findings)
    } else if only_typecheck {
        r matches Ok(c) && c.ast@ == program_text(names, stmts) && c.ir is None && c.assembly is None
    } else {
        &&& lower_stmts(stmts) is Ok
        &&& {
            let l = lower_stmts(stmts)->Ok_0;
            if l.next + 2 * stmts_binops(l.out) <= usize::MAX {
                match r {
                    Ok(c) => c.ast@ == program_text(names, stmts) && (match c.ir {
                        Some(t) => t@ == join_lines(l.out.map_values(|s: ir::Statement| s.text())),
                        None => false,
                    }) && (match c.assembly {
                        Some(a) => a@ == listing(munch_stmts(l.out, l.next).0),
                        None => false,
                    }),
                    Err(_) => false,
                }
            } else {
                r is Err
            }
        }
    }
}

/// What compiling the parsed program `p` gives, as `compiled_from` says.
pub open spec fn compiled_as(p: ast::Program, only_typecheck: bool, r: Result<Compiled, Fatal>) -> bool {
    compiled_from(
        p.errors.code_map(),
        p.errors.has_errored(),
        p.errors.reported(),
        p.symbols@,
        p.statements@,
        only_typecheck,
        r,
    )
}

/// Every variable that the checker knows as initialized has a temporary.
pub open spec fn bound_when_initialized(st: Status, env: Map<usize, Temp>) -> bool {
    forall|k: usize| st.contains_key(k) && st[k] ==> #[trigger] env.contains_key(k)
}

proof fn lemma_clean_expr_lowers(names: Seq<Seq<char>>, st: Status, env: Map<usize, Temp>, e: ast::Expr)
    requires
        expr_findings(names, st, false, e).len() == 0,
        bound_when_initialized(st, env),
    ensures
        lower_expr(env, e) is Ok,
    decreases e,
{
    match e.node {
        Expr_::Variable(id) => {},
        Expr_::Constant(_) => {},
        Expr_::Unary(_, e1) => lemma_clean_expr_lowers(names, st, env, *e1),
        Expr_::Binary(_, e1, e2) => {
            let f1 = expr_findings(names, st, false, *e1);
            let f2 = expr_findings(names, st, false, *e2);
            assert((f1 + f2).len() == f1.len() + f2.len());
            lemma_clean_expr_lowers(names, st, env, *e1);
            lemma_clean_expr_lowers(names, st, env, *e2);
        },
    }
}

proof fn lemma_clean_prefix_lowers(names: Seq<Seq<char>>, stmts: Seq<ast::Statement>)
    requires
        run(names, stmts).2.len() == 0,
    ensures
        lower_stmts(stmts) matches Ok(l) && l.done == run(names, stmts).1 && (!l.done
            ==> bound_when_initialized(run(names, stmts).0, l.env)),
    decreases stmts.len(),
{
    if stmts.len() > 0 {
        let pre = stmts.drop_last();
        let (st, ret, f) = run(names, pre);
        let s = stmts.last();
        let (st1, ret1, f1) = stmt_step(names, st, ret, s);
        assert((f + f1).len() == f.len() + f1.len());
        lemma_clean_prefix_lowers(names, pre);
        let l = lower_stmts(pre)->Ok_0;
        if !ret {
            match s.node {
                Statement_::Decl(id) => {
                    assert(bound_when_initialized(st1, l.env));
                },
                Statement_::DeclAssign(id, e) => {
                    let sta = crate::types::decl_step(names, st, id, s.mark).0;
                    assert(bound_when_initialized(sta, l.env));
                    let fa = expr_findings(names, sta, false, e);
                    assert(fa.len() == 0) by {
                        let g = if sta.contains_key(id.0) {
                            fa
                        } else {
                            fa.push((s.mark, crate::types::undeclared_msg(names[id.0 as int])))
                        };
                        assert(f1 =~= (if st.contains_key(id.0) {
                            seq![(s.mark, crate::types::redeclared_msg(names[id.0 as int]))]
                        } else {
                            seq![]
                        }) + g);
                    }
                    lemma_clean_expr_lowers(names, sta, l.env, e);
                    let l1 = lower_stmt(l, s)->Ok_0;
                    assert forall|k: usize| st1.contains_key(k) && st1[k] implies #[trigger] l1.env.contains_key(k) by {
                        if k != id.0 {
                            assert(sta.contains_key(k) && sta[k]);
                        }
                    }
                },
                Statement_::Assign(id, e) => {
                    let fa = expr_findings(names, st, false, e);
                    assert(fa.len() == 0) by {
                        if !st.contains_key(id.0) {
                            assert(f1.len() == fa.len() + 1);
                        }
                    }
                    lemma_clean_expr_lowers(names, st, l.env, e);
                    let l1 = lower_stmt(l, s)->Ok_0;
                    assert forall|k: usize| st1.contains_key(k) && st1[k] implies #[trigger] l1.env.contains_key(k) by {
                        if k != id.0 {
                            assert(st.contains_key(k) && st[k]);
                        }
                    }
                },
                Statement_::Return(e) => {
                    lemma_clean_expr_lowers(names, st, l.env, e);
                },
            }
        }
    }
}

/// A program that the checker accepts lowers without error: every variable it
/// reads before its first `return` has been assigned a temporary.
pub proof fn lemma_checked_program_lowers(names: Seq<Seq<char>>, stmts: Seq<ast::Statement>)
    requires
        program_findings(names, stmts).len() == 0,
    ensures
        lower_stmts(stmts) is Ok,
{
    let (_, ret, f) = run(names, stmts);
    if !ret {
        assert(program_findings(names, stmts).len() == f.len() + 1);
    }
    lemma_clean_prefix_lowers(names, stmts);
}

/// The number of binary operations in `e`, if it fits a `usize`.
fn count_binops(e: &ir::Expr) -> (r: Option<usize>)
    ensures
        r matches Some(k) ==> k as nat == binops(*e),
        r is None ==> binops(*e) > usize::MAX,
    decreases e,
{
    match e {
        ir::Expr::Binop(_, e1, e2) => {
            let a = count_binops(e1)?;
            let b = count_binops(e2)?;
            if b == usize::MAX || a > usize::MAX - 1 - b {
                None
            } else {
                Some(a + b + 1)
            }
        },
        _ => Some(0),
    }
}

/// Whether selecting the instructions of `p` numbers all its temporaries
/// within `usize`.
fn selection_fits(p: &ir::Program) -> (r: bool)
    ensures
        r == (p.temps.spec_count() + 2 * stmts_binops(p.statements@) <= usize::MAX),
{
    let ghost stmts = p.statements@;
    let mut total: usize = 0;
    let mut i: usize = 0;
    while i < p.statements.len()
        invariant
            i <= stmts.len(),
            stmts == p.statements@,
            total as nat == stmts_binops(stmts.subrange(0, i as int)),
        decreases stmts.len() - i,
    {
        proof {
            assert(stmts.subrange(0, i + 1).drop_last() =~= stmts.subrange(0, i as int));
        }
        let e = match &p.statements[i] {
            ir::Statement::Move(_, e) => e,
            ir::Statement::Return(e) => e,
        };
        match count_binops(e) {
            Some(k) => {
                if k > usize::MAX - total {
                    proof {
                        lemma_stmts_binops_prefix(stmts, i as int + 1);
                    }
                    return false;
                }
                total = total + k;
            },
            None => {
                proof {
                    lemma_stmts_binops_prefix(stmts, i as int + 1);
                }
                return false;
            },
        }
        i = i + 1;
    }
    proof {
        assert(stmts.subrange(0, stmts.len() as int) =~= stmts);
    }
    let count = p.temps.count();
    total <= (usize::MAX - count) / 2
}

/// Renders the instructions `ins`, one per line.
fn render_listing(ins: &Vec<Instruction>) -> (r: String)
    ensures
        r@ == listing(ins@),
{
    let ghost lines = ins@.map_values(|i: Instruction| i.text());
    let mut r = String::new();
    let mut i: usize = 0;
    while i < ins.len()
        invariant
            i <= ins@.len(),
            lines == ins@.map_values(|i: Instruction| i.text()),
            r@ == join_lines(lines.subrange(0, i as int)),
        decreases ins@.len() - i,
    {
        proof {
            assert(lines.subrange(0, i + 1).drop_last() =~= lines.subrange(0, i as int));
        }
        if i > 0 {
            r.append("\n");
        }
        r.append(ins[i].to_string().as_str());
        proof {
            if i == 0 {
                assert(r@ =~= lines.subrange(0, 1)[0]);
            }
        }
        i = i + 1;
    }
    proof {
        assert(lines.subrange(0, ins@.len() as int) =~= lines);
    }
    r
}

/// Compiles the parsed program `p`: checks it, stopping on any error; then,
/// unless `only_typecheck`, lowers it and selects its instructions.
pub fn compile_program(p: ast::Program, only_typecheck: bool) -> (r: Result<Compiled, Fatal>)
    requires
        p.wf(),
        forall|i: int| 0 <= i < p.statements@.len() ==> lowerable_stmt(#[trigger] p.statements@[i]),
    ensures
        compiled_as(p, only_typecheck, r),
{
    let mut p = p;
    let ast_text = p.to_string();
    typecheck(&mut p);
    match p.errors.check() {
        Ok(()) => {},
        Err(f) => {
            return Err(f);
        },
    }
    if only_typecheck {
        return Ok(Compiled { ast: ast_text, ir: None, assembly: None });
    }
    proof {
        lemma_checked_program_lowers(p.symbols@, p.statements@);
    }
    let lowered = middle::translate(p)?;
    let ir_text = lowered.to_string();
    if !selection_fits(&lowered) {
        let line = String::from_str("error: the program needs too many temporaries");
        return Err(Fatal { diagnostics: vec![line] });
    }
    let ins = codegen::translate(lowered);
    let assembly = render_listing(&ins);
    Ok(Compiled { ast: ast_text, ir: Some(ir_text), assembly: Some(assembly) })
}

/// Compiles the program text `code`, read from the file `file`: a syntax error
/// stops it, and otherwise the program parsed from it is compiled as
/// `compiled_from` says, with no diagnostics before. (The diagnostics depend
/// on the code map only through the text and the file name.)
pub fn compile(code: String, file: String, only_typecheck: bool) -> (r: Result<Compiled, Fatal>)
    ensures
        match parsed(code@) {
            None => r is Err,
            Some((names, stmts)) => exists|cm: CodeMap|
                {
                    &&& cm.text() == code@
                    &&& cm.file_name() == file@
                    &&& compiled_from(cm, false, Seq::empty(), names, stmts, only_typecheck, r)
                },
        },
{
    let p = parse::parse(code, file)?;
    let ghost p0 = p;
    let r = compile_program(p, only_typecheck);
    assert(compiled_as(p0, only_typecheck, r));
    r
}

} // verus!
