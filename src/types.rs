//! The static checker.
//!
//! One pass over the statements in order. Each variable is absent, declared
//! only, or declared and initialized; the checker also remembers whether a
//! `return` has been seen. Every problem is reported without stopping, and the
//! caller turns reported errors into a stop with `Errors::check`.
use vstd::prelude::*;
use vstd::string::StringExecFns;
use std::collections::HashMap;
use crate::parse::ast::{
    Expr, Expr_, Ident, Program, Statement, Statement_, expr_idents_below, node_idents_below,
    stmt_idents_below,
};
use crate::util::errors::{Errors, diagnostic_line};
use crate::util::mark::{CodeMap, Mark, Marked, dummy_mark, spec_dummy_mark};
use crate::util::symbol::{SymbolTable, distinct_texts};

verus! {

broadcast use vstd::std_specs::hash::group_hash_axioms;

/// A problem found by the checker: where, and what.
pub type Finding = (Mark, Seq<char>);

/// What the checker knows of each variable, by symbol: absent, declared only
/// (`false`), or declared and initialized (`true`).
pub type Status = Map<usize, bool>;

pub open spec fn redeclared_msg(name: Seq<char>) -> Seq<char> {
    "redeclared variable `"@ + name + "`"@
}

pub open spec fn undeclared_msg(name: Seq<char>) -> Seq<char> {
    "undeclared variable `"@ + name + "`"@
}

pub open spec fn uninitialized_msg(name: Seq<char>) -> Seq<char> {
    "uninitialized variable `"@ + name + "`"@
}

pub open spec fn no_return_msg() -> Seq<char> {
    "main does not return"@
}

/// The problems in the expression `e`, given what is known of each variable and
/// whether a `return` has been seen.
pub open spec fn expr_findings(names: Seq<Seq<char>>, st: Status, ret: bool, e: Expr) -> Seq<
    Finding,
>
    decreases e,
{
    match e.node {
        Expr_::Variable(id) => {
            if !st.contains_key(id.0) {
                seq![(e.mark, undeclared_msg(names[id.0 as int]))]
            } else if !st[id.0] && !ret {
                seq![(e.mark, uninitialized_msg(names[id.0 as int]))]
            } else {
                seq![]
            }
        },
        Expr_::Constant(_) => seq![],
        Expr_::Unary(_, e1) => expr_findings(names, st, ret, *e1),
        Expr_::Binary(_, e1, e2) => expr_findings(names, st, ret, *e1) + expr_findings(
            names,
            st,
            ret,
            *e2,
        ),
    }
}

/// Checking the assignment of `e` to `id` at `m`: the expression first, then
/// whether `id` was declared; afterwards `id` is initialized.
pub open spec fn assign_step(
    names: Seq<Seq<char>>,
    st: Status,
    ret: bool,
    id: Ident,
    m: Mark,
    e: Expr,
) -> (Status, Seq<Finding>) {
    let f = expr_findings(names, st, ret, e);
    let g = if st.contains_key(id.0) {
        f
    } else {
        f.push((m, undeclared_msg(names[id.0 as int])))
    };
    (st.insert(id.0, true), g)
}

/// Checking the declaration of `id` at `m`: a variable declared before keeps
/// what is known of it; a new one is declared only.
pub open spec fn decl_step(names: Seq<Seq<char>>, st: Status, id: Ident, m: Mark) -> (
    Status,
    Seq<Finding>,
) {
    let f = if st.contains_key(id.0) {
        seq![(m, redeclared_msg(names[id.0 as int]))]
    } else {
        seq![]
    };
    (if st.contains_key(id.0) {
        st
    } else {
        st.insert(id.0, false)
    }, f)
}

/// One statement: the state after it, whether a `return` has been seen, and
/// the problems found in it.
pub open spec fn stmt_step(names: Seq<Seq<char>>, st: Status, ret: bool, s: Statement) -> (
    Status,
    bool,
    Seq<Finding>,
) {
    match s.node {
        Statement_::Decl(id) => {
            let (st1, f) = decl_step(names, st, id, s.mark);
            (st1, ret, f)
        },
        Statement_::DeclAssign(id, e) => {
            let (st1, f1) = decl_step(names, st, id, s.mark);
            let (st2, f2) = assign_step(names, st1, ret, id, s.mark, e);
            (st2, ret, f1 + f2)
        },
        Statement_::Assign(id, e) => {
            let (st1, f) = assign_step(names, st, ret, id, s.mark, e);
            (st1, ret, f)
        },
        Statement_::Return(e) => (st, true, expr_findings(names, st, ret, e)),
    }
}

/// The checker's state after the statements `stmts`, and the problems found
/// in them, in order.
pub open spec fn run(names: Seq<Seq<char>>, stmts: Seq<Statement>) -> (Status, bool, Seq<Finding>)
    decreases stmts.len(),
{
    if stmts.len() == 0 {
        (Map::empty(), false, seq![])
    } else {
        let (st, ret, f) = run(names, stmts.drop_last());
        let (st1, ret1, f1) = stmt_step(names, st, ret, stmts.last());
        (st1, ret1, f + f1)
    }
}

/// Every problem in the program `stmts`, in the order they are reported: those
/// of each statement, then a missing `return`, placed at the whole program.
pub open spec fn program_findings(names: Seq<Seq<char>>, stmts: Seq<Statement>) -> Seq<Finding> {
    let (_, ret, f) = run(names, stmts);
    if ret {
        f
    } else {
        f.push((spec_dummy_mark(), no_return_msg()))
    }
}

/// The diagnostic lines of `fs`, placed with the code map `cm`.
pub open spec fn rendered(cm: CodeMap, fs: Seq<Finding>) -> Seq<Seq<char>> {
    fs.map_values(|f: Finding| diagnostic_line(cm, f.0, f.1))
}

proof fn lemma_rendered_concat(cm: CodeMap, a: Seq<Finding>, b: Seq<Finding>)
    ensures
        rendered(cm, a + b) == rendered(cm, a) + rendered(cm, b),
{
    assert(rendered(cm, a + b) =~= rendered(cm, a) + rendered(cm, b));
}

/// Checks the statements of a program, one after the other.
struct TypeChecker {
    syms: HashMap<usize, bool>,
    return_found: bool,
}

/// Reports `prefix name` followed by a closing backquote at `m`.
fn report_var(errors: &mut Errors, m: &Mark, prefix: &str, name: &str)
    requires
        old(errors).wf(),
    ensures
        final(errors).wf(),
        final(errors).code_map() == old(errors).code_map(),
        final(errors).has_errored(),
        final(errors).reported() == old(errors).reported().push(
            diagnostic_line(old(errors).code_map(), *m, prefix@ + name@ + "`"@),
        ),
{
    let mut msg = String::from_str(prefix);
    msg.append(name);
    msg.append("`");
    errors.add(m, msg.as_str());
}

impl TypeChecker {
    fn new() -> (r: TypeChecker)
        ensures
            r.syms@ == Status::empty(),
            !r.return_found,
    {
        TypeChecker { syms: HashMap::new(), return_found: false }
    }

    fn expr(&self, errors: &mut Errors, names: &SymbolTable, e: &Expr)
        requires
            old(errors).wf(),
            expr_idents_below(*e, names@.len()),
        ensures
            final(errors).wf(),
            final(errors).code_map() == old(errors).code_map(),
            final(errors).reported() == old(errors).reported() + rendered(
                old(errors).code_map(),
                expr_findings(names@, self.syms@, self.return_found, *e),
            ),
            final(errors).has_errored() == (old(errors).has_errored() || expr_findings(
                names@,
                self.syms@,
                self.return_found,
                *e,
            ).len() > 0),
        decreases e,
    {
        let ghost f = expr_findings(names@, self.syms@, self.return_found, *e);
        match &e.node {
            Expr_::Variable(id) => {
                match self.syms.get(&id.0) {
                    Some(initialized) => {
                        if !*initialized && !self.return_found {
                            report_var(errors, &e.mark, "uninitialized variable `", names.name(*id));
                            assert(rendered(old(errors).code_map(), f) =~= seq![
                                diagnostic_line(old(errors).code_map(), e.mark, f[0].1),
                            ]);
                        } else {
                            assert(rendered(old(errors).code_map(), f) =~= seq![]);
                            assert(final(errors).reported() =~= old(errors).reported());
                        }
                    },
                    None => {
                        report_var(errors, &e.mark, "undeclared variable `", names.name(*id));
                        assert(rendered(old(errors).code_map(), f) =~= seq![
                            diagnostic_line(old(errors).code_map(), e.mark, f[0].1),
                        ]);
                    },
                }
            },
            Expr_::Constant(_) => {
                assert(rendered(old(errors).code_map(), f) =~= seq![]);
                assert(final(errors).reported() =~= old(errors).reported());
            },
            Expr_::Unary(_, e1) => {
                self.expr(errors, names, e1);
            },
            Expr_::Binary(_, e1, e2) => {
                self.expr(errors, names, e1);
                self.expr(errors, names, e2);
                proof {
                    let f1 = expr_findings(names@, self.syms@, self.return_found, **e1);
                    let f2 = expr_findings(names@, self.syms@, self.return_found, **e2);
                    lemma_rendered_concat(old(errors).code_map(), f1, f2);
                }
            },
        }
    }

    fn check_decl(&mut self, errors: &mut Errors, names: &SymbolTable, id: Ident, mark: &Mark)
        requires
            old(errors).wf(),
            (id.0 as nat) < names@.len(),
        ensures
            final(errors).wf(),
            final(errors).code_map() == old(errors).code_map(),
            final(self).return_found == old(self).return_found,
            ({
                let (st, f) = decl_step(names@, old(self).syms@, id, *mark);
                &&& final(self).syms@ == st
                &&& final(errors).reported() == old(errors).reported() + rendered(
                    old(errors).code_map(),
                    f,
                )
                &&& final(errors).has_errored() == (old(errors).has_errored() || f.len() > 0)
            }),
    {
        let ghost f = decl_step(names@, self.syms@, id, *mark).1;
        if self.syms.contains_key(&id.0) {
            report_var(errors, mark, "redeclared variable `", names.name(id));
            assert(rendered(old(errors).code_map(), f) =~= seq![
                diagnostic_line(old(errors).code_map(), *mark, f[0].1),
            ]);
        } else {
            self.syms.insert(id.0, false);
            assert(rendered(old(errors).code_map(), f) =~= seq![]);
            assert(final(errors).reported() =~= old(errors).reported());
        }
    }

    fn assign(&mut self, errors: &mut Errors, names: &SymbolTable, id: Ident, mark: &Mark, e: &Expr)
        requires
            old(errors).wf(),
            (id.0 as nat) < names@.len(),
            expr_idents_below(*e, names@.len()),
        ensures
            final(errors).wf(),
            final(errors).code_map() == old(errors).code_map(),
            final(self).return_found == old(self).return_found,
            ({
                let (st, f) = assign_step(
                    names@,
                    old(self).syms@,
                    old(self).return_found,
                    id,
                    *mark,
                    *e,
                );
                &&& final(self).syms@ == st
                &&& final(errors).reported() == old(errors).reported() + rendered(
                    old(errors).code_map(),
                    f,
                )
                &&& final(errors).has_errored() == (old(errors).has_errored() || f.len() > 0)
            }),
    {
        let ghost cm = errors.code_map();
        let ghost f0 = expr_findings(names@, self.syms@, self.return_found, *e);
        self.expr(errors, names, e);
        let ghost mid = errors.reported();
        match self.syms.insert(id.0, true) {
            Some(_) => {},
            None => {
                report_var(errors, mark, "undeclared variable `", names.name(id));
                proof {
                    let g = seq![(*mark, undeclared_msg(names@[id.0 as int]))];
                    assert(f0.push((*mark, undeclared_msg(names@[id.0 as int]))) =~= f0 + g);
                    lemma_rendered_concat(cm, f0, g);
                    assert(rendered(cm, g) =~= seq![diagnostic_line(cm, *mark, g[0].1)]);
                }
            },
        }
    }

    fn stm(&mut self, errors: &mut Errors, names: &SymbolTable, s: &Statement)
        requires
            old(errors).wf(),
            stmt_idents_below(*s, names@.len()),
        ensures
            final(errors).wf(),
            final(errors).code_map() == old(errors).code_map(),
            ({
                let (st, ret, f) = stmt_step(
                    names@,
                    old(self).syms@,
                    old(self).return_found,
                    *s,
                );
                &&& final(self).syms@ == st
                &&& final(self).return_found == ret
                &&& final(errors).reported() == old(errors).reported() + rendered(
                    old(errors).code_map(),
                    f,
                )
                &&& final(errors).has_errored() == (old(errors).has_errored() || f.len() > 0)
            }),
    {
        let ghost cm = errors.code_map();
        match &s.node {
            Statement_::Decl(id) => self.check_decl(errors, names, *id, &s.mark),
            Statement_::DeclAssign(id, e) => {
                let ghost st0 = self.syms@;
                self.check_decl(errors, names, *id, &s.mark);
                self.assign(errors, names, *id, &s.mark, e);
                proof {
                    let (st1, f1) = decl_step(names@, st0, *id, s.mark);
                    let (st2, f2) = assign_step(names@, st1, self.return_found, *id, s.mark, *e);
                    lemma_rendered_concat(cm, f1, f2);
                }
            },
            Statement_::Assign(id, e) => self.assign(errors, names, *id, &s.mark, e),
            Statement_::Return(e) => {
                self.expr(errors, names, e);
                self.return_found = true;
            },
        }
    }
}

/// Checks the program `p`, reporting each problem to `p.errors`: a variable
/// declared twice, a variable used or assigned without a declaration, a
/// variable used before it is initialized (unless a `return` came earlier), and
/// a program without `return`. Nothing else changes.
pub fn typecheck(p: &mut Program)
    requires
        old(p).wf(),
    ensures
        final(p).wf(),
        final(p).statements@ == old(p).statements@,
        final(p).symbols@ == old(p).symbols@,
        final(p).errors.code_map() == old(p).errors.code_map(),
        final(p).errors.reported() == old(p).errors.reported() + rendered(
            old(p).errors.code_map(),
            program_findings(old(p).symbols@, old(p).statements@),
        ),
        final(p).errors.has_errored() == (old(p).errors.has_errored() || program_findings(
            old(p).symbols@,
            old(p).statements@,
        ).len() > 0),
{
    let ghost names = p.symbols@;
    let ghost stmts = p.statements@;
    let ghost cm = p.errors.code_map();
    let ghost rep0 = p.errors.reported();
    let ghost err0 = p.errors.has_errored();
    let mut tc = TypeChecker::new();
    let mut i: usize = 0;
    while i < p.statements.len()
        invariant
            i <= stmts.len(),
            p.statements@ == stmts,
            p.symbols@ == names,
            p.wf(),
            p.errors.code_map() == cm,
            ({
                let (st, ret, f) = run(names, stmts.subrange(0, i as int));
                &&& tc.syms@ == st
                &&& tc.return_found == ret
                &&& p.errors.reported() == rep0 + rendered(cm, f)
                &&& p.errors.has_errored() == (err0 || f.len() > 0)
            }),
        decreases stmts.len() - i,
    {
        let ghost f0 = run(names, stmts.subrange(0, i as int)).2;
        proof {
            assert(stmts.subrange(0, i + 1).drop_last() =~= stmts.subrange(0, i as int));
        }
        assert(stmt_idents_below(p.statements@[i as int], p.symbols@.len()));
        tc.stm(&mut p.errors, &p.symbols, &p.statements[i]);
        proof {
            let f1 = stmt_step(names, run(names, stmts.subrange(0, i as int)).0,
                run(names, stmts.subrange(0, i as int)).1, stmts[i as int]).2;
            lemma_rendered_concat(cm, f0, f1);
            assert(rep0 + rendered(cm, f0) + rendered(cm, f1) =~= rep0 + rendered(cm, f0 + f1));
        }
        i = i + 1;
    }
    proof {
        assert(stmts.subrange(0, stmts.len() as int) =~= stmts);
    }
    if !tc.return_found {
        let m = dummy_mark();
        p.errors.add(&m, "main does not return");
        proof {
            let f = run(names, stmts).2;
            let g = seq![(spec_dummy_mark(), no_return_msg())];
            assert(f.push((spec_dummy_mark(), no_return_msg())) =~= f + g);
            lemma_rendered_concat(cm, f, g);
            assert(rendered(cm, g) =~= seq![diagnostic_line(cm, spec_dummy_mark(), no_return_msg())]);
            assert(rep0 + rendered(cm, f) + rendered(cm, g) =~= rep0 + rendered(cm, f + g));
        }
    }
}

/// The findings about variables start with another letter than the one about a
/// missing `return`.
proof fn lemma_message_letters(name: Seq<char>)
    ensures
        redeclared_msg(name).len() > 0 && redeclared_msg(name)[0] == 'r',
        undeclared_msg(name).len() > 0 && undeclared_msg(name)[0] == 'u',
        uninitialized_msg(name).len() > 0 && uninitialized_msg(name)[0] == 'u',
        no_return_msg().len() > 0 && no_return_msg()[0] == 'm',
{
    reveal_strlit("redeclared variable `");
    reveal_strlit("undeclared variable `");
    reveal_strlit("uninitialized variable `");
    reveal_strlit("main does not return");
    assert(("redeclared variable `"@ + name + "`"@)[0] == "redeclared variable `"@[0]);
    assert(("undeclared variable `"@ + name + "`"@)[0] == "undeclared variable `"@[0]);
    assert(("uninitialized variable `"@ + name + "`"@)[0] == "uninitialized variable `"@[0]);
}

/// No finding in `fs` is about a missing `return`.
pub open spec fn no_return_free(fs: Seq<Finding>) -> bool {
    forall|j: int| 0 <= j < fs.len() ==> fs[j].1 != no_return_msg()
}

proof fn lemma_expr_no_return_free(names: Seq<Seq<char>>, st: Status, ret: bool, e: Expr)
    ensures
        no_return_free(expr_findings(names, st, ret, e)),
    decreases e,
{
    match e.node {
        Expr_::Variable(id) => {
            lemma_message_letters(names[id.0 as int]);
        },
        Expr_::Constant(_) => {},
        Expr_::Unary(_, e1) => {
            lemma_expr_no_return_free(names, st, ret, *e1);
        },
        Expr_::Binary(_, e1, e2) => {
            lemma_expr_no_return_free(names, st, ret, *e1);
            lemma_expr_no_return_free(names, st, ret, *e2);
            let f1 = expr_findings(names, st, ret, *e1);
            let f2 = expr_findings(names, st, ret, *e2);
            assert forall|j: int| 0 <= j < (f1 + f2).len() implies (f1 + f2)[j].1
                != no_return_msg() by {
                if j >= f1.len() {
                    assert((f1 + f2)[j] == f2[j - f1.len()]);
                }
            }
        },
    }
}

proof fn lemma_run_no_return(names: Seq<Seq<char>>, stmts: Seq<Statement>)
    ensures
        no_return_free(run(names, stmts).2),
        (forall|i: int| 0 <= i < stmts.len() ==> !(#[trigger] stmts[i].node is Return)) ==> !run(
            names,
            stmts,
        ).1,
    decreases stmts.len(),
{
    if stmts.len() > 0 {
        let pre = stmts.drop_last();
        lemma_run_no_return(names, pre);
        assert(forall|i: int| 0 <= i < pre.len() ==> pre[i] == stmts[i]);
        let (st, ret, f) = run(names, pre);
        let s = stmts.last();
        let f1 = stmt_step(names, st, ret, s).2;
        match s.node {
            Statement_::Decl(id) => {
                lemma_message_letters(names[id.0 as int]);
            },
            Statement_::DeclAssign(id, e) => {
                lemma_message_letters(names[id.0 as int]);
                lemma_expr_no_return_free(names, decl_step(names, st, id, s.mark).0, ret, e);
            },
            Statement_::Assign(id, e) => {
                lemma_message_letters(names[id.0 as int]);
                lemma_expr_no_return_free(names, st, ret, e);
            },
            Statement_::Return(e) => {
                lemma_expr_no_return_free(names, st, ret, e);
            },
        }
        assert(no_return_free(f1));
        assert forall|j: int| 0 <= j < (f + f1).len() implies (f + f1)[j].1 != no_return_msg() by {
            if j >= f.len() {
                assert((f + f1)[j] == f1[j - f.len()]);
            }
        }
    }
}

/// A program with no `return` statement gets exactly one "main does not
/// return" error, the last one, placed at the whole program.
pub proof fn lemma_missing_return(names: Seq<Seq<char>>, stmts: Seq<Statement>)
    requires
        forall|i: int| 0 <= i < stmts.len() ==> !(#[trigger] stmts[i].node is Return),
    ensures
        program_findings(names, stmts) == run(names, stmts).2.push(
            (spec_dummy_mark(), no_return_msg()),
        ),
        no_return_free(run(names, stmts).2),
{
    lemma_run_no_return(names, stmts);
}

/// How many findings of `fs` carry the message `msg`.
pub open spec fn count_msg(fs: Seq<Finding>, msg: Seq<char>) -> nat
    decreases fs.len(),
{
    if fs.len() == 0 {
        0
    } else {
        count_msg(fs.drop_last(), msg) + if fs.last().1 == msg {
            1nat
        } else {
            0nat
        }
    }
}

proof fn lemma_count_concat(a: Seq<Finding>, b: Seq<Finding>, msg: Seq<char>)
    ensures
        count_msg(a + b, msg) == count_msg(a, msg) + count_msg(b, msg),
    decreases b.len(),
{
    if b.len() == 0 {
        assert(a + b =~= a);
    } else {
        lemma_count_concat(a, b.drop_last(), msg);
        assert((a + b).drop_last() =~= a + b.drop_last());
    }
}

proof fn lemma_count_single(a: Finding, msg: Seq<char>)
    ensures
        count_msg(seq![a], msg) == if a.1 == msg {
            1nat
        } else {
            0nat
        },
{
    let s = seq![a];
    assert(s.drop_last() =~= Seq::<Finding>::empty());
    assert(count_msg(s.drop_last(), msg) == 0);
    assert(s.last() == a);
}

/// Every finding of `fs` starts with `u`.
spec fn all_start_u(fs: Seq<Finding>) -> bool {
    forall|k: int| 0 <= k < fs.len() ==> fs[k].1.len() > 0 && (#[trigger] fs[k]).1[0] == 'u'
}

proof fn lemma_count_u(fs: Seq<Finding>, name: Seq<char>)
    requires
        all_start_u(fs),
    ensures
        count_msg(fs, redeclared_msg(name)) == 0,
    decreases fs.len(),
{
    lemma_message_letters(name);
    if fs.len() > 0 {
        assert(all_start_u(fs.drop_last()));
        lemma_count_u(fs.drop_last(), name);
        assert(fs.last() == fs[fs.len() - 1]);
    }
}

proof fn lemma_expr_start_u(names: Seq<Seq<char>>, st: Status, ret: bool, e: Expr)
    ensures
        all_start_u(expr_findings(names, st, ret, e)),
    decreases e,
{
    match e.node {
        Expr_::Variable(id) => lemma_message_letters(names[id.0 as int]),
        Expr_::Constant(_) => {},
        Expr_::Unary(_, e1) => lemma_expr_start_u(names, st, ret, *e1),
        Expr_::Binary(_, e1, e2) => {
            lemma_expr_start_u(names, st, ret, *e1);
            lemma_expr_start_u(names, st, ret, *e2);
            let f1 = expr_findings(names, st, ret, *e1);
            let f2 = expr_findings(names, st, ret, *e2);
            assert forall|k: int| 0 <= k < (f1 + f2).len() implies (f1 + f2)[k].1.len() > 0 && (#[trigger] (f1
                + f2)[k]).1[0] == 'u' by {
                if k >= f1.len() {
                    assert((f1 + f2)[k] == f2[k - f1.len()]);
                }
            }
        },
    }
}

proof fn lemma_redeclared_msg_injective(n1: Seq<char>, n2: Seq<char>)
    requires
        redeclared_msg(n1) == redeclared_msg(n2),
    ensures
        n1 == n2,
{
    let a = "redeclared variable `"@;
    let b = "`"@;
    assert((a + n1 + b).len() == (a + n2 + b).len());
    assert(n1 =~= (a + n1 + b).subrange(a.len() as int, (a.len() + n1.len()) as int));
    assert(n2 =~= (a + n2 + b).subrange(a.len() as int, (a.len() + n2.len()) as int));
}

/// Another identifier's redeclaration is reported with another message.
proof fn lemma_other_name(names: Seq<Seq<char>>, id: Ident, x: Ident)
    requires
        distinct_texts(names),
        (x.0 as nat) < names.len(),
        (id.0 as nat) < names.len(),
        id != x,
    ensures
        redeclared_msg(names[id.0 as int]) != redeclared_msg(names[x.0 as int]),
{
    assert(id.0 != x.0);
    assert(names[id.0 as int] != names[x.0 as int]);
    if redeclared_msg(names[id.0 as int]) == redeclared_msg(names[x.0 as int]) {
        lemma_redeclared_msg_injective(names[id.0 as int], names[x.0 as int]);
    }
}

/// The statement `s` declares or assigns `x`.
pub open spec fn binds(s: Statement, x: Ident) -> bool {
    match s.node {
        Statement_::Decl(id) => id == x,
        Statement_::DeclAssign(id, _) => id == x,
        Statement_::Assign(id, _) => id == x,
        Statement_::Return(_) => false,
    }
}

/// How a statement that does not bind `x` reports `x` as redeclared: never;
/// and whether `x` is known stays as it was.
proof fn lemma_step_other(names: Seq<Seq<char>>, st: Status, ret: bool, s: Statement, x: Ident)
    requires
        distinct_texts(names),
        (x.0 as nat) < names.len(),
        stmt_idents_below(s, names.len()),
        !binds(s, x),
    ensures
        count_msg(stmt_step(names, st, ret, s).2, redeclared_msg(names[x.0 as int])) == 0,
        stmt_step(names, st, ret, s).0.contains_key(x.0) == st.contains_key(x.0),
{
    let nx = names[x.0 as int];
    let msg = redeclared_msg(nx);
    lemma_message_letters(nx);
    match s.node {
        Statement_::Decl(id) => {
            if st.contains_key(id.0) {
                lemma_other_name(names, id, x);
                lemma_count_single((s.mark, redeclared_msg(names[id.0 as int])), msg);
            }
        },
        Statement_::DeclAssign(id, e) => {
            let (st1, f1) = decl_step(names, st, id, s.mark);
            let g = assign_step(names, st1, ret, id, s.mark, e).1;
            if st.contains_key(id.0) {
                lemma_other_name(names, id, x);
                lemma_count_single((s.mark, redeclared_msg(names[id.0 as int])), msg);
            }
            lemma_expr_start_u(names, st1, ret, e);
            lemma_message_letters(names[id.0 as int]);
            let fe = expr_findings(names, st1, ret, e);
            assert(all_start_u(g)) by {
                if !st1.contains_key(id.0) {
                    assert forall|k: int| 0 <= k < g.len() implies g[k].1.len() > 0 && (#[trigger] g[k]).1[0] == 'u' by {
                        if k < fe.len() {
                            assert(g[k] == fe[k]);
                        }
                    }
                }
            }
            lemma_count_u(g, nx);
            lemma_count_concat(f1, g, msg);
        },
        Statement_::Assign(id, e) => {
            let g = assign_step(names, st, ret, id, s.mark, e).1;
            lemma_expr_start_u(names, st, ret, e);
            lemma_message_letters(names[id.0 as int]);
            let fe = expr_findings(names, st, ret, e);
            assert(all_start_u(g)) by {
                if !st.contains_key(id.0) {
                    assert forall|k: int| 0 <= k < g.len() implies g[k].1.len() > 0 && (#[trigger] g[k]).1[0] == 'u' by {
                        if k < fe.len() {
                            assert(g[k] == fe[k]);
                        }
                    }
                }
            }
            lemma_count_u(g, nx);
        },
        Statement_::Return(e) => {
            lemma_expr_start_u(names, st, ret, e);
            lemma_count_u(expr_findings(names, st, ret, e), nx);
        },
    }
}

proof fn lemma_redeclared_prefix(
    names: Seq<Seq<char>>,
    stmts: Seq<Statement>,
    x: Ident,
    i: int,
    j: int,
    k: int,
)
    requires
        distinct_texts(names),
        (x.0 as nat) < names.len(),
        forall|t: int| 0 <= t < stmts.len() ==> stmt_idents_below(#[trigger] stmts[t], names.len()),
        0 <= i < j < stmts.len(),
        stmts[i].node == Statement_::Decl(x),
        stmts[j].node == Statement_::Decl(x),
        forall|t: int| 0 <= t < stmts.len() && t != i && t != j ==> !binds(#[trigger] stmts[t], x),
        0 <= k <= stmts.len(),
    ensures
        run(names, stmts.subrange(0, k)).0.contains_key(x.0) == (k > i),
        count_msg(run(names, stmts.subrange(0, k)).2, redeclared_msg(names[x.0 as int])) == if k > j {
            1nat
        } else {
            0nat
        },
        k > j ==> run(names, stmts.subrange(0, k)).2.contains(
            (stmts[j].mark, redeclared_msg(names[x.0 as int])),
        ),
    decreases k,
{
    let msg = redeclared_msg(names[x.0 as int]);
    if k > 0 {
        lemma_redeclared_prefix(names, stmts, x, i, j, k - 1);
        let pre = stmts.subrange(0, k - 1);
        assert(stmts.subrange(0, k).drop_last() =~= pre);
        let (st, ret, f) = run(names, pre);
        let s = stmts[k - 1];
        let f1 = stmt_step(names, st, ret, s).2;
        lemma_count_concat(f, f1, msg);
        if k - 1 == i || k - 1 == j {
            if st.contains_key(x.0) {
                assert(f1 =~= seq![(s.mark, msg)]);
                lemma_count_single((s.mark, msg), msg);
                assert((f + f1)[f.len() as int] == (s.mark, msg));
            } else {
                assert(f1 =~= Seq::<Finding>::empty());
            }
        } else {
            lemma_step_other(names, st, ret, s, x);
        }
        if k > j + 1 {
            let fk = run(names, stmts.subrange(0, k)).2;
            let w = choose|t: int| 0 <= t < f.len() && f[t] == (stmts[j].mark, msg);
            assert(fk[w] == (stmts[j].mark, msg));
        }
    }
}

/// In any program, two declarations of `x`, with no other statement declaring
/// or assigning `x`, give exactly one "redeclared" error for `x`, at the
/// second declaration. (An assignment to `x` before the first declaration
/// would make that one a redeclaration too.)
pub proof fn lemma_declared_twice_anywhere(
    names: Seq<Seq<char>>,
    stmts: Seq<Statement>,
    x: Ident,
    i: int,
    j: int,
)
    requires
        distinct_texts(names),
        (x.0 as nat) < names.len(),
        forall|t: int| 0 <= t < stmts.len() ==> stmt_idents_below(#[trigger] stmts[t], names.len()),
        0 <= i < j < stmts.len(),
        stmts[i].node == Statement_::Decl(x),
        stmts[j].node == Statement_::Decl(x),
        forall|t: int| 0 <= t < stmts.len() && t != i && t != j ==> !binds(#[trigger] stmts[t], x),
    ensures
        count_msg(program_findings(names, stmts), redeclared_msg(names[x.0 as int])) == 1,
        program_findings(names, stmts).contains((stmts[j].mark, redeclared_msg(names[x.0 as int]))),
{
    lemma_redeclared_prefix(names, stmts, x, i, j, stmts.len() as int);
    assert(stmts.subrange(0, stmts.len() as int) =~= stmts);
    let (_, ret, f) = run(names, stmts);
    let msg = redeclared_msg(names[x.0 as int]);
    if !ret {
        let g = seq![(spec_dummy_mark(), no_return_msg())];
        assert(f.push((spec_dummy_mark(), no_return_msg())) =~= f + g);
        lemma_message_letters(names[x.0 as int]);
        assert(no_return_msg() != msg);
        lemma_count_single((spec_dummy_mark(), no_return_msg()), msg);
        lemma_count_concat(f, g, msg);
        let w = choose|t: int| 0 <= t < f.len() && f[t] == (stmts[j].mark, msg);
        assert((f + g)[w] == (stmts[j].mark, msg));
    }
}

/// The expression node `e` reads `x`.
pub open spec fn reads_var(e: Expr_, x: Ident) -> bool
    decreases e,
{
    match e {
        Expr_::Variable(id) => id == x,
        Expr_::Constant(_) => false,
        Expr_::Unary(_, e1) => reads_var(e1.node, x),
        Expr_::Binary(_, e1, e2) => reads_var(e1.node, x) || reads_var(e2.node, x),
    }
}

/// The statement `s` declares, assigns or reads `x`.
pub open spec fn mentions(s: Statement, x: Ident) -> bool {
    binds(s, x) || match s.node {
        Statement_::Decl(_) => false,
        Statement_::DeclAssign(_, e) => reads_var(e.node, x),
        Statement_::Assign(_, e) => reads_var(e.node, x),
        Statement_::Return(e) => reads_var(e.node, x),
    }
}

proof fn lemma_undeclared_msg_apart(n: Seq<char>, nx: Seq<char>)
    ensures
        undeclared_msg(n) == undeclared_msg(nx) ==> n == nx,
        uninitialized_msg(n) != undeclared_msg(nx),
        redeclared_msg(n) != undeclared_msg(nx),
        no_return_msg() != undeclared_msg(nx),
{
    lemma_message_letters(n);
    lemma_message_letters(nx);
    reveal_strlit("undeclared variable `");
    reveal_strlit("uninitialized variable `");
    let a = "undeclared variable `"@;
    let b = "`"@;
    assert(uninitialized_msg(n)[2] == "uninitialized variable `"@[2]);
    assert(undeclared_msg(nx)[2] == a[2]);
    if undeclared_msg(n) == undeclared_msg(nx) {
        assert((a + n + b).len() == (a + nx + b).len());
        assert(n =~= (a + n + b).subrange(a.len() as int, (a.len() + n.len()) as int));
        assert(nx =~= (a + nx + b).subrange(a.len() as int, (a.len() + nx.len()) as int));
    }
}

proof fn lemma_expr_no_undeclared(names: Seq<Seq<char>>, st: Status, ret: bool, e: Expr, x: Ident)
    requires
        distinct_texts(names),
        (x.0 as nat) < names.len(),
        node_idents_below(e.node, names.len()),
        !reads_var(e.node, x),
    ensures
        count_msg(expr_findings(names, st, ret, e), undeclared_msg(names[x.0 as int])) == 0,
    decreases e,
{
    let msg = undeclared_msg(names[x.0 as int]);
    match e.node {
        Expr_::Variable(id) => {
            lemma_undeclared_msg_apart(names[id.0 as int], names[x.0 as int]);
            assert(id.0 != x.0);
            assert(names[id.0 as int] != names[x.0 as int]);
            let f = expr_findings(names, st, ret, e);
            if f.len() == 1 {
                lemma_count_single(f[0], msg);
                assert(f =~= seq![f[0]]);
            }
        },
        Expr_::Constant(_) => {},
        Expr_::Unary(_, e1) => lemma_expr_no_undeclared(names, st, ret, *e1, x),
        Expr_::Binary(_, e1, e2) => {
            lemma_expr_no_undeclared(names, st, ret, *e1, x);
            lemma_expr_no_undeclared(names, st, ret, *e2, x);
            lemma_count_concat(expr_findings(names, st, ret, *e1), expr_findings(names, st, ret, *e2), msg);
        },
    }
}

proof fn lemma_step_no_undeclared(names: Seq<Seq<char>>, st: Status, ret: bool, s: Statement, x: Ident)
    requires
        distinct_texts(names),
        (x.0 as nat) < names.len(),
        stmt_idents_below(s, names.len()),
        !mentions(s, x),
    ensures
        count_msg(stmt_step(names, st, ret, s).2, undeclared_msg(names[x.0 as int])) == 0,
        stmt_step(names, st, ret, s).0.contains_key(x.0) == st.contains_key(x.0),
{
    let msg = undeclared_msg(names[x.0 as int]);
    match s.node {
        Statement_::Decl(id) => {
            if st.contains_key(id.0) {
                lemma_undeclared_msg_apart(names[id.0 as int], names[x.0 as int]);
                lemma_count_single((s.mark, redeclared_msg(names[id.0 as int])), msg);
            }
        },
        Statement_::DeclAssign(id, e) => {
            let (st1, f1) = decl_step(names, st, id, s.mark);
            lemma_undeclared_msg_apart(names[id.0 as int], names[x.0 as int]);
            if st.contains_key(id.0) {
                lemma_count_single((s.mark, redeclared_msg(names[id.0 as int])), msg);
            }
            lemma_expr_no_undeclared(names, st1, ret, e, x);
            let fe = expr_findings(names, st1, ret, e);
            let g = assign_step(names, st1, ret, id, s.mark, e).1;
            assert(st1.contains_key(id.0));
            assert(g == fe);
            lemma_count_concat(f1, g, msg);
        },
        Statement_::Assign(id, e) => {
            lemma_expr_no_undeclared(names, st, ret, e, x);
            let fe = expr_findings(names, st, ret, e);
            if !st.contains_key(id.0) {
                assert(id.0 != x.0);
                assert(names[id.0 as int] != names[x.0 as int]);
                lemma_undeclared_msg_apart(names[id.0 as int], names[x.0 as int]);
                let u = seq![(s.mark, undeclared_msg(names[id.0 as int]))];
                assert(fe.push((s.mark, undeclared_msg(names[id.0 as int]))) =~= fe + u);
                lemma_count_single(u[0], msg);
                lemma_count_concat(fe, u, msg);
            }
        },
        Statement_::Return(e) => {
            lemma_expr_no_undeclared(names, st, ret, e, x);
        },
    }
}

proof fn lemma_undeclared_prefix(names: Seq<Seq<char>>, stmts: Seq<Statement>, x: Ident, i: int, k: int)
    requires
        distinct_texts(names),
        (x.0 as nat) < names.len(),
        forall|t: int| 0 <= t < stmts.len() ==> stmt_idents_below(#[trigger] stmts[t], names.len()),
        0 <= i < stmts.len(),
        stmts[i].node matches Statement_::Return(e) && e.node == Expr_::Variable(x),
        forall|t: int| 0 <= t < stmts.len() && t != i ==> !mentions(#[trigger] stmts[t], x),
        0 <= k <= stmts.len(),
    ensures
        !run(names, stmts.subrange(0, k)).0.contains_key(x.0),
        k > i ==> run(names, stmts.subrange(0, k)).1,
        count_msg(run(names, stmts.subrange(0, k)).2, undeclared_msg(names[x.0 as int])) == if k > i {
            1nat
        } else {
            0nat
        },
        k > i ==> run(names, stmts.subrange(0, k)).2.contains(
            (stmts[i].node->Return_0.mark, undeclared_msg(names[x.0 as int])),
        ),
    decreases k,
{
    let msg = undeclared_msg(names[x.0 as int]);
    if k > 0 {
        lemma_undeclared_prefix(names, stmts, x, i, k - 1);
        let pre = stmts.subrange(0, k - 1);
        assert(stmts.subrange(0, k).drop_last() =~= pre);
        let (st, ret, f) = run(names, pre);
        let s = stmts[k - 1];
        let f1 = stmt_step(names, st, ret, s).2;
        lemma_count_concat(f, f1, msg);
        if k - 1 == i {
            let e = s.node->Return_0;
            assert(f1 =~= seq![(e.mark, msg)]);
            lemma_count_single((e.mark, msg), msg);
            assert((f + f1)[f.len() as int] == (e.mark, msg));
        } else {
            lemma_step_no_undeclared(names, st, ret, s, x);
        }
        if k > i + 1 {
            let fk = run(names, stmts.subrange(0, k)).2;
            let m = stmts[i].node->Return_0.mark;
            let w = choose|t: int| 0 <= t < f.len() && f[t] == (m, msg);
            assert(fk[w] == (m, msg));
        }
    }
}

/// In any program, returning a variable that no other statement declares,
/// assigns or reads gives exactly one "undeclared" error for it, at the
/// variable.
pub proof fn lemma_return_undeclared_anywhere(
    names: Seq<Seq<char>>,
    stmts: Seq<Statement>,
    x: Ident,
    i: int,
)
    requires
        distinct_texts(names),
        (x.0 as nat) < names.len(),
        forall|t: int| 0 <= t < stmts.len() ==> stmt_idents_below(#[trigger] stmts[t], names.len()),
        0 <= i < stmts.len(),
        stmts[i].node matches Statement_::Return(e) && e.node == Expr_::Variable(x),
        forall|t: int| 0 <= t < stmts.len() && t != i ==> !mentions(#[trigger] stmts[t], x),
    ensures
        count_msg(program_findings(names, stmts), undeclared_msg(names[x.0 as int])) == 1,
        program_findings(names, stmts).contains(
            (stmts[i].node->Return_0.mark, undeclared_msg(names[x.0 as int])),
        ),
{
    lemma_undeclared_prefix(names, stmts, x, i, stmts.len() as int);
    assert(stmts.subrange(0, stmts.len() as int) =~= stmts);
}

/// The statement `node` at `m`.
pub open spec fn stmt_at(node: Statement_, m: Mark) -> Statement {
    Marked { mark: m, node: node }
}

/// The expression `node` at `m`.
pub open spec fn expr_at(node: Expr_, m: Mark) -> Expr {
    Marked { mark: m, node: node }
}

/// Declaring `x` twice gives exactly one "redeclared" error, at the second
/// declaration (besides the missing `return`).
pub proof fn lemma_declared_twice(names: Seq<Seq<char>>, x: Ident, m1: Mark, m2: Mark)
    requires
        (x.0 as nat) < names.len(),
    ensures
        program_findings(
            names,
            seq![stmt_at(Statement_::Decl(x), m1), stmt_at(Statement_::Decl(x), m2)],
        ) == seq![(m2, redeclared_msg(names[x.0 as int])), (spec_dummy_mark(), no_return_msg())],
{
    let stmts = seq![stmt_at(Statement_::Decl(x), m1), stmt_at(Statement_::Decl(x), m2)];
    assert(stmts.drop_last() =~= seq![stmt_at(Statement_::Decl(x), m1)]);
    assert(stmts.drop_last().drop_last() =~= Seq::<Statement>::empty());
    let r0 = run(names, stmts.drop_last().drop_last());
    assert(r0.0 == Status::empty() && !r0.1 && r0.2 == Seq::<Finding>::empty());
    let r1 = run(names, stmts.drop_last());
    assert(r1.0 == Status::empty().insert(x.0, false));
    assert(r1.2 =~= seq![]);
    let r2 = run(names, stmts);
    assert(r2.2 =~= seq![(m2, redeclared_msg(names[x.0 as int]))]);
    assert(!r2.1);
    assert(program_findings(names, stmts) =~= seq![
        (m2, redeclared_msg(names[x.0 as int])),
        (spec_dummy_mark(), no_return_msg()),
    ]);
}

/// Returning a variable that was never declared gives exactly one
/// "undeclared" error, at the variable.
pub proof fn lemma_return_undeclared(names: Seq<Seq<char>>, x: Ident, me: Mark, ms: Mark)
    requires
        (x.0 as nat) < names.len(),
    ensures
        program_findings(
            names,
            seq![stmt_at(Statement_::Return(expr_at(Expr_::Variable(x), me)), ms)],
        ) == seq![(me, undeclared_msg(names[x.0 as int]))],
{
    let stmts = seq![stmt_at(Statement_::Return(expr_at(Expr_::Variable(x), me)), ms)];
    assert(stmts.drop_last() =~= Seq::<Statement>::empty());
    let r0 = run(names, stmts.drop_last());
    assert(r0.0 == Status::empty() && !r0.1 && r0.2 == Seq::<Finding>::empty());
    let r1 = run(names, stmts);
    assert(r1.1);
    assert(r1.2 =~= seq![(me, undeclared_msg(names[x.0 as int]))]);
    assert(program_findings(names, stmts) =~= seq![(me, undeclared_msg(names[x.0 as int]))]);
}

/// Returning a variable that was declared but never assigned gives exactly one
/// "uninitialized" error, at the variable.
pub proof fn lemma_return_uninitialized(
    names: Seq<Seq<char>>,
    x: Ident,
    m1: Mark,
    me: Mark,
    ms: Mark,
)
    requires
        (x.0 as nat) < names.len(),
    ensures
        program_findings(
            names,
            seq![
                stmt_at(Statement_::Decl(x), m1),
                stmt_at(Statement_::Return(expr_at(Expr_::Variable(x), me)), ms),
            ],
        ) == seq![(me, uninitialized_msg(names[x.0 as int]))],
{
    let stmts = seq![
        stmt_at(Statement_::Decl(x), m1),
        stmt_at(Statement_::Return(expr_at(Expr_::Variable(x), me)), ms),
    ];
    assert(stmts.drop_last() =~= seq![stmt_at(Statement_::Decl(x), m1)]);
    assert(stmts.drop_last().drop_last() =~= Seq::<Statement>::empty());
    let r0 = run(names, stmts.drop_last().drop_last());
    assert(r0.0 == Status::empty() && !r0.1 && r0.2 == Seq::<Finding>::empty());
    let r1 = run(names, stmts.drop_last());
    assert(r1.0 == Status::empty().insert(x.0, false));
    assert(r1.2 =~= seq![]);
    assert(!r1.1);
    let r2 = run(names, stmts);
    assert(r2.1);
    assert(r2.2 =~= seq![(me, uninitialized_msg(names[x.0 as int]))]);
    assert(program_findings(names, stmts) =~= seq![(me, uninitialized_msg(names[x.0 as int]))]);
}

} // verus!
