//! Abstract syntax trees.
//!
//! A program is a list of statements, one per source line, each with the mark
//! of the text it came from.
use vstd::prelude::*;
use vstd::string::StringExecFns;
use crate::util::errors::Errors;
use crate::util::text::{decimal, usize_text};
use crate::util::mark::{Mark, Marked};
use crate::util::symbol::{Symbol, SymbolTable};

verus! {

/// An identifier of the program.
pub type Ident = Symbol;

/// A parsed program, with the collector of its diagnostics and the texts of its
/// identifiers.
pub struct Program {
    pub statements: Vec<Statement>,
    pub errors: Errors,
    pub symbols: SymbolTable,
}

pub type Statement = Marked<Statement_>;

pub enum Statement_ {
    Decl(Ident),
    DeclAssign(Ident, Expr),
    Assign(Ident, Expr),
    Return(Expr),
}

pub type Expr = Marked<Expr_>;

pub enum Expr_ {
    Variable(Ident),
    Constant(u32),
    Unary(Operator, Box<Expr>),
    Binary(Operator, Box<Expr>, Box<Expr>),
}

#[derive(Clone, Copy, PartialEq, Eq, Structural, Debug)]
pub enum Operator {
    Plus,
    Minus,
    Times,
    DividedBy,
    Modulo,
    Negative,
    Decrement,
}

/// Every identifier in the expression node `e` is below `n`.
pub open spec fn node_idents_below(e: Expr_, n: nat) -> bool
    decreases e,
{
    match e {
        Expr_::Variable(id) => (id.0 as nat) < n,
        Expr_::Constant(_) => true,
        Expr_::Unary(_, e1) => node_idents_below(e1.node, n),
        Expr_::Binary(_, e1, e2) => node_idents_below(e1.node, n) && node_idents_below(e2.node, n),
    }
}

/// Every identifier in `e` is below `n`.
pub open spec fn expr_idents_below(e: Expr, n: nat) -> bool {
    node_idents_below(e.node, n)
}

/// Every identifier in `s` is below `n`.
pub open spec fn stmt_idents_below(s: Statement, n: nat) -> bool {
    match s.node {
        Statement_::Decl(id) => (id.0 as nat) < n,
        Statement_::DeclAssign(id, e) => (id.0 as nat) < n && expr_idents_below(e, n),
        Statement_::Assign(id, e) => (id.0 as nat) < n && expr_idents_below(e, n),
        Statement_::Return(e) => expr_idents_below(e, n),
    }
}

impl Program {
    /// Every identifier of the program has its text in the symbol table, and
    /// diagnostics can be placed.
    pub open spec fn wf(&self) -> bool {
        &&& self.errors.wf()
        &&& forall|i: int|
            0 <= i < self.statements@.len() ==> stmt_idents_below(
                #[trigger] self.statements@[i],
                self.symbols@.len(),
            )
    }
}

impl Operator {
    pub open spec fn text(self) -> Seq<char> {
        match self {
            Operator::Plus => "+"@,
            Operator::Minus => "-"@,
            Operator::Negative => "-"@,
            Operator::Times => "*"@,
            Operator::DividedBy => "/"@,
            Operator::Modulo => "%"@,
            Operator::Decrement => "--"@,
        }
    }

    /// Renders the operator's symbol.
    pub fn to_string(&self) -> (r: String)
        ensures
            r@ == self.text(),
    {
        match self {
            Operator::Plus => String::from_str("+"),
            Operator::Minus => String::from_str("-"),
            Operator::Negative => String::from_str("-"),
            Operator::Times => String::from_str("*"),
            Operator::DividedBy => String::from_str("/"),
            Operator::Modulo => String::from_str("%"),
            Operator::Decrement => String::from_str("--"),
        }
    }
}

/// The source text of an expression, with the identifier texts `names`: a
/// unary operation as `op(e)`, a binary one as `(e1 op e2)`.
pub open spec fn expr_text(names: Seq<Seq<char>>, e: Expr_) -> Seq<char>
    decreases e,
{
    match e {
        Expr_::Variable(id) => names[id.0 as int],
        Expr_::Constant(c) => decimal(c as nat),
        Expr_::Unary(op, e1) => op.text() + "("@ + expr_text(names, e1.node) + ")"@,
        Expr_::Binary(op, e1, e2) => "("@ + expr_text(names, e1.node) + " "@ + op.text() + " "@
            + expr_text(names, e2.node) + ")"@,
    }
}

/// The source text of a statement, with the identifier texts `names`.
pub open spec fn stmt_text(names: Seq<Seq<char>>, s: Statement_) -> Seq<char> {
    match s {
        Statement_::Decl(id) => "int "@ + names[id.0 as int] + ";"@,
        Statement_::DeclAssign(id, e) => "int "@ + names[id.0 as int] + " = "@ + expr_text(
            names,
            e.node,
        ) + ";"@,
        Statement_::Assign(id, e) => names[id.0 as int] + " = "@ + expr_text(names, e.node) + ";"@,
        Statement_::Return(e) => "return "@ + expr_text(names, e.node) + ";"@,
    }
}

impl Expr_ {
    /// Renders the expression as source text.
    pub fn to_string(&self, names: &SymbolTable) -> (r: String)
        requires
            node_idents_below(*self, names@.len()),
        ensures
            r@ == expr_text(names@, *self),
        decreases self,
    {
        match self {
            Expr_::Variable(id) => String::from_str(names.name(*id)),
            Expr_::Constant(c) => usize_text(*c as usize),
            Expr_::Unary(op, e1) => {
                let mut r = op.to_string();
                r.append("(");
                r.append(e1.node.to_string(names).as_str());
                r.append(")");
                r
            },
            Expr_::Binary(op, e1, e2) => {
                let mut r = String::from_str("(");
                r.append(e1.node.to_string(names).as_str());
                r.append(" ");
                r.append(op.to_string().as_str());
                r.append(" ");
                r.append(e2.node.to_string(names).as_str());
                r.append(")");
                r
            },
        }
    }
}

impl Statement_ {
    /// Renders the statement as source text.
    pub fn to_string(&self, names: &SymbolTable) -> (r: String)
        requires
            stmt_idents_below(Marked { mark: Mark { lo: 0, hi: 0 }, node: *self }, names@.len()),
        ensures
            r@ == stmt_text(names@, *self),
    {
        match self {
            Statement_::Decl(id) => {
                let mut r = String::from_str("int ");
                r.append(names.name(*id));
                r.append(";");
                r
            },
            Statement_::DeclAssign(id, e) => {
                let mut r = String::from_str("int ");
                r.append(names.name(*id));
                r.append(" = ");
                r.append(e.node.to_string(names).as_str());
                r.append(";");
                r
            },
            Statement_::Assign(id, e) => {
                let mut r = String::from_str(names.name(*id));
                r.append(" = ");
                r.append(e.node.to_string(names).as_str());
                r.append(";");
                r
            },
            Statement_::Return(e) => {
                let mut r = String::from_str("return ");
                r.append(e.node.to_string(names).as_str());
                r.append(";");
                r
            },
        }
    }
}

/// The source text of the statements `stmts`, each on a line of its own and
/// indented by two spaces.
pub open spec fn body_text(names: Seq<Seq<char>>, stmts: Seq<Statement>) -> Seq<char>
    decreases stmts.len(),
{
    if stmts.len() == 0 {
        seq![]
    } else {
        body_text(names, stmts.drop_last()) + "  "@ + stmt_text(names, stmts.last().node) + "\n"@
    }
}

/// The source text of the program with statements `stmts`: `int main() {`,
/// its statements, and `}`, each on a line.
pub open spec fn program_text(names: Seq<Seq<char>>, stmts: Seq<Statement>) -> Seq<char> {
    "int main() {\n"@ + body_text(names, stmts) + "}\n"@
}

impl Program {
    /// The program as source text: `int main() {`, its statements, and `}`,
    /// each on a line.
    pub open spec fn text(&self) -> Seq<char> {
        program_text(self.symbols@, self.statements@)
    }

    /// Renders the program as source text.
    pub fn to_string(&self) -> (r: String)
        requires
            self.wf(),
        ensures
            r@ == self.text(),
    {
        let ghost names = self.symbols@;
        let ghost stmts = self.statements@;
        let mut body = String::new();
        let mut i: usize = 0;
        while i < self.statements.len()
            invariant
                i <= stmts.len(),
                self.wf(),
                names == self.symbols@,
                stmts == self.statements@,
                body@ == body_text(names, stmts.subrange(0, i as int)),
            decreases stmts.len() - i,
        {
            proof {
                assert(stmts.subrange(0, i + 1).drop_last() =~= stmts.subrange(0, i as int));
                assert(stmt_idents_below(stmts[i as int], names.len()));
            }
            body.append("  ");
            body.append(self.statements[i].node.to_string(&self.symbols).as_str());
            body.append("\n");
            i = i + 1;
        }
        proof {
            assert(stmts.subrange(0, stmts.len() as int) =~= stmts);
        }
        let mut r = String::from_str("int main() {\n");
        r.append(body.as_str());
        r.append("}\n");
        r
    }
}

} // verus!
