//! The intermediate representation: moves into temporaries and a return.
use vstd::prelude::*;
use vstd::string::StringExecFns;
use crate::util::temp::{Temp, TempAllocator};
use crate::util::text::{decimal, join_lines, usize_text};

verus! {

/// A lowered program and the allocator that numbered its temporaries.
pub struct Program {
    pub statements: Vec<Statement>,
    pub temps: TempAllocator,
}

/// A statement. The destination of a `Move` is always a `Temp`.
pub enum Statement {
    Move(Expr, Expr),
    Return(Expr),
}

#[derive(PartialEq, Eq, Debug)]
pub enum Expr {
    Constant(u32),
    Temp(Temp),
    Binop(Binop, Box<Expr>, Box<Expr>),
}

#[derive(Clone, Copy, PartialEq, Eq, Structural, Debug)]
pub enum Binop {
    Add,
    Sub,
    Mul,
    Div,
    Mod,
}

/// Every `Move` in `stmts` goes into a temporary.
pub open spec fn moves_into_temps(stmts: Seq<Statement>) -> bool {
    forall|i: int|
        0 <= i < stmts.len() ==> match #[trigger] stmts[i] {
            Statement::Move(d, _) => d is Temp,
            Statement::Return(_) => true,
        }
}

impl Binop {
    pub open spec fn text(self) -> Seq<char> {
        match self {
            Binop::Add => "+"@,
            Binop::Sub => "-"@,
            Binop::Mul => "*"@,
            Binop::Div => "/"@,
            Binop::Mod => "%"@,
        }
    }

    /// Renders the operator's symbol.
    pub fn to_string(&self) -> (r: String)
        ensures
            r@ == self.text(),
    {
        match self {
            Binop::Add => String::from_str("+"),
            Binop::Sub => String::from_str("-"),
            Binop::Mul => String::from_str("*"),
            Binop::Div => String::from_str("/"),
            Binop::Mod => String::from_str("%"),
        }
    }
}

impl Expr {
    /// A constant in decimal, a temporary by name, an operation as
    /// `(e1 op e2)`.
    pub open spec fn text(self) -> Seq<char>
        decreases self,
    {
        match self {
            Expr::Constant(c) => decimal(c as nat),
            Expr::Temp(t) => t.text(),
            Expr::Binop(b, e1, e2) => "("@ + e1.text() + " "@ + b.text() + " "@ + e2.text() + ")"@,
        }
    }

    /// Renders the expression.
    pub fn to_string(&self) -> (r: String)
        ensures
            r@ == self.text(),
        decreases self,
    {
        match self {
            Expr::Constant(c) => usize_text(*c as usize),
            Expr::Temp(t) => t.to_string(),
            Expr::Binop(b, e1, e2) => {
                let mut r = String::from_str("(");
                r.append(e1.to_string().as_str());
                r.append(" ");
                r.append(b.to_string().as_str());
                r.append(" ");
                r.append(e2.to_string().as_str());
                r.append(")");
                r
            },
        }
    }
}

impl Statement {
    /// `d <-- e` for a move, `return e` for a return.
    pub open spec fn text(self) -> Seq<char> {
        match self {
            Statement::Move(d, e) => d.text() + " <-- "@ + e.text(),
            Statement::Return(e) => "return "@ + e.text(),
        }
    }

    /// Renders the statement.
    pub fn to_string(&self) -> (r: String)
        ensures
            r@ == self.text(),
    {
        match self {
            Statement::Move(d, e) => {
                let mut r = d.to_string();
                r.append(" <-- ");
                r.append(e.to_string().as_str());
                r
            },
            Statement::Return(e) => {
                let mut r = String::from_str("return ");
                r.append(e.to_string().as_str());
                r
            },
        }
    }
}

impl Program {
    /// The statements, one per line.
    pub open spec fn text(&self) -> Seq<char> {
        join_lines(self.statements@.map_values(|s: Statement| s.text()))
    }

    /// Renders the program, one statement per line.
    pub fn to_string(&self) -> (r: String)
        ensures
            r@ == self.text(),
    {
        let ghost lines = self.statements@.map_values(|s: Statement| s.text());
        let mut r = String::new();
        let mut i: usize = 0;
        while i < self.statements.len()
            invariant
                i <= self.statements@.len(),
                lines == self.statements@.map_values(|s: Statement| s.text()),
                r@ == join_lines(lines.subrange(0, i as int)),
            decreases self.statements@.len() - i,
        {
            proof {
                assert(lines.subrange(0, i + 1).drop_last() =~= lines.subrange(0, i as int));
            }
            if i > 0 {
                r.append("\n");
            }
            r.append(self.statements[i].to_string().as_str());
            proof {
                if i == 0 {
                    assert(r@ =~= lines.subrange(0, 1)[0]);
                }
            }
            i = i + 1;
        }
        proof {
            assert(lines.subrange(0, self.statements@.len() as int) =~= lines);
        }
        r
    }
}

} // verus!
