//! The tree language of the intermediate representation.
use vstd::prelude::*;
use vstd::string::StringExecFns;
use crate::util::temp::{Temp, TempAllocator};
use crate::util::text::{decimal, join_lines, usize_text};

verus! {

/// A program of the tree language and the allocator that numbered its
/// temporaries.
pub struct Program {
    pub statements: Vec<Statement>,
    pub temps: TempAllocator,
}

/// A statement. The destination of a `Move` is always a `Temp`.
pub enum Statement {
    Move(Expression, Expression),
    Return(Expression),
}

#[derive(PartialEq, Eq, Debug)]
pub enum Expression {
    Constant(u32),
    Temp(Temp),
    Binop(Binop, Box<Expression>, Box<Expression>),
}

#[derive(Clone, Copy, PartialEq, Eq, Structural, Debug)]
pub enum Binop {
    Add,
    Sub,
    Mul,
    Div,
    Mod,
}

impl Binop {
    pub open spec fn text(self) -> Seq<char> {
        match self {
            Binop::Add => "+"@,
            Binop::Sub => "-"@,
            Binop::Mul => "*"@,
            Binop::Div => "/"@,
            Binop::Mod => "%"@,
        }
    }

    /// Renders the operator's symbol.
    pub fn to_string(&self) -> (r: String)
        ensures
            r@ == self.text(),
    {
        match self {
            Binop::Add => String::from_str("+"),
            Binop::Sub => String::from_str("-"),
            Binop::Mul => String::from_str("*"),
            Binop::Div => String::from_str("/"),
            Binop::Mod => String::from_str("%"),
        }
    }
}

impl Expression {
    /// A constant in decimal, a temporary by name, an operation as
    /// `(e1 op e2)`.
    pub open spec fn text(self) -> Seq<char>
        decreases self,
    {
        match self {
            Expression::Constant(c) => decimal(c as nat),
            Expression::Temp(t) => t.text(),
            Expression::Binop(b, e1, e2) => "("@ + e1.text() + " "@ + b.text() + " "@ + e2.text() + ")"@,
        }
    }

    /// Renders the expression.
    pub fn to_string(&self) -> (r: String)
        ensures
            r@ == self.text(),
        decreases self,
    {
        match self {
            Expression::Constant(c) => usize_text(*c as usize),
            Expression::Temp(t) => t.to_string(),
            Expression::Binop(b, e1, e2) => {
                let mut r = String::from_str("(");
                r.append(e1.to_string().as_str());
                r.append(" ");
                r.append(b.to_string().as_str());
                r.append(" ");
                r.append(e2.to_string().as_str());
                r.append(")");
                r
            },
        }
    }
}

impl Statement {
    /// `d <-- e` for a move, `return e` for a return.
    pub open spec fn text(self) -> Seq<char> {
        match self {
            Statement::Move(d, e) => d.text() + " <-- "@ + e.text(),
            Statement::Return(e) => "return "@ + e.text(),
        }
    }

    /// Renders the statement.
    pub fn to_string(&self) -> (r: String)
        ensures
            r@ == self.text(),
    {
        match self {
            Statement::Move(d, e) => {
                let mut r = d.to_string();
                r.append(" <-- ");
                r.append(e.to_string().as_str());
                r
            },
            Statement::Return(e) => {
                let mut r = String::from_str("return ");
                r.append(e.to_string().as_str());
                r
            },
        }
    }
}

impl Program {
    /// The statements, one per line.
    pub open spec fn text(&self) -> Seq<char> {
        join_lines(self.statements@.map_values(|s: Statement| s.text()))
    }

    /// Renders the program, one statement per line.
    pub fn to_string(&self) -> (r: String)
        ensures
            r@ == self.text(),
    {
        let ghost lines = self.statements@.map_values(|s: Statement| s.text());
        let mut r = String::new();
        let mut i: usize = 0;
        while i < self.statements.len()
            invariant
                i <= self.statements@.len(),
                lines == self.statements@.map_values(|s: Statement| s.text()),
                r@ == join_lines(lines.subrange(0, i as int)),
            decreases self.statements@.len() - i,
        {
            proof {
                assert(lines.subrange(0, i + 1).drop_last() =~= lines.subrange(0, i as int));
            }
            if i > 0 {
                r.append("\n");
            }
            r.append(self.statements[i].to_string().as_str());
            proof {
                if i == 0 {
                    assert(r@ =~= lines.subrange(0, 1)[0]);
                }
            }
            i = i + 1;
        }
        proof {
            assert(lines.subrange(0, self.statements@.len() as int) =~= lines);
        }
        r
    }
}

} // verus!
