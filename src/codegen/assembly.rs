//! Assembly: a pseudo-language of three-operand instructions over as many
//! temporaries as needed.
use vstd::prelude::*;
use vstd::string::StringExecFns;
use crate::util::temp::Temp;
use crate::util::text::{decimal, usize_text};

verus! {

#[derive(PartialEq, Eq, Debug)]
pub enum Instruction {
    Binop(Op, Operand, Operand, Option<Operand>),
    Mov(Operand, Operand),
    Directive(String),
    Comment(String),
    Label(String),
}

#[derive(Clone, Copy, PartialEq, Eq, Structural, Debug)]
pub enum Operand {
    Imm(u32),
    Reg(Register),
    Temp(Temp),
}

#[derive(Clone, Copy, PartialEq, Eq, Structural, Debug)]
pub enum Register {
    EAX,
}

#[derive(Clone, Copy, PartialEq, Eq, Structural, Debug)]
pub enum Op {
    Add,
    Sub,
    Mul,
    Div,
    Mod,
}

impl Register {
    pub open spec fn text(self) -> Seq<char> {
        match self {
            Register::EAX => "%eax"@,
        }
    }

    /// Renders the register's name.
    pub fn to_string(&self) -> (r: String)
        ensures
            r@ == self.text(),
    {
        match self {
            Register::EAX => String::from_str("%eax"),
        }
    }
}

impl Op {
    pub open spec fn text(self) -> Seq<char> {
        match self {
            Op::Add => "+"@,
            Op::Sub => "-"@,
            Op::Mul => "*"@,
            Op::Div => "/"@,
            Op::Mod => "%"@,
        }
    }

    /// Renders the operator's symbol.
    pub fn to_string(&self) -> (r: String)
        ensures
            r@ == self.text(),
    {
        match self {
            Op::Add => String::from_str("+"),
            Op::Sub => String::from_str("-"),
            Op::Mul => String::from_str("*"),
            Op::Div => String::from_str("/"),
            Op::Mod => String::from_str("%"),
        }
    }
}

impl Operand {
    /// An immediate is written `$` and its value.
    pub open spec fn text(self) -> Seq<char> {
        match self {
            Operand::Imm(c) => "$"@ + decimal(c as nat),
            Operand::Reg(r) => r.text(),
            Operand::Temp(t) => t.text(),
        }
    }

    /// Renders the operand.
    pub fn to_string(&self) -> (r: String)
        ensures
            r@ == self.text(),
    {
        match self {
            Operand::Imm(c) => {
                let mut r = String::from_str("$");
                r.append(usize_text(*c as usize).as_str());
                r
            },
            Operand::Reg(reg) => reg.to_string(),
            Operand::Temp(t) => t.to_string(),
        }
    }
}

impl Instruction {
    /// The line of text of an instruction: `name:` for a label,
    /// `OP  dst <- src1,src2` (or `OP  dst <- src1`) for a binary operation,
    /// `MOVL src, dst` for a move, a directive as it is, and a comment between
    /// `/*` and `*/`.
    pub open spec fn text(self) -> Seq<char> {
        match self {
            Instruction::Label(s) => s@ + ":"@,
            Instruction::Binop(op, d, s1, s2) => match s2 {
                Some(s2) => op.text() + "  "@ + d.text() + " <- "@ + s1.text() + ","@ + s2.text(),
                None => op.text() + "  "@ + d.text() + " <- "@ + s1.text(),
            },
            Instruction::Mov(d, s) => "MOVL "@ + s.text() + ", "@ + d.text(),
            Instruction::Directive(s) => s@,
            Instruction::Comment(s) => "/* "@ + s@ + " */"@,
        }
    }

    /// Renders the instruction as one line of text.
    pub fn to_string(&self) -> (r: String)
        ensures
            r@ == self.text(),
    {
        match self {
            Instruction::Label(s) => {
                let mut r = String::from_str(s.as_str());
                r.append(":");
                r
            },
            Instruction::Binop(op, d, s1, s2) => {
                let mut r = op.to_string();
                r.append("  ");
                r.append(d.to_string().as_str());
                r.append(" <- ");
                r.append(s1.to_string().as_str());
                match s2 {
                    Some(s2) => {
                        r.append(",");
                        r.append(s2.to_string().as_str());
                    },
                    None => {},
                }
                r
            },
            Instruction::Mov(d, s) => {
                let mut r = String::from_str("MOVL ");
                r.append(s.to_string().as_str());
                r.append(", ");
                r.append(d.to_string().as_str());
                r
            },
            Instruction::Directive(s) => String::from_str(s.as_str()),
            Instruction::Comment(s) => {
                let mut r = String::from_str("/* ");
                r.append(s.as_str());
                r.append(" */");
                r
            },
        }
    }
}

} // verus!
