use l1c::codegen::assembly::{Instruction, Op, Operand, Register};
use l1c::middle::ir;
use l1c::parse::ast::{Expr_, Operator, Statement_};
use l1c::ir::ilang;
use l1c::util::mark::{Mark, Marked};
use l1c::util::symbol::Generator;
use l1c::util::temp::{Temp, TempAllocator};

#[test]
fn temp_renders_with_percent_t() {
    assert_eq!(Temp(7).to_string(), "%t7");
    assert_eq!(Temp(0).to_string(), "%t0");
    assert_eq!(Temp(1234).to_string(), "%t1234");
}

#[test]
fn operands_render() {
    assert_eq!(Operand::Imm(42).to_string(), "$42");
    assert_eq!(Operand::Reg(Register::EAX).to_string(), "%eax");
    assert_eq!(Operand::Temp(Temp(3)).to_string(), "%t3");
    assert_eq!(Operand::Imm(4294967295).to_string(), "$4294967295");
}

#[test]
fn instructions_render_one_line_each() {
    assert_eq!(Instruction::Label(String::from("main")).to_string(), "main:");
    assert_eq!(
        Instruction::Binop(Op::Mul, Operand::Temp(Temp(2)), Operand::Temp(Temp(0)), Some(Operand::Temp(Temp(1))))
            .to_string(),
        "*  %t2 <- %t0,%t1"
    );
    assert_eq!(
        Instruction::Binop(Op::Sub, Operand::Reg(Register::EAX), Operand::Temp(Temp(5)), None).to_string(),
        "-  %eax <- %t5"
    );
    assert_eq!(Instruction::Mov(Operand::Temp(Temp(1)), Operand::Imm(9)).to_string(), "MOVL $9, %t1");
    assert_eq!(Instruction::Directive(String::from(".globl main")).to_string(), ".globl main");
    assert_eq!(Instruction::Comment(String::from("note")).to_string(), "/* note */");
}

#[test]
fn operators_render() {
    assert_eq!(Op::Add.to_string(), "+");
    assert_eq!(Op::Div.to_string(), "/");
    assert_eq!(Op::Mod.to_string(), "%");
    assert_eq!(Register::EAX.to_string(), "%eax");
    assert_eq!(ir::Binop::Mul.to_string(), "*");
    assert_eq!(ilang::Binop::Sub.to_string(), "-");
    assert_eq!(Operator::Negative.to_string(), "-");
    assert_eq!(Operator::Decrement.to_string(), "--");
    assert_eq!(Operator::Modulo.to_string(), "%");
}

#[test]
fn ir_program_renders_one_statement_per_line() {
    let mut temps = TempAllocator::new();
    let t = temps.gen();
    let prog = ir::Program {
        statements: vec![
            ir::Statement::Move(ir::Expr::Temp(t), ir::Expr::Constant(5)),
            ir::Statement::Return(ir::Expr::Binop(
                ir::Binop::Div,
                Box::new(ir::Expr::Temp(t)),
                Box::new(ir::Expr::Constant(2)),
            )),
        ],
        temps,
    };
    assert_eq!(prog.to_string(), "%t0 <-- 5\nreturn (%t0 / 2)");
    let empty = ir::Program { statements: vec![], temps: TempAllocator::new() };
    assert_eq!(empty.to_string(), "");
}

#[test]
fn tree_language_renders_like_ir() {
    let prog = ilang::Program {
        statements: vec![ilang::Statement::Return(ilang::Expression::Binop(
            ilang::Binop::Mod,
            Box::new(ilang::Expression::Constant(7)),
            Box::new(ilang::Expression::Temp(Temp(2))),
        ))],
        temps: TempAllocator::new(),
    };
    assert_eq!(prog.to_string(), "return (7 % %t2)");
}

#[test]
fn ast_nodes_render_as_source() {
    let mut g = Generator::new();
    let x = g.intern("x");
    let names = g.store();
    let m = Mark::new(0, 0);
    let neg = Expr_::Unary(Operator::Negative, Box::new(Marked::new(Expr_::Variable(x), m)));
    assert_eq!(neg.to_string(&names), "-(x)");
    let sum = Expr_::Binary(
        Operator::Plus,
        Box::new(Marked::new(Expr_::Constant(1), m)),
        Box::new(Marked::new(Expr_::Variable(x), m)),
    );
    assert_eq!(sum.to_string(&names), "(1 + x)");
    assert_eq!(Statement_::Decl(x).to_string(&names), "int x;");
    let assign = Statement_::Assign(x, Marked::new(Expr_::Constant(2), m));
    assert_eq!(assign.to_string(&names), "x = 2;");
    let ret = Statement_::Return(Marked::new(Expr_::Variable(x), m));
    assert_eq!(ret.to_string(&names), "return x;");
}
