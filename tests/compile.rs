use l1c::codegen;
use l1c::ir::{ilang, trans};
use l1c::codegen::assembly::{Instruction, Op, Operand, Register};
use l1c::middle;
use l1c::middle::ir;
use l1c::parse::ast::{Expr, Expr_, Operator, Program, Statement, Statement_};
use l1c::types::typecheck;
use l1c::util::errors::Errors;
use l1c::util::mark::{CodeMap, Mark, Marked};
use l1c::util::symbol::{Generator, Symbol};
use l1c::util::temp::{Temp, TempAllocator};

fn at(lo: usize, hi: usize) -> Mark {
    Mark::new(lo, hi)
}

fn var(s: Symbol, lo: usize) -> Expr {
    Marked::new(Expr_::Variable(s), at(lo, lo + 1))
}

fn num(c: u32, lo: usize) -> Expr {
    Marked::new(Expr_::Constant(c), at(lo, lo + 1))
}

fn bin(op: Operator, a: Expr, b: Expr) -> Expr {
    let m = at(a.mark.lo, b.mark.hi);
    Marked::new(Expr_::Binary(op, Box::new(a), Box::new(b)), m)
}

fn stm(node: Statement_, lo: usize, hi: usize) -> Statement {
    Marked::new(node, at(lo, hi))
}

fn program(source: &str, statements: Vec<Statement>, symbols: Generator) -> Program {
    let cm = CodeMap::new(String::from(source), String::from("t.l1"));
    Program { statements, errors: Errors::new(cm), symbols: symbols.store() }
}

fn checked_lines(mut p: Program) -> Vec<String> {
    typecheck(&mut p);
    p.errors.lines().clone()
}

#[test]
fn check_redeclared_variable() {
    let mut g = Generator::new();
    let x = g.intern("x");
    let p = program(
        "int x;\nint x;\n",
        vec![stm(Statement_::Decl(x), 0, 6), stm(Statement_::Decl(x), 7, 12)],
        g,
    );
    let lines = checked_lines(p);
    assert_eq!(
        lines,
        vec![
            String::from("t.l1:2:1-2:6error: redeclared variable `x`"),
            String::from("error: main does not return"),
        ]
    );
}

#[test]
fn check_return_of_undeclared_variable() {
    let mut g = Generator::new();
    let x = g.intern("x");
    let p = program("return x;", vec![stm(Statement_::Return(var(x, 7)), 0, 9)], g);
    let lines = checked_lines(p);
    assert_eq!(lines, vec![String::from("t.l1:1:8-1:9error: undeclared variable `x`")]);
}

#[test]
fn check_return_of_uninitialized_variable() {
    let mut g = Generator::new();
    let x = g.intern("x");
    let p = program(
        "int x;\nreturn x;",
        vec![stm(Statement_::Decl(x), 0, 6), stm(Statement_::Return(var(x, 14)), 7, 16)],
        g,
    );
    let lines = checked_lines(p);
    assert_eq!(lines, vec![String::from("t.l1:2:8-2:9error: uninitialized variable `x`")]);
}

#[test]
fn check_missing_return_is_one_error_without_location() {
    let mut g = Generator::new();
    let x = g.intern("x");
    let p = program(
        "int x = 1;",
        vec![stm(Statement_::DeclAssign(x, num(1, 8)), 0, 10)],
        g,
    );
    let lines = checked_lines(p);
    assert_eq!(lines, vec![String::from("error: main does not return")]);
}

#[test]
fn check_assignment_to_undeclared_variable() {
    let mut g = Generator::new();
    let y = g.intern("y");
    let p = program(
        "y = 2;\nreturn y;",
        vec![stm(Statement_::Assign(y, num(2, 4)), 0, 5), stm(Statement_::Return(var(y, 14)), 7, 16)],
        g,
    );
    let lines = checked_lines(p);
    assert_eq!(lines, vec![String::from("t.l1:1:1-1:6error: undeclared variable `y`")]);
}

#[test]
fn check_initializer_may_not_use_its_own_variable() {
    let mut g = Generator::new();
    let x = g.intern("x");
    let p = program(
        "int x = x;\nreturn x;",
        vec![stm(Statement_::DeclAssign(x, var(x, 8)), 0, 10), stm(Statement_::Return(var(x, 18)), 11, 20)],
        g,
    );
    let lines = checked_lines(p);
    assert_eq!(lines, vec![String::from("t.l1:1:9-1:10error: uninitialized variable `x`")]);
}

#[test]
fn check_after_return_declared_variables_are_usable() {
    let mut g = Generator::new();
    let x = g.intern("x");
    let y = g.intern("y");
    let p = program(
        "int y;\nreturn 0;\nint x = y;",
        vec![
            stm(Statement_::Decl(y), 0, 6),
            stm(Statement_::Return(num(0, 14)), 7, 16),
            stm(Statement_::DeclAssign(x, var(y, 25)), 17, 27),
        ],
        g,
    );
    let lines = checked_lines(p);
    assert!(lines.is_empty());
}

#[test]
fn check_accepts_valid_program() {
    let mut g = Generator::new();
    let x = g.intern("x");
    let mut p = program(
        "int x = 3;\nreturn x;",
        vec![stm(Statement_::DeclAssign(x, num(3, 8)), 0, 10), stm(Statement_::Return(var(x, 18)), 11, 20)],
        g,
    );
    typecheck(&mut p);
    assert!(p.errors.check().is_ok());
}

#[test]
fn lowering_truncates_at_first_return() {
    let mut g = Generator::new();
    let x = g.intern("x");
    let p = program(
        "return 1;\nx = 2;",
        vec![stm(Statement_::Return(num(1, 7)), 0, 9), stm(Statement_::Assign(x, num(2, 14)), 10, 16)],
        g,
    );
    let ir = match middle::translate(p) {
        Ok(ir) => ir,
        Err(_) => panic!("lowering failed"),
    };
    assert_eq!(ir.statements.len(), 1);
    assert!(matches!(&ir.statements[0], ir::Statement::Return(ir::Expr::Constant(1))));
    assert_eq!(ir.temps.count(), 0);
}

#[test]
fn lowering_gives_each_assignment_a_fresh_temp() {
    let mut g = Generator::new();
    let x = g.intern("x");
    let p = program(
        "int x = 1;\nx = x;\nreturn x;",
        vec![
            stm(Statement_::DeclAssign(x, num(1, 8)), 0, 10),
            stm(Statement_::Assign(x, var(x, 15)), 11, 17),
            stm(Statement_::Return(var(x, 25)), 18, 27),
        ],
        g,
    );
    let ir = match middle::translate(p) {
        Ok(ir) => ir,
        Err(_) => panic!("lowering failed"),
    };
    assert_eq!(ir.statements.len(), 3);
    assert!(matches!(&ir.statements[0],
        ir::Statement::Move(ir::Expr::Temp(Temp(0)), ir::Expr::Constant(1))));
    assert!(matches!(&ir.statements[1],
        ir::Statement::Move(ir::Expr::Temp(Temp(1)), ir::Expr::Temp(Temp(0)))));
    assert!(matches!(&ir.statements[2], ir::Statement::Return(ir::Expr::Temp(Temp(1)))));
    assert_eq!(ir.temps.count(), 2);
}

#[test]
fn lowering_rewrites_negation_and_drops_declarations() {
    let mut g = Generator::new();
    let x = g.intern("x");
    let neg = Marked::new(Expr_::Unary(Operator::Negative, Box::new(num(5, 8))), at(7, 9));
    let p = program(
        "int x;\nreturn -5;",
        vec![stm(Statement_::Decl(x), 0, 6), stm(Statement_::Return(neg), 7, 17)],
        g,
    );
    let ir = match middle::translate(p) {
        Ok(ir) => ir,
        Err(_) => panic!("lowering failed"),
    };
    assert_eq!(ir.statements.len(), 1);
    match &ir.statements[0] {
        ir::Statement::Return(e) => assert_eq!(
            *e,
            ir::Expr::Binop(ir::Binop::Sub, Box::new(ir::Expr::Constant(0)), Box::new(ir::Expr::Constant(5)))
        ),
        _ => panic!("expected a return"),
    }
}

#[test]
fn lowering_maps_each_operator() {
    let mut g = Generator::new();
    let ops = [
        (Operator::Plus, ir::Binop::Add),
        (Operator::Minus, ir::Binop::Sub),
        (Operator::Times, ir::Binop::Mul),
        (Operator::DividedBy, ir::Binop::Div),
        (Operator::Modulo, ir::Binop::Mod),
    ];
    let _ = g.intern("unused");
    let table = g.store();
    for (op, expected) in ops {
        let cm = CodeMap::new(String::from("return 1 ? 2;"), String::from("t.l1"));
        let p = Program {
            statements: vec![stm(Statement_::Return(bin(op, num(1, 7), num(2, 11))), 0, 13)],
            errors: Errors::new(cm),
            symbols: table.clone(),
        };
        let ir = match middle::translate(p) {
            Ok(ir) => ir,
            Err(_) => panic!("lowering failed"),
        };
        match &ir.statements[0] {
            ir::Statement::Return(e) => assert_eq!(
                *e,
                ir::Expr::Binop(expected, Box::new(ir::Expr::Constant(1)), Box::new(ir::Expr::Constant(2)))
            ),
            _ => panic!("expected a return"),
        }
    }
}

#[test]
fn lowering_stops_on_unassigned_variable() {
    let mut g = Generator::new();
    let z = g.intern("z");
    let p = program("return z;", vec![stm(Statement_::Return(var(z, 7)), 0, 9)], g);
    match middle::translate(p) {
        Ok(_) => panic!("lowering should stop"),
        Err(f) => assert_eq!(
            f.diagnostics,
            vec![String::from("t.l1:1:8-1:9error: attempted to use variable `z` before initialization")]
        ),
    }
}

#[test]
fn tree_language_translation_matches_lowering() {
    let mut g = Generator::new();
    let x = g.intern("x");
    let p = program(
        "int x = 2 * 3;\nreturn x;",
        vec![
            stm(Statement_::DeclAssign(x, bin(Operator::Times, num(2, 8), num(3, 12))), 0, 14),
            stm(Statement_::Return(var(x, 22)), 15, 24),
        ],
        g,
    );
    let prog = match trans::translate(p) {
        Ok(prog) => prog,
        Err(_) => panic!("lowering failed"),
    };
    assert_eq!(prog.statements.len(), 2);
    match &prog.statements[0] {
        ilang::Statement::Move(d, e) => {
            assert_eq!(*d, ilang::Expression::Temp(Temp(0)));
            assert_eq!(
                *e,
                ilang::Expression::Binop(
                    ilang::Binop::Mul,
                    Box::new(ilang::Expression::Constant(2)),
                    Box::new(ilang::Expression::Constant(3))
                )
            );
        },
        _ => panic!("expected a move"),
    }
    assert!(matches!(&prog.statements[1], ilang::Statement::Return(ilang::Expression::Temp(Temp(0)))));
    assert_eq!(prog.temps.count(), 1);
}

#[test]
fn munch_binop_into_return_register() {
    let e = ir::Expr::Binop(ir::Binop::Add, Box::new(ir::Expr::Constant(3)), Box::new(ir::Expr::Constant(4)));
    let prog = ir::Program { statements: vec![ir::Statement::Return(e)], temps: TempAllocator::new() };
    let ins = codegen::translate(prog);
    assert_eq!(
        ins,
        vec![
            Instruction::Mov(Operand::Temp(Temp(0)), Operand::Imm(3)),
            Instruction::Mov(Operand::Temp(Temp(1)), Operand::Imm(4)),
            Instruction::Binop(
                Op::Add,
                Operand::Reg(Register::EAX),
                Operand::Temp(Temp(0)),
                Some(Operand::Temp(Temp(1)))
            ),
        ]
    );
}

#[test]
fn munch_continues_numbering_after_lowering() {
    let mut temps = TempAllocator::new();
    let t = temps.gen();
    let e = ir::Expr::Binop(
        ir::Binop::Sub,
        Box::new(ir::Expr::Temp(t)),
        Box::new(ir::Expr::Binop(ir::Binop::Mul, Box::new(ir::Expr::Constant(2)), Box::new(ir::Expr::Constant(5)))),
    );
    let prog = ir::Program {
        statements: vec![ir::Statement::Move(ir::Expr::Temp(t), ir::Expr::Constant(9)), ir::Statement::Return(e)],
        temps,
    };
    let ins = codegen::translate(prog);
    assert_eq!(
        ins,
        vec![
            Instruction::Mov(Operand::Temp(Temp(0)), Operand::Imm(9)),
            Instruction::Mov(Operand::Temp(Temp(1)), Operand::Temp(Temp(0))),
            Instruction::Mov(Operand::Temp(Temp(3)), Operand::Imm(2)),
            Instruction::Mov(Operand::Temp(Temp(4)), Operand::Imm(5)),
            Instruction::Binop(Op::Mul, Operand::Temp(Temp(2)), Operand::Temp(Temp(3)), Some(Operand::Temp(Temp(4)))),
            Instruction::Binop(
                Op::Sub,
                Operand::Reg(Register::EAX),
                Operand::Temp(Temp(1)),
                Some(Operand::Temp(Temp(2)))
            ),
        ]
    );
}

#[test]
fn end_to_end_example() {
    // int x = 3; int y = x + 4; return y - 1;
    let mut g = Generator::new();
    let x = g.intern("x");
    let y = g.intern("y");
    let source = "int x = 3;\nint y = x + 4;\nreturn y - 1;";
    let mut p = program(
        source,
        vec![
            stm(Statement_::DeclAssign(x, num(3, 8)), 0, 10),
            stm(Statement_::DeclAssign(y, bin(Operator::Plus, var(x, 19), num(4, 23))), 11, 25),
            stm(Statement_::Return(bin(Operator::Minus, var(y, 33), num(1, 37))), 26, 39),
        ],
        g,
    );
    typecheck(&mut p);
    assert!(p.errors.lines().is_empty());
    assert!(p.errors.check().is_ok());
    let ir = match middle::translate(p) {
        Ok(ir) => ir,
        Err(_) => panic!("lowering failed"),
    };
    assert_eq!(ir.statements.len(), 3);
    assert_eq!(ir.temps.count(), 2);
    assert!(matches!(&ir.statements[0], ir::Statement::Move(ir::Expr::Temp(Temp(0)), _)));
    assert!(matches!(&ir.statements[1], ir::Statement::Move(ir::Expr::Temp(Temp(1)), _)));
    assert!(matches!(&ir.statements[2], ir::Statement::Return(_)));
    let ins = codegen::translate(ir);
    // one instruction per statement and two more per binary operation
    assert_eq!(ins.len(), (1 + 0) + (1 + 2) + (1 + 2));
    match ins.last() {
        Some(Instruction::Binop(Op::Sub, Operand::Reg(Register::EAX), _, Some(_))) => {},
        other => panic!("unexpected last instruction {:?}", other),
    }
}

#[test]
fn compile_source_end_to_end() {
    let source = "int main() {\n  int x = 3;\n  int y = x + 4;\n  return y - 1;\n}\n";
    let c = match l1c::driver::compile(String::from(source), String::from("e.l1"), false) {
        Ok(c) => c,
        Err(f) => panic!("compilation failed: {:?}", f.diagnostics),
    };
    assert_eq!(c.ast, "int main() {\n  int x = 3;\n  int y = (x + 4);\n  return (y - 1);\n}\n");
    assert_eq!(c.ir.as_deref(), Some("%t0 <-- 3\n%t1 <-- (%t0 + 4)\nreturn (%t1 - 1)"));
    assert_eq!(
        c.assembly.as_deref(),
        Some(
            "MOVL $3, %t0\n\
             MOVL %t0, %t2\n\
             MOVL $4, %t3\n\
             +  %t1 <- %t2,%t3\n\
             MOVL %t1, %t4\n\
             MOVL $1, %t5\n\
             -  %eax <- %t4,%t5"
        )
    );
}

#[test]
fn compile_only_typecheck_stops_before_lowering() {
    let source = "int main() { int x; x = 1; return x; }";
    let c = match l1c::driver::compile(String::from(source), String::from("t.l1"), true) {
        Ok(c) => c,
        Err(f) => panic!("compilation failed: {:?}", f.diagnostics),
    };
    assert!(c.ir.is_none());
    assert!(c.assembly.is_none());
}

#[test]
fn compile_reports_all_check_errors() {
    let source = "int main() {\nint x;\nint x;\n}";
    match l1c::driver::compile(String::from(source), String::from("t.l1"), false) {
        Ok(_) => panic!("the program is invalid"),
        Err(f) => assert_eq!(
            f.diagnostics,
            vec![
                String::from("t.l1:3:1-4:0error: redeclared variable `x`"),
                String::from("error: main does not return"),
            ]
        ),
    }
}

#[test]
fn compile_parses_precedence_negation_and_compound_assignment() {
    let source = "int main() {\n  int a = 1 + 2 * -3;\n  a -= (4 - 5) % 6;\n  return a;\n}";
    let c = match l1c::driver::compile(String::from(source), String::from("t.l1"), true) {
        Ok(c) => c,
        Err(f) => panic!("compilation failed: {:?}", f.diagnostics),
    };
    assert_eq!(
        c.ast,
        "int main() {\n  int a = (1 + (2 * -(3)));\n  a = (a - ((4 - 5) % 6));\n  return a;\n}\n"
    );
}

#[test]
fn compile_reports_syntax_errors() {
    let source = "int main() { return 1 }";
    match l1c::driver::compile(String::from(source), String::from("s.l1"), false) {
        Ok(_) => panic!("the program is invalid"),
        Err(f) => assert_eq!(f.diagnostics, vec![String::from("s.l1:1:23-2:1error: Parse error: unexpected token")]),
    }
}

#[test]
fn compile_lexes_hex_constants_and_comments() {
    let source = "// header\nint main() { /* a /* nested */ comment */ return 0x1F; }";
    let c = match l1c::driver::compile(String::from(source), String::from("t.l1"), false) {
        Ok(c) => c,
        Err(f) => panic!("compilation failed: {:?}", f.diagnostics),
    };
    assert_eq!(c.assembly.as_deref(), Some("MOVL $31, %eax"));
}

#[test]
fn compile_rejects_too_large_constant() {
    let source = "int main() { return 2147483649; }";
    match l1c::driver::compile(String::from(source), String::from("t.l1"), false) {
        Ok(_) => panic!("the constant is too large"),
        Err(f) => assert_eq!(
            f.diagnostics,
            vec![String::from("t.l1:1:21-1:31error: Constant 2147483649 is too large")]
        ),
    }
}

#[test]
fn compile_rejects_unclosed_comment() {
    let source = "int main() { return 1; } /* open";
    match l1c::driver::compile(String::from(source), String::from("t.l1"), false) {
        Ok(_) => panic!("the comment is not closed"),
        Err(f) => assert_eq!(f.diagnostics, vec![String::from("error: Unclosed block comment")]),
    }
}

#[test]
fn check_redeclaration_keeps_initialized_status() {
    let source = "int main() {\nint x = 1;\nint x;\nreturn x;\n}";
    match l1c::driver::compile(String::from(source), String::from("r.l1"), false) {
        Ok(_) => panic!("the program redeclares x"),
        Err(f) => assert_eq!(f.diagnostics, vec![String::from("r.l1:3:1-4:0error: redeclared variable `x`")]),
    }
}
