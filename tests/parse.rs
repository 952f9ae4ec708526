use l1c::parse::ast::{Expr, Expr_, Operator};
use l1c::parse::parse_utils::{mark, parse_number, str_to_ident, vec_to_expr};
use l1c::parse::{intern, parser_panic};
use l1c::util::errors::Errors;
use l1c::util::mark::{CodeMap, Mark, Marked};
use l1c::util::symbol::{Generator, Symbol};

fn sink(source: &str) -> Errors {
    Errors::new(CodeMap::new(String::from(source), String::from("p.l1")))
}

fn leaf(c: u32) -> Expr {
    Marked::new(Expr_::Constant(c), Mark::new(0, 0))
}

fn constant_of(e: &Expr) -> u32 {
    match &e.node {
        Expr_::Constant(c) => *c,
        _ => panic!("expected a constant"),
    }
}

#[test]
fn parse_number_decimal_and_hex() {
    let errors = sink("int x = 0x1F;");
    assert_eq!(parse_number(&errors, "42", 10, 0, 2).ok(), Some(42));
    assert_eq!(parse_number(&errors, "1F", 16, 0, 2).ok(), Some(31));
    assert_eq!(parse_number(&errors, "ff", 16, 0, 2).ok(), Some(255));
    assert_eq!(parse_number(&errors, "4294967295", 10, 0, 10).ok(), Some(4294967295));
}

#[test]
fn parse_number_rejects_overflow_and_bad_digits() {
    let errors = sink("int x = 4294967296;");
    match parse_number(&errors, "4294967296", 10, 8, 18) {
        Ok(_) => panic!("the number does not fit"),
        Err(f) => assert_eq!(
            f.diagnostics,
            vec![String::from("p.l1:1:9-1:19error: 4294967296 is an invalid integer: number too large to fit in target type")]
        ),
    }
    assert!(parse_number(&errors, "12a", 10, 0, 3).is_err());
    assert!(parse_number(&errors, "", 10, 0, 0).is_err());
    assert!(parse_number(&errors, "-1", 10, 0, 2).is_err());
}

#[test]
fn mark_builds_marked_node() {
    let m = mark(5u32, 2, 4);
    assert_eq!(m.node, 5);
    assert_eq!(m.mark, Mark::new(2, 4));
}

#[test]
fn intern_and_str_to_ident_share_a_table() {
    let mut g = Generator::new();
    let a = intern(&mut g, "a");
    let b = str_to_ident(&mut g, "b");
    let a2 = str_to_ident(&mut g, "a");
    assert_eq!(a, Symbol(0));
    assert_eq!(b, Symbol(1));
    assert_eq!(a2, a);
}

#[test]
fn parser_panic_reports_at_mark() {
    let errors = sink("int 3;");
    let f = parser_panic(&errors, String::from("Parse error: unexpected token"), Mark::new(4, 5));
    assert_eq!(f.diagnostics, vec![String::from("p.l1:1:5-1:6error: Parse error: unexpected token")]);
}

#[test]
fn vec_to_expr_single_pair() {
    let e = vec_to_expr(leaf(1), vec![(Operator::Plus, leaf(2))], 0, 5);
    assert_eq!(e.mark, Mark::new(0, 5));
    match &e.node {
        Expr_::Binary(Operator::Plus, a, b) => {
            assert_eq!(constant_of(a), 1);
            assert_eq!(constant_of(b), 2);
        },
        _ => panic!("expected a binary node"),
    }
}

#[test]
fn vec_to_expr_nests_from_the_last_pair() {
    // 1, [(+, 2), (*, 3)]  builds  1 * (3 + 2)
    let e = vec_to_expr(leaf(1), vec![(Operator::Plus, leaf(2)), (Operator::Times, leaf(3))], 0, 9);
    match &e.node {
        Expr_::Binary(Operator::Times, a, b) => {
            assert_eq!(constant_of(a), 1);
            assert_eq!(b.mark, Mark::new(0, 9));
            match &b.node {
                Expr_::Binary(Operator::Plus, c, d) => {
                    assert_eq!(constant_of(c), 3);
                    assert_eq!(constant_of(d), 2);
                },
                _ => panic!("expected a binary node"),
            }
        },
        _ => panic!("expected a binary node"),
    }
}

#[test]
fn lexer_keywords_cannot_be_assigned() {
    let source = "int main() { while = 1; return 0; }";
    match l1c::driver::compile(String::from(source), String::from("k.l1"), false) {
        Ok(_) => panic!("`while` is a keyword"),
        Err(f) => assert_eq!(f.diagnostics, vec![String::from("k.l1:1:14-1:19error: Parse error: unexpected token")]),
    }
}

#[test]
fn lexer_rejects_unknown_character() {
    let source = "int main() { return 1 # 2; }";
    match l1c::driver::compile(String::from(source), String::from("u.l1"), false) {
        Ok(_) => panic!("`#` is no token"),
        Err(f) => assert_eq!(f.diagnostics, vec![String::from("u.l1:1:23-1:24error: Unexpected character")]),
    }
}

#[test]
fn parser_accepts_parenthesized_assignment_target() {
    let source = "int main() { int x; (x) = 4; x *= 2; return x; }";
    let c = match l1c::driver::compile(String::from(source), String::from("a.l1"), false) {
        Ok(c) => c,
        Err(f) => panic!("compilation failed: {:?}", f.diagnostics),
    };
    assert_eq!(c.ast, "int main() {\n  int x;\n  x = 4;\n  x = (x * 2);\n  return x;\n}\n");
    assert_eq!(c.ir.as_deref(), Some("%t0 <-- 4\n%t1 <-- (%t0 * 2)\nreturn %t1"));
}

#[test]
fn lexer_rejects_non_ascii_text() {
    let source = "int main() { return 1; } // é";
    match l1c::driver::compile(String::from(source), String::from("n.l1"), false) {
        Ok(_) => panic!("the text is not ASCII"),
        Err(f) => assert_eq!(f.diagnostics, vec![String::from("error: Unexpected non-ASCII character")]),
    }
}

#[test]
fn lexer_reads_zero_and_boundary_constant() {
    let source = "int main() { int a = 0; return 2147483648 - a; }";
    let c = match l1c::driver::compile(String::from(source), String::from("z.l1"), false) {
        Ok(c) => c,
        Err(f) => panic!("compilation failed: {:?}", f.diagnostics),
    };
    assert_eq!(c.ir.as_deref(), Some("%t0 <-- 0\nreturn (2147483648 - %t0)"));
}

#[test]
fn parse_number_reports_reason() {
    let errors = sink("x");
    match parse_number(&errors, "x", 10, 0, 1) {
        Ok(_) => panic!("x is no number"),
        Err(f) => assert_eq!(f.diagnostics, vec![String::from("p.l1:1:1-2:1error: x is an invalid integer: invalid digit found in string")]),
    }
    match parse_number(&errors, "", 10, 0, 0) {
        Ok(_) => panic!("the text is empty"),
        Err(f) => assert_eq!(f.diagnostics, vec![String::from("error:  is an invalid integer: cannot parse integer from empty string")]),
    }
    assert_eq!(parse_number(&errors, "+17", 10, 0, 3).ok(), Some(17));
}
