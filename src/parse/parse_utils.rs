//! Helpers for building the syntax tree while parsing.
use vstd::prelude::*;
use vstd::string::StringExecFns;
use crate::parse::ast::{Expr, Expr_, Ident, Operator};
use crate::util::errors::{Errors, Fatal, diagnostic_line};
use crate::util::mark::{Mark, Marked};
use crate::util::symbol::{Generator, intern_result};
use crate::util::text::texts;

verus! {

/// The value of `c` as a digit, in any radix up to 36; 36 for a character
/// that is a digit in none.
pub open spec fn digit_value(c: char) -> nat {
    if '0' <= c && c <= '9' {
        (c as u32 - '0' as u32) as nat
    } else if 'a' <= c && c <= 'z' {
        (c as u32 - 'a' as u32 + 10) as nat
    } else if 'A' <= c && c <= 'Z' {
        (c as u32 - 'A' as u32 + 10) as nat
    } else {
        36
    }
}

/// Why a text is no `u32`.
#[derive(Clone, Copy, PartialEq, Eq, Structural, Debug)]
pub enum NumberError {
    Empty,
    InvalidDigit,
    TooLarge,
}

/// Reading the digits `d` in radix `radix` from the left: the value, or the
/// first problem met, an invalid digit or a value past `u32::MAX`.
pub open spec fn scan_digits(d: Seq<char>, radix: nat) -> Result<nat, NumberError>
    decreases d.len(),
{
    if d.len() == 0 {
        Ok(0)
    } else {
        match scan_digits(d.drop_last(), radix) {
            Err(k) => Err(k),
            Ok(v) => if digit_value(d.last()) >= radix {
                Err(NumberError::InvalidDigit)
            } else if v * radix + digit_value(d.last()) > u32::MAX {
                Err(NumberError::TooLarge)
            } else {
                Ok(v * radix + digit_value(d.last()))
            },
        }
    }
}

/// The `u32` that `s` denotes in radix `radix`, an optional `+` and then
/// digits, or why it denotes none.
pub open spec fn spec_number(s: Seq<char>, radix: nat) -> Result<u32, NumberError> {
    if s.len() == 0 {
        Err(NumberError::Empty)
    } else {
        let d = if s.len() > 1 && s[0] == '+' {
            s.drop_first()
        } else {
            s
        };
        match scan_digits(d, radix) {
            Ok(v) => Ok(v as u32),
            Err(k) => Err(k),
        }
    }
}

/// Relies on `u32::from_str_radix`: an empty text is `Empty`; otherwise, after
/// an optional `+`, the digits are read from the left, and the first digit
/// outside the radix is `InvalidDigit`, the first value past `u32::MAX`
/// `PosOverflow`. A lone `+` is an invalid digit. For a `u32` the other kinds
/// of error do not occur. It panics on a radix outside 2 to 36.
#[verifier::external_body]
fn u32_from_str_radix(s: &str, radix: u32) -> (r: Result<u32, NumberError>)
    requires
        2 <= radix <= 36,
    ensures
        r == spec_number(s@, radix as nat),
{
    match u32::from_str_radix(s, radix) {
        Ok(n) => Ok(n),
        Err(e) => match e.kind() {
            std::num::IntErrorKind::Empty => Err(NumberError::Empty),
            std::num::IntErrorKind::PosOverflow => Err(NumberError::TooLarge),
            _ => Err(NumberError::InvalidDigit),
        },
    }
}

impl NumberError {
    /// The explanation std gives for each kind of error.
    pub open spec fn text(self) -> Seq<char> {
        match self {
            NumberError::Empty => "cannot parse integer from empty string"@,
            NumberError::InvalidDigit => "invalid digit found in string"@,
            NumberError::TooLarge => "number too large to fit in target type"@,
        }
    }

    /// Renders the explanation.
    pub fn to_string(&self) -> (r: String)
        ensures
            r@ == self.text(),
    {
        match self {
            NumberError::Empty => String::from_str("cannot parse integer from empty string"),
            NumberError::InvalidDigit => String::from_str("invalid digit found in string"),
            NumberError::TooLarge => String::from_str("number too large to fit in target type"),
        }
    }
}

/// The marked node `obj` for the bytes `[lo, hi)`.
pub fn mark<T>(obj: T, lo: usize, hi: usize) -> (r: Marked<T>)
    requires
        lo <= hi,
    ensures
        r.node == obj,
        r.mark == (Mark { lo, hi }),
{
    Marked::new(obj, Mark::new(lo, hi))
}

/// The identifier for the text `s`.
pub fn str_to_ident(symbols: &mut Generator, s: &str) -> (r: Ident)
    requires
        old(symbols).wf(),
    ensures
        final(symbols).wf(),
        (final(symbols)@, r.0 as nat) == intern_result(old(symbols)@, s@),
{
    symbols.intern(s)
}

/// The message for text that is no number, with the reason.
pub open spec fn invalid_number_msg(s: Seq<char>, k: NumberError) -> Seq<char> {
    s + " is an invalid integer: "@ + k.text()
}

/// The number written `s` in radix `base`; text that is no `u32` stops
/// compilation with an error at `[lo, hi)`.
pub fn parse_number(errors: &Errors, s: &str, base: u32, lo: usize, hi: usize) -> (r: Result<
    u32,
    Fatal,
>)
    requires
        errors.wf(),
        2 <= base <= 36,
        lo <= hi,
    ensures
        match spec_number(s@, base as nat) {
            Ok(n) => r == Ok::<u32, Fatal>(n),
            Err(k) => r matches Err(f) && texts(f.diagnostics@) == errors.reported().push(
                diagnostic_line(errors.code_map(), Mark { lo, hi }, invalid_number_msg(s@, k)),
            ),
        },
{
    match u32_from_str_radix(s, base) {
        Ok(n) => Ok(n),
        Err(k) => {
            let mut msg = String::from_str(s);
            msg.append(" is an invalid integer: ");
            msg.append(k.to_string().as_str());
            Err(errors.die(&Mark::new(lo, hi), msg.as_str()))
        },
    }
}

/// The expression that `e` followed by the operators and operands `v` builds:
/// the last pair of `v` joins `e` with the expression the other pairs build
/// from its operand. Every node gets the mark `m`.
pub open spec fn spec_vec_to_expr(e: Expr, v: Seq<(Operator, Expr)>, m: Mark) -> Expr
    decreases v.len(),
{
    if v.len() <= 1 {
        Marked { mark: m, node: Expr_::Binary(v.last().0, Box::new(e), Box::new(v.last().1)) }
    } else {
        Marked {
            mark: m,
            node: Expr_::Binary(
                v.last().0,
                Box::new(e),
                Box::new(spec_vec_to_expr(v.last().1, v.drop_last(), m)),
            ),
        }
    }
}

/// Builds the expression for `e` followed by a chain of operators and
/// operands, as `spec_vec_to_expr` describes.
pub fn vec_to_expr(e: Expr, vec: Vec<(Operator, Expr)>, lo: usize, hi: usize) -> (r: Expr)
    requires
        vec@.len() > 0,
        lo <= hi,
    ensures
        r == spec_vec_to_expr(e, vec@, Mark { lo, hi }),
    decreases vec@.len(),
{
    let ghost v = vec@;
    let mut vec = vec;
    let (op, e2) = vec.pop().unwrap();
    let e_vec = if vec.len() == 0 {
        Expr_::Binary(op, Box::new(e), Box::new(e2))
    } else {
        Expr_::Binary(op, Box::new(e), Box::new(vec_to_expr(e2, vec, lo, hi)))
    };
    proof {
        assert(v.drop_last() == vec@);
    }
    mark(e_vec, lo, hi)
}

} // verus!
