//! The syntax of programs, and helpers to build it.
use vstd::prelude::*;
use vstd::string::StringExecFns;
use vstd::utf8::encode_utf8;
use crate::middle::lowerable_stmt;
use crate::util::errors::{Errors, Fatal, diagnostic_line};
use crate::util::mark::{CodeMap, Mark};
use crate::util::symbol::{Generator, Symbol, intern_result};
use crate::util::text::texts;

pub mod ast;
pub mod parse_utils;
pub mod lexer;
pub mod parser;

verus! {

/// Stops compilation on a syntax error: reports `s` at `m`.
pub fn parser_panic(errors: &Errors, s: String, m: Mark) -> (r: Fatal)
    requires
        errors.wf(),
    ensures
        texts(r.diagnostics@) == errors.reported().push(diagnostic_line(errors.code_map(), m, s@)),
{
    errors.die(&m, s.as_str())
}

/// The symbol for the text `s`.
pub fn intern(symbols: &mut Generator, s: &str) -> (r: Symbol)
    requires
        old(symbols).wf(),
    ensures
        final(symbols).wf(),
        (final(symbols)@, r.0 as nat) == intern_result(old(symbols)@, s@),
{
    symbols.intern(s)
}


/// The program text `code` is short enough for line numbers and token
/// positions to stay within `usize`.
pub open spec fn source_fits(code: Seq<char>) -> bool {
    encode_utf8(code).len() + 2 <= usize::MAX && code.len() + 3 <= usize::MAX
}

/// What parsing the text `code` gives: the table of identifier texts, in the
/// order they first occur, and the statements; none on a syntax error.
pub open spec fn parsed(code: Seq<char>) -> Option<(Seq<Seq<char>>, Seq<ast::Statement>)> {
    if !source_fits(code) {
        None
    } else {
        match lexer::tokens_of(code, Seq::empty()) {
            Some((toks, names)) => match parser::program_of(toks) {
                Some(ss) => Some((names, ss)),
                None => None,
            },
            None => None,
        }
    }
}

/// Parses the program text `code`, read from the file `file`: lexing,
/// interning identifiers, and parsing `int main() { ... }`. A syntax error
/// stops compilation with one diagnostic.
///
/// The program handed back has no diagnostics yet; each of its identifiers has
/// a text in its symbol table, and lowering accepts each of its operators.
pub fn parse(code: String, file: String) -> (r: Result<ast::Program, Fatal>)
    ensures
        match parsed(code@) {
            Some((names, ss)) => r matches Ok(p) && p.symbols@ == names && p.statements@ == ss,
            None => r is Err,
        },
        r matches Ok(p) ==> {
            &&& p.wf()
            &&& forall|i: int|
                0 <= i < p.statements@.len() ==> lowerable_stmt(#[trigger] p.statements@[i])
            &&& p.errors.code_map().text() == code@
            &&& p.errors.code_map().file_name() == file@
            &&& p.errors.reported() == Seq::<Seq<char>>::empty()
            &&& !p.errors.has_errored()
        },
{
    if code.as_str().as_bytes().len() > usize::MAX - 2 || code.as_str().unicode_len() > usize::MAX
        - 3 {
        let mut line = String::from_str("error: ");
        line.append(file.as_str());
        line.append(" is too large");
        return Err(Fatal { diagnostics: vec![line] });
    }
    let text = code.clone();
    let errors = Errors::new(CodeMap::new(code, file));
    let mut generator = Generator::new();
    let toks = lexer::lex(text.as_str(), &mut generator, &errors)?;
    let symbols = generator.store();
    let statements = parser::parse_program(&toks, &errors, Ghost(symbols@.len()))?;
    Ok(ast::Program { statements, errors, symbols })
}

} // verus!
