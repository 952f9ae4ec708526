//! The lexer: source text to marked tokens.
//!
//! Identifiers are interned as they are read. Whitespace and comments (`//` to
//! the end of the line, and `/* */`, which nest) are skipped.
use vstd::prelude::*;
use vstd::string::{StrSliceExecFns, StringExecFns};
use crate::parse::parse_utils::{parse_number, spec_number};
use crate::parse::parser_panic;
use crate::util::errors::{Errors, Fatal};
use crate::util::mark::{Mark, Marked, dummy_mark};
use crate::util::symbol::{Generator, Symbol, intern_result, lemma_intern_finds};
use vstd::utf8::is_ascii_chars;

verus! {

#[derive(Clone, Copy, PartialEq, Eq, Structural, Debug)]
pub enum Token {
    Ident(Symbol),
    Intconst(u32),
    Lparen,
    Rparen,
    Lbrace,
    Rbrace,
    Semi,
    Assign,
    Pluseq,
    Minuseq,
    Stareq,
    Slasheq,
    Percenteq,
    Plus,
    Minus,
    Star,
    Slash,
    Percent,
    Decrement,
    Struct,
    Typedef,
    If,
    Else,
    While,
    For,
    Continue,
    Break,
    Assert,
    True,
    False,
    Null,
    Alloc,
    Allocarray,
    Bool,
    Void,
    Char,
    String,
    Return,
    Int,
    Main,
}

pub type MarkedToken = Marked<Token>;

/// The largest constant a program may write in decimal.
pub const MAX_DECIMAL: u32 = 2147483648;

/// Every token has a mark with `lo <= hi`, and every identifier is below `n`.
pub open spec fn tokens_ok(toks: Seq<MarkedToken>, n: nat) -> bool {
    forall|i: int|
        0 <= i < toks.len() ==> (#[trigger] toks[i]).mark.lo <= toks[i].mark.hi && (
        toks[i].node matches Token::Ident(s) ==> (s.0 as nat) < n)
}

/// The tokens follow one another through the text `text` without overlapping,
/// and each identifier's symbol has, in `names`, the text the token spans.
pub open spec fn tokens_faithful(toks: Seq<MarkedToken>, text: Seq<char>, names: Seq<Seq<char>>) -> bool {
    &&& forall|i: int| 0 <= i < toks.len() ==> (#[trigger] toks[i]).mark.hi <= text.len()
    &&& forall|i: int| 0 < i < toks.len() ==> toks[i - 1].mark.hi <= (#[trigger] toks[i]).mark.lo
    &&& forall|i: int|
        0 <= i < toks.len() ==> ((#[trigger] toks[i]).node matches Token::Ident(s) ==> names[s.0 as int]
            == text.subrange(toks[i].mark.lo as int, toks[i].mark.hi as int))
}

pub open spec fn is_ident_start(b: u8) -> bool {
    (65 <= b && b <= 90) || (97 <= b && b <= 122) || b == 95
}

pub open spec fn is_digit(b: u8) -> bool {
    48 <= b && b <= 57
}

pub open spec fn is_hex_digit(b: u8) -> bool {
    is_digit(b) || (65 <= b && b <= 70) || (97 <= b && b <= 102)
}

pub open spec fn is_whitespace(b: u8) -> bool {
    b == 32 || (9 <= b && b <= 13)
}

/// The byte of the ASCII text `s` at `i`, or 0 past either end.
pub open spec fn byte_at(s: Seq<char>, i: int) -> u8 {
    if 0 <= i < s.len() {
        s[i] as u8
    } else {
        0
    }
}

/// The first position from `i` on whose byte does not satisfy `pred`, or the
/// end of the text.
pub open spec fn scan_end(s: Seq<char>, i: int, pred: spec_fn(u8) -> bool) -> int
    decreases s.len() - i,
{
    if 0 <= i < s.len() && pred(byte_at(s, i)) {
        scan_end(s, i + 1, pred)
    } else {
        i
    }
}

pub proof fn lemma_scan_end(s: Seq<char>, i: int, pred: spec_fn(u8) -> bool)
    requires
        0 <= i <= s.len(),
    ensures
        i <= scan_end(s, i, pred) <= s.len(),
    decreases s.len() - i,
{
    if 0 <= i < s.len() && pred(byte_at(s, i)) {
        lemma_scan_end(s, i + 1, pred);
    }
}

/// The end of an identifier whose rest starts at `i`.
pub open spec fn ident_end(s: Seq<char>, i: int) -> int {
    scan_end(s, i, |b: u8| is_ident_start(b) || is_digit(b))
}

/// The end of the decimal digits from `i`.
pub open spec fn digits_end(s: Seq<char>, i: int) -> int {
    scan_end(s, i, |b: u8| is_digit(b))
}

/// The end of the hexadecimal digits from `i`.
pub open spec fn hex_end(s: Seq<char>, i: int) -> int {
    scan_end(s, i, |b: u8| is_hex_digit(b))
}

/// The end of the line from `i`: the position of its newline, or the end.
pub open spec fn line_end(s: Seq<char>, i: int) -> int {
    scan_end(s, i, |b: u8| b != 10u8)
}

/// Where a block comment ends, read from `i` with `depth` comments open; none
/// if the text ends first.
pub open spec fn block_end(s: Seq<char>, i: int, depth: nat) -> Option<int>
    decreases s.len() - i,
{
    if depth == 0 {
        Some(i)
    } else if i < 0 || i >= s.len() {
        None
    } else if byte_at(s, i) == 42 && byte_at(s, i + 1) == 47 {
        block_end(s, i + 2, (depth - 1) as nat)
    } else if byte_at(s, i) == 47 && byte_at(s, i + 1) == 42 {
        block_end(s, i + 2, depth + 1)
    } else {
        block_end(s, i + 1, depth)
    }
}

pub proof fn lemma_block_end(s: Seq<char>, i: int, depth: nat)
    requires
        0 <= i <= s.len(),
    ensures
        block_end(s, i, depth) matches Some(j) ==> i <= j <= s.len(),
    decreases s.len() - i,
{
    if depth != 0 && 0 <= i < s.len() {
        if byte_at(s, i) == 42 && byte_at(s, i + 1) == 47 {
            lemma_block_end(s, i + 2, (depth - 1) as nat);
        } else if byte_at(s, i) == 47 && byte_at(s, i + 1) == 42 {
            lemma_block_end(s, i + 2, depth + 1);
        } else {
            lemma_block_end(s, i + 1, depth);
        }
    }
}

/// The keyword spelled `w`, if it is one.
pub open spec fn keyword_of(w: Seq<char>) -> Option<Token> {
    if w == "struct"@ { Some(Token::Struct) }
    else if w == "typedef"@ { Some(Token::Typedef) }
    else if w == "if"@ { Some(Token::If) }
    else if w == "else"@ { Some(Token::Else) }
    else if w == "while"@ { Some(Token::While) }
    else if w == "for"@ { Some(Token::For) }
    else if w == "continue"@ { Some(Token::Continue) }
    else if w == "break"@ { Some(Token::Break) }
    else if w == "assert"@ { Some(Token::Assert) }
    else if w == "true"@ { Some(Token::True) }
    else if w == "false"@ { Some(Token::False) }
    else if w == "NULL"@ { Some(Token::Null) }
    else if w == "alloc"@ { Some(Token::Alloc) }
    else if w == "alloc_array"@ { Some(Token::Allocarray) }
    else if w == "bool"@ { Some(Token::Bool) }
    else if w == "void"@ { Some(Token::Void) }
    else if w == "char"@ { Some(Token::Char) }
    else if w == "string"@ { Some(Token::String) }
    else if w == "return"@ { Some(Token::Return) }
    else if w == "int"@ { Some(Token::Int) }
    else if w == "main"@ { Some(Token::Main) }
    else { None }
}

/// The operator or punctuation token at `i` and its length; the longer of two
/// spellings wins (`+=` over `+`, `--` over `-`).
pub open spec fn punct_at(s: Seq<char>, i: int) -> Option<(Token, nat)> {
    let b = byte_at(s, i);
    let next = byte_at(s, i + 1);
    if b == 40 { Some((Token::Lparen, 1)) }
    else if b == 41 { Some((Token::Rparen, 1)) }
    else if b == 123 { Some((Token::Lbrace, 1)) }
    else if b == 125 { Some((Token::Rbrace, 1)) }
    else if b == 59 { Some((Token::Semi, 1)) }
    else if b == 61 { Some((Token::Assign, 1)) }
    else if b == 43 {
        if next == 61 { Some((Token::Pluseq, 2)) } else { Some((Token::Plus, 1)) }
    } else if b == 45 {
        if next == 61 { Some((Token::Minuseq, 2)) }
        else if next == 45 { Some((Token::Decrement, 2)) }
        else { Some((Token::Minus, 1)) }
    } else if b == 42 {
        if next == 61 { Some((Token::Stareq, 2)) } else { Some((Token::Star, 1)) }
    } else if b == 47 {
        if next == 61 { Some((Token::Slasheq, 2)) } else { Some((Token::Slash, 1)) }
    } else if b == 37 {
        if next == 61 { Some((Token::Percenteq, 2)) } else { Some((Token::Percent, 1)) }
    } else { None }
}

/// The token `t` over `[lo, hi)`.
pub open spec fn tok_at(t: Token, lo: int, hi: int) -> MarkedToken {
    Marked { mark: Mark { lo: lo as usize, hi: hi as usize }, node: t }
}

/// `[t]` followed by what `rest` gives.
pub open spec fn prepend(
    t: MarkedToken,
    rest: Option<(Seq<MarkedToken>, Seq<Seq<char>>)>,
) -> Option<(Seq<MarkedToken>, Seq<Seq<char>>)> {
    match rest {
        Some((ts, n)) => Some((seq![t] + ts, n)),
        None => None,
    }
}

/// The tokens of the text `s` from `i` on, with identifiers interned into
/// `names`, and the table afterwards; none if the text holds an unknown
/// character, a constant that is no `u32` or exceeds 2^31 in decimal, or an
/// unclosed block comment.
pub open spec fn lex_from(s: Seq<char>, i: int, names: Seq<Seq<char>>) -> Option<
    (Seq<MarkedToken>, Seq<Seq<char>>),
>
    decreases s.len() - i,
{
    if i < 0 || i >= s.len() {
        Some((seq![], names))
    } else {
        let b = byte_at(s, i);
        let next = byte_at(s, i + 1);
        if is_whitespace(b) {
            lex_from(s, i + 1, names)
        } else if b == 47 && next == 47 {
            let j = line_end(s, i + 2);
            if i < j <= s.len() { lex_from(s, j, names) } else { None }
        } else if b == 47 && next == 42 {
            match block_end(s, i + 2, 1) {
                Some(j) => if i < j <= s.len() { lex_from(s, j, names) } else { None },
                None => None,
            }
        } else if is_ident_start(b) {
            let j = ident_end(s, i + 1);
            let w = s.subrange(i, j);
            if i < j <= s.len() {
                match keyword_of(w) {
                    Some(k) => prepend(tok_at(k, i, j), lex_from(s, j, names)),
                    None => {
                        let (n2, h) = intern_result(names, w);
                        prepend(tok_at(Token::Ident(Symbol(h as usize)), i, j), lex_from(s, j, n2))
                    },
                }
            } else {
                None
            }
        } else if is_digit(b) {
            if b == 48 && (next == 120 || next == 88) && is_hex_digit(byte_at(s, i + 2)) {
                let j = hex_end(s, i + 2);
                if i < j <= s.len() {
                    match spec_number(s.subrange(i + 2, j), 16) {
                        Ok(n) => prepend(tok_at(Token::Intconst(n), i, j), lex_from(s, j, names)),
                        Err(_) => None,
                    }
                } else {
                    None
                }
            } else {
                let j = if b != 48 { digits_end(s, i + 1) } else { i + 1 };
                if i < j <= s.len() {
                    match spec_number(s.subrange(i, j), 10) {
                        Ok(n) => if n > MAX_DECIMAL {
                            None
                        } else {
                            prepend(tok_at(Token::Intconst(n), i, j), lex_from(s, j, names))
                        },
                        Err(_) => None,
                    }
                } else {
                    None
                }
            }
        } else {
            match punct_at(s, i) {
                Some((t, k)) => if k >= 1 {
                    prepend(tok_at(t, i, i + k), lex_from(s, i + k, names))
                } else {
                    None
                },
                None => None,
            }
        }
    }
}

/// The tokens of the text `s`, with identifiers interned into `names` in the
/// order they first occur, and the table afterwards; none if `s` is not ASCII
/// or `lex_from` finds it wrong.
pub open spec fn tokens_of(s: Seq<char>, names: Seq<Seq<char>>) -> Option<
    (Seq<MarkedToken>, Seq<Seq<char>>),
> {
    if !is_ascii_chars(s) {
        None
    } else {
        lex_from(s, 0, names)
    }
}

/// `pre` followed by what `rest` gives.
pub open spec fn after(
    pre: Seq<MarkedToken>,
    rest: Option<(Seq<MarkedToken>, Seq<Seq<char>>)>,
) -> Option<(Seq<MarkedToken>, Seq<Seq<char>>)> {
    match rest {
        Some((ts, n)) => Some((pre + ts, n)),
        None => None,
    }
}

/// The keyword spelled `w`, if it is one.
fn keyword(w: &str) -> (r: Option<Token>)
    ensures
        r == keyword_of(w@),
{
    let key = String::from_str(w);
    if key == String::from_str("struct") { Some(Token::Struct) }
    else if key == String::from_str("typedef") { Some(Token::Typedef) }
    else if key == String::from_str("if") { Some(Token::If) }
    else if key == String::from_str("else") { Some(Token::Else) }
    else if key == String::from_str("while") { Some(Token::While) }
    else if key == String::from_str("for") { Some(Token::For) }
    else if key == String::from_str("continue") { Some(Token::Continue) }
    else if key == String::from_str("break") { Some(Token::Break) }
    else if key == String::from_str("assert") { Some(Token::Assert) }
    else if key == String::from_str("true") { Some(Token::True) }
    else if key == String::from_str("false") { Some(Token::False) }
    else if key == String::from_str("NULL") { Some(Token::Null) }
    else if key == String::from_str("alloc") { Some(Token::Alloc) }
    else if key == String::from_str("alloc_array") { Some(Token::Allocarray) }
    else if key == String::from_str("bool") { Some(Token::Bool) }
    else if key == String::from_str("void") { Some(Token::Void) }
    else if key == String::from_str("char") { Some(Token::Char) }
    else if key == String::from_str("string") { Some(Token::String) }
    else if key == String::from_str("return") { Some(Token::Return) }
    else if key == String::from_str("int") { Some(Token::Int) }
    else if key == String::from_str("main") { Some(Token::Main) }
    else { None }
}

/// The token of an operator or punctuation character at `i`, and its length;
/// the longer of two spellings wins (`+=` over `+`, `--` over `-`).
fn punctuation(s: &str, len: usize, i: usize) -> (r: Option<(Token, usize)>)
    requires
        s.is_ascii(),
        len == s@.len(),
        i < len,
    ensures
        r matches Some((t, k)) ==> 1 <= k <= 2 && i + k <= len && !(t is Ident),
        match punct_at(s@, i as int) {
            Some((t, k)) => r == Some((t, k as usize)),
            None => r is None,
        },
{
    let b = s.get_ascii(i);
    let next: u8 = if i + 1 < len { s.get_ascii(i + 1) } else { 0 };
    if b == 40 { Some((Token::Lparen, 1)) }
    else if b == 41 { Some((Token::Rparen, 1)) }
    else if b == 123 { Some((Token::Lbrace, 1)) }
    else if b == 125 { Some((Token::Rbrace, 1)) }
    else if b == 59 { Some((Token::Semi, 1)) }
    else if b == 61 { Some((Token::Assign, 1)) }
    else if b == 43 {
        if next == 61 { Some((Token::Pluseq, 2)) } else { Some((Token::Plus, 1)) }
    } else if b == 45 {
        if next == 61 { Some((Token::Minuseq, 2)) }
        else if next == 45 { Some((Token::Decrement, 2)) }
        else { Some((Token::Minus, 1)) }
    } else if b == 42 {
        if next == 61 { Some((Token::Stareq, 2)) } else { Some((Token::Star, 1)) }
    } else if b == 47 {
        if next == 61 { Some((Token::Slasheq, 2)) } else { Some((Token::Slash, 1)) }
    } else if b == 37 {
        if next == 61 { Some((Token::Percenteq, 2)) } else { Some((Token::Percent, 1)) }
    } else { None }
}

/// What one step of lexing at `i` gives: the token read, if any, and where
/// lexing goes on.
pub open spec fn step_result(
    s: Seq<char>,
    t: Option<MarkedToken>,
    j: int,
    names: Seq<Seq<char>>,
) -> Option<(Seq<MarkedToken>, Seq<Seq<char>>)> {
    match t {
        Some(t) => prepend(t, lex_from(s, j, names)),
        None => lex_from(s, j, names),
    }
}

/// Reads what stands at `i`: whitespace, a comment, or one token.
fn next_token(s: &str, len: usize, i: usize, symbols: &mut Generator, errors: &Errors) -> (r: Result<
    (Option<MarkedToken>, usize),
    Fatal,
>)
    requires
        s.is_ascii(),
        len == s@.len(),
        i < len,
        old(symbols).wf(),
        errors.wf(),
    ensures
        final(symbols).wf(),
        old(symbols)@.is_prefix_of(final(symbols)@),
        match r {
            Ok((t, j)) => {
                &&& i < j <= len
                &&& lex_from(s@, i as int, old(symbols)@) == step_result(s@, t, j as int, final(symbols)@)
                &&& t matches Some(t) ==> {
                    &&& t.mark.lo == i && t.mark.hi == j
                    &&& t.node matches Token::Ident(x) ==> (x.0 as nat) < final(symbols)@.len()
                        && final(symbols)@[x.0 as int] == s@.subrange(i as int, j as int)
                }
                &&& t is None ==> final(symbols)@ == old(symbols)@
            },
            Err(_) => lex_from(s@, i as int, old(symbols)@) is None,
        },
{
    let ghost names = symbols@;
    proof {
        assert(names.is_prefix_of(names)) by {
            assert(names.subrange(0, names.len() as int) =~= names);
        }
    }
    let b = s.get_ascii(i);
    let next: u8 = if i + 1 < len { s.get_ascii(i + 1) } else { 0 };
    if is_whitespace_byte(b) {
        Ok((None, i + 1))
    } else if b == 47 && next == 47 {
        let start = i;
        let mut i = i + 2;
        while i < len && s.get_ascii(i) != 10
            invariant
                s.is_ascii(),
                len == s@.len(),
                start < i <= len,
                line_end(s@, i as int) == line_end(s@, start + 2),
            decreases len - i,
        {
            i = i + 1;
        }
        Ok((None, i))
    } else if b == 47 && next == 42 {
        let start = i;
        let mut depth: usize = 1;
        let mut i = i + 2;
        while i < len && depth > 0
            invariant
                s.is_ascii(),
                len == s@.len(),
                start < i <= len,
                depth <= i,
                block_end(s@, i as int, depth as nat) == block_end(s@, start + 2, 1),
            decreases len - i,
        {
            let c = s.get_ascii(i);
            let d: u8 = if i + 1 < len { s.get_ascii(i + 1) } else { 0 };
            if c == 42 && d == 47 {
                depth = depth - 1;
                i = i + 2;
            } else if c == 47 && d == 42 {
                depth = depth + 1;
                i = i + 2;
            } else {
                i = i + 1;
            }
        }
        if depth > 0 {
            return Err(parser_panic(errors, String::from_str("Unclosed block comment"), dummy_mark()));
        }
        Ok((None, i))
    } else if is_ident_start_byte(b) {
        let lo = i;
        let mut i = i + 1;
        while i < len && (is_ident_start_byte(s.get_ascii(i)) || is_digit_byte(s.get_ascii(i)))
            invariant
                s.is_ascii(),
                len == s@.len(),
                lo < i <= len,
                ident_end(s@, i as int) == ident_end(s@, lo + 1),
            decreases len - i,
        {
            i = i + 1;
        }
        let word = s.substring_ascii(lo, i);
        let tok = match keyword(word) {
            Some(k) => k,
            None => {
                proof {
                    lemma_intern_finds(names, word@);
                }
                Token::Ident(symbols.intern(word))
            },
        };
        Ok((Some(Marked::new(tok, Mark::new(lo, i))), i))
    } else if is_digit_byte(b) {
        let lo = i;
        if b == 48 && (next == 120 || next == 88) && i + 2 < len && is_hex_digit_byte(s.get_ascii(i + 2)) {
            let mut i = i + 2;
            while i < len && is_hex_digit_byte(s.get_ascii(i))
                invariant
                    s.is_ascii(),
                    len == s@.len(),
                    lo + 2 <= i <= len,
                    hex_end(s@, i as int) == hex_end(s@, lo + 2),
                decreases len - i,
            {
                i = i + 1;
            }
            let n = parse_number(errors, s.substring_ascii(lo + 2, i), 16, lo, i)?;
            Ok((Some(Marked::new(Token::Intconst(n), Mark::new(lo, i))), i))
        } else {
            let mut i = i + 1;
            if b != 48 {
                while i < len && is_digit_byte(s.get_ascii(i))
                    invariant
                        s.is_ascii(),
                        len == s@.len(),
                        lo < i <= len,
                        digits_end(s@, i as int) == digits_end(s@, lo + 1),
                    decreases len - i,
                {
                    i = i + 1;
                }
            }
            let text = s.substring_ascii(lo, i);
            let n = parse_number(errors, text, 10, lo, i)?;
            if n > MAX_DECIMAL {
                let mut msg = String::from_str("Constant ");
                msg.append(text);
                msg.append(" is too large");
                return Err(parser_panic(errors, msg, Mark::new(lo, i)));
            }
            Ok((Some(Marked::new(Token::Intconst(n), Mark::new(lo, i))), i))
        }
    } else {
        match punctuation(s, len, i) {
            Some((tok, k)) => Ok((Some(Marked::new(tok, Mark::new(i, i + k))), i + k)),
            None => Err(parser_panic(errors, String::from_str("Unexpected character"), Mark::new(i, i + 1))),
        }
    }
}

/// Splits the source text `s` into tokens, interning identifiers into
/// `symbols`, exactly as `tokens_of` says. An unknown character, a constant
/// that is too large and an unclosed block comment stop compilation.
pub fn lex(s: &str, symbols: &mut Generator, errors: &Errors) -> (r: Result<Vec<MarkedToken>, Fatal>)
    requires
        old(symbols).wf(),
        errors.wf(),
    ensures
        final(symbols).wf(),
        match tokens_of(s@, old(symbols)@) {
            Some((t, n)) => r matches Ok(toks) && toks@ == t && final(symbols)@ == n,
            None => r is Err,
        },
        r matches Ok(toks) ==> {
            &&& tokens_ok(toks@, final(symbols)@.len())
            &&& tokens_faithful(toks@, s@, final(symbols)@)
            &&& toks@.len() <= s@.len()
        },
{
    if !s.is_ascii() {
        return Err(parser_panic(errors, String::from_str("Unexpected non-ASCII character"), dummy_mark()));
    }
    let len = s.unicode_len();
    let mut toks: Vec<MarkedToken> = Vec::new();
    let mut i: usize = 0;
    let ghost names0 = symbols@;
    assert(after(toks@, lex_from(s@, 0, names0)) == lex_from(s@, 0, names0)) by {
        if let Some((ts, n)) = lex_from(s@, 0, names0) {
            assert(toks@ + ts =~= ts);
        }
    }
    while i < len
        invariant
            s.is_ascii(),
            len == s@.len(),
            i <= len,
            symbols.wf(),
            errors.wf(),
            tokens_ok(toks@, symbols@.len()),
            tokens_faithful(toks@, s@, symbols@),
            toks@.len() > 0 ==> toks@.last().mark.hi <= i,
            toks@.len() <= i,
            tokens_of(s@, names0) == after(toks@, lex_from(s@, i as int, symbols@)),
            names0 == old(symbols)@,
        decreases len - i,
    {
        let ghost toks0 = toks@;
        let ghost names1 = symbols@;
        let (t, j) = match next_token(s, len, i, symbols, errors) {
            Ok(step) => step,
            Err(f) => {
                assert(tokens_of(s@, names0) is None);
                return Err(f);
            },
        };
        match t {
            Some(tok) => {
                toks.push(tok);
                proof {
                    lemma_after_prepend(toks0, tok, lex_from(s@, j as int, symbols@));
                    assert forall|k: int| 0 <= k < toks0.len() implies ((#[trigger] toks@[k]).node matches Token::Ident(x)
                        ==> (x.0 as nat) < symbols@.len() && symbols@[x.0 as int] == s@.subrange(toks@[k].mark.lo as int, toks@[k].mark.hi as int)) by {
                        assert(toks@[k] == toks0[k]);
                        if let Token::Ident(x) = toks0[k].node {
                            assert(names1[x.0 as int] == symbols@[x.0 as int]);
                        }
                    }
                }
            },
            None => {},
        }
        i = j;
    }
    proof {
        assert(toks@ + seq![] =~= toks@);
    }
    Ok(toks)
}

proof fn lemma_after_prepend(
    pre: Seq<MarkedToken>,
    t: MarkedToken,
    rest: Option<(Seq<MarkedToken>, Seq<Seq<char>>)>,
)
    ensures
        after(pre, prepend(t, rest)) == after(pre.push(t), rest),
{
    if let Some((ts, n)) = rest {
        assert(pre + (seq![t] + ts) =~= pre.push(t) + ts);
    }
}


fn is_whitespace_byte(b: u8) -> (r: bool)
    ensures
        r == is_whitespace(b),
{
    b == 32 || (9 <= b && b <= 13)
}

fn is_ident_start_byte(b: u8) -> (r: bool)
    ensures
        r == is_ident_start(b),
{
    (65 <= b && b <= 90) || (97 <= b && b <= 122) || b == 95
}

fn is_digit_byte(b: u8) -> (r: bool)
    ensures
        r == is_digit(b),
{
    48 <= b && b <= 57
}

fn is_hex_digit_byte(b: u8) -> (r: bool)
    ensures
        r == is_hex_digit(b),
{
    (48 <= b && b <= 57) || (65 <= b && b <= 70) || (97 <= b && b <= 102)
}

} // verus!
