//! The lexical layer: turns source text into a token stream.
//!
//! [`lex`] is the executable lexer; its result is pinned, token for token,
//! to the mathematical lexer [`spec_lex`], so lexing is a pure function of
//! the character sequence alone.

use vstd::prelude::*;

verus! {

use crate::parser::ast::BinOp;
use crate::parser::ast::ParseError;
use crate::parser::ast::VarType;

/// One lexical token kind; operators carry the [`BinOp`] they denote and
/// type keywords the [`VarType`] they name.
#[derive(Debug, PartialEq)]
pub enum TokenKind {
    Fun,
    Var,
    While,
    If,
    Return,
    BoolLit(bool),
    IntLit(i32),
    StrLit(String),
    Ident(String),
    Doc(String),
    TypeName(VarType),
    LParen,
    RParen,
    LBrace,
    RBrace,
    Comma,
    Colon,
    Semi,
    Arrow,
    Assign,
    Op(BinOp),
}

/// One token with the line and column (both starting at 1) where it begins.
#[derive(Debug, PartialEq)]
pub struct Token {
    pub kind: TokenKind,
    pub line: usize,
    pub col: usize,
}

/// Model of a [`TokenKind`], over character sequences.
pub enum TokKindM {
    Fun,
    Var,
    While,
    If,
    Return,
    BoolLit(bool),
    IntLit(i32),
    StrLit(Seq<char>),
    Ident(Seq<char>),
    Doc(Seq<char>),
    TypeName(VarType),
    LParen,
    RParen,
    LBrace,
    RBrace,
    Comma,
    Colon,
    Semi,
    Arrow,
    Assign,
    Op(BinOp),
}

/// Model of a [`Token`].
pub struct TokM {
    pub kind: TokKindM,
    pub line: int,
    pub col: int,
}

/// The model of a token kind.
pub open spec fn kind_model(k: TokenKind) -> TokKindM {
    match k {
        TokenKind::Fun => TokKindM::Fun,
        TokenKind::Var => TokKindM::Var,
        TokenKind::While => TokKindM::While,
        TokenKind::If => TokKindM::If,
        TokenKind::Return => TokKindM::Return,
        TokenKind::BoolLit(b) => TokKindM::BoolLit(b),
        TokenKind::IntLit(v) => TokKindM::IntLit(v),
        TokenKind::StrLit(s) => TokKindM::StrLit(s@),
        TokenKind::Ident(s) => TokKindM::Ident(s@),
        TokenKind::Doc(s) => TokKindM::Doc(s@),
        TokenKind::TypeName(t) => TokKindM::TypeName(t),
        TokenKind::LParen => TokKindM::LParen,
        TokenKind::RParen => TokKindM::RParen,
        TokenKind::LBrace => TokKindM::LBrace,
        TokenKind::RBrace => TokKindM::RBrace,
        TokenKind::Comma => TokKindM::Comma,
        TokenKind::Colon => TokKindM::Colon,
        TokenKind::Semi => TokKindM::Semi,
        TokenKind::Arrow => TokKindM::Arrow,
        TokenKind::Assign => TokKindM::Assign,
        TokenKind::Op(op) => TokKindM::Op(op),
    }
}

/// The model of a token.
pub open spec fn tok_model(t: Token) -> TokM {
    TokM { kind: kind_model(t.kind), line: t.line as int, col: t.col as int }
}

/// The models of a token sequence, in order.
pub open spec fn toks_model(v: Seq<Token>) -> Seq<TokM> {
    Seq::new(v.len(), |i: int| tok_model(v[i]))
}

// ---------------------------------------------------------------------------
// Character classes and scans.
// ---------------------------------------------------------------------------

/// Blank characters inside a line.
pub open spec fn is_blank(c: char) -> bool {
    c == ' ' || c == '\t' || c == '\r'
}

/// Decimal digits.
pub open spec fn is_digit_char(c: char) -> bool {
    48 <= c as u32 && c as u32 <= 57
}

/// Characters that may start an identifier.
pub open spec fn is_ident_start(c: char) -> bool {
    (97 <= c as u32 && c as u32 <= 122) || (65 <= c as u32 && c as u32 <= 90) || c == '_'
}

/// Characters that may continue an identifier.
pub open spec fn is_ident_char(c: char) -> bool {
    is_ident_start(c) || is_digit_char(c)
}

/// The first index at or after `i` that does not continue an identifier.
pub open spec fn scan_ident_end(s: Seq<char>, i: int) -> int
    decreases s.len() - i,
{
    if 0 <= i < s.len() && is_ident_char(s[i]) {
        scan_ident_end(s, i + 1)
    } else {
        i
    }
}

/// The first index at or after `i` that is not a digit.
pub open spec fn scan_digits_end(s: Seq<char>, i: int) -> int
    decreases s.len() - i,
{
    if 0 <= i < s.len() && is_digit_char(s[i]) {
        scan_digits_end(s, i + 1)
    } else {
        i
    }
}

/// The first index at or after `i` holding a quote or a line break.
pub open spec fn scan_str_end(s: Seq<char>, i: int) -> int
    decreases s.len() - i,
{
    if 0 <= i < s.len() && s[i] != '"' && s[i] != '\n' {
        scan_str_end(s, i + 1)
    } else {
        i
    }
}

/// The first index at or after `i` holding a line break.
pub open spec fn scan_line_end(s: Seq<char>, i: int) -> int
    decreases s.len() - i,
{
    if 0 <= i < s.len() && s[i] != '\n' {
        scan_line_end(s, i + 1)
    } else {
        i
    }
}

/// The first index in `[a, b)` holding a non-blank character, or `b`.
pub open spec fn skip_blank_fwd(s: Seq<char>, a: int, b: int) -> int
    decreases b - a,
{
    if a < b && 0 <= a < s.len() && is_blank(s[a]) {
        skip_blank_fwd(s, a + 1, b)
    } else {
        a
    }
}

/// One past the last index in `[a, b)` holding a non-blank character, or `a`.
pub open spec fn skip_blank_back(s: Seq<char>, a: int, b: int) -> int
    decreases b - a,
{
    if b > a && 0 <= b - 1 < s.len() && is_blank(s[b - 1]) {
        skip_blank_back(s, a, b - 1)
    } else {
        b
    }
}

/// The integer value of the digit run `s[i..j]`.
pub open spec fn digits_val(s: Seq<char>, i: int, j: int) -> int
    decreases j - i,
{
    if i >= j {
        0
    } else {
        digits_val(s, i, j - 1) * 10 + (s[j - 1] as u32 - 48)
    }
}

/// The trimmed documentation text of the characters `s[i..e]`: the marker's
/// text with surrounding blanks removed.
pub open spec fn doc_text(s: Seq<char>, i: int, e: int) -> Seq<char> {
    let a = skip_blank_fwd(s, i, e);
    let b = skip_blank_back(s, a, e);
    s.subrange(a, b)
}

/// The token kind denoted by a scanned word: a keyword or an identifier.
pub open spec fn keyword_kind(w: Seq<char>) -> TokKindM {
    if w == "fun"@ {
        TokKindM::Fun
    } else if w == "var"@ {
        TokKindM::Var
    } else if w == "while"@ {
        TokKindM::While
    } else if w == "if"@ {
        TokKindM::If
    } else if w == "return"@ {
        TokKindM::Return
    } else if w == "true"@ {
        TokKindM::BoolLit(true)
    } else if w == "false"@ {
        TokKindM::BoolLit(false)
    } else if w == "and"@ {
        TokKindM::Op(BinOp::And)
    } else if w == "or"@ {
        TokKindM::Op(BinOp::Or)
    } else if w == "int"@ {
        TokKindM::TypeName(VarType::Int)
    } else if w == "str"@ {
        TokKindM::TypeName(VarType::Str)
    } else if w == "bool"@ {
        TokKindM::TypeName(VarType::Bool)
    } else if w == "void"@ {
        TokKindM::TypeName(VarType::Void)
    } else {
        TokKindM::Ident(w)
    }
}

/// True when `s[i + 1]` exists and equals `c`.
pub open spec fn next_is(s: Seq<char>, i: int, c: char) -> bool {
    i + 1 < s.len() && s[i + 1] == c
}

// ---------------------------------------------------------------------------
// The mathematical lexer.
// ---------------------------------------------------------------------------

/// One lexing step at position `i`: either blank space to skip, one token,
/// or an error at the given position.
pub enum StepM {
    White(int, int, int),
    Tok(TokM, int, int, int),
    Bad(int, int),
}

/// What one lexing step at `s[i]` produces, with the updated position,
/// line and column.
pub open spec fn lex_step(s: Seq<char>, i: int, line: int, col: int) -> StepM
    recommends
        0 <= i < s.len(),
{
    let c = s[i];
    if is_blank(c) {
        StepM::White(i + 1, line, col + 1)
    } else if c == '\n' {
        StepM::White(i + 1, line + 1, 1)
    } else if c == '(' {
        StepM::Tok(TokM { kind: TokKindM::LParen, line, col }, i + 1, line, col + 1)
    } else if c == ')' {
        StepM::Tok(TokM { kind: TokKindM::RParen, line, col }, i + 1, line, col + 1)
    } else if c == '{' {
        StepM::Tok(TokM { kind: TokKindM::LBrace, line, col }, i + 1, line, col + 1)
    } else if c == '}' {
        StepM::Tok(TokM { kind: TokKindM::RBrace, line, col }, i + 1, line, col + 1)
    } else if c == ',' {
        StepM::Tok(TokM { kind: TokKindM::Comma, line, col }, i + 1, line, col + 1)
    } else if c == ':' {
        StepM::Tok(TokM { kind: TokKindM::Colon, line, col }, i + 1, line, col + 1)
    } else if c == ';' {
        StepM::Tok(TokM { kind: TokKindM::Semi, line, col }, i + 1, line, col + 1)
    } else if c == '/' {
        StepM::Tok(TokM { kind: TokKindM::Op(BinOp::Div), line, col }, i + 1, line, col + 1)
    } else if c == '%' {
        StepM::Tok(TokM { kind: TokKindM::Op(BinOp::Mod), line, col }, i + 1, line, col + 1)
    } else if c == '^' {
        StepM::Tok(TokM { kind: TokKindM::Op(BinOp::Power), line, col }, i + 1, line, col + 1)
    } else if c == '-' {
        if next_is(s, i, '-') && i + 2 < s.len() && s[i + 2] == '-' {
            let e = scan_line_end(s, i + 3);
            StepM::Tok(
                TokM { kind: TokKindM::Doc(doc_text(s, i + 3, e)), line, col },
                e,
                line,
                col + (e - i),
            )
        } else if next_is(s, i, '>') {
            StepM::Tok(TokM { kind: TokKindM::Arrow, line, col }, i + 2, line, col + 2)
        } else if next_is(s, i, '=') {
            StepM::Tok(
                TokM { kind: TokKindM::Op(BinOp::SubtractAssign), line, col },
                i + 2,
                line,
                col + 2,
            )
        } else {
            StepM::Tok(TokM { kind: TokKindM::Op(BinOp::Sub), line, col }, i + 1, line, col + 1)
        }
    } else if c == '+' {
        if next_is(s, i, '=') {
            StepM::Tok(
                TokM { kind: TokKindM::Op(BinOp::PlusAssign), line, col },
                i + 2,
                line,
                col + 2,
            )
        } else {
            StepM::Tok(TokM { kind: TokKindM::Op(BinOp::Add), line, col }, i + 1, line, col + 1)
        }
    } else if c == '*' {
        if next_is(s, i, '*') {
            StepM::Tok(TokM { kind: TokKindM::Op(BinOp::Power), line, col }, i + 2, line, col + 2)
        } else {
            StepM::Tok(TokM { kind: TokKindM::Op(BinOp::Mul), line, col }, i + 1, line, col + 1)
        }
    } else if c == '=' {
        if next_is(s, i, '=') {
            StepM::Tok(
                TokM { kind: TokKindM::Op(BinOp::IsEqual), line, col },
                i + 2,
                line,
                col + 2,
            )
        } else {
            StepM::Tok(TokM { kind: TokKindM::Assign, line, col }, i + 1, line, col + 1)
        }
    } else if c == '!' {
        if next_is(s, i, '=') {
            StepM::Tok(
                TokM { kind: TokKindM::Op(BinOp::NotEqual), line, col },
                i + 2,
                line,
                col + 2,
            )
        } else {
            StepM::Bad(line, col)
        }
    } else if c == '<' {
        if next_is(s, i, '=') {
            StepM::Tok(
                TokM { kind: TokKindM::Op(BinOp::LessThanOrEqual), line, col },
                i + 2,
                line,
                col + 2,
            )
        } else {
            StepM::Tok(
                TokM { kind: TokKindM::Op(BinOp::LessThan), line, col },
                i + 1,
                line,
                col + 1,
            )
        }
    } else if c == '>' {
        if next_is(s, i, '=') {
            StepM::Tok(
                TokM { kind: TokKindM::Op(BinOp::GreaterThanOrEqual), line, col },
                i + 2,
                line,
                col + 2,
            )
        } else {
            StepM::Tok(
                TokM { kind: TokKindM::Op(BinOp::GreaterThan), line, col },
                i + 1,
                line,
                col + 1,
            )
        }
    } else if c == '&' {
        if next_is(s, i, '&') {
            StepM::Tok(TokM { kind: TokKindM::Op(BinOp::And), line, col }, i + 2, line, col + 2)
        } else {
            StepM::Bad(line, col)
        }
    } else if c == '|' {
        if next_is(s, i, '|') {
            StepM::Tok(TokM { kind: TokKindM::Op(BinOp::Or), line, col }, i + 2, line, col + 2)
        } else {
            StepM::Bad(line, col)
        }
    } else if c == '"' {
        let e = scan_str_end(s, i + 1);
        if e < s.len() && s[e] == '"' {
            StepM::Tok(
                TokM { kind: TokKindM::StrLit(s.subrange(i + 1, e)), line, col },
                e + 1,
                line,
                col + (e + 1 - i),
            )
        } else {
            StepM::Bad(line, col)
        }
    } else if is_digit_char(c) {
        let e = scan_digits_end(s, i);
        let v = digits_val(s, i, e);
        if v > 2147483647 {
            StepM::Bad(line, col)
        } else {
            StepM::Tok(
                TokM { kind: TokKindM::IntLit(v as i32), line, col },
                e,
                line,
                col + (e - i),
            )
        }
    } else if is_ident_start(c) {
        let e = scan_ident_end(s, i);
        StepM::Tok(
            TokM { kind: keyword_kind(s.subrange(i, e)), line, col },
            e,
            line,
            col + (e - i),
        )
    } else {
        StepM::Bad(line, col)
    }
}

/// The result of lexing: a token sequence, or the position of the first
/// lexical error.
pub enum LexOut {
    Toks(Seq<TokM>),
    Fail(int, int),
}

/// The mathematical lexer: the token sequence denoted by `s[i..]`, starting
/// at the given line and column, or the position of the first error.
pub open spec fn spec_lex(s: Seq<char>, i: int, line: int, col: int) -> LexOut
    decreases s.len() - i,
{
    if !(0 <= i < s.len()) {
        LexOut::Toks(Seq::empty())
    } else {
        match lex_step(s, i, line, col) {
            StepM::White(i2, l2, c2) => if i < i2 <= s.len() {
                spec_lex(s, i2, l2, c2)
            } else {
                LexOut::Fail(line, col)
            },
            StepM::Tok(t, i2, l2, c2) => if i < i2 <= s.len() {
                match spec_lex(s, i2, l2, c2) {
                    LexOut::Toks(rest) => LexOut::Toks(seq![t] + rest),
                    LexOut::Fail(l, c) => LexOut::Fail(l, c),
                }
            } else {
                LexOut::Fail(line, col)
            },
            StepM::Bad(l, c) => LexOut::Fail(l, c),
        }
    }
}

// ---------------------------------------------------------------------------
// The executable lexer.
// ---------------------------------------------------------------------------

/// Relies on std's `String::push`: appends exactly the given character at
/// the end of the string.
#[verifier::external_body]
fn push_char(s: &mut String, c: char)
    ensures
        final(s)@ == old(s)@.push(c),
{
    s.push(c);
}

/// Builds the string holding the characters `s[a..b]`.
fn string_range(s: &Vec<char>, a: usize, b: usize) -> (r: String)
    requires
        a <= b <= s@.len(),
    ensures
        r@ == s@.subrange(a as int, b as int),
{
    let mut r = String::new();
    proof {
        assert(r@ =~= s@.subrange(a as int, a as int));
    }
    let mut k = a;
    while k < b
        invariant
            a <= k <= b <= s@.len(),
            r@ == s@.subrange(a as int, k as int),
        decreases b - k,
    {
        push_char(&mut r, s[k]);
        proof {
            assert(s@.subrange(a as int, k + 1 as int) =~= s@.subrange(a as int, k as int).push(
                s@[k as int],
            ));
        }
        k = k + 1;
    }
    r
}

/// Maps a scanned word to its keyword token kind, or to an identifier.
fn kind_of_word(w: String) -> (k: TokenKind)
    ensures
        kind_model(k) == keyword_kind(w@),
{
    if w == String::from_str("fun") {
        TokenKind::Fun
    } else if w == String::from_str("var") {
        TokenKind::Var
    } else if w == String::from_str("while") {
        TokenKind::While
    } else if w == String::from_str("if") {
        TokenKind::If
    } else if w == String::from_str("return") {
        TokenKind::Return
    } else if w == String::from_str("true") {
        TokenKind::BoolLit(true)
    } else if w == String::from_str("false") {
        TokenKind::BoolLit(false)
    } else if w == String::from_str("and") {
        TokenKind::Op(BinOp::And)
    } else if w == String::from_str("or") {
        TokenKind::Op(BinOp::Or)
    } else if w == String::from_str("int") {
        TokenKind::TypeName(VarType::Int)
    } else if w == String::from_str("str") {
        TokenKind::TypeName(VarType::Str)
    } else if w == String::from_str("bool") {
        TokenKind::TypeName(VarType::Bool)
    } else if w == String::from_str("void") {
        TokenKind::TypeName(VarType::Void)
    } else {
        TokenKind::Ident(w)
    }
}

/// Decides [`is_digit_char`].
fn is_digit_char_exec(c: char) -> (r: bool)
    ensures
        r == is_digit_char(c),
{
    48 <= c as u32 && c as u32 <= 57
}

/// Decides [`is_ident_start`].
fn is_ident_start_exec(c: char) -> (r: bool)
    ensures
        r == is_ident_start(c),
{
    (97 <= c as u32 && c as u32 <= 122) || (65 <= c as u32 && c as u32 <= 90) || c == '_'
}

/// Decides [`is_ident_char`].
fn is_ident_char_exec(c: char) -> (r: bool)
    ensures
        r == is_ident_char(c),
{
    is_ident_start_exec(c) || is_digit_char_exec(c)
}

/// Computes [`scan_ident_end`].
fn scan_ident_end_exec(s: &Vec<char>, i: usize) -> (r: usize)
    requires
        i <= s@.len(),
    ensures
        r as int == scan_ident_end(s@, i as int),
        i <= r <= s@.len(),
        i < s@.len() && is_ident_char(s@[i as int]) ==> i < r,
{
    let mut j = i;
    while j < s.len() && is_ident_char_exec(s[j])
        invariant
            i <= j <= s@.len(),
            scan_ident_end(s@, i as int) == scan_ident_end(s@, j as int),
        decreases s@.len() - j,
    {
        j = j + 1;
    }
    j
}

/// Computes [`scan_digits_end`].
fn scan_digits_end_exec(s: &Vec<char>, i: usize) -> (r: usize)
    requires
        i <= s@.len(),
    ensures
        r as int == scan_digits_end(s@, i as int),
        i <= r <= s@.len(),
        forall|k: int| i <= k < r ==> is_digit_char(s@[k]),
        i < s@.len() && is_digit_char(s@[i as int]) ==> i < r,
{
    let mut j = i;
    while j < s.len() && is_digit_char_exec(s[j])
        invariant
            i <= j <= s@.len(),
            scan_digits_end(s@, i as int) == scan_digits_end(s@, j as int),
            forall|k: int| i <= k < j ==> is_digit_char(s@[k]),
        decreases s@.len() - j,
    {
        j = j + 1;
    }
    j
}

/// Computes [`scan_str_end`].
fn scan_str_end_exec(s: &Vec<char>, i: usize) -> (r: usize)
    requires
        i <= s@.len(),
    ensures
        r as int == scan_str_end(s@, i as int),
        i <= r <= s@.len(),
{
    let mut j = i;
    while j < s.len() && s[j] != '"' && s[j] != '\n'
        invariant
            i <= j <= s@.len(),
            scan_str_end(s@, i as int) == scan_str_end(s@, j as int),
        decreases s@.len() - j,
    {
        j = j + 1;
    }
    j
}

/// Computes [`scan_line_end`].
fn scan_line_end_exec(s: &Vec<char>, i: usize) -> (r: usize)
    requires
        i <= s@.len(),
    ensures
        r as int == scan_line_end(s@, i as int),
        i <= r <= s@.len(),
{
    let mut j = i;
    while j < s.len() && s[j] != '\n'
        invariant
            i <= j <= s@.len(),
            scan_line_end(s@, i as int) == scan_line_end(s@, j as int),
        decreases s@.len() - j,
    {
        j = j + 1;
    }
    j
}

/// Computes [`skip_blank_fwd`].
fn skip_blank_fwd_exec(s: &Vec<char>, a: usize, b: usize) -> (r: usize)
    requires
        a <= b <= s@.len(),
    ensures
        r as int == skip_blank_fwd(s@, a as int, b as int),
        a <= r <= b,
{
    let mut j = a;
    while j < b && (s[j] == ' ' || s[j] == '\t' || s[j] == '\r')
        invariant
            a <= j <= b <= s@.len(),
            skip_blank_fwd(s@, a as int, b as int) == skip_blank_fwd(s@, j as int, b as int),
        decreases b - j,
    {
        j = j + 1;
    }
    j
}

/// Computes [`skip_blank_back`].
fn skip_blank_back_exec(s: &Vec<char>, a: usize, b: usize) -> (r: usize)
    requires
        a <= b <= s@.len(),
    ensures
        r as int == skip_blank_back(s@, a as int, b as int),
        a <= r <= b,
{
    let mut j = b;
    while j > a && (s[j - 1] == ' ' || s[j - 1] == '\t' || s[j - 1] == '\r')
        invariant
            a <= j <= b <= s@.len(),
            skip_blank_back(s@, a as int, b as int) == skip_blank_back(s@, a as int, j as int),
        decreases j,
    {
        j = j - 1;
    }
    j
}

/// Computes `min(digits_val(s[i..e]), 2147483648)`: the literal's value,
/// saturated one past the largest representable integer so that overflow is
/// detected exactly.
fn digits_val_exec(s: &Vec<char>, i: usize, e: usize) -> (r: u64)
    requires
        i <= e <= s@.len(),
        forall|k: int| i <= k < e ==> is_digit_char(s@[k]),
    ensures
        digits_val(s@, i as int, e as int) > 2147483647 ==> r == 2147483648u64,
        digits_val(s@, i as int, e as int) <= 2147483647 ==> r as int == digits_val(
            s@,
            i as int,
            e as int,
        ),
{
    let mut acc: u64 = 0;
    let mut k = i;
    while k < e
        invariant
            i <= k <= e <= s@.len(),
            forall|m: int| i <= m < e ==> is_digit_char(s@[m]),
            0 <= digits_val(s@, i as int, k as int),
            digits_val(s@, i as int, k as int) > 2147483647 ==> acc == 2147483648u64,
            digits_val(s@, i as int, k as int) <= 2147483647 ==> acc as int == digits_val(
                s@,
                i as int,
                k as int,
            ),
        decreases e - k,
    {
        let d = (s[k] as u32 - 48) as u64;
        let t = acc * 10 + d;
        let next = if t > 2147483647 {
            2147483648u64
        } else {
            t
        };
        proof {
            assert(digits_val(s@, i as int, k + 1 as int) == digits_val(s@, i as int, k as int)
                * 10 + (s@[k as int] as u32 - 48));
        }
        acc = next;
        k = k + 1;
    }
    acc
}

/// One executable lexing step.
enum StepE {
    White(usize, usize, usize),
    Tok(Token, usize, usize, usize),
    Bad(usize, usize),
}

/// Performs one lexing step, exactly as [`lex_step`] describes it.
#[verifier::rlimit(40)]
fn lex_step_exec(s: &Vec<char>, i: usize, line: usize, col: usize) -> (r: StepE)
    requires
        i < s@.len(),
        s@.len() < usize::MAX,
        line <= i + 1,
        col <= i + 1,
    ensures
        match r {
            StepE::White(i2, l2, c2) => lex_step(s@, i as int, line as int, col as int)
                == StepM::White(i2 as int, l2 as int, c2 as int) && i < i2 <= s@.len() && l2 <= i2
                + 1 && c2 <= i2 + 1,
            StepE::Tok(t, i2, l2, c2) => lex_step(s@, i as int, line as int, col as int)
                == StepM::Tok(tok_model(t), i2 as int, l2 as int, c2 as int) && i < i2 <= s@.len()
                && l2 <= i2 + 1 && c2 <= i2 + 1,
            StepE::Bad(l, c) => lex_step(s@, i as int, line as int, col as int) == StepM::Bad(
                l as int,
                c as int,
            ),
        },
{
    let c = s[i];
    if c == ' ' || c == '\t' || c == '\r' {
        StepE::White(i + 1, line, col + 1)
    } else if c == '\n' {
        StepE::White(i + 1, line + 1, 1)
    } else if c == '(' {
        StepE::Tok(Token { kind: TokenKind::LParen, line, col }, i + 1, line, col + 1)
    } else if c == ')' {
        StepE::Tok(Token { kind: TokenKind::RParen, line, col }, i + 1, line, col + 1)
    } else if c == '{' {
        StepE::Tok(Token { kind: TokenKind::LBrace, line, col }, i + 1, line, col + 1)
    } else if c == '}' {
        StepE::Tok(Token { kind: TokenKind::RBrace, line, col }, i + 1, line, col + 1)
    } else if c == ',' {
        StepE::Tok(Token { kind: TokenKind::Comma, line, col }, i + 1, line, col + 1)
    } else if c == ':' {
        StepE::Tok(Token { kind: TokenKind::Colon, line, col }, i + 1, line, col + 1)
    } else if c == ';' {
        StepE::Tok(Token { kind: TokenKind::Semi, line, col }, i + 1, line, col + 1)
    } else if c == '/' {
        StepE::Tok(Token { kind: TokenKind::Op(BinOp::Div), line, col }, i + 1, line, col + 1)
    } else if c == '%' {
        StepE::Tok(Token { kind: TokenKind::Op(BinOp::Mod), line, col }, i + 1, line, col + 1)
    } else if c == '^' {
        StepE::Tok(Token { kind: TokenKind::Op(BinOp::Power), line, col }, i + 1, line, col + 1)
    } else if c == '-' {
        if i + 2 < s.len() && s[i + 1] == '-' && s[i + 2] == '-' {
            let e = scan_line_end_exec(s, i + 3);
            let a = skip_blank_fwd_exec(s, i + 3, e);
            let b = skip_blank_back_exec(s, a, e);
            let text = string_range(s, a, b);
            StepE::Tok(Token { kind: TokenKind::Doc(text), line, col }, e, line, col + (e - i))
        } else if i + 1 < s.len() && s[i + 1] == '>' {
            StepE::Tok(Token { kind: TokenKind::Arrow, line, col }, i + 2, line, col + 2)
        } else if i + 1 < s.len() && s[i + 1] == '=' {
            StepE::Tok(
                Token { kind: TokenKind::Op(BinOp::SubtractAssign), line, col },
                i + 2,
                line,
                col + 2,
            )
        } else {
            StepE::Tok(Token { kind: TokenKind::Op(BinOp::Sub), line, col }, i + 1, line, col + 1)
        }
    } else if c == '+' {
        if i + 1 < s.len() && s[i + 1] == '=' {
            StepE::Tok(
                Token { kind: TokenKind::Op(BinOp::PlusAssign), line, col },
                i + 2,
                line,
                col + 2,
            )
        } else {
            StepE::Tok(Token { kind: TokenKind::Op(BinOp::Add), line, col }, i + 1, line, col + 1)
        }
    } else if c == '*' {
        if i + 1 < s.len() && s[i + 1] == '*' {
            StepE::Tok(
                Token { kind: TokenKind::Op(BinOp::Power), line, col },
                i + 2,
                line,
                col + 2,
            )
        } else {
            StepE::Tok(Token { kind: TokenKind::Op(BinOp::Mul), line, col }, i + 1, line, col + 1)
        }
    } else if c == '=' {
        if i + 1 < s.len() && s[i + 1] == '=' {
            StepE::Tok(
                Token { kind: TokenKind::Op(BinOp::IsEqual), line, col },
                i + 2,
                line,
                col + 2,
            )
        } else {
            StepE::Tok(Token { kind: TokenKind::Assign, line, col }, i + 1, line, col + 1)
        }
    } else if c == '!' {
        if i + 1 < s.len() && s[i + 1] == '=' {
            StepE::Tok(
                Token { kind: TokenKind::Op(BinOp::NotEqual), line, col },
                i + 2,
                line,
                col + 2,
            )
        } else {
            StepE::Bad(line, col)
        }
    } else if c == '<' {
        if i + 1 < s.len() && s[i + 1] == '=' {
            StepE::Tok(
                Token { kind: TokenKind::Op(BinOp::LessThanOrEqual), line, col },
                i + 2,
                line,
                col + 2,
            )
        } else {
            StepE::Tok(
                Token { kind: TokenKind::Op(BinOp::LessThan), line, col },
                i + 1,
                line,
                col + 1,
            )
        }
    } else if c == '>' {
        if i + 1 < s.len() && s[i + 1] == '=' {
            StepE::Tok(
                Token { kind: TokenKind::Op(BinOp::GreaterThanOrEqual), line, col },
                i + 2,
                line,
                col + 2,
            )
        } else {
            StepE::Tok(
                Token { kind: TokenKind::Op(BinOp::GreaterThan), line, col },
                i + 1,
                line,
                col + 1,
            )
        }
    } else if c == '&' {
        if i + 1 < s.len() && s[i + 1] == '&' {
            StepE::Tok(Token { kind: TokenKind::Op(BinOp::And), line, col }, i + 2, line, col + 2)
        } else {
            StepE::Bad(line, col)
        }
    } else if c == '|' {
        if i + 1 < s.len() && s[i + 1] == '|' {
            StepE::Tok(Token { kind: TokenKind::Op(BinOp::Or), line, col }, i + 2, line, col + 2)
        } else {
            StepE::Bad(line, col)
        }
    } else if c == '"' {
        let e = scan_str_end_exec(s, i + 1);
        if e < s.len() && s[e] == '"' {
            let text = string_range(s, i + 1, e);
            StepE::Tok(
                Token { kind: TokenKind::StrLit(text), line, col },
                e + 1,
                line,
                col + (e + 1 - i),
            )
        } else {
            StepE::Bad(line, col)
        }
    } else if 48 <= c as u32 && c as u32 <= 57 {
        let e = scan_digits_end_exec(s, i);
        let v = digits_val_exec(s, i, e);
        if v > 2147483647 {
            StepE::Bad(line, col)
        } else {
            StepE::Tok(
                Token { kind: TokenKind::IntLit(v as i32), line, col },
                e,
                line,
                col + (e - i),
            )
        }
    } else if (97 <= c as u32 && c as u32 <= 122) || (65 <= c as u32 && c as u32 <= 90) || c
        == '_' {
        let e = scan_ident_end_exec(s, i);
        let word = string_range(s, i, e);
        let kind = kind_of_word(word);
        StepE::Tok(Token { kind, line, col }, e, line, col + (e - i))
    } else {
        StepE::Bad(line, col)
    }
}

/// The executable lexer: turns the character sequence into the token stream
/// that [`spec_lex`] denotes, or reports the first error with its position.
pub fn lex(src: &Vec<char>) -> (r: Result<Vec<Token>, ParseError>)
    requires
        src@.len() < usize::MAX,
    ensures
        match r {
            Ok(toks) => spec_lex(src@, 0, 1, 1) == LexOut::Toks(toks_model(toks@)) && toks@.len()
                <= src@.len(),
            Err(e) => spec_lex(src@, 0, 1, 1) == LexOut::Fail(e.line as int, e.col as int),
        },
{
    let mut toks: Vec<Token> = Vec::new();
    let mut i: usize = 0;
    let mut line: usize = 1;
    let mut col: usize = 1;
    while i < src.len()
        invariant
            src@.len() < usize::MAX,
            i <= src@.len(),
            line <= i + 1,
            col <= i + 1,
            toks@.len() <= i,
            match spec_lex(src@, i as int, line as int, col as int) {
                LexOut::Toks(rest) => spec_lex(src@, 0, 1, 1) == LexOut::Toks(
                    toks_model(toks@) + rest,
                ),
                LexOut::Fail(l, c) => spec_lex(src@, 0, 1, 1) == LexOut::Fail(l, c),
            },
        decreases src@.len() - i,
    {
        let step = lex_step_exec(src, i, line, col);
        match step {
            StepE::White(i2, l2, c2) => {
                i = i2;
                line = l2;
                col = c2;
            },
            StepE::Tok(t, i2, l2, c2) => {
                let ghost prev = toks@;
                let ghost tm = tok_model(t);
                toks.push(t);
                proof {
                    assert(toks_model(toks@) =~= toks_model(prev) + seq![tm]);
                    match spec_lex(src@, i2 as int, l2 as int, c2 as int) {
                        LexOut::Toks(rest2) => {
                            assert(toks_model(prev) + (seq![tm] + rest2) =~= (toks_model(prev)
                                + seq![tm]) + rest2);
                        },
                        LexOut::Fail(l, c) => {},
                    }
                }
                i = i2;
                line = l2;
                col = c2;
            },
            StepE::Bad(l, c) => {
                return Err(
                    ParseError {
                        msg: String::from_str("unrecognized or malformed token"),
                        line: l,
                        col: c,
                    },
                );
            },
        }
    }
    proof {
        assert(toks_model(toks@) + Seq::<TokM>::empty() =~= toks_model(toks@));
    }
    Ok(toks)
}

} // verus!
