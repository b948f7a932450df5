//! Tokenizer for the template-expression language.
//!
//! Only what an expression inside `{{ ... }}`, `:attr="..."`, `@event="..."`
//! and `cv-X="..."` needs. The source is read byte by byte: outside string
//! and template literals only ASCII forms tokens, and any other byte is an
//! "unexpected character" (named by the byte's code); inside literals the
//! UTF-8 characters of the source are kept whole.
use vstd::prelude::*;
use crate::text::{
    number_debug, number_display, push_char, push_number_debug, push_number_display, push_str_debug,
    str_debug,
};
use vstd::string::StringSliceAdditionalSpecFns;
use vstd::utf8::{decode_utf8, is_char_boundary};

verus! {

/// A lexical token of the template-expression language.
#[derive(Debug, Clone, PartialEq)]
pub enum Token {
    /// A number literal, as written (digits with at most one decimal point).
    Number(String),
    /// A quoted string literal: its contents, quotes stripped, escapes resolved.
    String(String),
    /// A backtick template literal: its raw contents.
    Template(String),
    True,
    False,
    Null,
    Undefined,
    /// An identifier (also `$event`, `$store`, ...).
    Ident(String),
    Dot,
    Comma,
    Colon,
    Semicolon,
    Question,
    LParen,
    RParen,
    LBracket,
    RBracket,
    LBrace,
    RBrace,
    Arrow,  // =>
    Assign,  // =
    PlusAssign,  // +=
    MinusAssign,  // -=
    StarAssign,  // *=
    SlashAssign,  // /=
    PercentAssign,  // %=
    Plus,
    Minus,
    Star,
    Slash,
    Percent,
    Bang,  // !
    BangEq,  // !=
    BangEqEq,  // !==
    Eq,  // ==
    EqEq,  // ===
    Lt,
    LtEq,
    Gt,
    GtEq,
    AmpAmp,  // &&
    PipePipe,  // ||
    QuestionQuestion,  // ??
    QuestionDot,  // ?.
    PlusPlus,
    MinusMinus,
    Spread,  // ...
}

/// The mathematical model of a `Token`.
pub enum SpecToken {
    Number(Seq<char>),
    Str(Seq<char>),
    Template(Seq<char>),
    True,
    False,
    Null,
    Undefined,
    Ident(Seq<char>),
    Dot,
    Comma,
    Colon,
    Semicolon,
    Question,
    LParen,
    RParen,
    LBracket,
    RBracket,
    LBrace,
    RBrace,
    Arrow,
    Assign,
    PlusAssign,
    MinusAssign,
    StarAssign,
    SlashAssign,
    PercentAssign,
    Plus,
    Minus,
    Star,
    Slash,
    Percent,
    Bang,
    BangEq,
    BangEqEq,
    Eq,
    EqEq,
    Lt,
    LtEq,
    Gt,
    GtEq,
    AmpAmp,
    PipePipe,
    QuestionQuestion,
    QuestionDot,
    PlusPlus,
    MinusMinus,
    Spread,
}

impl View for Token {
    type V = SpecToken;

    open spec fn view(&self) -> SpecToken {
        match self {
            Token::Number(s) => SpecToken::Number(s@),
            Token::String(s) => SpecToken::Str(s@),
            Token::Template(s) => SpecToken::Template(s@),
            Token::Ident(s) => SpecToken::Ident(s@),
            Token::True => SpecToken::True,
            Token::False => SpecToken::False,
            Token::Null => SpecToken::Null,
            Token::Undefined => SpecToken::Undefined,
            Token::Dot => SpecToken::Dot,
            Token::Comma => SpecToken::Comma,
            Token::Colon => SpecToken::Colon,
            Token::Semicolon => SpecToken::Semicolon,
            Token::Question => SpecToken::Question,
            Token::LParen => SpecToken::LParen,
            Token::RParen => SpecToken::RParen,
            Token::LBracket => SpecToken::LBracket,
            Token::RBracket => SpecToken::RBracket,
            Token::LBrace => SpecToken::LBrace,
            Token::RBrace => SpecToken::RBrace,
            Token::Arrow => SpecToken::Arrow,
            Token::Assign => SpecToken::Assign,
            Token::PlusAssign => SpecToken::PlusAssign,
            Token::MinusAssign => SpecToken::MinusAssign,
            Token::StarAssign => SpecToken::StarAssign,
            Token::SlashAssign => SpecToken::SlashAssign,
            Token::PercentAssign => SpecToken::PercentAssign,
            Token::Plus => SpecToken::Plus,
            Token::Minus => SpecToken::Minus,
            Token::Star => SpecToken::Star,
            Token::Slash => SpecToken::Slash,
            Token::Percent => SpecToken::Percent,
            Token::Bang => SpecToken::Bang,
            Token::BangEq => SpecToken::BangEq,
            Token::BangEqEq => SpecToken::BangEqEq,
            Token::Eq => SpecToken::Eq,
            Token::EqEq => SpecToken::EqEq,
            Token::Lt => SpecToken::Lt,
            Token::LtEq => SpecToken::LtEq,
            Token::Gt => SpecToken::Gt,
            Token::GtEq => SpecToken::GtEq,
            Token::AmpAmp => SpecToken::AmpAmp,
            Token::PipePipe => SpecToken::PipePipe,
            Token::QuestionQuestion => SpecToken::QuestionQuestion,
            Token::QuestionDot => SpecToken::QuestionDot,
            Token::PlusPlus => SpecToken::PlusPlus,
            Token::MinusMinus => SpecToken::MinusMinus,
            Token::Spread => SpecToken::Spread,
        }
    }
}

/// The name of a token's variant, as `{:?}` prints it.
pub open spec fn token_name(t: SpecToken) -> Seq<char> {
    match t {
        SpecToken::Number(_) => "Number"@,
        SpecToken::Str(_) => "String"@,
        SpecToken::Template(_) => "Template"@,
        SpecToken::Ident(_) => "Ident"@,
        SpecToken::True => "True"@,
        SpecToken::False => "False"@,
        SpecToken::Null => "Null"@,
        SpecToken::Undefined => "Undefined"@,
        SpecToken::Dot => "Dot"@,
        SpecToken::Comma => "Comma"@,
        SpecToken::Colon => "Colon"@,
        SpecToken::Semicolon => "Semicolon"@,
        SpecToken::Question => "Question"@,
        SpecToken::LParen => "LParen"@,
        SpecToken::RParen => "RParen"@,
        SpecToken::LBracket => "LBracket"@,
        SpecToken::RBracket => "RBracket"@,
        SpecToken::LBrace => "LBrace"@,
        SpecToken::RBrace => "RBrace"@,
        SpecToken::Arrow => "Arrow"@,
        SpecToken::Assign => "Assign"@,
        SpecToken::PlusAssign => "PlusAssign"@,
        SpecToken::MinusAssign => "MinusAssign"@,
        SpecToken::StarAssign => "StarAssign"@,
        SpecToken::SlashAssign => "SlashAssign"@,
        SpecToken::PercentAssign => "PercentAssign"@,
        SpecToken::Plus => "Plus"@,
        SpecToken::Minus => "Minus"@,
        SpecToken::Star => "Star"@,
        SpecToken::Slash => "Slash"@,
        SpecToken::Percent => "Percent"@,
        SpecToken::Bang => "Bang"@,
        SpecToken::BangEq => "BangEq"@,
        SpecToken::BangEqEq => "BangEqEq"@,
        SpecToken::Eq => "Eq"@,
        SpecToken::EqEq => "EqEq"@,
        SpecToken::Lt => "Lt"@,
        SpecToken::LtEq => "LtEq"@,
        SpecToken::Gt => "Gt"@,
        SpecToken::GtEq => "GtEq"@,
        SpecToken::AmpAmp => "AmpAmp"@,
        SpecToken::PipePipe => "PipePipe"@,
        SpecToken::QuestionQuestion => "QuestionQuestion"@,
        SpecToken::QuestionDot => "QuestionDot"@,
        SpecToken::PlusPlus => "PlusPlus"@,
        SpecToken::MinusMinus => "MinusMinus"@,
        SpecToken::Spread => "Spread"@,
    }
}

impl Token {
    /// The name of this token's variant.
    pub fn name(&self) -> (r: &'static str)
        ensures
            r@ == token_name(self@),
    {
        match self {
            Token::Number(_) => "Number",
            Token::String(_) => "String",
            Token::Template(_) => "Template",
            Token::Ident(_) => "Ident",
            Token::True => "True",
            Token::False => "False",
            Token::Null => "Null",
            Token::Undefined => "Undefined",
            Token::Dot => "Dot",
            Token::Comma => "Comma",
            Token::Colon => "Colon",
            Token::Semicolon => "Semicolon",
            Token::Question => "Question",
            Token::LParen => "LParen",
            Token::RParen => "RParen",
            Token::LBracket => "LBracket",
            Token::RBracket => "RBracket",
            Token::LBrace => "LBrace",
            Token::RBrace => "RBrace",
            Token::Arrow => "Arrow",
            Token::Assign => "Assign",
            Token::PlusAssign => "PlusAssign",
            Token::MinusAssign => "MinusAssign",
            Token::StarAssign => "StarAssign",
            Token::SlashAssign => "SlashAssign",
            Token::PercentAssign => "PercentAssign",
            Token::Plus => "Plus",
            Token::Minus => "Minus",
            Token::Star => "Star",
            Token::Slash => "Slash",
            Token::Percent => "Percent",
            Token::Bang => "Bang",
            Token::BangEq => "BangEq",
            Token::BangEqEq => "BangEqEq",
            Token::Eq => "Eq",
            Token::EqEq => "EqEq",
            Token::Lt => "Lt",
            Token::LtEq => "LtEq",
            Token::Gt => "Gt",
            Token::GtEq => "GtEq",
            Token::AmpAmp => "AmpAmp",
            Token::PipePipe => "PipePipe",
            Token::QuestionQuestion => "QuestionQuestion",
            Token::QuestionDot => "QuestionDot",
            Token::PlusPlus => "PlusPlus",
            Token::MinusMinus => "MinusMinus",
            Token::Spread => "Spread",
        }
    }
}

/// A token with the byte span `[start, end)` it was read from.
#[derive(Debug, Clone, PartialEq)]
pub struct Spanned {
    pub token: Token,
    pub start: usize,
    pub end: usize,
}

/// The mathematical model of a `Spanned`.
pub struct SpecSpanned {
    pub token: SpecToken,
    pub start: int,
    pub end: int,
}

impl View for Spanned {
    type V = SpecSpanned;

    open spec fn view(&self) -> SpecSpanned {
        SpecSpanned { token: self.token@, start: self.start as int, end: self.end as int }
    }
}

/// The models of a sequence of spanned tokens.
pub open spec fn spans_view(v: Seq<Spanned>) -> Seq<SpecSpanned> {
    v.map_values(|s: Spanned| s@)
}

/// A tokenizer failure: a message and the byte offset it refers to.
#[derive(Debug, Clone, PartialEq)]
pub struct LexError {
    pub message: String,
    pub pos: usize,
}

// ---------------------------------------------------------------------------
// The lexical grammar, over the source's bytes
// ---------------------------------------------------------------------------

pub open spec fn is_digit(b: u8) -> bool {
    48 <= b && b <= 57
}

pub open spec fn is_alpha(b: u8) -> bool {
    (65 <= b && b <= 90) || (97 <= b && b <= 122)
}

pub open spec fn is_ident_start(b: u8) -> bool {
    b == 95 || b == 36 || is_alpha(b)
}

pub open spec fn is_ident_part(b: u8) -> bool {
    is_ident_start(b) || is_digit(b)
}

/// ASCII white space: tab, line feed, vertical tab, form feed, carriage
/// return and space. (The other single bytes that name a white-space
/// character, 0x85 and 0xA0, only occur in UTF-8 text inside a multi-byte
/// character, whose first byte the tokenizer already rejects.)
pub open spec fn is_space(b: u8) -> bool {
    (9 <= b && b <= 13) || b == 32
}

/// The bytes read as characters.
pub open spec fn bytes_chars(b: Seq<u8>) -> Seq<char> {
    b.map_values(|x: u8| x as char)
}

/// Whether a number literal starts at `i`: a digit, or a `.` followed by one.
pub open spec fn starts_number(b: Seq<u8>, i: int) -> bool {
    is_digit(b[i]) || (b[i] == 46 && i + 1 < b.len() && is_digit(b[i + 1]))
}

/// End of the number literal scanned from `j` on: digits, and at most one
/// `.` that is followed by a digit.
pub open spec fn number_end(b: Seq<u8>, j: int, saw_dot: bool) -> int
    decreases b.len() - j,
{
    if j < 0 || j >= b.len() {
        j
    } else if is_digit(b[j]) {
        number_end(b, j + 1, saw_dot)
    } else if b[j] == 46 && !saw_dot && j + 1 < b.len() && is_digit(b[j + 1]) {
        number_end(b, j + 1, true)
    } else {
        j
    }
}

/// End of the run of identifier characters from `j` on.
pub open spec fn ident_end(b: Seq<u8>, j: int) -> int
    decreases b.len() - j,
{
    if 0 <= j < b.len() && is_ident_part(b[j]) {
        ident_end(b, j + 1)
    } else {
        j
    }
}

/// The words of asynchronous and generator code, `await` and `yield`, which
/// template expressions do not support.
pub open spec fn is_reserved_word(w: Seq<u8>) -> bool {
    w == seq![97u8, 119, 97, 105, 116] || w == seq![121u8, 105, 101, 108, 100]
}

/// The token for an identifier-shaped word: a keyword or an identifier.
pub open spec fn word_token(w: Seq<u8>) -> SpecToken {
    if w == seq![116u8, 114, 117, 101] {
        SpecToken::True
    } else if w == seq![102u8, 97, 108, 115, 101] {
        SpecToken::False
    } else if w == seq![110u8, 117, 108, 108] {
        SpecToken::Null
    } else if w == seq![117u8, 110, 100, 101, 102, 105, 110, 101, 100] {
        SpecToken::Undefined
    } else {
        SpecToken::Ident(bytes_chars(w))
    }
}

/// The characters a backslash escape `\e` stands for inside a quoted string.
pub open spec fn escaped(e: u8) -> Seq<char> {
    if e == 110 {
        seq!['\n']
    } else if e == 116 {
        seq!['\t']
    } else if e == 114 {
        seq!['\r']
    } else if e == 92 {
        seq!['\\']
    } else if e == 39 {
        seq!['\'']
    } else if e == 34 {
        seq!['"']
    } else if e == 96 {
        seq!['`']
    } else if e == 48 {
        seq!['\0']
    } else {
        seq!['\\', e as char]
    }
}

/// The number of bytes in the UTF-8 encoding of a character whose first byte
/// is `x` (1 for an ASCII byte, or for a byte that starts no character).
pub open spec fn utf8_width(x: u8) -> int {
    if 0xF0 <= x {
        4
    } else if 0xE0 <= x {
        3
    } else if 0xC0 <= x {
        2
    } else {
        1
    }
}

/// Whether the bytes `b[j..e]` are whole characters of the UTF-8 text `b`.
pub open spec fn whole_chars(b: Seq<u8>, j: int, e: int) -> bool {
    is_char_boundary(b, e) && is_char_boundary(b.subrange(0, e), j)
}

/// Whether a whole non-ASCII character starts at byte `j`.
pub open spec fn wide_char_at(b: Seq<u8>, j: int) -> bool {
    128 <= b[j] && j + utf8_width(b[j]) <= b.len() && whole_chars(b, j, j + utf8_width(b[j]))
}

/// Scans the body of a quoted string from `j` on, with `acc` read so far:
/// its contents (the source characters, with escapes resolved) and the end
/// just past the closing quote, or `None` when the string is not closed.
pub open spec fn scan_quoted(b: Seq<u8>, j: int, quote: u8, acc: Seq<char>) -> Option<(Seq<char>, int)>
    decreases b.len() - j,
{
    if j < 0 || j >= b.len() {
        None
    } else if b[j] == 92 && j + 1 < b.len() && b[j + 1] < 128 {
        scan_quoted(b, j + 2, quote, acc + escaped(b[j + 1]))
    } else if b[j] == quote {
        Some((acc, j + 1))
    } else if wide_char_at(b, j) {
        let e = j + utf8_width(b[j]);
        scan_quoted(b, e, quote, acc + decode_utf8(b.subrange(j, e)))
    } else {
        scan_quoted(b, j + 1, quote, acc.push(b[j] as char))
    }
}

/// Scans the body of a template literal from `j` on: its raw contents (the
/// source characters; a backslash and the character after it are kept as
/// they are) and the end just past the closing backtick, or `None` when it is
/// not closed.
pub open spec fn scan_template(b: Seq<u8>, j: int, acc: Seq<char>) -> Option<(Seq<char>, int)>
    decreases b.len() - j,
{
    if j < 0 || j >= b.len() {
        None
    } else if b[j] == 92 && j + 1 < b.len() && b[j + 1] < 128 {
        scan_template(b, j + 2, acc.push('\\').push(b[j + 1] as char))
    } else if b[j] == 96 {
        Some((acc, j + 1))
    } else if wide_char_at(b, j) {
        let e = j + utf8_width(b[j]);
        scan_template(b, e, acc + decode_utf8(b.subrange(j, e)))
    } else {
        scan_template(b, j + 1, acc.push(b[j] as char))
    }
}

/// Three-character operators at `i`.
pub open spec fn three_punct(b: Seq<u8>, i: int) -> Option<SpecToken> {
    if 0 <= i && i + 2 < b.len() {
        let (x, y, z) = (b[i], b[i + 1], b[i + 2]);
        if x == 61 && y == 61 && z == 61 {
            Some(SpecToken::EqEq)
        } else if x == 33 && y == 61 && z == 61 {
            Some(SpecToken::BangEqEq)
        } else if x == 46 && y == 46 && z == 46 {
            Some(SpecToken::Spread)
        } else {
            None
        }
    } else {
        None
    }
}

/// Two-character operators made of `x` then `y`.
pub open spec fn two_punct_of(x: u8, y: u8) -> Option<SpecToken> {
    if x == 61 && y == 61 {
        Some(SpecToken::Eq)
    } else if x == 33 && y == 61 {
        Some(SpecToken::BangEq)
    } else if x == 60 && y == 61 {
        Some(SpecToken::LtEq)
    } else if x == 62 && y == 61 {
        Some(SpecToken::GtEq)
    } else if x == 38 && y == 38 {
        Some(SpecToken::AmpAmp)
    } else if x == 124 && y == 124 {
        Some(SpecToken::PipePipe)
    } else if x == 63 && y == 63 {
        Some(SpecToken::QuestionQuestion)
    } else if x == 63 && y == 46 {
        Some(SpecToken::QuestionDot)
    } else if x == 43 && y == 43 {
        Some(SpecToken::PlusPlus)
    } else if x == 45 && y == 45 {
        Some(SpecToken::MinusMinus)
    } else if x == 61 && y == 62 {
        Some(SpecToken::Arrow)
    } else if x == 43 && y == 61 {
        Some(SpecToken::PlusAssign)
    } else if x == 45 && y == 61 {
        Some(SpecToken::MinusAssign)
    } else if x == 42 && y == 61 {
        Some(SpecToken::StarAssign)
    } else if x == 47 && y == 61 {
        Some(SpecToken::SlashAssign)
    } else if x == 37 && y == 61 {
        Some(SpecToken::PercentAssign)
    } else {
        None
    }
}

/// Two-character operators at `i`.
pub open spec fn two_punct(b: Seq<u8>, i: int) -> Option<SpecToken> {
    if 0 <= i && i + 1 < b.len() {
        two_punct_of(b[i], b[i + 1])
    } else {
        None
    }
}

/// Single-character punctuation.
pub open spec fn one_punct(x: u8) -> Option<SpecToken> {
    if x == 46 {
        Some(SpecToken::Dot)
    } else if x == 44 {
        Some(SpecToken::Comma)
    } else if x == 58 {
        Some(SpecToken::Colon)
    } else if x == 59 {
        Some(SpecToken::Semicolon)
    } else if x == 63 {
        Some(SpecToken::Question)
    } else if x == 40 {
        Some(SpecToken::LParen)
    } else if x == 41 {
        Some(SpecToken::RParen)
    } else if x == 91 {
        Some(SpecToken::LBracket)
    } else if x == 93 {
        Some(SpecToken::RBracket)
    } else if x == 123 {
        Some(SpecToken::LBrace)
    } else if x == 125 {
        Some(SpecToken::RBrace)
    } else if x == 43 {
        Some(SpecToken::Plus)
    } else if x == 45 {
        Some(SpecToken::Minus)
    } else if x == 42 {
        Some(SpecToken::Star)
    } else if x == 47 {
        Some(SpecToken::Slash)
    } else if x == 37 {
        Some(SpecToken::Percent)
    } else if x == 33 {
        Some(SpecToken::Bang)
    } else if x == 61 {
        Some(SpecToken::Assign)
    } else if x == 60 {
        Some(SpecToken::Lt)
    } else if x == 62 {
        Some(SpecToken::Gt)
    } else {
        None
    }
}

/// What the tokenizer does at byte `i`.
pub enum LexStep {
    /// Skip one byte of white space.
    Skip,
    /// Read a token that ends at the given offset.
    Emit(SpecToken, int),
    /// Fail with this message at this offset.
    Fail(Seq<char>, int),
}

pub open spec fn lex_step(b: Seq<u8>, i: int) -> LexStep {
    let c = b[i];
    if is_space(c) {
        LexStep::Skip
    } else if starts_number(b, i) {
        let j = number_end(b, i, false);
        LexStep::Emit(SpecToken::Number(bytes_chars(b.subrange(i, j))), j)
    } else if is_ident_start(c) {
        let j = ident_end(b, i + 1);
        if is_reserved_word(b.subrange(i, j)) {
            LexStep::Fail("unsupported keyword `"@ + bytes_chars(b.subrange(i, j)) + "`"@, i)
        } else {
            LexStep::Emit(word_token(b.subrange(i, j)), j)
        }
    } else if c == 39 || c == 34 {
        match scan_quoted(b, i + 1, c, seq![]) {
            Some((s, e)) => LexStep::Emit(SpecToken::Str(s), e),
            None => LexStep::Fail("unterminated string starting with "@.push(c as char), i),
        }
    } else if c == 96 {
        match scan_template(b, i + 1, seq![]) {
            Some((s, e)) => LexStep::Emit(SpecToken::Template(s), e),
            None => LexStep::Fail("unterminated template literal"@, i),
        }
    } else if let Some(t) = three_punct(b, i) {
        LexStep::Emit(t, i + 3)
    } else if let Some(t) = two_punct(b, i) {
        LexStep::Emit(t, i + 2)
    } else if let Some(t) = one_punct(c) {
        LexStep::Emit(t, i + 1)
    } else {
        LexStep::Fail("unexpected character `"@.push(c as char) + "`"@, i)
    }
}

/// The outcome of tokenizing.
pub enum LexOutcome {
    Tokens(Seq<SpecSpanned>),
    Failed(Seq<char>, int),
}

/// Tokenizing from byte `i` on, with the tokens `acc` read before it.
pub open spec fn lex_from(b: Seq<u8>, i: int, acc: Seq<SpecSpanned>) -> LexOutcome
    decreases b.len() - i,
{
    if i < 0 || i >= b.len() {
        LexOutcome::Tokens(acc)
    } else {
        match lex_step(b, i) {
            LexStep::Skip => lex_from(b, i + 1, acc),
            LexStep::Emit(t, e) => if i < e <= b.len() {
                lex_from(b, e, acc.push(SpecSpanned { token: t, start: i, end: e }))
            } else {
                LexOutcome::Tokens(acc)
            },
            LexStep::Fail(m, p) => LexOutcome::Failed(m, p),
        }
    }
}

/// Tokenizing the bytes `b`.
pub open spec fn lex(b: Seq<u8>) -> LexOutcome {
    lex_from(b, 0, seq![])
}

/// Every span is a non-empty byte range ending at or before `limit`, and the
/// spans follow one another without overlapping.
pub open spec fn spans_in_order(ts: Seq<SpecSpanned>, limit: int) -> bool {
    &&& forall|k: int| 0 <= k < ts.len() ==> 0 <= #[trigger] ts[k].start < ts[k].end <= limit
    &&& forall|k: int, l: int|
        0 <= k < l < ts.len() ==> #[trigger] ts[k].end <= #[trigger] ts[l].start
}

/// Whether some token's span covers byte `p`.
pub open spec fn covered(ts: Seq<SpecSpanned>, p: int) -> bool {
    exists|k: int| 0 <= k < ts.len() && #[trigger] ts[k].start <= p < ts[k].end
}

/// The tokens read the source bytes `b` up to `limit`: an identifier holds
/// the characters of its own bytes and is not `await` or `yield`, and every
/// byte that no token covers is ASCII white space.
pub open spec fn tokens_read_source(ts: Seq<SpecSpanned>, b: Seq<u8>, limit: int) -> bool {
    &&& forall|k: int|
        0 <= k < ts.len() && (#[trigger] ts[k].token) is Ident ==> ts[k].token->Ident_0
            == bytes_chars(b.subrange(ts[k].start, ts[k].end)) && !is_reserved_word(
            b.subrange(ts[k].start, ts[k].end),
        )
    &&& forall|p: int| 0 <= p < limit && !#[trigger] covered(ts, p) ==> is_space(b[p])
}

/// A token spelled as an operator or punctuation mark in the source is that
/// operator's token: `/` is `Slash`, `/=` is `SlashAssign`, `===` is `EqEq`,
/// and so on for every operator of the language.
pub open spec fn operators_read(ts: Seq<SpecSpanned>, b: Seq<u8>) -> bool {
    forall|k: int|
        0 <= k < ts.len() ==> {
            &&& b.subrange(#[trigger] ts[k].start, ts[k].end) == seq![61u8, 61, 61] ==> ts[k].token
                == SpecToken::EqEq
            &&& b.subrange(ts[k].start, ts[k].end) == seq![33u8, 61, 61] ==> ts[k].token
                == SpecToken::BangEqEq
            &&& b.subrange(ts[k].start, ts[k].end) == seq![46u8, 46, 46] ==> ts[k].token
                == SpecToken::Spread
            &&& b.subrange(ts[k].start, ts[k].end) == seq![61u8, 61] ==> ts[k].token
                == SpecToken::Eq
            &&& b.subrange(ts[k].start, ts[k].end) == seq![33u8, 61] ==> ts[k].token
                == SpecToken::BangEq
            &&& b.subrange(ts[k].start, ts[k].end) == seq![60u8, 61] ==> ts[k].token
                == SpecToken::LtEq
            &&& b.subrange(ts[k].start, ts[k].end) == seq![62u8, 61] ==> ts[k].token
                == SpecToken::GtEq
            &&& b.subrange(ts[k].start, ts[k].end) == seq![38u8, 38] ==> ts[k].token
                == SpecToken::AmpAmp
            &&& b.subrange(ts[k].start, ts[k].end) == seq![124u8, 124] ==> ts[k].token
                == SpecToken::PipePipe
            &&& b.subrange(ts[k].start, ts[k].end) == seq![63u8, 63] ==> ts[k].token
                == SpecToken::QuestionQuestion
            &&& b.subrange(ts[k].start, ts[k].end) == seq![63u8, 46] ==> ts[k].token
                == SpecToken::QuestionDot
            &&& b.subrange(ts[k].start, ts[k].end) == seq![43u8, 43] ==> ts[k].token
                == SpecToken::PlusPlus
            &&& b.subrange(ts[k].start, ts[k].end) == seq![45u8, 45] ==> ts[k].token
                == SpecToken::MinusMinus
            &&& b.subrange(ts[k].start, ts[k].end) == seq![61u8, 62] ==> ts[k].token
                == SpecToken::Arrow
            &&& b.subrange(ts[k].start, ts[k].end) == seq![43u8, 61] ==> ts[k].token
                == SpecToken::PlusAssign
            &&& b.subrange(ts[k].start, ts[k].end) == seq![45u8, 61] ==> ts[k].token
                == SpecToken::MinusAssign
            &&& b.subrange(ts[k].start, ts[k].end) == seq![42u8, 61] ==> ts[k].token
                == SpecToken::StarAssign
            &&& b.subrange(ts[k].start, ts[k].end) == seq![47u8, 61] ==> ts[k].token
                == SpecToken::SlashAssign
            &&& b.subrange(ts[k].start, ts[k].end) == seq![37u8, 61] ==> ts[k].token
                == SpecToken::PercentAssign
            &&& b.subrange(ts[k].start, ts[k].end) == seq![46u8] ==> ts[k].token
                == SpecToken::Dot
            &&& b.subrange(ts[k].start, ts[k].end) == seq![44u8] ==> ts[k].token
                == SpecToken::Comma
            &&& b.subrange(ts[k].start, ts[k].end) == seq![58u8] ==> ts[k].token
                == SpecToken::Colon
            &&& b.subrange(ts[k].start, ts[k].end) == seq![59u8] ==> ts[k].token
                == SpecToken::Semicolon
            &&& b.subrange(ts[k].start, ts[k].end) == seq![63u8] ==> ts[k].token
                == SpecToken::Question
            &&& b.subrange(ts[k].start, ts[k].end) == seq![40u8] ==> ts[k].token
                == SpecToken::LParen
            &&& b.subrange(ts[k].start, ts[k].end) == seq![41u8] ==> ts[k].token
                == SpecToken::RParen
            &&& b.subrange(ts[k].start, ts[k].end) == seq![91u8] ==> ts[k].token
                == SpecToken::LBracket
            &&& b.subrange(ts[k].start, ts[k].end) == seq![93u8] ==> ts[k].token
                == SpecToken::RBracket
            &&& b.subrange(ts[k].start, ts[k].end) == seq![123u8] ==> ts[k].token
                == SpecToken::LBrace
            &&& b.subrange(ts[k].start, ts[k].end) == seq![125u8] ==> ts[k].token
                == SpecToken::RBrace
            &&& b.subrange(ts[k].start, ts[k].end) == seq![43u8] ==> ts[k].token
                == SpecToken::Plus
            &&& b.subrange(ts[k].start, ts[k].end) == seq![45u8] ==> ts[k].token
                == SpecToken::Minus
            &&& b.subrange(ts[k].start, ts[k].end) == seq![42u8] ==> ts[k].token
                == SpecToken::Star
            &&& b.subrange(ts[k].start, ts[k].end) == seq![47u8] ==> ts[k].token
                == SpecToken::Slash
            &&& b.subrange(ts[k].start, ts[k].end) == seq![37u8] ==> ts[k].token
                == SpecToken::Percent
            &&& b.subrange(ts[k].start, ts[k].end) == seq![33u8] ==> ts[k].token
                == SpecToken::Bang
            &&& b.subrange(ts[k].start, ts[k].end) == seq![61u8] ==> ts[k].token
                == SpecToken::Assign
            &&& b.subrange(ts[k].start, ts[k].end) == seq![60u8] ==> ts[k].token
                == SpecToken::Lt
            &&& b.subrange(ts[k].start, ts[k].end) == seq![62u8] ==> ts[k].token
                == SpecToken::Gt
        }
}

/// A token spelled `true`, `false`, `null` or `undefined` in the source is
/// that keyword's token (so it never reads as an identifier).
pub open spec fn keywords_read(ts: Seq<SpecSpanned>, b: Seq<u8>) -> bool {
    forall|k: int|
        0 <= k < ts.len() ==> {
            &&& b.subrange(#[trigger] ts[k].start, ts[k].end) == seq![116u8, 114, 117, 101]
                ==> ts[k].token == SpecToken::True
            &&& b.subrange(ts[k].start, ts[k].end) == seq![102u8, 97, 108, 115, 101]
                ==> ts[k].token == SpecToken::False
            &&& b.subrange(ts[k].start, ts[k].end) == seq![110u8, 117, 108, 108]
                ==> ts[k].token == SpecToken::Null
            &&& b.subrange(ts[k].start, ts[k].end) == seq![
                117u8,
                110,
                100,
                101,
                102,
                105,
                110,
                101,
                100,
            ] ==> ts[k].token == SpecToken::Undefined
        }
}

/// Inside a quoted string each recognised escape stands for one character:
/// `\n` a line feed, `\t` a tab, `\r` a carriage return, `\\` a backslash,
/// `\'`, `\"` and `` \` `` the quote itself, and `\0` the NUL character; the
/// scan goes on after the escape with that character added.
pub proof fn law_string_escapes(b: Seq<u8>, j: int, quote: u8, acc: Seq<char>)
    requires
        0 <= j,
        j + 1 < b.len(),
        b[j] == 92,
    ensures
        b[j + 1] == 110 ==> scan_quoted(b, j, quote, acc) == scan_quoted(b, j + 2, quote, acc.push('\n')),
        b[j + 1] == 116 ==> scan_quoted(b, j, quote, acc) == scan_quoted(b, j + 2, quote, acc.push('\t')),
        b[j + 1] == 114 ==> scan_quoted(b, j, quote, acc) == scan_quoted(b, j + 2, quote, acc.push('\r')),
        b[j + 1] == 92 ==> scan_quoted(b, j, quote, acc) == scan_quoted(b, j + 2, quote, acc.push('\\')),
        b[j + 1] == 39 ==> scan_quoted(b, j, quote, acc) == scan_quoted(b, j + 2, quote, acc.push('\'')),
        b[j + 1] == 34 ==> scan_quoted(b, j, quote, acc) == scan_quoted(b, j + 2, quote, acc.push('"')),
        b[j + 1] == 96 ==> scan_quoted(b, j, quote, acc) == scan_quoted(b, j + 2, quote, acc.push('`')),
        b[j + 1] == 48 ==> scan_quoted(b, j, quote, acc) == scan_quoted(b, j + 2, quote, acc.push('\0')),
{
    let x = b[j + 1];
    if x == 110 || x == 116 || x == 114 || x == 92 || x == 39 || x == 34 || x == 96 || x == 48 {
        assert(escaped(x).len() == 1);
        assert(acc + escaped(x) == acc.push(escaped(x)[0]));
    }
}

proof fn lemma_number_end(b: Seq<u8>, j: int, saw_dot: bool)
    requires
        0 <= j <= b.len(),
    ensures
        j <= number_end(b, j, saw_dot) <= b.len(),
    decreases b.len() - j,
{
    if j < b.len() {
        lemma_number_end(b, j + 1, saw_dot);
        lemma_number_end(b, j + 1, true);
    }
}

proof fn lemma_ident_end(b: Seq<u8>, j: int)
    requires
        0 <= j <= b.len(),
    ensures
        j <= ident_end(b, j) <= b.len(),
    decreases b.len() - j,
{
    if j < b.len() {
        lemma_ident_end(b, j + 1);
    }
}

proof fn lemma_scan_quoted_end(b: Seq<u8>, j: int, quote: u8, acc: Seq<char>)
    requires
        0 <= j,
    ensures
        scan_quoted(b, j, quote, acc) matches Some((_, e)) ==> j < e <= b.len(),
    decreases b.len() - j,
{
    if j < b.len() {
        if b[j] == 92 && j + 1 < b.len() && b[j + 1] < 128 {
            lemma_scan_quoted_end(b, j + 2, quote, acc + escaped(b[j + 1]));
        } else if b[j] == quote {
        } else if wide_char_at(b, j) {
            let e = j + utf8_width(b[j]);
            lemma_scan_quoted_end(b, e, quote, acc + decode_utf8(b.subrange(j, e)));
        } else {
            lemma_scan_quoted_end(b, j + 1, quote, acc.push(b[j] as char));
        }
    }
}

proof fn lemma_scan_template_end(b: Seq<u8>, j: int, acc: Seq<char>)
    requires
        0 <= j,
    ensures
        scan_template(b, j, acc) matches Some((_, e)) ==> j < e <= b.len(),
    decreases b.len() - j,
{
    if j < b.len() {
        if b[j] == 92 && j + 1 < b.len() && b[j + 1] < 128 {
            lemma_scan_template_end(b, j + 2, acc.push('\\').push(b[j + 1] as char));
        } else if b[j] == 96 {
        } else if wide_char_at(b, j) {
            let e = j + utf8_width(b[j]);
            lemma_scan_template_end(b, e, acc + decode_utf8(b.subrange(j, e)));
        } else {
            lemma_scan_template_end(b, j + 1, acc.push(b[j] as char));
        }
    }
}

/// Every token that a step reads ends after it starts and inside the source.
proof fn lemma_step_emits_inside(b: Seq<u8>, i: int)
    requires
        0 <= i < b.len(),
    ensures
        lex_step(b, i) matches LexStep::Emit(_, e) ==> i < e <= b.len(),
{
    lemma_number_end(b, i + 1, false);
    lemma_number_end(b, i + 1, true);
    lemma_ident_end(b, i + 1);
    lemma_scan_quoted_end(b, i + 1, b[i], seq![]);
    lemma_scan_template_end(b, i + 1, seq![]);
}

proof fn lemma_step_operator_spelling(b: Seq<u8>, i: int)
    requires
        0 <= i < b.len(),
    ensures
        lex_step(b, i) matches LexStep::Emit(t, e) ==> (b.subrange(i, e) == seq![61u8, 61, 61] ==> t == SpecToken::EqEq),
        lex_step(b, i) matches LexStep::Emit(t, e) ==> (b.subrange(i, e) == seq![33u8, 61, 61] ==> t == SpecToken::BangEqEq),
        lex_step(b, i) matches LexStep::Emit(t, e) ==> (b.subrange(i, e) == seq![46u8, 46, 46] ==> t == SpecToken::Spread),
        lex_step(b, i) matches LexStep::Emit(t, e) ==> (b.subrange(i, e) == seq![61u8, 61] ==> t == SpecToken::Eq),
        lex_step(b, i) matches LexStep::Emit(t, e) ==> (b.subrange(i, e) == seq![33u8, 61] ==> t == SpecToken::BangEq),
        lex_step(b, i) matches LexStep::Emit(t, e) ==> (b.subrange(i, e) == seq![60u8, 61] ==> t == SpecToken::LtEq),
        lex_step(b, i) matches LexStep::Emit(t, e) ==> (b.subrange(i, e) == seq![62u8, 61] ==> t == SpecToken::GtEq),
        lex_step(b, i) matches LexStep::Emit(t, e) ==> (b.subrange(i, e) == seq![38u8, 38] ==> t == SpecToken::AmpAmp),
        lex_step(b, i) matches LexStep::Emit(t, e) ==> (b.subrange(i, e) == seq![124u8, 124] ==> t == SpecToken::PipePipe),
        lex_step(b, i) matches LexStep::Emit(t, e) ==> (b.subrange(i, e) == seq![63u8, 63] ==> t == SpecToken::QuestionQuestion),
        lex_step(b, i) matches LexStep::Emit(t, e) ==> (b.subrange(i, e) == seq![63u8, 46] ==> t == SpecToken::QuestionDot),
        lex_step(b, i) matches LexStep::Emit(t, e) ==> (b.subrange(i, e) == seq![43u8, 43] ==> t == SpecToken::PlusPlus),
        lex_step(b, i) matches LexStep::Emit(t, e) ==> (b.subrange(i, e) == seq![45u8, 45] ==> t == SpecToken::MinusMinus),
        lex_step(b, i) matches LexStep::Emit(t, e) ==> (b.subrange(i, e) == seq![61u8, 62] ==> t == SpecToken::Arrow),
        lex_step(b, i) matches LexStep::Emit(t, e) ==> (b.subrange(i, e) == seq![43u8, 61] ==> t == SpecToken::PlusAssign),
        lex_step(b, i) matches LexStep::Emit(t, e) ==> (b.subrange(i, e) == seq![45u8, 61] ==> t == SpecToken::MinusAssign),
        lex_step(b, i) matches LexStep::Emit(t, e) ==> (b.subrange(i, e) == seq![42u8, 61] ==> t == SpecToken::StarAssign),
        lex_step(b, i) matches LexStep::Emit(t, e) ==> (b.subrange(i, e) == seq![47u8, 61] ==> t == SpecToken::SlashAssign),
        lex_step(b, i) matches LexStep::Emit(t, e) ==> (b.subrange(i, e) == seq![37u8, 61] ==> t == SpecToken::PercentAssign),
        lex_step(b, i) matches LexStep::Emit(t, e) ==> (b.subrange(i, e) == seq![46u8] ==> t == SpecToken::Dot),
        lex_step(b, i) matches LexStep::Emit(t, e) ==> (b.subrange(i, e) == seq![44u8] ==> t == SpecToken::Comma),
        lex_step(b, i) matches LexStep::Emit(t, e) ==> (b.subrange(i, e) == seq![58u8] ==> t == SpecToken::Colon),
        lex_step(b, i) matches LexStep::Emit(t, e) ==> (b.subrange(i, e) == seq![59u8] ==> t == SpecToken::Semicolon),
        lex_step(b, i) matches LexStep::Emit(t, e) ==> (b.subrange(i, e) == seq![63u8] ==> t == SpecToken::Question),
        lex_step(b, i) matches LexStep::Emit(t, e) ==> (b.subrange(i, e) == seq![40u8] ==> t == SpecToken::LParen),
        lex_step(b, i) matches LexStep::Emit(t, e) ==> (b.subrange(i, e) == seq![41u8] ==> t == SpecToken::RParen),
        lex_step(b, i) matches LexStep::Emit(t, e) ==> (b.subrange(i, e) == seq![91u8] ==> t == SpecToken::LBracket),
        lex_step(b, i) matches LexStep::Emit(t, e) ==> (b.subrange(i, e) == seq![93u8] ==> t == SpecToken::RBracket),
        lex_step(b, i) matches LexStep::Emit(t, e) ==> (b.subrange(i, e) == seq![123u8] ==> t == SpecToken::LBrace),
        lex_step(b, i) matches LexStep::Emit(t, e) ==> (b.subrange(i, e) == seq![125u8] ==> t == SpecToken::RBrace),
        lex_step(b, i) matches LexStep::Emit(t, e) ==> (b.subrange(i, e) == seq![43u8] ==> t == SpecToken::Plus),
        lex_step(b, i) matches LexStep::Emit(t, e) ==> (b.subrange(i, e) == seq![45u8] ==> t == SpecToken::Minus),
        lex_step(b, i) matches LexStep::Emit(t, e) ==> (b.subrange(i, e) == seq![42u8] ==> t == SpecToken::Star),
        lex_step(b, i) matches LexStep::Emit(t, e) ==> (b.subrange(i, e) == seq![47u8] ==> t == SpecToken::Slash),
        lex_step(b, i) matches LexStep::Emit(t, e) ==> (b.subrange(i, e) == seq![37u8] ==> t == SpecToken::Percent),
        lex_step(b, i) matches LexStep::Emit(t, e) ==> (b.subrange(i, e) == seq![33u8] ==> t == SpecToken::Bang),
        lex_step(b, i) matches LexStep::Emit(t, e) ==> (b.subrange(i, e) == seq![61u8] ==> t == SpecToken::Assign),
        lex_step(b, i) matches LexStep::Emit(t, e) ==> (b.subrange(i, e) == seq![60u8] ==> t == SpecToken::Lt),
        lex_step(b, i) matches LexStep::Emit(t, e) ==> (b.subrange(i, e) == seq![62u8] ==> t == SpecToken::Gt),
{
    lemma_step_emits_inside(b, i);
    if let LexStep::Emit(t, e) = lex_step(b, i) {
        let w = b.subrange(i, e);
        assert(w.len() == e - i);
        assert(seq![61u8, 61, 61].len() == 3 && seq![33u8, 61, 61].len() == 3);
        if i + 2 <= b.len() {
            lemma_number_end(b, i + 2, true);
        }
        if w == seq![46u8] {
            assert(w.len() == 1);
            assert(w[0] == b[i]);
            assert(seq![46u8][0] == 46);
            assert(b[i] == 46);
            assert(e == i + 1);
            if starts_number(b, i) {
                assert(number_end(b, i, false) == number_end(b, i + 1, true));
                assert(number_end(b, i + 1, true) == number_end(b, i + 2, true));
            }
        }
        if e - i <= 3 {
            assert(w[0] == b[i]);
            if e - i >= 2 {
                assert(w[1] == b[i + 1]);
            }
            if e - i == 3 {
                assert(w[2] == b[i + 2]);
                if w == seq![61u8, 61, 61] {
                    assert(b[i] == 61 && b[i + 1] == 61 && b[i + 2] == 61);
                    assert(three_punct(b, i) == Some(SpecToken::EqEq));
                    assert(lex_step(b, i) == LexStep::Emit(SpecToken::EqEq, i + 3));
                }
                if w == seq![33u8, 61, 61] {
                    assert(b[i] == 33 && b[i + 1] == 61 && b[i + 2] == 61);
                    assert(three_punct(b, i) == Some(SpecToken::BangEqEq));
                    assert(lex_step(b, i) == LexStep::Emit(SpecToken::BangEqEq, i + 3));
                }
            }
        }
    }
}

proof fn lemma_lex_from_spans(b: Seq<u8>, i: int, acc: Seq<SpecSpanned>)
    requires
        0 <= i <= b.len(),
        spans_in_order(acc, i),
        tokens_read_source(acc, b, i),
        keywords_read(acc, b),
        operators_read(acc, b),
    ensures
        match lex_from(b, i, acc) {
            LexOutcome::Tokens(ts) => spans_in_order(ts, b.len() as int) && tokens_read_source(
                ts,
                b,
                b.len() as int,
            ) && keywords_read(ts, b) && operators_read(ts, b),
            LexOutcome::Failed(_, p) => 0 <= p < b.len(),
        },
    decreases b.len() - i,
{
    if i < b.len() {
        lemma_step_emits_inside(b, i);
        match lex_step(b, i) {
            LexStep::Skip => {
                assert(tokens_read_source(acc, b, i + 1)) by {
                    assert forall|p: int| 0 <= p < i + 1 && !#[trigger] covered(acc, p) implies is_space(
                        b[p],
                    ) by {
                        if p == i {
                            assert(is_space(b[i]));
                        }
                    }
                }
                lemma_lex_from_spans(b, i + 1, acc);
            },
            LexStep::Emit(t, e) => {
                if i < e <= b.len() {
                    let acc2 = acc.push(SpecSpanned { token: t, start: i, end: e });
                    assert(operators_read(acc2, b)) by {
                        assert forall|k: int| 0 <= k < acc2.len() implies {
            &&& b.subrange(#[trigger] acc2[k].start, acc2[k].end) == seq![61u8, 61, 61] ==> acc2[k].token
                == SpecToken::EqEq
            &&& b.subrange(acc2[k].start, acc2[k].end) == seq![33u8, 61, 61] ==> acc2[k].token
                == SpecToken::BangEqEq
            &&& b.subrange(acc2[k].start, acc2[k].end) == seq![46u8, 46, 46] ==> acc2[k].token
                == SpecToken::Spread
            &&& b.subrange(acc2[k].start, acc2[k].end) == seq![61u8, 61] ==> acc2[k].token
                == SpecToken::Eq
            &&& b.subrange(acc2[k].start, acc2[k].end) == seq![33u8, 61] ==> acc2[k].token
                == SpecToken::BangEq
            &&& b.subrange(acc2[k].start, acc2[k].end) == seq![60u8, 61] ==> acc2[k].token
                == SpecToken::LtEq
            &&& b.subrange(acc2[k].start, acc2[k].end) == seq![62u8, 61] ==> acc2[k].token
                == SpecToken::GtEq
            &&& b.subrange(acc2[k].start, acc2[k].end) == seq![38u8, 38] ==> acc2[k].token
                == SpecToken::AmpAmp
            &&& b.subrange(acc2[k].start, acc2[k].end) == seq![124u8, 124] ==> acc2[k].token
                == SpecToken::PipePipe
            &&& b.subrange(acc2[k].start, acc2[k].end) == seq![63u8, 63] ==> acc2[k].token
                == SpecToken::QuestionQuestion
            &&& b.subrange(acc2[k].start, acc2[k].end) == seq![63u8, 46] ==> acc2[k].token
                == SpecToken::QuestionDot
            &&& b.subrange(acc2[k].start, acc2[k].end) == seq![43u8, 43] ==> acc2[k].token
                == SpecToken::PlusPlus
            &&& b.subrange(acc2[k].start, acc2[k].end) == seq![45u8, 45] ==> acc2[k].token
                == SpecToken::MinusMinus
            &&& b.subrange(acc2[k].start, acc2[k].end) == seq![61u8, 62] ==> acc2[k].token
                == SpecToken::Arrow
            &&& b.subrange(acc2[k].start, acc2[k].end) == seq![43u8, 61] ==> acc2[k].token
                == SpecToken::PlusAssign
            &&& b.subrange(acc2[k].start, acc2[k].end) == seq![45u8, 61] ==> acc2[k].token
                == SpecToken::MinusAssign
            &&& b.subrange(acc2[k].start, acc2[k].end) == seq![42u8, 61] ==> acc2[k].token
                == SpecToken::StarAssign
            &&& b.subrange(acc2[k].start, acc2[k].end) == seq![47u8, 61] ==> acc2[k].token
                == SpecToken::SlashAssign
            &&& b.subrange(acc2[k].start, acc2[k].end) == seq![37u8, 61] ==> acc2[k].token
                == SpecToken::PercentAssign
            &&& b.subrange(acc2[k].start, acc2[k].end) == seq![46u8] ==> acc2[k].token
                == SpecToken::Dot
            &&& b.subrange(acc2[k].start, acc2[k].end) == seq![44u8] ==> acc2[k].token
                == SpecToken::Comma
            &&& b.subrange(acc2[k].start, acc2[k].end) == seq![58u8] ==> acc2[k].token
                == SpecToken::Colon
            &&& b.subrange(acc2[k].start, acc2[k].end) == seq![59u8] ==> acc2[k].token
                == SpecToken::Semicolon
            &&& b.subrange(acc2[k].start, acc2[k].end) == seq![63u8] ==> acc2[k].token
                == SpecToken::Question
            &&& b.subrange(acc2[k].start, acc2[k].end) == seq![40u8] ==> acc2[k].token
                == SpecToken::LParen
            &&& b.subrange(acc2[k].start, acc2[k].end) == seq![41u8] ==> acc2[k].token
                == SpecToken::RParen
            &&& b.subrange(acc2[k].start, acc2[k].end) == seq![91u8] ==> acc2[k].token
                == SpecToken::LBracket
            &&& b.subrange(acc2[k].start, acc2[k].end) == seq![93u8] ==> acc2[k].token
                == SpecToken::RBracket
            &&& b.subrange(acc2[k].start, acc2[k].end) == seq![123u8] ==> acc2[k].token
                == SpecToken::LBrace
            &&& b.subrange(acc2[k].start, acc2[k].end) == seq![125u8] ==> acc2[k].token
                == SpecToken::RBrace
            &&& b.subrange(acc2[k].start, acc2[k].end) == seq![43u8] ==> acc2[k].token
                == SpecToken::Plus
            &&& b.subrange(acc2[k].start, acc2[k].end) == seq![45u8] ==> acc2[k].token
                == SpecToken::Minus
            &&& b.subrange(acc2[k].start, acc2[k].end) == seq![42u8] ==> acc2[k].token
                == SpecToken::Star
            &&& b.subrange(acc2[k].start, acc2[k].end) == seq![47u8] ==> acc2[k].token
                == SpecToken::Slash
            &&& b.subrange(acc2[k].start, acc2[k].end) == seq![37u8] ==> acc2[k].token
                == SpecToken::Percent
            &&& b.subrange(acc2[k].start, acc2[k].end) == seq![33u8] ==> acc2[k].token
                == SpecToken::Bang
            &&& b.subrange(acc2[k].start, acc2[k].end) == seq![61u8] ==> acc2[k].token
                == SpecToken::Assign
            &&& b.subrange(acc2[k].start, acc2[k].end) == seq![60u8] ==> acc2[k].token
                == SpecToken::Lt
            &&& b.subrange(acc2[k].start, acc2[k].end) == seq![62u8] ==> acc2[k].token
                == SpecToken::Gt
                        } by {
                            if k < acc.len() {
                                assert(acc2[k] == acc[k]);
                            } else {
                                lemma_step_operator_spelling(b, i);
                            }
                        }
                    }
                    assert(keywords_read(acc2, b)) by {
                        assert forall|k: int| 0 <= k < acc2.len() implies {
                            &&& b.subrange(#[trigger] acc2[k].start, acc2[k].end) == seq![116u8, 114, 117, 101]
                                ==> acc2[k].token == SpecToken::True
                            &&& b.subrange(acc2[k].start, acc2[k].end) == seq![102u8, 97, 108, 115, 101]
                                ==> acc2[k].token == SpecToken::False
                            &&& b.subrange(acc2[k].start, acc2[k].end) == seq![110u8, 117, 108, 108]
                                ==> acc2[k].token == SpecToken::Null
                            &&& b.subrange(acc2[k].start, acc2[k].end) == seq![
                                117u8,
                                110,
                                100,
                                101,
                                102,
                                105,
                                110,
                                101,
                                100,
                            ] ==> acc2[k].token == SpecToken::Undefined
                        } by {
                            if k < acc.len() {
                                assert(acc2[k] == acc[k]);
                            } else {
                                let w = b.subrange(i, e);
                                assert(w[0] == b[i]);
                                if w.len() > 0 && (w[0] == 116 || w[0] == 102 || w[0] == 110 || w[0]
                                    == 117) {
                                    assert(is_ident_start(b[i]));
                                    assert(e == ident_end(b, i + 1));
                                }
                            }
                        }
                    }
                    assert(tokens_read_source(acc2, b, e)) by {
                        assert forall|k: int|
                            0 <= k < acc2.len() && (#[trigger] acc2[k].token) is Ident implies acc2[k].token->Ident_0
                            == bytes_chars(b.subrange(acc2[k].start, acc2[k].end))
                            && !is_reserved_word(b.subrange(acc2[k].start, acc2[k].end)) by {
                            if k < acc.len() {
                                assert(acc2[k] == acc[k]);
                            }
                        }
                        assert forall|p: int| 0 <= p < e && !#[trigger] covered(acc2, p) implies is_space(
                            b[p],
                        ) by {
                            if p < i {
                                if covered(acc, p) {
                                    let k = choose|k: int| 0 <= k < acc.len() && #[trigger] acc[k].start <= p < acc[k].end;
                                    assert(acc2[k] == acc[k]);
                                    assert(covered(acc2, p));
                                }
                            } else {
                                assert(acc2[acc.len() as int].start <= p < acc2[acc.len() as int].end);
                                assert(covered(acc2, p));
                            }
                        }
                    }
                    assert(spans_in_order(acc2, e)) by {
                        assert forall|k: int, l: int|
                            0 <= k < l < acc2.len() implies #[trigger] acc2[k].end
                            <= #[trigger] acc2[l].start by {
                            if l < acc.len() {
                                assert(acc2[k] == acc[k] && acc2[l] == acc[l]);
                            } else {
                                assert(acc2[k] == acc[k] && 0 <= acc[k].start);
                            }
                        }
                    }
                    lemma_lex_from_spans(b, e, acc2);
                }
            },
            _ => {},
        }
    }
}

/// The tokens of a source come in source order: each covers a non-empty byte
/// range inside the source, and no two overlap; an identifier holds exactly
/// the characters of the bytes it covers and is never `await` or `yield`
/// (those words fail the tokenizer), a token spelled `true`, `false`, `null`
/// or `undefined` is that keyword, a token spelled as an operator is that
/// operator, and every byte outside all tokens is
/// ASCII white space. A tokenizer failure is reported at a byte offset
/// inside the source.
pub proof fn law_token_spans(b: Seq<u8>)
    ensures
        match lex(b) {
            LexOutcome::Tokens(ts) => spans_in_order(ts, b.len() as int) && tokens_read_source(
                ts,
                b,
                b.len() as int,
            ) && keywords_read(ts, b) && operators_read(ts, b),
            LexOutcome::Failed(_, p) => 0 <= p < b.len(),
        },
{
    lemma_lex_from_spans(b, 0, seq![]);
}

// ---------------------------------------------------------------------------
// The tokenizer
// ---------------------------------------------------------------------------

fn is_digit_byte(x: u8) -> (r: bool)
    ensures
        r == is_digit(x),
{
    48 <= x && x <= 57
}

fn is_ident_start_byte(x: u8) -> (r: bool)
    ensures
        r == is_ident_start(x),
{
    x == 95 || x == 36 || (65 <= x && x <= 90) || (97 <= x && x <= 122)
}

fn is_ident_part_byte(x: u8) -> (r: bool)
    ensures
        r == is_ident_part(x),
{
    is_ident_start_byte(x) || is_digit_byte(x)
}

fn is_space_byte(x: u8) -> (r: bool)
    ensures
        r == is_space(x),
{
    (9 <= x && x <= 13) || x == 32
}

/// The characters of the bytes `b[from..to]`.
fn chars_from_bytes(b: &[u8], from: usize, to: usize) -> (r: String)
    requires
        from <= to <= b@.len(),
    ensures
        r@ == bytes_chars(b@.subrange(from as int, to as int)),
{
    let mut r = String::new();
    let mut k: usize = from;
    while k < to
        invariant
            from <= k <= to <= b@.len(),
            r@ == bytes_chars(b@.subrange(from as int, k as int)),
        decreases to - k,
    {
        push_char(&mut r, b[k] as char);
        k = k + 1;
        assert(bytes_chars(b@.subrange(from as int, k as int)) == bytes_chars(
            b@.subrange(from as int, k - 1),
        ).push(b@[k - 1] as char));
    }
    r
}

fn scan_number(b: &[u8], i: usize) -> (j: usize)
    requires
        i < b@.len(),
        starts_number(b@, i as int),
    ensures
        j == number_end(b@, i as int, false),
        i < j <= b@.len(),
{
    let mut j: usize = i;
    let mut saw_dot = false;
    while j < b.len() && (is_digit_byte(b[j]) || (b[j] == 46 && !saw_dot && j + 1 < b.len()
        && is_digit_byte(b[j + 1])))
        invariant
            i <= j <= b@.len(),
            number_end(b@, i as int, false) == number_end(b@, j as int, saw_dot),
            j == i ==> !saw_dot,
        decreases b@.len() - j,
    {
        if !is_digit_byte(b[j]) {
            saw_dot = true;
        }
        j = j + 1;
    }
    j
}

fn scan_ident(b: &[u8], i: usize) -> (j: usize)
    requires
        i < b.len(),
    ensures
        j == ident_end(b@, i + 1),
        i < j <= b@.len(),
{
    let mut j: usize = i + 1;
    while j < b.len() && is_ident_part_byte(b[j])
        invariant
            i < j <= b@.len(),
            ident_end(b@, i + 1) == ident_end(b@, j as int),
        decreases b@.len() - j,
    {
        j = j + 1;
    }
    j
}

fn word_eq(b: &[u8], from: usize, to: usize, w: &[u8]) -> (r: bool)
    requires
        from <= to <= b@.len(),
    ensures
        r == (b@.subrange(from as int, to as int) == w@),
{
    if to - from != w.len() {
        return false;
    }
    let mut k: usize = 0;
    while k < w.len()
        invariant
            k <= w@.len(),
            to - from == w@.len(),
            from <= to <= b@.len(),
            forall|m: int| 0 <= m < k ==> b@[from + m] == w@[m],
        decreases w@.len() - k,
    {
        if b[from + k] != w[k] {
            assert(b@.subrange(from as int, to as int)[k as int] != w@[k as int]);
            return false;
        }
        k = k + 1;
    }
    assert(b@.subrange(from as int, to as int) =~= w@);
    true
}

fn word_token_exec(b: &[u8], from: usize, to: usize) -> (t: Token)
    requires
        from <= to <= b@.len(),
    ensures
        t@ == word_token(b@.subrange(from as int, to as int)),
{
    let w_true: [u8; 4] = [116u8, 114, 117, 101];
    let w_false: [u8; 5] = [102u8, 97, 108, 115, 101];
    let w_null: [u8; 4] = [110u8, 117, 108, 108];
    let w_undefined: [u8; 9] = [117u8, 110, 100, 101, 102, 105, 110, 101, 100];
    assert(w_true@ == seq![116u8, 114, 117, 101]);
    assert(w_false@ == seq![102u8, 97, 108, 115, 101]);
    assert(w_null@ == seq![110u8, 117, 108, 108]);
    assert(w_undefined@ == seq![117u8, 110, 100, 101, 102, 105, 110, 101, 100]);
    if word_eq(b, from, to, w_true.as_slice()) {
        Token::True
    } else if word_eq(b, from, to, w_false.as_slice()) {
        Token::False
    } else if word_eq(b, from, to, w_null.as_slice()) {
        Token::Null
    } else if word_eq(b, from, to, w_undefined.as_slice()) {
        Token::Undefined
    } else {
        Token::Ident(chars_from_bytes(b, from, to))
    }
}

fn push_escaped(s: &mut String, e: u8)
    ensures
        final(s)@ == old(s)@ + escaped(e),
{
    if e == 110 {
        push_char(s, '\n');
    } else if e == 116 {
        push_char(s, '\t');
    } else if e == 114 {
        push_char(s, '\r');
    } else if e == 92 {
        push_char(s, '\\');
    } else if e == 39 {
        push_char(s, '\'');
    } else if e == 34 {
        push_char(s, '"');
    } else if e == 96 {
        push_char(s, '`');
    } else if e == 48 {
        push_char(s, '\0');
    } else {
        push_char(s, '\\');
        push_char(s, e as char);
        assert(old(s)@.push('\\').push(e as char) == old(s)@ + seq!['\\', e as char]);
    }
}

/// The model of a scanned string body.
pub open spec fn scanned_view(r: Option<(String, usize)>) -> Option<(Seq<char>, int)> {
    match r {
        Some((s, e)) => Some((s@, e as int)),
        None => None,
    }
}

/// Reads the non-ASCII character starting at byte `j` of `src` (see `char_at`).
fn char_at_exec<'a>(src: &'a str, b: &[u8], j: usize) -> (r: Option<(&'a str, usize)>)
    requires
        b@ == src.spec_bytes(),
        j < b@.len(),
    ensures
        match r {
            Some((piece, e)) => wide_char_at(b@, j as int) && e == j + utf8_width(b@[j as int])
                && piece@ == decode_utf8(b@.subrange(j as int, e as int)),
            None => !wide_char_at(b@, j as int),
        },
{
    let x = b[j];
    if x < 128 {
        return None;
    }
    let w: usize = if x >= 0xF0 {
        4
    } else if x >= 0xE0 {
        3
    } else if x >= 0xC0 {
        2
    } else {
        1
    };
    proof {
        vstd::utf8::encode_utf8_valid_utf8(src@);
    }
    if w > b.len() - j {
        return None;
    }
    let e = j + w;
    if !src.is_char_boundary(e) {
        return None;
    }
    let (left, _) = src.split_at(e);
    if !left.is_char_boundary(j) {
        return None;
    }
    let (_, piece) = left.split_at(j);
    proof {
        assert(left.spec_bytes() == b@.subrange(0, e as int));
        assert(piece.spec_bytes() == b@.subrange(0, e as int).subrange(j as int, e as int));
        assert(piece.spec_bytes() == b@.subrange(j as int, e as int));
        vstd::utf8::encode_utf8_decode_utf8(piece@);
    }
    Some((piece, e))
}

fn scan_quoted_exec(src: &str, b: &[u8], start: usize, quote: u8) -> (r: Option<(String, usize)>)
    requires
        b@ == src.spec_bytes(),
        start <= b@.len(),
    ensures
        scanned_view(r) == scan_quoted(b@, start as int, quote, seq![]),
        r matches Some((_, e)) ==> start < e <= b@.len(),
{
    let mut s = String::new();
    let mut j: usize = start;
    while j < b.len()
        invariant
            start <= j <= b@.len(),
            b@ == src.spec_bytes(),
            scan_quoted(b@, start as int, quote, seq![]) == scan_quoted(b@, j as int, quote, s@),
        decreases b@.len() - j,
    {
        let ch = b[j];
        if ch == 92 && j + 1 < b.len() && b[j + 1] < 128 {
            push_escaped(&mut s, b[j + 1]);
            j = j + 2;
        } else if ch == quote {
            return Some((s, j + 1));
        } else if let Some((piece, e)) = char_at_exec(src, b, j) {
            s.append(piece);
            j = e;
        } else {
            push_char(&mut s, ch as char);
            j = j + 1;
        }
    }
    None
}

fn scan_template_exec(src: &str, b: &[u8], start: usize) -> (r: Option<(String, usize)>)
    requires
        b@ == src.spec_bytes(),
        start <= b@.len(),
    ensures
        scanned_view(r) == scan_template(b@, start as int, seq![]),
        r matches Some((_, e)) ==> start < e <= b@.len(),
{
    let mut s = String::new();
    let mut j: usize = start;
    while j < b.len()
        invariant
            start <= j <= b@.len(),
            b@ == src.spec_bytes(),
            scan_template(b@, start as int, seq![]) == scan_template(b@, j as int, s@),
        decreases b@.len() - j,
    {
        let ch = b[j];
        if ch == 92 && j + 1 < b.len() && b[j + 1] < 128 {
            push_char(&mut s, '\\');
            push_char(&mut s, b[j + 1] as char);
            j = j + 2;
        } else if ch == 96 {
            return Some((s, j + 1));
        } else if let Some((piece, e)) = char_at_exec(src, b, j) {
            s.append(piece);
            j = e;
        } else {
            push_char(&mut s, ch as char);
            j = j + 1;
        }
    }
    None
}

/// The model of an optional token.
pub open spec fn opt_token_view(t: Option<Token>) -> Option<SpecToken> {
    match t {
        Some(t) => Some(t@),
        None => None,
    }
}

fn three_punct_exec(b: &[u8], i: usize) -> (r: Option<Token>)
    ensures
        opt_token_view(r) == three_punct(b@, i as int),
{
    if i < b.len() && b.len() - i > 2 {
        let (x, y, z) = (b[i], b[i + 1], b[i + 2]);
        if x == 61 && y == 61 && z == 61 {
            Some(Token::EqEq)
        } else if x == 33 && y == 61 && z == 61 {
            Some(Token::BangEqEq)
        } else if x == 46 && y == 46 && z == 46 {
            Some(Token::Spread)
        } else {
            None
        }
    } else {
        None
    }
}

fn two_punct_exec(b: &[u8], i: usize) -> (r: Option<Token>)
    ensures
        opt_token_view(r) == two_punct(b@, i as int),
{
    if i < b.len() && b.len() - i > 1 {
        let (x, y) = (b[i], b[i + 1]);
        if x == 61 && y == 61 {
            Some(Token::Eq)
        } else if x == 33 && y == 61 {
            Some(Token::BangEq)
        } else if x == 60 && y == 61 {
            Some(Token::LtEq)
        } else if x == 62 && y == 61 {
            Some(Token::GtEq)
        } else if x == 38 && y == 38 {
            Some(Token::AmpAmp)
        } else if x == 124 && y == 124 {
            Some(Token::PipePipe)
        } else if x == 63 && y == 63 {
            Some(Token::QuestionQuestion)
        } else if x == 63 && y == 46 {
            Some(Token::QuestionDot)
        } else if x == 43 && y == 43 {
            Some(Token::PlusPlus)
        } else if x == 45 && y == 45 {
            Some(Token::MinusMinus)
        } else if x == 61 && y == 62 {
            Some(Token::Arrow)
        } else if x == 43 && y == 61 {
            Some(Token::PlusAssign)
        } else if x == 45 && y == 61 {
            Some(Token::MinusAssign)
        } else if x == 42 && y == 61 {
            Some(Token::StarAssign)
        } else if x == 47 && y == 61 {
            Some(Token::SlashAssign)
        } else if x == 37 && y == 61 {
            Some(Token::PercentAssign)
        } else {
            None
        }
    } else {
        None
    }
}

fn one_punct_exec(x: u8) -> (r: Option<Token>)
    ensures
        opt_token_view(r) == one_punct(x),
{
    if x == 46 {
        Some(Token::Dot)
    } else if x == 44 {
        Some(Token::Comma)
    } else if x == 58 {
        Some(Token::Colon)
    } else if x == 59 {
        Some(Token::Semicolon)
    } else if x == 63 {
        Some(Token::Question)
    } else if x == 40 {
        Some(Token::LParen)
    } else if x == 41 {
        Some(Token::RParen)
    } else if x == 91 {
        Some(Token::LBracket)
    } else if x == 93 {
        Some(Token::RBracket)
    } else if x == 123 {
        Some(Token::LBrace)
    } else if x == 125 {
        Some(Token::RBrace)
    } else if x == 43 {
        Some(Token::Plus)
    } else if x == 45 {
        Some(Token::Minus)
    } else if x == 42 {
        Some(Token::Star)
    } else if x == 47 {
        Some(Token::Slash)
    } else if x == 37 {
        Some(Token::Percent)
    } else if x == 33 {
        Some(Token::Bang)
    } else if x == 61 {
        Some(Token::Assign)
    } else if x == 60 {
        Some(Token::Lt)
    } else if x == 62 {
        Some(Token::Gt)
    } else {
        None
    }
}

/// Splits `src` into tokens.
///
/// Succeeds exactly when the lexical grammar above reads all of `src`; on
/// failure the error carries the message and byte offset the grammar gives.
pub fn tokenize(src: &str) -> (r: Result<Vec<Spanned>, LexError>)
    ensures
        match r {
            Ok(v) => lex(src.spec_bytes()) == LexOutcome::Tokens(spans_view(v@)),
            Err(e) => lex(src.spec_bytes()) == LexOutcome::Failed(e.message@, e.pos as int),
        },
{
    let b = src.as_bytes();
    let n = b.len();
    let mut out: Vec<Spanned> = Vec::new();
    let mut i: usize = 0;
    assert(spans_view(out@) == Seq::<SpecSpanned>::empty());
    while i < n
        invariant
            i <= n,
            n == b@.len(),
            b@ == src.spec_bytes(),
            lex(b@) == lex_from(b@, i as int, spans_view(out@)),
        decreases n - i,
    {
        let ghost before = out@;
        let c = b[i];
        if is_space_byte(c) {
            i = i + 1;
            continue;
        }
        if is_digit_byte(c) || (c == 46 && i + 1 < n && is_digit_byte(b[i + 1])) {
            let j = scan_number(b, i);
            let lexeme = chars_from_bytes(b, i, j);
            out.push(Spanned { token: Token::Number(lexeme), start: i, end: j });
            assert(spans_view(out@) == spans_view(before).push(out@.last()@));
            i = j;
            continue;
        }
        if is_ident_start_byte(c) {
            let j = scan_ident(b, i);
            let w_await: [u8; 5] = [97u8, 119, 97, 105, 116];
            let w_yield: [u8; 5] = [121u8, 105, 101, 108, 100];
            assert(w_await@ == seq![97u8, 119, 97, 105, 116]);
            assert(w_yield@ == seq![121u8, 105, 101, 108, 100]);
            if word_eq(b, i, j, w_await.as_slice()) || word_eq(b, i, j, w_yield.as_slice()) {
                let mut message = String::from_str("unsupported keyword `");
                let word = chars_from_bytes(b, i, j);
                message.append(word.as_str());
                message.append("`");
                return Err(LexError { message, pos: i });
            }
            let token = word_token_exec(b, i, j);
            out.push(Spanned { token, start: i, end: j });
            assert(spans_view(out@) == spans_view(before).push(out@.last()@));
            i = j;
            continue;
        }
        if c == 39 || c == 34 {
            match scan_quoted_exec(src, b, i + 1, c) {
                Some((s, e)) => {
                    out.push(Spanned { token: Token::String(s), start: i, end: e });
                    assert(spans_view(out@) == spans_view(before).push(out@.last()@));
                    i = e;
                    continue;
                },
                None => {
                    let mut message = String::from_str("unterminated string starting with ");
                    push_char(&mut message, c as char);
                    return Err(LexError { message, pos: i });
                },
            }
        }
        if c == 96 {
            match scan_template_exec(src, b, i + 1) {
                Some((s, e)) => {
                    out.push(Spanned { token: Token::Template(s), start: i, end: e });
                    assert(spans_view(out@) == spans_view(before).push(out@.last()@));
                    i = e;
                    continue;
                },
                None => {
                    return Err(
                        LexError {
                            message: String::from_str("unterminated template literal"),
                            pos: i,
                        },
                    );
                },
            }
        }
        if let Some(t) = three_punct_exec(b, i) {
            out.push(Spanned { token: t, start: i, end: i + 3 });
            assert(spans_view(out@) == spans_view(before).push(out@.last()@));
            i = i + 3;
            continue;
        }
        if let Some(t) = two_punct_exec(b, i) {
            out.push(Spanned { token: t, start: i, end: i + 2 });
            assert(spans_view(out@) == spans_view(before).push(out@.last()@));
            i = i + 2;
            continue;
        }
        match one_punct_exec(c) {
            Some(t) => {
                out.push(Spanned { token: t, start: i, end: i + 1 });
                assert(spans_view(out@) == spans_view(before).push(out@.last()@));
                i = i + 1;
            },
            None => {
                let mut message = String::from_str("unexpected character `");
                push_char(&mut message, c as char);
                message.append("`");
                return Err(LexError { message, pos: i });
            },
        }
    }
    Ok(out)
}

// ---------------------------------------------------------------------------
// How tokens are shown in messages
// ---------------------------------------------------------------------------

/// How a token is shown in messages (its `Display` form).
pub open spec fn token_display(t: SpecToken) -> Seq<char> {
    match t {
        SpecToken::Number(l) => "number "@ + number_display(l),
        SpecToken::Str(s) => "string "@ + str_debug(s),
        SpecToken::Template(s) => "template "@ + str_debug(s),
        SpecToken::Ident(s) => "ident "@ + s,
        SpecToken::True => "true"@,
        SpecToken::False => "false"@,
        SpecToken::Null => "null"@,
        SpecToken::Undefined => "undefined"@,
        _ => token_name(t),
    }
}

/// How `{:?}` renders a token.
pub open spec fn token_debug(t: SpecToken) -> Seq<char> {
    match t {
        SpecToken::Number(l) => "Number("@ + number_debug(l) + ")"@,
        SpecToken::Str(s) => "String("@ + str_debug(s) + ")"@,
        SpecToken::Template(s) => "Template("@ + str_debug(s) + ")"@,
        SpecToken::Ident(s) => "Ident("@ + str_debug(s) + ")"@,
        _ => token_name(t),
    }
}

/// How `{:?}` renders an optional token.
pub open spec fn option_token_debug(t: Option<SpecToken>) -> Seq<char> {
    match t {
        Some(t) => "Some("@ + token_debug(t) + ")"@,
        None => "None"@,
    }
}

/// Appends `token_display(t@)` to `out`.
pub fn push_token_display(out: &mut String, t: &Token)
    ensures
        final(out)@ == old(out)@ + token_display(t@),
{
    match t {
        Token::Number(l) => {
            out.append("number ");
            push_number_display(out, l.as_str());
        },
        Token::String(x) => {
            out.append("string ");
            push_str_debug(out, x.as_str());
        },
        Token::Template(x) => {
            out.append("template ");
            push_str_debug(out, x.as_str());
        },
        Token::Ident(x) => {
            out.append("ident ");
            out.append(x.as_str());
        },
        Token::True => {
            out.append("true");
        },
        Token::False => {
            out.append("false");
        },
        Token::Null => {
            out.append("null");
        },
        Token::Undefined => {
            out.append("undefined");
        },
        _ => {
            out.append(t.name());
        },
    }
}

/// Appends `token_debug(t@)` to `out`.
pub fn push_token_debug(out: &mut String, t: &Token)
    ensures
        final(out)@ == old(out)@ + token_debug(t@),
{
    match t {
        Token::Number(l) => {
            out.append("Number(");
            push_number_debug(out, l.as_str());
            out.append(")");
        },
        Token::String(x) => {
            out.append("String(");
            push_str_debug(out, x.as_str());
            out.append(")");
        },
        Token::Template(x) => {
            out.append("Template(");
            push_str_debug(out, x.as_str());
            out.append(")");
        },
        Token::Ident(x) => {
            out.append("Ident(");
            push_str_debug(out, x.as_str());
            out.append(")");
        },
        _ => {
            out.append(t.name());
        },
    }
}

/// Appends `option_token_debug` of `t` to `out`.
pub fn push_option_token_debug(out: &mut String, t: Option<&Token>)
    ensures
        final(out)@ == old(out)@ + option_token_debug(match t {
            Some(x) => Some(x@),
            None => None,
        }),
{
    match t {
        Some(x) => {
            out.append("Some(");
            push_token_debug(out, x);
            out.append(")");
        },
        None => {
            out.append("None");
        },
    }
}

impl Token {
    /// The token as messages show it (what `Display` renders).
    pub fn to_string(&self) -> (r: String)
        ensures
            r@ == token_display(self@),
    {
        let mut r = String::new();
        push_token_display(&mut r, self);
        r
    }
}

} // verus!
