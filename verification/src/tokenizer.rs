//! The tokenizer: turns source bytes into a sequence of spanned tokens.
//!
//! Token classification follows a longest-match-first discipline: multi-byte
//! operators win over their one-byte prefixes (`==` is never two `=`), and
//! keywords win over identifiers only when the whole identifier run is the
//! keyword. A comment (`#` to end of line) and a single space are skipped;
//! an indentation unit is one tab or four spaces.

use vstd::prelude::*;

verus! {

pub const B_LPAREN: u8 = 40;
pub const B_RPAREN: u8 = 41;
pub const B_LBRACE: u8 = 123;
pub const B_RBRACE: u8 = 125;
pub const B_LBRACKET: u8 = 91;
pub const B_RBRACKET: u8 = 93;
pub const B_PLUS: u8 = 43;
pub const B_MINUS: u8 = 45;
pub const B_STAR: u8 = 42;
pub const B_SLASH: u8 = 47;
pub const B_PERCENT: u8 = 37;
pub const B_CARET: u8 = 94;
pub const B_EQ: u8 = 61;
pub const B_BANG: u8 = 33;
pub const B_GT: u8 = 62;
pub const B_LT: u8 = 60;
pub const B_AMP: u8 = 38;
pub const B_PIPE: u8 = 124;
pub const B_QUESTION: u8 = 63;
pub const B_COLON: u8 = 58;
pub const B_COMMA: u8 = 44;
pub const B_NEWLINE: u8 = 10;
pub const B_DQUOTE: u8 = 34;
pub const B_SQUOTE: u8 = 39;
pub const B_HASH: u8 = 35;
pub const B_TAB: u8 = 9;
pub const B_SPACE: u8 = 32;
pub const B_DOT: u8 = 46;
pub const B_ZERO: u8 = 48;
pub const B_NINE: u8 = 57;
pub const B_A: u8 = 97;
pub const B_B: u8 = 98;
pub const B_D: u8 = 100;
pub const B_E: u8 = 101;
pub const B_F: u8 = 102;
pub const B_H: u8 = 104;
pub const B_I: u8 = 105;
pub const B_L: u8 = 108;
pub const B_N: u8 = 110;
pub const B_O: u8 = 111;
pub const B_P: u8 = 112;
pub const B_R: u8 = 114;
pub const B_S: u8 = 115;
pub const B_U: u8 = 117;
pub const B_W: u8 = 119;
pub const B_Y: u8 = 121;
pub const B_Z: u8 = 122;
pub const B_UP_A: u8 = 65;
pub const B_UP_E: u8 = 69;
pub const B_UP_Q: u8 = 81;
pub const B_UP_Z: u8 = 90;
pub const B_UNDERSCORE: u8 = 95;

/// `rust_decimal::Decimal` carries the numeric value of a number literal.
/// The value is opaque here: the grammar stores it and never reads its inside.
#[verifier::external_type_specification]
#[verifier::external_body]
pub struct ExDecimal(rust_decimal::Decimal);

/// Relies on rust_decimal's derived `Clone` on `Decimal`: the type is `Copy`,
/// so the clone is the value itself.
pub assume_specification[ <rust_decimal::Decimal as Clone>::clone ](
    d: &rust_decimal::Decimal,
) -> (r: rust_decimal::Decimal)
    ensures
        r == *d,
;

/// The decimal value that `rust_decimal`'s `Decimal::from_str` parses out of
/// the given text, or `None` where it rejects the text (for instance a value
/// beyond its 96-bit range). The result is a function of the text alone.
pub uninterp spec fn decimal_of(text: Seq<u8>) -> Option<rust_decimal::Decimal>;

/// Relies on rust_decimal's `Decimal::from_str`, reached through
/// `str::from_utf8`: the parsed value depends on the text alone.
#[verifier::external_body]
fn decimal_from_bytes(text: &[u8]) -> (r: Option<rust_decimal::Decimal>)
    ensures
        r == decimal_of(text@),
{
    match core::str::from_utf8(text) {
        Ok(s) => <rust_decimal::Decimal as core::str::FromStr>::from_str(s).ok(),
        Err(_) => None,
    }
}

/// A byte range of the source that a token was matched from.
#[derive(Debug, Clone, Copy, PartialEq, Eq, Structural)]
pub struct Span {
    pub start: usize,
    pub end: usize,
}

/// A lexical error: the position of the first byte that no token rule matches
/// (an unterminated string literal fails at its opening quote).
#[derive(Debug, Clone, Copy, PartialEq, Eq, Structural)]
pub struct LexError {
    pub pos: usize,
}

/// One lexical unit of the language.
#[derive(Debug, Clone)]
pub enum Token {
    LeftParen,
    RightParen,
    LeftBrace,
    RightBrace,
    LeftBracket,
    RightBracket,
    Add,
    PlusOne,
    Sub,
    MinusOne,
    Mul,
    Div,
    Mod,
    Pow,
    Assign,
    AddAssign,
    SubAssign,
    MulAssign,
    DivAssign,
    ModAssign,
    PowAssign,
    Equal,
    NotEqual,
    Greater,
    Less,
    GreaterEqual,
    LessEqual,
    And,
    Or,
    Not,
    Question,
    Colon,
    If,
    Elif,
    Else,
    While,
    For,
    Pub,
    Fn,
    Query,
    Comma,
    Dot,
    Line,
    Str(Vec<u8>),
    Number(rust_decimal::Decimal),
    Ident(Vec<u8>),
    Comment,
    Whitespace,
    Tab,
}

/// The mathematical model of a token: payloads are byte sequences.
pub enum SpecToken {
    LeftParen,
    RightParen,
    LeftBrace,
    RightBrace,
    LeftBracket,
    RightBracket,
    Add,
    PlusOne,
    Sub,
    MinusOne,
    Mul,
    Div,
    Mod,
    Pow,
    Assign,
    AddAssign,
    SubAssign,
    MulAssign,
    DivAssign,
    ModAssign,
    PowAssign,
    Equal,
    NotEqual,
    Greater,
    Less,
    GreaterEqual,
    LessEqual,
    And,
    Or,
    Not,
    Question,
    Colon,
    If,
    Elif,
    Else,
    While,
    For,
    Pub,
    Fn,
    Query,
    Comma,
    Dot,
    Line,
    Str(Seq<u8>),
    Number(rust_decimal::Decimal),
    Ident(Seq<u8>),
    Comment,
    Whitespace,
    Tab,
}

impl View for Token {
    type V = SpecToken;

    open spec fn view(&self) -> SpecToken {
        match self {
            Token::LeftParen => SpecToken::LeftParen,
            Token::RightParen => SpecToken::RightParen,
            Token::LeftBrace => SpecToken::LeftBrace,
            Token::RightBrace => SpecToken::RightBrace,
            Token::LeftBracket => SpecToken::LeftBracket,
            Token::RightBracket => SpecToken::RightBracket,
            Token::Add => SpecToken::Add,
            Token::PlusOne => SpecToken::PlusOne,
            Token::Sub => SpecToken::Sub,
            Token::MinusOne => SpecToken::MinusOne,
            Token::Mul => SpecToken::Mul,
            Token::Div => SpecToken::Div,
            Token::Mod => SpecToken::Mod,
            Token::Pow => SpecToken::Pow,
            Token::Assign => SpecToken::Assign,
            Token::AddAssign => SpecToken::AddAssign,
            Token::SubAssign => SpecToken::SubAssign,
            Token::MulAssign => SpecToken::MulAssign,
            Token::DivAssign => SpecToken::DivAssign,
            Token::ModAssign => SpecToken::ModAssign,
            Token::PowAssign => SpecToken::PowAssign,
            Token::Equal => SpecToken::Equal,
            Token::NotEqual => SpecToken::NotEqual,
            Token::Greater => SpecToken::Greater,
            Token::Less => SpecToken::Less,
            Token::GreaterEqual => SpecToken::GreaterEqual,
            Token::LessEqual => SpecToken::LessEqual,
            Token::And => SpecToken::And,
            Token::Or => SpecToken::Or,
            Token::Not => SpecToken::Not,
            Token::Question => SpecToken::Question,
            Token::Colon => SpecToken::Colon,
            Token::If => SpecToken::If,
            Token::Elif => SpecToken::Elif,
            Token::Else => SpecToken::Else,
            Token::While => SpecToken::While,
            Token::For => SpecToken::For,
            Token::Pub => SpecToken::Pub,
            Token::Fn => SpecToken::Fn,
            Token::Query => SpecToken::Query,
            Token::Comma => SpecToken::Comma,
            Token::Dot => SpecToken::Dot,
            Token::Line => SpecToken::Line,
            Token::Str(s) => SpecToken::Str(s@),
            Token::Number(d) => SpecToken::Number(*d),
            Token::Ident(s) => SpecToken::Ident(s@),
            Token::Comment => SpecToken::Comment,
            Token::Whitespace => SpecToken::Whitespace,
            Token::Tab => SpecToken::Tab,
        }
    }
}

/// One step of lexing: a token and its length, a skipped length
/// (comment or lone space), or a failure.
pub enum SpecStep {
    Emit(SpecToken, int),
    Skip(int),
    Fail,
}

pub open spec fn is_digit(b: u8) -> bool {
    B_ZERO <= b && b <= B_NINE
}

pub open spec fn is_ident_start(b: u8) -> bool {
    (B_A <= b && b <= B_Z) || (B_UP_A <= b && b <= B_UP_Z) || b == B_UNDERSCORE
}

pub open spec fn is_ident_cont(b: u8) -> bool {
    is_ident_start(b) || is_digit(b)
}

/// Length of the digit run starting at `i`.
pub open spec fn digit_run(s: Seq<u8>, i: int) -> int
    decreases s.len() - i when 0 <= i <= s.len()
{
    if i < s.len() && is_digit(s[i]) {
        1 + digit_run(s, i + 1)
    } else {
        0
    }
}

/// Length of the identifier-character run starting at `i`.
pub open spec fn ident_run(s: Seq<u8>, i: int) -> int
    decreases s.len() - i when 0 <= i <= s.len()
{
    if i < s.len() && is_ident_cont(s[i]) {
        1 + ident_run(s, i + 1)
    } else {
        0
    }
}

/// Length of the run of bytes other than a newline starting at `i`.
pub open spec fn nonline_run(s: Seq<u8>, i: int) -> int
    decreases s.len() - i when 0 <= i <= s.len()
{
    if i < s.len() && s[i] != B_NEWLINE {
        1 + nonline_run(s, i + 1)
    } else {
        0
    }
}

/// Position of the first occurrence of `q` at or after `i`, if any.
pub open spec fn close_quote(s: Seq<u8>, i: int, q: u8) -> Option<int>
    decreases s.len() - i when 0 <= i <= s.len()
{
    if i >= s.len() {
        None
    } else if s[i] == q {
        Some(i)
    } else {
        close_quote(s, i + 1, q)
    }
}

/// Length of an exponent part (`e`/`E`, optional sign, digits) at `j`,
/// or 0 where none is present.
pub open spec fn exp_len(s: Seq<u8>, j: int) -> int {
    if j < s.len() && (s[j] == B_E || s[j] == B_UP_E) {
        if j + 1 < s.len() && is_digit(s[j + 1]) {
            1 + digit_run(s, j + 1)
        } else if j + 2 < s.len() && (s[j + 1] == B_PLUS || s[j + 1] == B_MINUS) && is_digit(s[j + 2]) {
            2 + digit_run(s, j + 2)
        } else {
            0
        }
    } else {
        0
    }
}

/// Longest match of a number literal at `i`: optional leading digits, then
/// either nothing more or a dot with digits, then an optional exponent.
/// 0 means no number starts here.
pub open spec fn number_len(s: Seq<u8>, i: int) -> int {
    let d1 = digit_run(s, i);
    let base = if i + d1 + 1 < s.len() && s[i + d1] == B_DOT && is_digit(s[i + d1 + 1]) {
        d1 + 1 + digit_run(s, i + d1 + 1)
    } else {
        d1
    };
    if base == 0 {
        0
    } else {
        base + exp_len(s, i + base)
    }
}

/// Classification of an identifier run: a keyword where the whole run spells
/// one, else an identifier. `and`/`or` alias to the logical connectives.
pub open spec fn keyword_or_ident(s: Seq<u8>, i: int, l: int) -> SpecStep {
    if l == 2 && s[i] == B_I && s[i + 1] == B_F {
        SpecStep::Emit(SpecToken::If, 2)
    } else if l == 2 && s[i] == B_O && s[i + 1] == B_R {
        SpecStep::Emit(SpecToken::Or, 2)
    } else if l == 2 && s[i] == B_F && s[i + 1] == B_N {
        SpecStep::Emit(SpecToken::Fn, 2)
    } else if l == 3 && s[i] == B_A && s[i + 1] == B_N && s[i + 2] == B_D {
        SpecStep::Emit(SpecToken::And, 3)
    } else if l == 3 && s[i] == B_F && s[i + 1] == B_O && s[i + 2] == B_R {
        SpecStep::Emit(SpecToken::For, 3)
    } else if l == 3 && s[i] == B_P && s[i + 1] == B_U && s[i + 2] == B_B {
        SpecStep::Emit(SpecToken::Pub, 3)
    } else if l == 4 && s[i] == B_E && s[i + 1] == B_L && s[i + 2] == B_I && s[i + 3] == B_F {
        SpecStep::Emit(SpecToken::Elif, 4)
    } else if l == 4 && s[i] == B_E && s[i + 1] == B_L && s[i + 2] == B_S && s[i + 3] == B_E {
        SpecStep::Emit(SpecToken::Else, 4)
    } else if l == 5 && s[i] == B_W && s[i + 1] == B_H && s[i + 2] == B_I && s[i + 3] == B_L
        && s[i + 4] == B_E {
        SpecStep::Emit(SpecToken::While, 5)
    } else if l == 5 && s[i] == B_UP_Q && s[i + 1] == B_U && s[i + 2] == B_E && s[i + 3] == B_R
        && s[i + 4] == B_Y {
        SpecStep::Emit(SpecToken::Query, 5)
    } else {
        SpecStep::Emit(SpecToken::Ident(s.subrange(i, i + l)), l)
    }
}

/// The token rule that fires at position `i`, by longest-match-first
/// resolution over the token set.
pub open spec fn spec_token_at(s: Seq<u8>, i: int) -> SpecStep
    recommends 0 <= i < s.len(),
{
    let b = s[i];
    if b == B_LPAREN {
        SpecStep::Emit(SpecToken::LeftParen, 1)
    } else if b == B_RPAREN {
        SpecStep::Emit(SpecToken::RightParen, 1)
    } else if b == B_LBRACE {
        SpecStep::Emit(SpecToken::LeftBrace, 1)
    } else if b == B_RBRACE {
        SpecStep::Emit(SpecToken::RightBrace, 1)
    } else if b == B_LBRACKET {
        SpecStep::Emit(SpecToken::LeftBracket, 1)
    } else if b == B_RBRACKET {
        SpecStep::Emit(SpecToken::RightBracket, 1)
    } else if b == B_PLUS {
        if i + 1 < s.len() && s[i + 1] == B_PLUS {
            SpecStep::Emit(SpecToken::PlusOne, 2)
        } else if i + 1 < s.len() && s[i + 1] == B_EQ {
            SpecStep::Emit(SpecToken::AddAssign, 2)
        } else {
            SpecStep::Emit(SpecToken::Add, 1)
        }
    } else if b == B_MINUS {
        if i + 1 < s.len() && s[i + 1] == B_MINUS {
            SpecStep::Emit(SpecToken::MinusOne, 2)
        } else if i + 1 < s.len() && s[i + 1] == B_EQ {
            SpecStep::Emit(SpecToken::SubAssign, 2)
        } else {
            SpecStep::Emit(SpecToken::Sub, 1)
        }
    } else if b == B_STAR {
        if i + 1 < s.len() && s[i + 1] == B_EQ {
            SpecStep::Emit(SpecToken::MulAssign, 2)
        } else {
            SpecStep::Emit(SpecToken::Mul, 1)
        }
    } else if b == B_SLASH {
        if i + 1 < s.len() && s[i + 1] == B_EQ {
            SpecStep::Emit(SpecToken::DivAssign, 2)
        } else {
            SpecStep::Emit(SpecToken::Div, 1)
        }
    } else if b == B_PERCENT {
        if i + 1 < s.len() && s[i + 1] == B_EQ {
            SpecStep::Emit(SpecToken::ModAssign, 2)
        } else {
            SpecStep::Emit(SpecToken::Mod, 1)
        }
    } else if b == B_CARET {
        if i + 1 < s.len() && s[i + 1] == B_EQ {
            SpecStep::Emit(SpecToken::PowAssign, 2)
        } else {
            SpecStep::Emit(SpecToken::Pow, 1)
        }
    } else if b == B_EQ {
        if i + 1 < s.len() && s[i + 1] == B_EQ {
            SpecStep::Emit(SpecToken::Equal, 2)
        } else {
            SpecStep::Emit(SpecToken::Assign, 1)
        }
    } else if b == B_BANG {
        if i + 1 < s.len() && s[i + 1] == B_EQ {
            SpecStep::Emit(SpecToken::NotEqual, 2)
        } else {
            SpecStep::Emit(SpecToken::Not, 1)
        }
    } else if b == B_GT {
        if i + 1 < s.len() && s[i + 1] == B_EQ {
            SpecStep::Emit(SpecToken::GreaterEqual, 2)
        } else {
            SpecStep::Emit(SpecToken::Greater, 1)
        }
    } else if b == B_LT {
        if i + 1 < s.len() && s[i + 1] == B_EQ {
            SpecStep::Emit(SpecToken::LessEqual, 2)
        } else {
            SpecStep::Emit(SpecToken::Less, 1)
        }
    } else if b == B_AMP {
        if i + 1 < s.len() && s[i + 1] == B_AMP {
            SpecStep::Emit(SpecToken::And, 2)
        } else {
            SpecStep::Emit(SpecToken::And, 1)
        }
    } else if b == B_PIPE {
        if i + 1 < s.len() && s[i + 1] == B_PIPE {
            SpecStep::Emit(SpecToken::Or, 2)
        } else {
            SpecStep::Emit(SpecToken::Or, 1)
        }
    } else if b == B_QUESTION {
        SpecStep::Emit(SpecToken::Question, 1)
    } else if b == B_COLON {
        SpecStep::Emit(SpecToken::Colon, 1)
    } else if b == B_COMMA {
        SpecStep::Emit(SpecToken::Comma, 1)
    } else if b == B_NEWLINE {
        SpecStep::Emit(SpecToken::Line, 1)
    } else if b == B_DQUOTE {
        match close_quote(s, i + 1, B_DQUOTE) {
            // the matched text less its closing quote
            Some(j) => SpecStep::Emit(SpecToken::Str(s.subrange(i, j)), j - i + 1),
            None => SpecStep::Fail,
        }
    } else if b == B_SQUOTE {
        match close_quote(s, i + 1, B_SQUOTE) {
            Some(j) => SpecStep::Emit(SpecToken::Str(s.subrange(i + 1, j)), j - i + 1),
            None => SpecStep::Fail,
        }
    } else if b == B_HASH {
        SpecStep::Skip(1 + nonline_run(s, i + 1))
    } else if b == B_TAB {
        SpecStep::Emit(SpecToken::Tab, 1)
    } else if b == B_SPACE {
        if i + 3 < s.len() && s[i + 1] == B_SPACE && s[i + 2] == B_SPACE && s[i + 3] == B_SPACE {
            SpecStep::Emit(SpecToken::Tab, 4)
        } else {
            SpecStep::Skip(1)
        }
    } else if is_digit(b) || b == B_DOT {
        let l = number_len(s, i);
        if l == 0 {
            SpecStep::Emit(SpecToken::Dot, 1)
        } else {
            match decimal_of(s.subrange(i, i + l)) {
                Some(d) => SpecStep::Emit(SpecToken::Number(d), l),
                None => SpecStep::Fail,
            }
        }
    } else if is_ident_start(b) {
        keyword_or_ident(s, i, ident_run(s, i))
    } else {
        SpecStep::Fail
    }
}

/// The token sequence of the whole source from position `i` on, or the
/// position of the first lexical failure.
pub open spec fn spec_tokenize(s: Seq<u8>, i: int) -> Result<Seq<(SpecToken, Span)>, int>
    decreases s.len() - i when 0 <= i <= s.len()
{
    if i >= s.len() {
        Ok(Seq::empty())
    } else {
        match spec_token_at(s, i) {
            SpecStep::Fail => Err(i),
            SpecStep::Skip(l) => if i < i + l && i + l <= s.len() {
                spec_tokenize(s, i + l)
            } else {
                Err(i)
            },
            SpecStep::Emit(t, l) => if i < i + l && i + l <= s.len() {
                match spec_tokenize(s, i + l) {
                    Ok(rest) => Ok(
                        seq![(t, Span { start: i as usize, end: (i + l) as usize })] + rest,
                    ),
                    Err(e) => Err(e),
                }
            } else {
                Err(i)
            },
        }
    }
}

/// The token-and-span list seen as its mathematical model.
pub open spec fn spanned_view(v: Seq<(Token, Span)>) -> Seq<(SpecToken, Span)> {
    v.map_values(|p: (Token, Span)| (p.0@, p.1))
}

pub proof fn lemma_ident_run_nonneg(s: Seq<u8>, i: int)
    requires
        0 <= i <= s.len(),
    ensures
        ident_run(s, i) >= 0,
    decreases s.len() - i,
{
    if i < s.len() && is_ident_cont(s[i]) {
        lemma_ident_run_nonneg(s, i + 1);
    }
}

fn digit_run_exec(s: &[u8], i: usize) -> (r: usize)
    requires
        i <= s@.len(),
    ensures
        r as int == digit_run(s@, i as int),
        i + r <= s@.len(),
{
    let mut j: usize = i;
    while j < s.len() && B_ZERO <= s[j] && s[j] <= B_NINE
        invariant
            i <= j <= s@.len(),
            digit_run(s@, i as int) == j - i + digit_run(s@, j as int),
        decreases s@.len() - j,
    {
        j = j + 1;
    }
    j - i
}

fn ident_run_exec(s: &[u8], i: usize) -> (r: usize)
    requires
        i <= s@.len(),
    ensures
        r as int == ident_run(s@, i as int),
        i + r <= s@.len(),
{
    let mut j: usize = i;
    while j < s.len() && ((B_A <= s[j] && s[j] <= B_Z) || (B_UP_A <= s[j] && s[j] <= B_UP_Z)
        || s[j] == B_UNDERSCORE || (B_ZERO <= s[j] && s[j] <= B_NINE))
        invariant
            i <= j <= s@.len(),
            ident_run(s@, i as int) == j - i + ident_run(s@, j as int),
        decreases s@.len() - j,
    {
        j = j + 1;
    }
    j - i
}

fn nonline_run_exec(s: &[u8], i: usize) -> (r: usize)
    requires
        i <= s@.len(),
    ensures
        r as int == nonline_run(s@, i as int),
        i + r <= s@.len(),
{
    let mut j: usize = i;
    while j < s.len() && s[j] != B_NEWLINE
        invariant
            i <= j <= s@.len(),
            nonline_run(s@, i as int) == j - i + nonline_run(s@, j as int),
        decreases s@.len() - j,
    {
        j = j + 1;
    }
    j - i
}

fn close_quote_exec(s: &[u8], i: usize, q: u8) -> (r: Option<usize>)
    requires
        i <= s@.len(),
    ensures
        (match r {
            Some(j) => close_quote(s@, i as int, q) == Some(j as int) && i <= j < s@.len(),
            None => close_quote(s@, i as int, q) is None,
        }),
{
    let mut j: usize = i;
    while j < s.len() && s[j] != q
        invariant
            i <= j <= s@.len(),
            close_quote(s@, i as int, q) == close_quote(s@, j as int, q),
        decreases s@.len() - j,
    {
        j = j + 1;
    }
    if j < s.len() {
        Some(j)
    } else {
        None
    }
}

fn exp_len_exec(s: &[u8], j: usize) -> (r: usize)
    requires
        j <= s@.len(),
    ensures
        r as int == exp_len(s@, j as int),
        j + r <= s@.len(),
{
    if j < s.len() && (s[j] == B_E || s[j] == B_UP_E) {
        if j + 1 < s.len() && B_ZERO <= s[j + 1] && s[j + 1] <= B_NINE {
            1 + digit_run_exec(s, j + 1)
        } else if s.len() - j > 2 && (s[j + 1] == B_PLUS || s[j + 1] == B_MINUS) && B_ZERO <= s[j + 2]
            && s[j + 2] <= B_NINE {
            2 + digit_run_exec(s, j + 2)
        } else {
            0
        }
    } else {
        0
    }
}

fn number_len_exec(s: &[u8], i: usize) -> (r: usize)
    requires
        i <= s@.len(),
    ensures
        r as int == number_len(s@, i as int),
        i + r <= s@.len(),
{
    let d1 = digit_run_exec(s, i);
    let base: usize = if s.len() - i - d1 >= 2 && s[i + d1] == B_DOT && B_ZERO <= s[i + d1 + 1]
        && s[i + d1 + 1] <= B_NINE {
        d1 + 1 + digit_run_exec(s, i + d1 + 1)
    } else {
        d1
    };
    if base == 0 {
        0
    } else {
        base + exp_len_exec(s, i + base)
    }
}

/// One step of the executable lexer.
enum Step {
    Emit(Token, usize),
    Skip(usize),
    Fail,
}

fn token_step(s: &[u8], i: usize) -> (r: Step)
    requires
        i < s@.len(),
    ensures
        (match r {
            Step::Emit(t, l) => spec_token_at(s@, i as int) == SpecStep::Emit(t@, l as int)
                && i < i + l <= s@.len(),
            Step::Skip(l) => spec_token_at(s@, i as int) == SpecStep::Skip(l as int)
                && i < i + l <= s@.len(),
            Step::Fail => spec_token_at(s@, i as int) is Fail,
        }),
{
    let b = s[i];
    if b == B_LPAREN {
        Step::Emit(Token::LeftParen, 1)
    } else if b == B_RPAREN {
        Step::Emit(Token::RightParen, 1)
    } else if b == B_LBRACE {
        Step::Emit(Token::LeftBrace, 1)
    } else if b == B_RBRACE {
        Step::Emit(Token::RightBrace, 1)
    } else if b == B_LBRACKET {
        Step::Emit(Token::LeftBracket, 1)
    } else if b == B_RBRACKET {
        Step::Emit(Token::RightBracket, 1)
    } else if b == B_PLUS {
        if i + 1 < s.len() && s[i + 1] == B_PLUS {
            Step::Emit(Token::PlusOne, 2)
        } else if i + 1 < s.len() && s[i + 1] == B_EQ {
            Step::Emit(Token::AddAssign, 2)
        } else {
            Step::Emit(Token::Add, 1)
        }
    } else if b == B_MINUS {
        if i + 1 < s.len() && s[i + 1] == B_MINUS {
            Step::Emit(Token::MinusOne, 2)
        } else if i + 1 < s.len() && s[i + 1] == B_EQ {
            Step::Emit(Token::SubAssign, 2)
        } else {
            Step::Emit(Token::Sub, 1)
        }
    } else if b == B_STAR {
        if i + 1 < s.len() && s[i + 1] == B_EQ {
            Step::Emit(Token::MulAssign, 2)
        } else {
            Step::Emit(Token::Mul, 1)
        }
    } else if b == B_SLASH {
        if i + 1 < s.len() && s[i + 1] == B_EQ {
            Step::Emit(Token::DivAssign, 2)
        } else {
            Step::Emit(Token::Div, 1)
        }
    } else if b == B_PERCENT {
        if i + 1 < s.len() && s[i + 1] == B_EQ {
            Step::Emit(Token::ModAssign, 2)
        } else {
            Step::Emit(Token::Mod, 1)
        }
    } else if b == B_CARET {
        if i + 1 < s.len() && s[i + 1] == B_EQ {
            Step::Emit(Token::PowAssign, 2)
        } else {
            Step::Emit(Token::Pow, 1)
        }
    } else if b == B_EQ {
        if i + 1 < s.len() && s[i + 1] == B_EQ {
            Step::Emit(Token::Equal, 2)
        } else {
            Step::Emit(Token::Assign, 1)
        }
    } else if b == B_BANG {
        if i + 1 < s.len() && s[i + 1] == B_EQ {
            Step::Emit(Token::NotEqual, 2)
        } else {
            Step::Emit(Token::Not, 1)
        }
    } else if b == B_GT {
        if i + 1 < s.len() && s[i + 1] == B_EQ {
            Step::Emit(Token::GreaterEqual, 2)
        } else {
            Step::Emit(Token::Greater, 1)
        }
    } else if b == B_LT {
        if i + 1 < s.len() && s[i + 1] == B_EQ {
            Step::Emit(Token::LessEqual, 2)
        } else {
            Step::Emit(Token::Less, 1)
        }
    } else if b == B_AMP {
        if i + 1 < s.len() && s[i + 1] == B_AMP {
            Step::Emit(Token::And, 2)
        } else {
            Step::Emit(Token::And, 1)
        }
    } else if b == B_PIPE {
        if i + 1 < s.len() && s[i + 1] == B_PIPE {
            Step::Emit(Token::Or, 2)
        } else {
            Step::Emit(Token::Or, 1)
        }
    } else if b == B_QUESTION {
        Step::Emit(Token::Question, 1)
    } else if b == B_COLON {
        Step::Emit(Token::Colon, 1)
    } else if b == B_COMMA {
        Step::Emit(Token::Comma, 1)
    } else if b == B_NEWLINE {
        Step::Emit(Token::Line, 1)
    } else if b == B_DQUOTE {
        match close_quote_exec(s, i + 1, B_DQUOTE) {
            Some(j) => {
                let text = vstd::slice::slice_to_vec(vstd::slice::slice_subrange(s, i, j));
                Step::Emit(Token::Str(text), j - i + 1)
            },
            None => Step::Fail,
        }
    } else if b == B_SQUOTE {
        match close_quote_exec(s, i + 1, B_SQUOTE) {
            Some(j) => {
                let text = vstd::slice::slice_to_vec(vstd::slice::slice_subrange(s, i + 1, j));
                Step::Emit(Token::Str(text), j - i + 1)
            },
            None => Step::Fail,
        }
    } else if b == B_HASH {
        Step::Skip(1 + nonline_run_exec(s, i + 1))
    } else if b == B_TAB {
        Step::Emit(Token::Tab, 1)
    } else if b == B_SPACE {
        if s.len() - i > 3 && s[i + 1] == B_SPACE && s[i + 2] == B_SPACE && s[i + 3] == B_SPACE {
            Step::Emit(Token::Tab, 4)
        } else {
            Step::Skip(1)
        }
    } else if (B_ZERO <= b && b <= B_NINE) || b == B_DOT {
        let l = number_len_exec(s, i);
        if l == 0 {
            Step::Emit(Token::Dot, 1)
        } else {
            match decimal_from_bytes(vstd::slice::slice_subrange(s, i, i + l)) {
                Some(d) => Step::Emit(Token::Number(d), l),
                None => Step::Fail,
            }
        }
    } else if (B_A <= b && b <= B_Z) || (B_UP_A <= b && b <= B_UP_Z) || b == B_UNDERSCORE {
        let l = ident_run_exec(s, i);
        proof {
            lemma_ident_run_nonneg(s@, i as int + 1);
            assert(is_ident_cont(s@[i as int]));
        }
        if l == 2 && s[i] == B_I && s[i + 1] == B_F {
            Step::Emit(Token::If, 2)
        } else if l == 2 && s[i] == B_O && s[i + 1] == B_R {
            Step::Emit(Token::Or, 2)
        } else if l == 2 && s[i] == B_F && s[i + 1] == B_N {
            Step::Emit(Token::Fn, 2)
        } else if l == 3 && s[i] == B_A && s[i + 1] == B_N && s[i + 2] == B_D {
            Step::Emit(Token::And, 3)
        } else if l == 3 && s[i] == B_F && s[i + 1] == B_O && s[i + 2] == B_R {
            Step::Emit(Token::For, 3)
        } else if l == 3 && s[i] == B_P && s[i + 1] == B_U && s[i + 2] == B_B {
            Step::Emit(Token::Pub, 3)
        } else if l == 4 && s[i] == B_E && s[i + 1] == B_L && s[i + 2] == B_I && s[i + 3]
            == B_F {
            Step::Emit(Token::Elif, 4)
        } else if l == 4 && s[i] == B_E && s[i + 1] == B_L && s[i + 2] == B_S && s[i + 3]
            == B_E {
            Step::Emit(Token::Else, 4)
        } else if l == 5 && s[i] == B_W && s[i + 1] == B_H && s[i + 2] == B_I && s[i + 3]
            == B_L && s[i + 4] == B_E {
            Step::Emit(Token::While, 5)
        } else if l == 5 && s[i] == B_UP_Q && s[i + 1] == B_U && s[i + 2] == B_E && s[i + 3]
            == B_R && s[i + 4] == B_Y {
            Step::Emit(Token::Query, 5)
        } else {
            let text = vstd::slice::slice_to_vec(vstd::slice::slice_subrange(s, i, i + l));
            Step::Emit(Token::Ident(text), l)
        }
    } else {
        Step::Fail
    }
}

/// Tokenize the whole source: the spanned token sequence that the lexical
/// rules produce, or the position of the first byte where no rule matches.
pub fn tokenize(src: &[u8]) -> (r: Result<Vec<(Token, Span)>, LexError>)
    ensures
        (match r {
            Ok(v) => spec_tokenize(src@, 0) == Ok::<Seq<(SpecToken, Span)>, int>(
                spanned_view(v@),
            ),
            Err(e) => spec_tokenize(src@, 0) == Err::<Seq<(SpecToken, Span)>, int>(e.pos as int)
                && e.pos < src@.len(),
        }),
{
    let mut out: Vec<(Token, Span)> = Vec::new();
    let mut i: usize = 0;
    while i < src.len()
        invariant
            i <= src@.len(),
            spec_tokenize(src@, 0) == (match spec_tokenize(src@, i as int) {
                Ok(rest) => Ok::<Seq<(SpecToken, Span)>, int>(spanned_view(out@) + rest),
                Err(e) => Err::<Seq<(SpecToken, Span)>, int>(e),
            }),
        decreases src@.len() - i,
    {
        let ghost old_i = i as int;
        let ghost old_out = out@;
        match token_step(src, i) {
            Step::Emit(t, l) => {
                let span = Span { start: i, end: i + l };
                let ghost tv = t@;
                out.push((t, span));
                i = i + l;
                proof {
                    assert(spanned_view(out@) =~= spanned_view(old_out) + seq![(tv, span)]);
                    if spec_tokenize(src@, i as int) is Ok {
                        let rest = spec_tokenize(src@, i as int)->Ok_0;
                        assert(spanned_view(old_out) + (seq![(tv, span)] + rest) =~= spanned_view(
                            out@,
                        ) + rest);
                    }
                }
            },
            Step::Skip(l) => {
                i = i + l;
            },
            Step::Fail => {
                return Err(LexError { pos: i });
            },
        }
    }
    proof {
        assert(spanned_view(out@) + Seq::<(SpecToken, Span)>::empty() =~= spanned_view(out@));
    }
    Ok(out)
}

// --- laws of the lexer ---

proof fn lemma_digit_run_facts(s: Seq<u8>, i: int)
    requires
        0 <= i <= s.len(),
    ensures
        0 <= digit_run(s, i),
        i + digit_run(s, i) <= s.len(),
        i + digit_run(s, i) < s.len() ==> !is_digit(s[i + digit_run(s, i)]),
    decreases s.len() - i,
{
    if i < s.len() && is_digit(s[i]) {
        lemma_digit_run_facts(s, i + 1);
    }
}

proof fn lemma_ident_run_facts(s: Seq<u8>, i: int)
    requires
        0 <= i <= s.len(),
    ensures
        0 <= ident_run(s, i),
        i + ident_run(s, i) <= s.len(),
        i + ident_run(s, i) < s.len() ==> !is_ident_cont(s[i + ident_run(s, i)]),
    decreases s.len() - i,
{
    if i < s.len() && is_ident_cont(s[i]) {
        lemma_ident_run_facts(s, i + 1);
    }
}

/// A digit run computed inside a window of the source equals the run in the
/// source, provided the run ends inside the window.
proof fn lemma_digit_run_subrange(s: Seq<u8>, i: int, m: int, a: int)
    requires
        0 <= i,
        0 <= a <= m,
        i + m <= s.len(),
        a + digit_run(s, i + a) <= m,
        a + digit_run(s, i + a) < m ==> !is_digit(s[i + a + digit_run(s, i + a)]),
    ensures
        digit_run(s.subrange(i, i + m), a) == digit_run(s, i + a),
    decreases m - a,
{
    lemma_digit_run_facts(s, i + a);
    let sub = s.subrange(i, i + m);
    if a < m && is_digit(sub[a]) {
        lemma_digit_run_subrange(s, i, m, a + 1);
    }
}

/// The identifier-run analogue of the digit-run window fact.
proof fn lemma_ident_run_subrange(s: Seq<u8>, i: int, m: int, a: int)
    requires
        0 <= i,
        0 <= a <= m,
        i + m <= s.len(),
        a + ident_run(s, i + a) <= m,
        a + ident_run(s, i + a) < m ==> !is_ident_cont(s[i + a + ident_run(s, i + a)]),
    ensures
        ident_run(s.subrange(i, i + m), a) == ident_run(s, i + a),
    decreases m - a,
{
    lemma_ident_run_facts(s, i + a);
    let sub = s.subrange(i, i + m);
    if a < m && is_ident_cont(sub[a]) {
        lemma_ident_run_subrange(s, i, m, a + 1);
    }
}

proof fn lemma_close_quote_facts(s: Seq<u8>, i: int, q: u8)
    requires
        0 <= i <= s.len(),
    ensures
        (match close_quote(s, i, q) {
            Some(j) => i <= j < s.len() && s[j] == q && (forall|k: int|
                i <= k < j ==> s[k] != q),
            None => forall|k: int| i <= k < s.len() ==> s[k] != q,
        }),
    decreases s.len() - i,
{
    if i < s.len() && s[i] != q {
        lemma_close_quote_facts(s, i + 1, q);
    }
}

proof fn lemma_close_quote_compute(s: Seq<u8>, i: int, j: int, q: u8)
    requires
        0 <= i <= j < s.len(),
        s[j] == q,
        forall|k: int| i <= k < j ==> s[k] != q,
    ensures
        close_quote(s, i, q) == Some(j),
    decreases j - i,
{
    if i < j {
        lemma_close_quote_compute(s, i + 1, j, q);
    }
}

/// Round-trip idempotence of the lexer: re-tokenizing the span text of any
/// token it produced yields exactly that token once more, spanning the whole
/// text.
#[verifier::rlimit(100)]
pub proof fn lemma_token_round_trip(s: Seq<u8>, i: int, t: SpecToken, l: int)
    requires
        0 <= i < s.len(),
        spec_token_at(s, i) == SpecStep::Emit(t, l),
    ensures
        1 <= l && i + l <= s.len(),
        spec_tokenize(s.subrange(i, i + l), 0) == Ok::<Seq<(SpecToken, Span)>, int>(
            seq![(t, Span { start: 0, end: l as usize })],
        ),
{
    let b = s[i];
    lemma_digit_run_facts(s, i);
    lemma_ident_run_facts(s, i);
    if b == B_DQUOTE {
        lemma_close_quote_facts(s, i + 1, B_DQUOTE);
    }
    if b == B_SQUOTE {
        lemma_close_quote_facts(s, i + 1, B_SQUOTE);
    }
    if is_digit(b) || b == B_DOT {
        let d1 = digit_run(s, i);
        let dotted = i + d1 + 1 < s.len() && s[i + d1] == B_DOT && is_digit(s[i + d1 + 1]);
        if dotted {
            lemma_digit_run_facts(s, i + d1 + 1);
        }
        let base = if dotted {
            d1 + 1 + digit_run(s, i + d1 + 1)
        } else {
            d1
        };
        let j = i + base;
        if j < s.len() && (s[j] == B_E || s[j] == B_UP_E) {
            if j + 1 < s.len() && is_digit(s[j + 1]) {
                lemma_digit_run_facts(s, j + 1);
            } else if j + 2 < s.len() && (s[j + 1] == B_PLUS || s[j + 1] == B_MINUS)
                && is_digit(s[j + 2]) {
                lemma_digit_run_facts(s, j + 2);
            }
        }
    }
    assert(1 <= l && i + l <= s.len());
    let sub = s.subrange(i, i + l);
    assert(sub.len() == l);
    assert(spec_token_at(sub, 0) == SpecStep::Emit(t, l)) by {
        if b == B_DQUOTE {
            let j = close_quote(s, i + 1, B_DQUOTE)->0;
            lemma_close_quote_facts(s, i + 1, B_DQUOTE);
            lemma_close_quote_compute(sub, 1, l - 1, B_DQUOTE);
            assert(sub.subrange(0, l - 1) =~= s.subrange(i, j));
        } else if b == B_SQUOTE {
            let j = close_quote(s, i + 1, B_SQUOTE)->0;
            lemma_close_quote_facts(s, i + 1, B_SQUOTE);
            lemma_close_quote_compute(sub, 1, l - 1, B_SQUOTE);
            assert(sub.subrange(1, l - 1) =~= s.subrange(i + 1, j));
        } else if is_digit(b) || b == B_DOT {
            let d1 = digit_run(s, i);
            lemma_digit_run_facts(s, i);
            if number_len(s, i) == 0 {
                assert(b == B_DOT);
                assert(t == SpecToken::Dot && l == 1);
                assert(digit_run(sub, 0) == 0);
                assert(number_len(sub, 0) == 0);
                assert(spec_token_at(sub, 0) == SpecStep::Emit(t, l));
            } else {
                let base = if i + d1 + 1 < s.len() && s[i + d1] == B_DOT && is_digit(
                    s[i + d1 + 1],
                ) {
                    d1 + 1 + digit_run(s, i + d1 + 1)
                } else {
                    d1
                };
                let e = exp_len(s, i + base);
                assert(l == base + e);
                lemma_digit_run_subrange(s, i, l, 0);
                assert(digit_run(sub, 0) == d1);
                if base > d1 {
                    let d2 = digit_run(s, i + d1 + 1);
                    lemma_digit_run_facts(s, i + d1 + 1);
                    lemma_digit_run_subrange(s, i, l, d1 + 1);
                    assert(digit_run(sub, d1 + 1) == d2);
                }
                if e > 0 {
                    if i + base + 1 < s.len() && is_digit(s[i + base + 1]) {
                        lemma_digit_run_facts(s, i + base + 1);
                        lemma_digit_run_subrange(s, i, l, base + 1);
                    } else {
                        lemma_digit_run_facts(s, i + base + 2);
                        lemma_digit_run_subrange(s, i, l, base + 2);
                    }
                }
                assert(number_len(sub, 0) == l);
                assert(sub.subrange(0, l) =~= s.subrange(i, i + l));
                assert(spec_token_at(sub, 0) == SpecStep::Emit(t, l));
            }
        } else if is_ident_start(b) {
            lemma_ident_run_subrange(s, i, l, 0);
            assert(ident_run(sub, 0) == l);
            assert(sub.subrange(0, l) =~= s.subrange(i, i + l));
            assert(spec_token_at(sub, 0) == SpecStep::Emit(t, l));
        } else {
            assert(spec_token_at(sub, 0) == SpecStep::Emit(t, l));
        }
    };
    assert(spec_tokenize(sub, l) == Ok::<Seq<(SpecToken, Span)>, int>(Seq::empty()));
    assert(seq![(t, Span { start: 0, end: l as usize })] + Seq::<(SpecToken, Span)>::empty()
        =~= seq![(t, Span { start: 0, end: l as usize })]);
}


} // verus!
