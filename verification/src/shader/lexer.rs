//! Tokenizer for the Milkdrop HLSL dialect (run after preprocessing).

use vstd::prelude::*;
use crate::text::{push_char, push_str};

verus! {

/// A token. `S` is the text type: `String` for tokens, `Seq<char>` for their
/// plain form.
#[derive(Debug)]
pub enum Token<S> {
    Ident(S),
    Int(i64),
    /// A float literal's text (digits, point, exponent; no suffix).
    Float(S),
    Plus,
    Minus,
    Star,
    Slash,
    Percent,
    Assign,
    PlusAssign,
    MinusAssign,
    StarAssign,
    SlashAssign,
    PercentAssign,
    PlusPlus,
    MinusMinus,
    Eq,
    Ne,
    Lt,
    Gt,
    Le,
    Ge,
    AndAnd,
    OrOr,
    Bang,
    Amp,
    Pipe,
    Caret,
    Tilde,
    Shl,
    Shr,
    Question,
    Colon,
    Dot,
    Comma,
    Semicolon,
    LParen,
    RParen,
    LBrace,
    RBrace,
    LBracket,
    RBracket,
    Eof,
}

/// A token as produced by the lexer.
pub type Tok = Token<String>;

/// The plain form of a token.
pub type TokV = Token<Seq<char>>;

impl View for Token<String> {
    type V = TokV;

    open spec fn view(&self) -> TokV {
        match self {
            Token::Ident(s) => Token::Ident(s@),
            Token::Int(v) => Token::Int(*v),
            Token::Float(s) => Token::Float(s@),
            Token::Plus => Token::Plus,
            Token::Minus => Token::Minus,
            Token::Star => Token::Star,
            Token::Slash => Token::Slash,
            Token::Percent => Token::Percent,
            Token::Assign => Token::Assign,
            Token::PlusAssign => Token::PlusAssign,
            Token::MinusAssign => Token::MinusAssign,
            Token::StarAssign => Token::StarAssign,
            Token::SlashAssign => Token::SlashAssign,
            Token::PercentAssign => Token::PercentAssign,
            Token::PlusPlus => Token::PlusPlus,
            Token::MinusMinus => Token::MinusMinus,
            Token::Eq => Token::Eq,
            Token::Ne => Token::Ne,
            Token::Lt => Token::Lt,
            Token::Gt => Token::Gt,
            Token::Le => Token::Le,
            Token::Ge => Token::Ge,
            Token::AndAnd => Token::AndAnd,
            Token::OrOr => Token::OrOr,
            Token::Bang => Token::Bang,
            Token::Amp => Token::Amp,
            Token::Pipe => Token::Pipe,
            Token::Caret => Token::Caret,
            Token::Tilde => Token::Tilde,
            Token::Shl => Token::Shl,
            Token::Shr => Token::Shr,
            Token::Question => Token::Question,
            Token::Colon => Token::Colon,
            Token::Dot => Token::Dot,
            Token::Comma => Token::Comma,
            Token::Semicolon => Token::Semicolon,
            Token::LParen => Token::LParen,
            Token::RParen => Token::RParen,
            Token::LBrace => Token::LBrace,
            Token::RBrace => Token::RBrace,
            Token::LBracket => Token::LBracket,
            Token::RBracket => Token::RBracket,
            Token::Eof => Token::Eof,
        }
    }
}

/// A copy of a token.
pub fn tok_clone(t: &Tok) -> (r: Tok)
    ensures
        r@ == t@,
{
    match t {
        Token::Ident(s) => Token::Ident(s.clone()),
        Token::Int(v) => Token::Int(*v),
        Token::Float(s) => Token::Float(s.clone()),
        Token::Plus => Token::Plus,
        Token::Minus => Token::Minus,
        Token::Star => Token::Star,
        Token::Slash => Token::Slash,
        Token::Percent => Token::Percent,
        Token::Assign => Token::Assign,
        Token::PlusAssign => Token::PlusAssign,
        Token::MinusAssign => Token::MinusAssign,
        Token::StarAssign => Token::StarAssign,
        Token::SlashAssign => Token::SlashAssign,
        Token::PercentAssign => Token::PercentAssign,
        Token::PlusPlus => Token::PlusPlus,
        Token::MinusMinus => Token::MinusMinus,
        Token::Eq => Token::Eq,
        Token::Ne => Token::Ne,
        Token::Lt => Token::Lt,
        Token::Gt => Token::Gt,
        Token::Le => Token::Le,
        Token::Ge => Token::Ge,
        Token::AndAnd => Token::AndAnd,
        Token::OrOr => Token::OrOr,
        Token::Bang => Token::Bang,
        Token::Amp => Token::Amp,
        Token::Pipe => Token::Pipe,
        Token::Caret => Token::Caret,
        Token::Tilde => Token::Tilde,
        Token::Shl => Token::Shl,
        Token::Shr => Token::Shr,
        Token::Question => Token::Question,
        Token::Colon => Token::Colon,
        Token::Dot => Token::Dot,
        Token::Comma => Token::Comma,
        Token::Semicolon => Token::Semicolon,
        Token::LParen => Token::LParen,
        Token::RParen => Token::RParen,
        Token::LBrace => Token::LBrace,
        Token::RBrace => Token::RBrace,
        Token::LBracket => Token::LBracket,
        Token::RBracket => Token::RBracket,
        Token::Eof => Token::Eof,
    }
}

/// Whether two tokens of which the second carries no text are the same kind.
pub fn tok_is(t: &Tok, k: &Tok) -> (r: bool)
    requires
        !(k is Ident) && !(k is Float) && !(k is Int),
    ensures
        r == (t@ == k@),
{
    match (t, k) {
        (Token::Plus, Token::Plus) => true,
        (Token::Minus, Token::Minus) => true,
        (Token::Star, Token::Star) => true,
        (Token::Slash, Token::Slash) => true,
        (Token::Percent, Token::Percent) => true,
        (Token::Assign, Token::Assign) => true,
        (Token::PlusAssign, Token::PlusAssign) => true,
        (Token::MinusAssign, Token::MinusAssign) => true,
        (Token::StarAssign, Token::StarAssign) => true,
        (Token::SlashAssign, Token::SlashAssign) => true,
        (Token::PercentAssign, Token::PercentAssign) => true,
        (Token::PlusPlus, Token::PlusPlus) => true,
        (Token::MinusMinus, Token::MinusMinus) => true,
        (Token::Eq, Token::Eq) => true,
        (Token::Ne, Token::Ne) => true,
        (Token::Lt, Token::Lt) => true,
        (Token::Gt, Token::Gt) => true,
        (Token::Le, Token::Le) => true,
        (Token::Ge, Token::Ge) => true,
        (Token::AndAnd, Token::AndAnd) => true,
        (Token::OrOr, Token::OrOr) => true,
        (Token::Bang, Token::Bang) => true,
        (Token::Amp, Token::Amp) => true,
        (Token::Pipe, Token::Pipe) => true,
        (Token::Caret, Token::Caret) => true,
        (Token::Tilde, Token::Tilde) => true,
        (Token::Shl, Token::Shl) => true,
        (Token::Shr, Token::Shr) => true,
        (Token::Question, Token::Question) => true,
        (Token::Colon, Token::Colon) => true,
        (Token::Dot, Token::Dot) => true,
        (Token::Comma, Token::Comma) => true,
        (Token::Semicolon, Token::Semicolon) => true,
        (Token::LParen, Token::LParen) => true,
        (Token::RParen, Token::RParen) => true,
        (Token::LBrace, Token::LBrace) => true,
        (Token::RBrace, Token::RBrace) => true,
        (Token::LBracket, Token::LBracket) => true,
        (Token::RBracket, Token::RBracket) => true,
        (Token::Eof, Token::Eof) => true,
        _ => false,
    }
}

pub open spec fn toks_view(s: Seq<Tok>) -> Seq<TokV> {
    s.map_values(|t: Tok| t@)
}

/// A lexing failure at byte `pos`.
#[derive(Debug)]
pub struct LexError {
    pub pos: usize,
    pub msg: String,
}

/// The plain form of a lexing failure.
pub struct LexErrorV {
    pub pos: usize,
    pub msg: Seq<char>,
}

impl View for LexError {
    type V = LexErrorV;

    open spec fn view(&self) -> LexErrorV {
        LexErrorV { pos: self.pos, msg: self.msg@ }
    }
}

pub open spec fn lex_err(pos: usize, msg: Seq<char>) -> LexErrorV {
    LexErrorV { pos, msg }
}

/// The `Debug` text of a character (quoted and escaped).
pub uninterp spec fn char_debug_text(c: char) -> Seq<char>;

/// `format!("{:?}", c)`: the `Debug` rendering of a character.
#[verifier::external_body]
fn char_debug(c: char) -> (r: String)
    ensures
        r@ == char_debug_text(c),
{
    format!("{:?}", c)
}

pub open spec fn is_digit(c: u8) -> bool {
    48 <= c && c <= 57
}

pub open spec fn is_alpha(c: u8) -> bool {
    (65 <= c && c <= 90) || (97 <= c && c <= 122)
}

pub open spec fn is_hex(c: u8) -> bool {
    is_digit(c) || (65 <= c && c <= 70) || (97 <= c && c <= 102)
}

pub open spec fn is_ident_char(c: u8) -> bool {
    is_alpha(c) || is_digit(c) || c == 95
}

/// Class `kind` of bytes: 0 decimal digits, 1 hex digits, 2 identifier bytes.
pub open spec fn byte_class(c: u8, kind: int) -> bool {
    if kind == 0 {
        is_digit(c)
    } else if kind == 1 {
        is_hex(c)
    } else {
        is_ident_char(c)
    }
}

/// The end of the run of class-`kind` bytes starting at `i`.
pub open spec fn scan(b: Seq<u8>, i: int, kind: int) -> int
    decreases b.len() - i,
{
    if i < 0 || i >= b.len() || !byte_class(b[i], kind) {
        i
    } else {
        scan(b, i + 1, kind)
    }
}

pub proof fn lemma_scan_bounds(b: Seq<u8>, i: int, kind: int)
    requires
        0 <= i <= b.len(),
    ensures
        i <= scan(b, i, kind) <= b.len(),
        forall|k: int| i <= k < scan(b, i, kind) ==> byte_class(#[trigger] b[k], kind),
    decreases b.len() - i,
{
    if i < b.len() && byte_class(b[i], kind) {
        lemma_scan_bounds(b, i + 1, kind);
    }
}

pub open spec fn bytes_text(b: Seq<u8>) -> Seq<char> {
    b.map_values(|x: u8| x as char)
}

pub open spec fn hex_digit_value(c: u8) -> nat {
    if is_digit(c) {
        (c - 48) as nat
    } else if 65 <= c && c <= 70 {
        (c - 55) as nat
    } else {
        (c - 87) as nat
    }
}

/// The value of hexadecimal digits.
pub open spec fn hex_value(d: Seq<u8>) -> nat
    decreases d.len(),
{
    if d.len() == 0 {
        0
    } else {
        hex_value(d.drop_last()) * 16 + hex_digit_value(d.last())
    }
}

/// The value of decimal digits.
pub open spec fn dec_value(d: Seq<u8>) -> nat
    decreases d.len(),
{
    if d.len() == 0 {
        0
    } else {
        dec_value(d.drop_last()) * 10 + (d.last() - 48) as nat
    }
}

/// The number token starting at `start` and the position after it.
pub open spec fn lex_number(b: Seq<u8>, start: int) -> Result<(TokV, int), LexErrorV> {
    if b[start] == 48 && start + 1 < b.len() && (b[start + 1] | 0x20u8) == 120 {
        let hs = start + 2;
        let he = scan(b, hs, 1);
        let digits = b.subrange(hs, he);
        if digits.len() == 0 {
            Err(lex_err(start as usize, "cannot parse integer from empty string"@))
        } else if hex_value(digits) > i64::MAX {
            Err(lex_err(start as usize, "number too large to fit in target type"@))
        } else {
            Ok((Token::Int(hex_value(digits) as i64), he))
        }
    } else {
        let i1 = scan(b, start, 0);
        let has_point = i1 < b.len() && b[i1] == 46;
        let i2 = if has_point { scan(b, i1 + 1, 0) } else { i1 };
        let j0 = i2 + 1;
        let j = if j0 < b.len() && (b[j0] == 43 || b[j0] == 45) { j0 + 1 } else { j0 };
        let has_exp = i2 < b.len() && (b[i2] | 0x20u8) == 101 && j < b.len() && is_digit(b[j]);
        let i3 = if has_exp { scan(b, j, 0) } else { i2 };
        let is_float = has_point || has_exp;
        let text = b.subrange(start, i3);
        let sfx = if i3 < b.len() { b[i3] | 0x20u8 } else { 0u8 };
        let float_sfx = i3 < b.len() && (sfx == 102 || sfx == 104);
        let int_sfx = i3 < b.len() && !is_float && (sfx == 117 || sfx == 108);
        let end = if float_sfx || int_sfx { i3 + 1 } else { i3 };
        if is_float || float_sfx {
            Ok((Token::Float(bytes_text(text)), end))
        } else if dec_value(text) > i64::MAX {
            Err(lex_err(start as usize, "bad int \""@ + bytes_text(text) + "\""@))
        } else {
            Ok((Token::Int(dec_value(text) as i64), end))
        }
    }
}

/// The two-byte operator spelled `c0 c1`.
pub open spec fn two_byte_op(c0: u8, c1: u8) -> Option<TokV> {
    if c0 == 61 && c1 == 61 { Some(Token::Eq) }
    else if c0 == 33 && c1 == 61 { Some(Token::Ne) }
    else if c0 == 60 && c1 == 61 { Some(Token::Le) }
    else if c0 == 62 && c1 == 61 { Some(Token::Ge) }
    else if c0 == 38 && c1 == 38 { Some(Token::AndAnd) }
    else if c0 == 124 && c1 == 124 { Some(Token::OrOr) }
    else if c0 == 60 && c1 == 60 { Some(Token::Shl) }
    else if c0 == 62 && c1 == 62 { Some(Token::Shr) }
    else if c0 == 43 && c1 == 43 { Some(Token::PlusPlus) }
    else if c0 == 45 && c1 == 45 { Some(Token::MinusMinus) }
    else if c0 == 43 && c1 == 61 { Some(Token::PlusAssign) }
    else if c0 == 45 && c1 == 61 { Some(Token::MinusAssign) }
    else if c0 == 42 && c1 == 61 { Some(Token::StarAssign) }
    else if c0 == 47 && c1 == 61 { Some(Token::SlashAssign) }
    else if c0 == 37 && c1 == 61 { Some(Token::PercentAssign) }
    else { None }
}

/// The one-byte operator or punctuation spelled `c`.
pub open spec fn one_byte_op(c: u8) -> Option<TokV> {
    if c == 43 { Some(Token::Plus) }
    else if c == 45 { Some(Token::Minus) }
    else if c == 42 { Some(Token::Star) }
    else if c == 47 { Some(Token::Slash) }
    else if c == 37 { Some(Token::Percent) }
    else if c == 61 { Some(Token::Assign) }
    else if c == 60 { Some(Token::Lt) }
    else if c == 62 { Some(Token::Gt) }
    else if c == 33 { Some(Token::Bang) }
    else if c == 38 { Some(Token::Amp) }
    else if c == 124 { Some(Token::Pipe) }
    else if c == 94 { Some(Token::Caret) }
    else if c == 126 { Some(Token::Tilde) }
    else if c == 63 { Some(Token::Question) }
    else if c == 58 { Some(Token::Colon) }
    else if c == 46 { Some(Token::Dot) }
    else if c == 44 { Some(Token::Comma) }
    else if c == 59 { Some(Token::Semicolon) }
    else if c == 40 { Some(Token::LParen) }
    else if c == 41 { Some(Token::RParen) }
    else if c == 123 { Some(Token::LBrace) }
    else if c == 125 { Some(Token::RBrace) }
    else if c == 91 { Some(Token::LBracket) }
    else if c == 93 { Some(Token::RBracket) }
    else { None }
}

/// One step of the lexer at byte `i`.
pub enum LexStep {
    Skip(int),
    Emit(TokV, int),
    Fail(LexErrorV),
}

pub open spec fn lex_step(b: Seq<u8>, i: int) -> LexStep {
    let c = b[i];
    if c == 32 || c == 9 || c == 13 || c == 10 {
        LexStep::Skip(i + 1)
    } else if is_digit(c) || (c == 46 && i + 1 < b.len() && is_digit(b[i + 1])) {
        match lex_number(b, i) {
            Ok((t, n)) => LexStep::Emit(t, n),
            Err(e) => LexStep::Fail(e),
        }
    } else if is_alpha(c) || c == 95 {
        let e = scan(b, i, 2);
        LexStep::Emit(Token::Ident(bytes_text(b.subrange(i, e))), e)
    } else if i + 1 < b.len() && two_byte_op(c, b[i + 1]) is Some {
        LexStep::Emit(two_byte_op(c, b[i + 1]).unwrap(), i + 2)
    } else {
        match one_byte_op(c) {
            Some(t) => LexStep::Emit(t, i + 1),
            None => LexStep::Fail(lex_err(i as usize, "unexpected character "@ + char_debug_text(c as char))),
        }
    }
}

pub open spec fn prepend_toks(ts: Seq<TokV>, r: Result<Seq<TokV>, LexErrorV>) -> Result<Seq<TokV>, LexErrorV> {
    match r {
        Ok(x) => Ok(ts + x),
        Err(e) => Err(e),
    }
}

/// The tokens of `b` from byte `i` on, ending with `Eof`, or the first failure.
pub open spec fn lex_from(b: Seq<u8>, i: int) -> Result<Seq<TokV>, LexErrorV>
    decreases b.len() - i,
{
    if i < 0 || i >= b.len() {
        Ok(seq![Token::Eof])
    } else {
        match lex_step(b, i) {
            LexStep::Skip(n) => if n > i && n <= b.len() { lex_from(b, n) } else { Ok(Seq::empty()) },
            LexStep::Emit(t, n) => if n > i && n <= b.len() { prepend_toks(seq![t], lex_from(b, n)) } else { Ok(Seq::empty()) },
            LexStep::Fail(e) => Err(e),
        }
    }
}

/// The tokens of a byte string.
pub open spec fn lex_bytes(b: Seq<u8>) -> Result<Seq<TokV>, LexErrorV> {
    lex_from(b, 0)
}

fn byte_class_exec(c: u8, kind: u8) -> (r: bool)
    ensures
        r == byte_class(c, kind as int),
{
    if kind == 0 {
        48 <= c && c <= 57
    } else if kind == 1 {
        (48 <= c && c <= 57) || (65 <= c && c <= 70) || (97 <= c && c <= 102)
    } else {
        (65 <= c && c <= 90) || (97 <= c && c <= 122) || (48 <= c && c <= 57) || c == 95
    }
}

fn scan_exec(b: &[u8], i: usize, kind: u8) -> (r: usize)
    requires
        i <= b@.len(),
    ensures
        r == scan(b@, i as int, kind as int),
        i <= r <= b@.len(),
{
    proof {
        lemma_scan_bounds(b@, i as int, kind as int);
    }
    let mut j = i;
    while j < b.len() && byte_class_exec(b[j], kind)
        invariant
            i <= j <= b@.len(),
            scan(b@, i as int, kind as int) == scan(b@, j as int, kind as int),
        decreases b@.len() - j,
    {
        j += 1;
    }
    j
}

fn text_of_bytes(b: &[u8], s: usize, e: usize) -> (r: String)
    requires
        s <= e <= b@.len(),
    ensures
        r@ == bytes_text(b@.subrange(s as int, e as int)),
{
    let mut out = String::new();
    let mut k = s;
    while k < e
        invariant
            s <= k <= e <= b@.len(),
            out@ == bytes_text(b@.subrange(s as int, k as int)),
        decreases e - k,
    {
        push_char(&mut out, b[k] as char);
        k += 1;
        assert(bytes_text(b@.subrange(s as int, k as int)) =~= bytes_text(b@.subrange(s as int, (k - 1) as int)).push(b@[k - 1] as char));
    }
    out
}

/// Value of hex digits `b[s..e]`, or `None` when it exceeds `i64::MAX`.
fn hex_parse(b: &[u8], s: usize, e: usize) -> (r: Option<i64>)
    requires
        s <= e <= b@.len(),
        forall|k: int| s <= k < e ==> is_hex(#[trigger] b@[k]),
    ensures
        match r {
            Some(v) => hex_value(b@.subrange(s as int, e as int)) <= i64::MAX && v as int == hex_value(b@.subrange(s as int, e as int)),
            None => hex_value(b@.subrange(s as int, e as int)) > i64::MAX,
        },
{
    let mut v: i64 = 0;
    let mut over = false;
    let mut k = s;
    while k < e
        invariant
            s <= k <= e <= b@.len(),
            forall|q: int| s <= q < e ==> is_hex(#[trigger] b@[q]),
            !over ==> v >= 0 && v as int == hex_value(b@.subrange(s as int, k as int)),
            over ==> hex_value(b@.subrange(s as int, k as int)) > i64::MAX,
        decreases e - k,
    {
        let c = b[k];
        let d: i64 = if 48 <= c && c <= 57 { (c - 48) as i64 } else if 65 <= c && c <= 70 { (c - 55) as i64 } else { (c - 87) as i64 };
        assert(b@.subrange(s as int, (k + 1) as int).drop_last() =~= b@.subrange(s as int, k as int));
        if !over {
            if v > (i64::MAX - d) / 16 {
                over = true;
            } else {
                v = v * 16 + d;
            }
        }
        k += 1;
    }
    if over { None } else { Some(v) }
}

/// Value of decimal digits `b[s..e]`, or `None` when it exceeds `i64::MAX`.
fn dec_parse(b: &[u8], s: usize, e: usize) -> (r: Option<i64>)
    requires
        s <= e <= b@.len(),
        forall|k: int| s <= k < e ==> is_digit(#[trigger] b@[k]),
    ensures
        match r {
            Some(v) => dec_value(b@.subrange(s as int, e as int)) <= i64::MAX && v as int == dec_value(b@.subrange(s as int, e as int)),
            None => dec_value(b@.subrange(s as int, e as int)) > i64::MAX,
        },
{
    let mut v: i64 = 0;
    let mut over = false;
    let mut k = s;
    while k < e
        invariant
            s <= k <= e <= b@.len(),
            forall|q: int| s <= q < e ==> is_digit(#[trigger] b@[q]),
            !over ==> v >= 0 && v as int == dec_value(b@.subrange(s as int, k as int)),
            over ==> dec_value(b@.subrange(s as int, k as int)) > i64::MAX,
        decreases e - k,
    {
        let d: i64 = (b[k] - 48) as i64;
        assert(b@.subrange(s as int, (k + 1) as int).drop_last() =~= b@.subrange(s as int, k as int));
        if !over {
            if v > (i64::MAX - d) / 10 {
                over = true;
            } else {
                v = v * 10 + d;
            }
        }
        k += 1;
    }
    if over { None } else { Some(v) }
}

fn lex_number_exec(b: &[u8], start: usize) -> (r: Result<(Tok, usize), LexError>)
    requires
        start < b@.len(),
    ensures
        match r {
            Ok((t, n)) => lex_number(b@, start as int) == Ok::<(TokV, int), LexErrorV>((t@, n as int)),
            Err(e) => lex_number(b@, start as int) == Err::<(TokV, int), LexErrorV>(e@),
        },
{
    let len = b.len();
    if b[start] == 48 && start + 1 < len && (b[start + 1] | 0x20u8) == 120 {
        let hs = start + 2;
        let he = scan_exec(b, hs, 1);
        proof {
            lemma_scan_bounds(b@, hs as int, 1);
        }
        if he == hs {
            assert(b@.subrange(hs as int, he as int).len() == 0);
            return Err(LexError { pos: start, msg: "cannot parse integer from empty string".to_owned() });
        }
        match hex_parse(b, hs, he) {
            Some(v) => return Ok((Token::Int(v), he)),
            None => return Err(LexError { pos: start, msg: "number too large to fit in target type".to_owned() }),
        }
    }
    let i1 = scan_exec(b, start, 0);
    let has_point = i1 < len && b[i1] == 46;
    let i2 = if has_point { scan_exec(b, i1 + 1, 0) } else { i1 };
    let mut has_exp = false;
    let mut i3 = i2;
    if i2 < len && (b[i2] | 0x20u8) == 101 {
        let j0 = i2 + 1;
        let j = if j0 < len && (b[j0] == 43 || b[j0] == 45) { j0 + 1 } else { j0 };
        if j < len && 48 <= b[j] && b[j] <= 57 {
            has_exp = true;
            i3 = scan_exec(b, j, 0);
        }
    }
    let is_float = has_point || has_exp;
    let sfx: u8 = if i3 < len { b[i3] | 0x20u8 } else { 0u8 };
    let float_sfx = i3 < len && (sfx == 102 || sfx == 104);
    let int_sfx = i3 < len && !is_float && (sfx == 117 || sfx == 108);
    let end = if float_sfx || int_sfx { i3 + 1 } else { i3 };
    if is_float || float_sfx {
        let text = text_of_bytes(b, start, i3);
        return Ok((Token::Float(text), end));
    }
    proof {
        lemma_scan_bounds(b@, start as int, 0);
    }
    match dec_parse(b, start, i3) {
        Some(v) => Ok((Token::Int(v), end)),
        None => {
            let mut msg = String::new();
            push_str(&mut msg, "bad int \"");
            let text = text_of_bytes(b, start, i3);
            push_str(&mut msg, text.as_str());
            push_str(&mut msg, "\"");
            Err(LexError { pos: start, msg })
        },
    }
}

fn two_byte_op_exec(c0: u8, c1: u8) -> (r: Option<Tok>)
    ensures
        match r {
            Some(t) => two_byte_op(c0, c1) == Some(t@),
            None => two_byte_op(c0, c1) is None,
        },
{
    if c0 == 61 && c1 == 61 { Some(Token::Eq) }
    else if c0 == 33 && c1 == 61 { Some(Token::Ne) }
    else if c0 == 60 && c1 == 61 { Some(Token::Le) }
    else if c0 == 62 && c1 == 61 { Some(Token::Ge) }
    else if c0 == 38 && c1 == 38 { Some(Token::AndAnd) }
    else if c0 == 124 && c1 == 124 { Some(Token::OrOr) }
    else if c0 == 60 && c1 == 60 { Some(Token::Shl) }
    else if c0 == 62 && c1 == 62 { Some(Token::Shr) }
    else if c0 == 43 && c1 == 43 { Some(Token::PlusPlus) }
    else if c0 == 45 && c1 == 45 { Some(Token::MinusMinus) }
    else if c0 == 43 && c1 == 61 { Some(Token::PlusAssign) }
    else if c0 == 45 && c1 == 61 { Some(Token::MinusAssign) }
    else if c0 == 42 && c1 == 61 { Some(Token::StarAssign) }
    else if c0 == 47 && c1 == 61 { Some(Token::SlashAssign) }
    else if c0 == 37 && c1 == 61 { Some(Token::PercentAssign) }
    else { None }
}

fn one_byte_op_exec(c: u8) -> (r: Option<Tok>)
    ensures
        match r {
            Some(t) => one_byte_op(c) == Some(t@),
            None => one_byte_op(c) is None,
        },
{
    if c == 43 { Some(Token::Plus) }
    else if c == 45 { Some(Token::Minus) }
    else if c == 42 { Some(Token::Star) }
    else if c == 47 { Some(Token::Slash) }
    else if c == 37 { Some(Token::Percent) }
    else if c == 61 { Some(Token::Assign) }
    else if c == 60 { Some(Token::Lt) }
    else if c == 62 { Some(Token::Gt) }
    else if c == 33 { Some(Token::Bang) }
    else if c == 38 { Some(Token::Amp) }
    else if c == 124 { Some(Token::Pipe) }
    else if c == 94 { Some(Token::Caret) }
    else if c == 126 { Some(Token::Tilde) }
    else if c == 63 { Some(Token::Question) }
    else if c == 58 { Some(Token::Colon) }
    else if c == 46 { Some(Token::Dot) }
    else if c == 44 { Some(Token::Comma) }
    else if c == 59 { Some(Token::Semicolon) }
    else if c == 40 { Some(Token::LParen) }
    else if c == 41 { Some(Token::RParen) }
    else if c == 123 { Some(Token::LBrace) }
    else if c == 125 { Some(Token::RBrace) }
    else if c == 91 { Some(Token::LBracket) }
    else if c == 93 { Some(Token::RBracket) }
    else { None }
}

proof fn lemma_lex_step_advances(b: Seq<u8>, i: int)
    requires
        0 <= i < b.len(),
    ensures
        match lex_step(b, i) {
            LexStep::Skip(n) => i < n <= b.len(),
            LexStep::Emit(_, n) => i < n <= b.len(),
            LexStep::Fail(_) => true,
        },
{
    let c = b[i];
    if is_digit(c) || (c == 46 && i + 1 < b.len() && is_digit(b[i + 1])) {
        lemma_lex_number_advances(b, i);
    }
    if i + 1 <= b.len() {
        lemma_scan_bounds(b, i + 1, 2);
    }
}

fn lex_step_exec(b: &[u8], i: usize) -> (r: Result<(Option<Tok>, usize), LexError>)
    requires
        i < b@.len(),
    ensures
        match r {
            Ok((Some(t), n)) => lex_step(b@, i as int) == LexStep::Emit(t@, n as int),
            Ok((None, n)) => lex_step(b@, i as int) == LexStep::Skip(n as int),
            Err(e) => lex_step(b@, i as int) == LexStep::Fail(e@),
        },
{
    let len = b.len();
    let c = b[i];
    if c == 32 || c == 9 || c == 13 || c == 10 {
        return Ok((None, i + 1));
    }
    if (48 <= c && c <= 57) || (c == 46 && i + 1 < len && 48 <= b[i + 1] && b[i + 1] <= 57) {
        let (t, n) = lex_number_exec(b, i)?;
        return Ok((Some(t), n));
    }
    if (65 <= c && c <= 90) || (97 <= c && c <= 122) || c == 95 {
        let e = scan_exec(b, i, 2);
        return Ok((Some(Token::Ident(text_of_bytes(b, i, e))), e));
    }
    let two = if i + 1 < len { two_byte_op_exec(c, b[i + 1]) } else { None };
    if let Some(t) = two {
        return Ok((Some(t), i + 2));
    }
    match one_byte_op_exec(c) {
        Some(t) => Ok((Some(t), i + 1)),
        None => {
            let mut msg = String::new();
            push_str(&mut msg, "unexpected character ");
            let d = char_debug(c as char);
            push_str(&mut msg, d.as_str());
            Err(LexError { pos: i, msg })
        },
    }
}

/// Tokenizes the bytes `b` (the source's UTF-8 encoding).
pub fn lex_slice(b: &[u8]) -> (r: Result<Vec<Tok>, LexError>)
    ensures
        match r {
            Ok(ts) => lex_bytes(b@) == Ok::<Seq<TokV>, LexErrorV>(toks_view(ts@)),
            Err(e) => lex_bytes(b@) == Err::<Seq<TokV>, LexErrorV>(e@),
        },
{
    let len = b.len();
    let mut i: usize = 0;
    let mut out: Vec<Tok> = Vec::new();
    assert(toks_view(out@) =~= Seq::<TokV>::empty());
    assert(lex_from(b@, 0) == prepend_toks(toks_view(out@), lex_from(b@, 0))) by {
        match lex_from(b@, 0) {
            Ok(x) => { assert(Seq::<TokV>::empty() + x =~= x); },
            Err(e) => {},
        }
    }
    while i < len
        invariant
            len == b@.len(),
            i <= len,
            lex_from(b@, 0) == prepend_toks(toks_view(out@), lex_from(b@, i as int)),
        decreases len - i,
    {
        let (emitted, next) = lex_step_exec(b, i)?;
        proof {
            lemma_lex_step_advances(b@, i as int);
        }
        match emitted {
            None => {},
            Some(t) => {
                let ghost old_out = toks_view(out@);
                let ghost tv = t@;
                out.push(t);
                proof {
                    assert(toks_view(out@) =~= old_out + seq![tv]);
                    match lex_from(b@, next as int) {
                        Ok(x) => { assert(old_out + (seq![tv] + x) =~= (old_out + seq![tv]) + x); },
                        Err(_) => {},
                    }
                }
            },
        }
        i = next;
    }
    let ghost before = toks_view(out@);
    out.push(Token::Eof);
    assert(toks_view(out@) =~= before + seq![Token::<Seq<char>>::Eof]);
    Ok(out)
}

proof fn lemma_lex_number_advances(b: Seq<u8>, start: int)
    requires
        0 <= start < b.len(),
        is_digit(b[start]) || (b[start] == 46 && start + 1 < b.len() && is_digit(b[start + 1])),
    ensures
        lex_number(b, start) matches Ok((t, n)) ==> start < n <= b.len(),
{
    lemma_scan_bounds(b, start, 0);
    if start + 2 <= b.len() {
        lemma_scan_bounds(b, start + 2, 1);
    }
    let i1 = scan(b, start, 0);
    if i1 < b.len() {
        lemma_scan_bounds(b, i1 + 1, 0);
    }
    let has_point = i1 < b.len() && b[i1] == 46;
    let i2 = if has_point { scan(b, i1 + 1, 0) } else { i1 };
    let j0 = i2 + 1;
    let j = if j0 < b.len() && (b[j0] == 43 || b[j0] == 45) { j0 + 1 } else { j0 };
    if j < b.len() {
        lemma_scan_bounds(b, j, 0);
    }
    if is_digit(b[start]) {
        lemma_scan_bounds(b, start + 1, 0);
    }
}

/// Tokenizes `src` (after preprocessing), ending with `Eof`.
/// A successful lexing ends with exactly one trailing `Eof` marker.
pub proof fn lemma_lex_ends_eof(b: Seq<u8>, i: int)
    requires
        0 <= i,
    ensures
        lex_from(b, i) matches Ok(ts) ==> ts.len() > 0 && ts[ts.len() - 1] == Token::<Seq<char>>::Eof,
    decreases b.len() - i,
{
    if i < b.len() {
        lemma_lex_step_advances(b, i);
        match lex_step(b, i) {
            LexStep::Skip(n) => {
                lemma_lex_ends_eof(b, n);
            },
            LexStep::Emit(t, n) => {
                lemma_lex_ends_eof(b, n);
                if let Ok(rest) = lex_from(b, n) {
                    assert((seq![t] + rest)[(seq![t] + rest).len() - 1] == rest[rest.len() - 1]);
                }
            },
            LexStep::Fail(_) => {},
        }
    }
}

pub fn lex(src: &str) -> (r: Result<Vec<Tok>, LexError>)
    ensures
        match r {
            Ok(ts) => lex_bytes(vstd::utf8::encode_utf8(src@)) == Ok::<Seq<TokV>, LexErrorV>(toks_view(ts@)),
            Err(e) => lex_bytes(vstd::utf8::encode_utf8(src@)) == Err::<Seq<TokV>, LexErrorV>(e@),
        },
{
    lex_slice(src.as_bytes())
}

} // verus!
