//! The grammar of the Milkdrop HLSL dialect, stated over token sequences.
//! Each `p_*` function gives what the recursive-descent parser in
//! `parser` computes from a position: the parsed value and the position
//! after it, or the failure it reports.

use vstd::prelude::*;
use crate::shader::ast::{AssignOp, BinOp, ExprV, FunctionV, ItemV, ParamQual, ParamV, StmtV, Type, UnOp};
use crate::shader::lexer::{LexErrorV, TokV, Token, lex_bytes};

verus! {

/// The plain form of a parse failure.
pub enum ParseErrorV {
    Lex(LexErrorV),
    Unexpected { got: TokV, expected: Seq<char> },
}

/// Result of parsing a `T` at some position: the value and the position after it.
pub type PRes<T> = Result<(T, int), ParseErrorV>;

/// The token at `p`, or `Eof` past the end.
pub open spec fn tk(s: Seq<TokV>, p: int) -> TokV {
    if 0 <= p < s.len() {
        s[p]
    } else {
        Token::Eof
    }
}

pub open spec fn ident_at(s: Seq<TokV>, p: int) -> Option<Seq<char>> {
    match tk(s, p) {
        Token::Ident(n) => Some(n),
        _ => None,
    }
}

pub open spec fn unexpected<T>(s: Seq<TokV>, p: int, what: Seq<char>) -> PRes<T> {
    Err(ParseErrorV::Unexpected { got: tk(s, p), expected: what })
}

/// The failure reported where the position bookkeeping is violated (never
/// produced on token sequences the lexer yields).
pub open spec fn stuck<T>() -> PRes<T> {
    Err(ParseErrorV::Unexpected { got: Token::Eof, expected: Seq::empty() })
}

/// The type a type keyword names.
pub open spec fn type_of_name(n: Seq<char>) -> Option<Type> {
    if n == "void"@ {
        Some(Type::Void)
    } else if n == "float"@ || n == "half"@ || n == "double"@ || n == "float1"@ || n == "half1"@ || n == "double1"@ {
        Some(Type::Float)
    } else if n == "int"@ || n == "uint"@ || n == "dword"@ || n == "int1"@ || n == "uint1"@ {
        Some(Type::Int)
    } else if n == "bool"@ || n == "bool1"@ {
        Some(Type::Bool)
    } else if n == "float2"@ || n == "half2"@ || n == "double2"@ {
        Some(Type::Float2)
    } else if n == "float3"@ || n == "half3"@ || n == "double3"@ {
        Some(Type::Float3)
    } else if n == "float4"@ || n == "half4"@ || n == "double4"@ {
        Some(Type::Float4)
    } else if n == "int2"@ || n == "uint2"@ {
        Some(Type::Int2)
    } else if n == "int3"@ || n == "uint3"@ {
        Some(Type::Int3)
    } else if n == "int4"@ || n == "uint4"@ {
        Some(Type::Int4)
    } else if n == "bool2"@ {
        Some(Type::Bool2)
    } else if n == "bool3"@ {
        Some(Type::Bool3)
    } else if n == "bool4"@ {
        Some(Type::Bool4)
    } else if n == "float2x2"@ {
        Some(Type::Mat2)
    } else if n == "float3x3"@ {
        Some(Type::Mat3)
    } else if n == "float4x4"@ {
        Some(Type::Mat4)
    } else if n == "float4x3"@ {
        Some(Type::Mat4x3)
    } else if n == "float3x4"@ {
        Some(Type::Mat3x4)
    } else if n == "sampler2D"@ || n == "sampler"@ {
        Some(Type::Sampler2D)
    } else if n == "sampler3D"@ {
        Some(Type::Sampler3D)
    } else {
        None
    }
}

/// Declaration qualifiers that are skipped.
pub open spec fn is_qualifier(n: Seq<char>) -> bool {
    n == "uniform"@ || n == "const"@ || n == "static"@ || n == "inline"@ || n == "row_major"@ || n == "column_major"@
}

pub open spec fn type_at(s: Seq<TokV>, p: int) -> Option<Type> {
    match ident_at(s, p) {
        Some(n) => type_of_name(n),
        None => None,
    }
}

/// The position after the qualifiers starting at `p`.
pub open spec fn skip_quals(s: Seq<TokV>, p: int) -> int
    decreases s.len() - p,
{
    match ident_at(s, p) {
        Some(n) => if is_qualifier(n) && 0 <= p < s.len() { skip_quals(s, p + 1) } else { p },
        None => p,
    }
}

/// A (possibly qualified) declaration `type name` starts at `p`.
pub open spec fn decl_start(s: Seq<TokV>, p: int) -> bool {
    let q = skip_quals(s, p);
    type_at(s, q) is Some && ident_at(s, q + 1) is Some
}

/// `(op, left binding power, right binding power)` of a binary operator token.
pub open spec fn binop_of(t: TokV) -> Option<(BinOp, u8, u8)> {
    match t {
        Token::OrOr => Some((BinOp::Or, 1u8, 2u8)),
        Token::AndAnd => Some((BinOp::And, 3u8, 4u8)),
        Token::Pipe => Some((BinOp::BitOr, 5u8, 6u8)),
        Token::Caret => Some((BinOp::BitXor, 7u8, 8u8)),
        Token::Amp => Some((BinOp::BitAnd, 9u8, 10u8)),
        Token::Eq => Some((BinOp::Eq, 11u8, 12u8)),
        Token::Ne => Some((BinOp::Ne, 11u8, 12u8)),
        Token::Lt => Some((BinOp::Lt, 13u8, 14u8)),
        Token::Gt => Some((BinOp::Gt, 13u8, 14u8)),
        Token::Le => Some((BinOp::Le, 13u8, 14u8)),
        Token::Ge => Some((BinOp::Ge, 13u8, 14u8)),
        Token::Shl => Some((BinOp::Shl, 15u8, 16u8)),
        Token::Shr => Some((BinOp::Shr, 15u8, 16u8)),
        Token::Plus => Some((BinOp::Add, 17u8, 18u8)),
        Token::Minus => Some((BinOp::Sub, 17u8, 18u8)),
        Token::Star => Some((BinOp::Mul, 19u8, 20u8)),
        Token::Slash => Some((BinOp::Div, 19u8, 20u8)),
        Token::Percent => Some((BinOp::Mod, 19u8, 20u8)),
        _ => None,
    }
}

pub open spec fn assign_op_of(t: TokV) -> Option<AssignOp> {
    match t {
        Token::Assign => Some(AssignOp::Assign),
        Token::PlusAssign => Some(AssignOp::Add),
        Token::MinusAssign => Some(AssignOp::Sub),
        Token::StarAssign => Some(AssignOp::Mul),
        Token::SlashAssign => Some(AssignOp::Div),
        Token::PercentAssign => Some(AssignOp::Mod),
        _ => None,
    }
}

/// `true`/`false` literal keywords.
pub open spec fn is_tok(s: Seq<TokV>, p: int, t: TokV) -> bool {
    tk(s, p) == t
}

// ---------------------------------------------------------- expressions --

/// `expr := ternary (assign-op expr)?` (right associative).
pub open spec fn p_expr(s: Seq<TokV>, p: int) -> PRes<ExprV>
    decreases s.len() - p, 7int,
{
    if !(0 <= p < s.len()) {
        stuck()
    } else {
        match p_ternary(s, p) {
            Err(e) => Err(e),
            Ok((lhs, p1)) => match assign_op_of(tk(s, p1)) {
                None => Ok((lhs, p1)),
                Some(op) => if p <= p1 < s.len() {
                    match p_expr(s, p1 + 1) {
                        Err(e) => Err(e),
                        Ok((rhs, p2)) => Ok((ExprV::Assign(op, Box::new(lhs), Box::new(rhs)), p2)),
                    }
                } else {
                    stuck()
                },
            },
        }
    }
}

/// `ternary := binary(0) ('?' expr ':' expr)?`.
pub open spec fn p_ternary(s: Seq<TokV>, p: int) -> PRes<ExprV>
    decreases s.len() - p, 6int,
{
    if !(0 <= p < s.len()) {
        stuck()
    } else {
        match p_binary(s, p, 0) {
            Err(e) => Err(e),
            Ok((c, p1)) => if is_tok(s, p1, Token::Question) {
                if p <= p1 < s.len() {
                    match p_expr(s, p1 + 1) {
                        Err(e) => Err(e),
                        Ok((t, p2)) => if is_tok(s, p2, Token::Colon) {
                            if p < p2 < s.len() {
                                match p_expr(s, p2 + 1) {
                                    Err(e) => Err(e),
                                    Ok((f, p3)) => Ok((ExprV::Ternary(Box::new(c), Box::new(t), Box::new(f)), p3)),
                                }
                            } else {
                                stuck()
                            }
                        } else {
                            unexpected(s, p2, "':'"@)
                        },
                    }
                } else {
                    stuck()
                }
            } else {
                Ok((c, p1))
            },
        }
    }
}

/// Precedence climbing: `unary (op binary(r_bp))*` for operators binding at
/// least `min_bp`.
pub open spec fn p_binary(s: Seq<TokV>, p: int, min_bp: u8) -> PRes<ExprV>
    decreases s.len() - p, 5int,
{
    if !(0 <= p < s.len()) {
        stuck()
    } else {
        match p_unary(s, p) {
            Err(e) => Err(e),
            Ok((lhs, p1)) => if p < p1 <= s.len() {
                p_binary_rest(s, p1, min_bp, lhs)
            } else {
                stuck()
            },
        }
    }
}

pub open spec fn p_binary_rest(s: Seq<TokV>, p: int, min_bp: u8, lhs: ExprV) -> PRes<ExprV>
    decreases s.len() - p, 5int,
{
    match binop_of(tk(s, p)) {
        Some((op, l_bp, r_bp)) => if l_bp < min_bp {
            Ok((lhs, p))
        } else if 0 <= p < s.len() {
            match p_binary(s, p + 1, r_bp) {
                Err(e) => Err(e),
                Ok((rhs, p2)) => if p < p2 <= s.len() {
                    p_binary_rest(s, p2, min_bp, ExprV::Binary(op, Box::new(lhs), Box::new(rhs)))
                } else {
                    stuck()
                },
            }
        } else {
            stuck()
        },
        None => Ok((lhs, p)),
    }
}

/// The C precedence level of a binary operator, from the loosest (`||`) to
/// the tightest (`*`, `/`, `%`).
pub open spec fn op_precedence(op: BinOp) -> int {
    match op {
        BinOp::Or => 1,
        BinOp::And => 2,
        BinOp::BitOr => 3,
        BinOp::BitXor => 4,
        BinOp::BitAnd => 5,
        BinOp::Eq | BinOp::Ne => 6,
        BinOp::Lt | BinOp::Gt | BinOp::Le | BinOp::Ge => 7,
        BinOp::Shl | BinOp::Shr => 8,
        BinOp::Add | BinOp::Sub => 9,
        BinOp::Mul | BinOp::Div | BinOp::Mod => 10,
    }
}

/// The literal a number token stands for.
pub open spec fn number_expr(t: TokV) -> Option<ExprV> {
    match t {
        Token::Int(v) => Some(ExprV::IntLit(v)),
        Token::Float(f) => Some(ExprV::FloatLit(f)),
        _ => None,
    }
}

/// A number token parses to its literal, followed by whatever binary
/// operator (or the end) comes next.
proof fn lemma_number_operand(s: Seq<TokV>, p: int, m: u8)
    requires
        0 <= p < s.len(),
        number_expr(s[p]) is Some,
        p + 1 < s.len() ==> binop_of(s[p + 1]) is Some,
    ensures
        p_unary(s, p) == Ok::<(ExprV, int), ParseErrorV>((number_expr(s[p]).unwrap(), p + 1)),
        p + 1 == s.len() ==> p_binary(s, p, m) == Ok::<(ExprV, int), ParseErrorV>(
            (number_expr(s[p]).unwrap(), p + 1),
        ),
{
    assert(p_primary(s, p) == Ok::<(ExprV, int), ParseErrorV>((number_expr(s[p]).unwrap(), p + 1)));
    assert(p_postfix_rest(s, p + 1, number_expr(s[p]).unwrap()) == Ok::<(ExprV, int), ParseErrorV>(
        (number_expr(s[p]).unwrap(), p + 1),
    ));
    assert(p_postfix(s, p) == Ok::<(ExprV, int), ParseErrorV>((number_expr(s[p]).unwrap(), p + 1)));
    if p + 1 == s.len() {
        assert(p_binary_rest(s, p + 1, m, number_expr(s[p]).unwrap()) == Ok::<(ExprV, int), ParseErrorV>(
            (number_expr(s[p]).unwrap(), p + 1),
        ));
    }
}

/// Binary operators of equal precedence associate to the left, and a
/// tighter-binding operator is applied first: for numbers `x`, `y`, `z`
/// and binary operators `o1`, `o2`, the expression `x o1 y o2 z` parses as
/// `(x o1 y) o2 z` when `o2` binds no tighter than `o1` by the C
/// precedence levels (so `a - b - c` is
/// `(a - b) - c` and `a - b + c` is `(a - b) + c`), and as `x o1 (y o2 z)`
/// when `o2` binds tighter (so `a - b * c` is `a - (b * c)`).
pub proof fn law_binary_associativity(x: TokV, o1: TokV, y: TokV, o2: TokV, z: TokV)
    requires
        number_expr(x) is Some,
        number_expr(y) is Some,
        number_expr(z) is Some,
        binop_of(o1) is Some,
        binop_of(o2) is Some,
    ensures
        ({
            let s = seq![x, o1, y, o2, z];
            let op1 = binop_of(o1).unwrap().0;
            let op2 = binop_of(o2).unwrap().0;
            let (a, b, c) = (number_expr(x).unwrap(), number_expr(y).unwrap(), number_expr(z).unwrap());
            p_expr(s, 0) == Ok::<(ExprV, int), ParseErrorV>(
                (
                    if op_precedence(op2) <= op_precedence(op1) {
                        ExprV::Binary(op2, Box::new(ExprV::Binary(op1, Box::new(a), Box::new(b))), Box::new(c))
                    } else {
                        ExprV::Binary(op1, Box::new(a), Box::new(ExprV::Binary(op2, Box::new(b), Box::new(c))))
                    },
                    5,
                ),
            )
        }),
{
    let s = seq![x, o1, y, o2, z];
    let (op1, l1, r1) = binop_of(o1).unwrap();
    let (op2, l2, r2) = binop_of(o2).unwrap();
    let (a, b, c) = (number_expr(x).unwrap(), number_expr(y).unwrap(), number_expr(z).unwrap());
    assert(s[0] == x && s[1] == o1 && s[2] == y && s[3] == o2 && s[4] == z);
    assert(tk(s, 1) == o1 && tk(s, 3) == o2 && tk(s, 5) == Token::<Seq<char>>::Eof);
    lemma_number_operand(s, 0, 0);
    lemma_number_operand(s, 2, 0);
    lemma_number_operand(s, 4, r1);
    lemma_number_operand(s, 4, r2);
    assert(p_binary_rest(s, 5, 0, c) == Ok::<(ExprV, int), ParseErrorV>((c, 5)));
    assert(l1 == 2 * op_precedence(op1) - 1 && r1 == l1 + 1);
    assert(l2 == 2 * op_precedence(op2) - 1 && r2 == l2 + 1);
    let e = if l2 <= l1 {
        ExprV::Binary(op2, Box::new(ExprV::Binary(op1, Box::new(a), Box::new(b))), Box::new(c))
    } else {
        ExprV::Binary(op1, Box::new(a), Box::new(ExprV::Binary(op2, Box::new(b), Box::new(c))))
    };
    assert(p_binary_rest(s, 5, 0, e) == Ok::<(ExprV, int), ParseErrorV>((e, 5)));
    if l2 <= l1 {
        assert(l2 < r1);
        assert(p_binary_rest(s, 3, r1, b) == Ok::<(ExprV, int), ParseErrorV>((b, 3)));
        assert(p_binary(s, 2, r1) == Ok::<(ExprV, int), ParseErrorV>((b, 3)));
        let ab = ExprV::Binary(op1, Box::new(a), Box::new(b));
        assert(p_binary_rest(s, 3, 0, ab) == Ok::<(ExprV, int), ParseErrorV>((e, 5)));
        assert(p_binary_rest(s, 1, 0, a) == Ok::<(ExprV, int), ParseErrorV>((e, 5)));
    } else {
        assert(l2 >= r1);
        let bc = ExprV::Binary(op2, Box::new(b), Box::new(c));
        assert(p_binary_rest(s, 5, r1, bc) == Ok::<(ExprV, int), ParseErrorV>((bc, 5)));
        assert(p_binary_rest(s, 3, r1, b) == Ok::<(ExprV, int), ParseErrorV>((bc, 5)));
        assert(p_binary(s, 2, r1) == Ok::<(ExprV, int), ParseErrorV>((bc, 5)));
        assert(p_binary_rest(s, 1, 0, a) == Ok::<(ExprV, int), ParseErrorV>((e, 5)));
    }
    assert(p_binary(s, 0, 0) == Ok::<(ExprV, int), ParseErrorV>((e, 5)));
    assert(p_ternary(s, 0) == Ok::<(ExprV, int), ParseErrorV>((e, 5)));
}

/// A prefix minus binds tighter than any binary operator: for numbers `x`,
/// `y` and a binary operator `o`, `- x o y` parses as `(-x) o y`.
pub proof fn law_negation_binds_tighter(x: TokV, o: TokV, y: TokV)
    requires
        number_expr(x) is Some,
        number_expr(y) is Some,
        binop_of(o) is Some,
    ensures
        p_expr(seq![Token::Minus, x, o, y], 0) == Ok::<(ExprV, int), ParseErrorV>(
            (
                ExprV::Binary(
                    binop_of(o).unwrap().0,
                    Box::new(ExprV::Unary(UnOp::Neg, Box::new(number_expr(x).unwrap()))),
                    Box::new(number_expr(y).unwrap()),
                ),
                4,
            ),
        ),
{
    let s = seq![Token::Minus, x, o, y];
    let (op, l, r) = binop_of(o).unwrap();
    let (a, b) = (number_expr(x).unwrap(), number_expr(y).unwrap());
    assert(s[0] == Token::<Seq<char>>::Minus && s[1] == x && s[2] == o && s[3] == y);
    assert(tk(s, 0) == Token::<Seq<char>>::Minus && tk(s, 2) == o && tk(s, 4) == Token::<Seq<char>>::Eof);
    lemma_number_operand(s, 1, 0);
    lemma_number_operand(s, 3, r);
    let u = ExprV::Unary(UnOp::Neg, Box::new(a));
    let e = ExprV::Binary(op, Box::new(u), Box::new(b));
    assert(p_unary(s, 0) == Ok::<(ExprV, int), ParseErrorV>((u, 2)));
    assert(p_binary_rest(s, 4, 0, e) == Ok::<(ExprV, int), ParseErrorV>((e, 4)));
    assert(p_binary_rest(s, 2, 0, u) == Ok::<(ExprV, int), ParseErrorV>((e, 4)));
    assert(p_binary(s, 0, 0) == Ok::<(ExprV, int), ParseErrorV>((e, 4)));
    assert(p_ternary(s, 0) == Ok::<(ExprV, int), ParseErrorV>((e, 4)));
}

/// Prefix operators, then a postfix expression.
pub open spec fn p_unary(s: Seq<TokV>, p: int) -> PRes<ExprV>
    decreases s.len() - p, 4int,
{
    if !(0 <= p < s.len()) {
        stuck()
    } else {
        match tk(s, p) {
            Token::Minus => match p_unary(s, p + 1) {
                Err(e) => Err(e),
                Ok((x, p1)) => Ok((ExprV::Unary(UnOp::Neg, Box::new(x)), p1)),
            },
            Token::Plus => p_unary(s, p + 1),
            Token::Bang => match p_unary(s, p + 1) {
                Err(e) => Err(e),
                Ok((x, p1)) => Ok((ExprV::Unary(UnOp::Not, Box::new(x)), p1)),
            },
            Token::Tilde => match p_unary(s, p + 1) {
                Err(e) => Err(e),
                Ok((x, p1)) => Ok((ExprV::Unary(UnOp::BitNot, Box::new(x)), p1)),
            },
            Token::PlusPlus => match p_unary(s, p + 1) {
                Err(e) => Err(e),
                Ok((x, p1)) => Ok((ExprV::PreInc(Box::new(x)), p1)),
            },
            Token::MinusMinus => match p_unary(s, p + 1) {
                Err(e) => Err(e),
                Ok((x, p1)) => Ok((ExprV::PreDec(Box::new(x)), p1)),
            },
            _ => p_postfix(s, p),
        }
    }
}

/// A primary expression followed by member, index, call and `++`/`--`
/// suffixes.
pub open spec fn p_postfix(s: Seq<TokV>, p: int) -> PRes<ExprV>
    decreases s.len() - p, 3int,
{
    if !(0 <= p < s.len()) {
        stuck()
    } else {
        match p_primary(s, p) {
            Err(e) => Err(e),
            Ok((e, p1)) => if p < p1 <= s.len() {
                p_postfix_rest(s, p1, e)
            } else {
                stuck()
            },
        }
    }
}

pub open spec fn p_postfix_rest(s: Seq<TokV>, p: int, e: ExprV) -> PRes<ExprV>
    decreases s.len() - p, 3int,
{
    if !(0 <= p < s.len()) {
        Ok((e, p))
    } else {
        match tk(s, p) {
            Token::Dot => match ident_at(s, p + 1) {
                Some(f) => p_postfix_rest(s, p + 2, ExprV::Member(Box::new(e), f)),
                None => unexpected(s, p + 1, "identifier"@),
            },
            Token::LBracket => match p_expr(s, p + 1) {
                Err(err) => Err(err),
                Ok((idx, p1)) => if is_tok(s, p1, Token::RBracket) {
                    if p < p1 < s.len() {
                        p_postfix_rest(s, p1 + 1, ExprV::Index(Box::new(e), Box::new(idx)))
                    } else {
                        stuck()
                    }
                } else {
                    unexpected(s, p1, "']'"@)
                },
            },
            Token::LParen => match e {
                ExprV::Ident(name) => match p_call_args(s, p) {
                    Err(err) => Err(err),
                    Ok((args, p1)) => if p < p1 <= s.len() {
                        p_postfix_rest(s, p1, ExprV::Call(name, args))
                    } else {
                        stuck()
                    },
                },
                _ => Ok((e, p)),
            },
            Token::PlusPlus => p_postfix_rest(s, p + 1, ExprV::PostInc(Box::new(e))),
            Token::MinusMinus => p_postfix_rest(s, p + 1, ExprV::PostDec(Box::new(e))),
            _ => Ok((e, p)),
        }
    }
}

/// `'(' (expr (',' expr)*)? ')'`.
pub open spec fn p_call_args(s: Seq<TokV>, p: int) -> PRes<Seq<ExprV>>
    decreases s.len() - p, 1int,
{
    if !(0 <= p < s.len()) {
        stuck()
    } else if !is_tok(s, p, Token::LParen) {
        unexpected(s, p, "'('"@)
    } else if is_tok(s, p + 1, Token::RParen) {
        Ok((Seq::empty(), p + 2))
    } else {
        p_args_rest(s, p + 1, Seq::empty())
    }
}

pub open spec fn p_args_rest(s: Seq<TokV>, p: int, acc: Seq<ExprV>) -> PRes<Seq<ExprV>>
    decreases s.len() - p, 8int,
{
    if !(0 <= p < s.len()) {
        stuck()
    } else {
        match p_expr(s, p) {
            Err(e) => Err(e),
            Ok((a, p1)) => if is_tok(s, p1, Token::Comma) {
                if p <= p1 < s.len() {
                    p_args_rest(s, p1 + 1, acc.push(a))
                } else {
                    stuck()
                }
            } else if is_tok(s, p1, Token::RParen) {
                Ok((acc.push(a), p1 + 1))
            } else {
                unexpected(s, p1, "')'"@)
            },
        }
    }
}

/// Literals, identifiers, constructors `type(args)`, casts `(type) unary`
/// and parenthesized expressions.
pub open spec fn p_primary(s: Seq<TokV>, p: int) -> PRes<ExprV>
    decreases s.len() - p, 2int,
{
    if !(0 <= p < s.len()) {
        stuck()
    } else {
        match tk(s, p) {
            Token::Int(v) => Ok((ExprV::IntLit(v), p + 1)),
            Token::Float(t) => Ok((ExprV::FloatLit(t), p + 1)),
            Token::Ident(n) => if n == "true"@ {
                Ok((ExprV::BoolLit(true), p + 1))
            } else if n == "false"@ {
                Ok((ExprV::BoolLit(false), p + 1))
            } else if type_of_name(n) is Some && is_tok(s, p + 1, Token::LParen) {
                match p_call_args(s, p + 1) {
                    Err(e) => Err(e),
                    Ok((args, p1)) => Ok((ExprV::Construct(type_of_name(n).unwrap(), args), p1)),
                }
            } else {
                Ok((ExprV::Ident(n), p + 1))
            },
            Token::LParen => if type_at(s, p + 1) is Some && is_tok(s, p + 2, Token::RParen) {
                match p_unary(s, p + 3) {
                    Err(e) => Err(e),
                    Ok((x, p1)) => Ok((ExprV::Construct(type_at(s, p + 1).unwrap(), seq![x]), p1)),
                }
            } else {
                match p_expr(s, p + 1) {
                    Err(e) => Err(e),
                    Ok((e, p1)) => if is_tok(s, p1, Token::RParen) {
                        Ok((e, p1 + 1))
                    } else {
                        unexpected(s, p1, "')'"@)
                    },
                }
            },
            _ => unexpected(s, p, "expression"@),
        }
    }
}

// ------------------------------------------------------------ statements --

/// Declarators after the type of a declaration: `name (= expr)? (, ...)* ;`.
pub open spec fn p_declarators(s: Seq<TokV>, p: int, ty: Type, acc: Seq<StmtV>) -> PRes<Seq<StmtV>>
    decreases s.len() - p,
{
    match ident_at(s, p) {
        None => unexpected(s, p, "identifier"@),
        Some(name) => if !(0 <= p < s.len()) {
            stuck()
        } else if is_tok(s, p + 1, Token::Assign) {
            match p_expr(s, p + 2) {
                Err(e) => Err(e),
                Ok((init, p1)) => p_declarators_next(s, p, p1, acc.push(StmtV::Decl { ty, name, init: Some(init) }), ty),
            }
        } else {
            p_declarators_next(s, p, p + 1, acc.push(StmtV::Decl { ty, name, init: None }), ty)
        },
    }
}

pub open spec fn p_declarators_next(s: Seq<TokV>, p0: int, p: int, acc: Seq<StmtV>, ty: Type) -> PRes<Seq<StmtV>>
    decreases s.len() - p0, 0int,
{
    if is_tok(s, p, Token::Comma) {
        if p0 < p < s.len() {
            p_declarators(s, p + 1, ty, acc)
        } else {
            stuck()
        }
    } else if is_tok(s, p, Token::Semicolon) {
        Ok((acc, p + 1))
    } else {
        unexpected(s, p, "';'"@)
    }
}

/// A declaration statement: qualifiers, a type keyword, declarators.
pub open spec fn p_decl(s: Seq<TokV>, p: int) -> PRes<Seq<StmtV>> {
    let q = skip_quals(s, p);
    match type_at(s, q) {
        Some(ty) => p_declarators(s, q + 1, ty, Seq::empty()),
        None => stuck(),
    }
}

/// Further comma-separated expression statements, then `;`.
pub open spec fn p_comma_exprs(s: Seq<TokV>, p: int, acc: Seq<StmtV>) -> PRes<Seq<StmtV>>
    decreases s.len() - p,
{
    if is_tok(s, p, Token::Comma) {
        if 0 <= p < s.len() {
            match p_expr(s, p + 1) {
                Err(e) => Err(e),
                Ok((e, p1)) => if p < p1 <= s.len() {
                    p_comma_exprs(s, p1, acc.push(StmtV::Expr(e)))
                } else {
                    stuck()
                },
            }
        } else {
            stuck()
        }
    } else if is_tok(s, p, Token::Semicolon) {
        Ok((acc, p + 1))
    } else {
        unexpected(s, p, "';'"@)
    }
}

pub open spec fn is_kw(s: Seq<TokV>, p: int, kw: Seq<char>) -> bool {
    ident_at(s, p) == Some(kw)
}

/// One statement, giving the statements it stands for (none for `;`, one per
/// declarator or comma-separated expression).
pub open spec fn p_statement(s: Seq<TokV>, p: int) -> PRes<Seq<StmtV>>
    decreases s.len() - p, 21int,
{
    if !(0 <= p < s.len()) {
        stuck()
    } else if is_tok(s, p, Token::Semicolon) {
        Ok((Seq::empty(), p + 1))
    } else if is_tok(s, p, Token::LBrace) {
        match p_block(s, p) {
            Err(e) => Err(e),
            Ok((b, p1)) => Ok((seq![StmtV::Block(b)], p1)),
        }
    } else if is_kw(s, p, "if"@) {
        p_if(s, p)
    } else if is_kw(s, p, "for"@) {
        p_for(s, p)
    } else if is_kw(s, p, "while"@) {
        p_while(s, p)
    } else if is_kw(s, p, "return"@) {
        if is_tok(s, p + 1, Token::Semicolon) {
            Ok((seq![StmtV::Return(None)], p + 2))
        } else {
            match p_expr(s, p + 1) {
                Err(e) => Err(e),
                Ok((e, p1)) => if is_tok(s, p1, Token::Semicolon) {
                    Ok((seq![StmtV::Return(Some(e))], p1 + 1))
                } else {
                    unexpected(s, p1, "';'"@)
                },
            }
        }
    } else if decl_start(s, p) {
        p_decl(s, p)
    } else {
        match p_expr(s, p) {
            Err(e) => Err(e),
            Ok((e, p1)) => p_comma_exprs(s, p1, seq![StmtV::Expr(e)]),
        }
    }
}

/// `'{' statement* '}'`.
pub open spec fn p_block(s: Seq<TokV>, p: int) -> PRes<Seq<StmtV>>
    decreases s.len() - p, 20int,
{
    if !(0 <= p < s.len()) {
        stuck()
    } else if !is_tok(s, p, Token::LBrace) {
        unexpected(s, p, "'{'"@)
    } else {
        p_block_rest(s, p + 1, Seq::empty())
    }
}

pub open spec fn p_block_rest(s: Seq<TokV>, p: int, acc: Seq<StmtV>) -> PRes<Seq<StmtV>>
    decreases s.len() - p, 23int,
{
    if !(0 <= p < s.len()) {
        stuck()
    } else if is_tok(s, p, Token::RBrace) {
        Ok((acc, p + 1))
    } else if is_tok(s, p, Token::Eof) {
        unexpected(s, p, "'}'"@)
    } else {
        match p_statement(s, p) {
            Err(e) => Err(e),
            Ok((v, p1)) => if p < p1 <= s.len() {
                p_block_rest(s, p1, acc + v)
            } else {
                stuck()
            },
        }
    }
}

/// The statement nested under control flow: a block, or one statement (several
/// statements it stands for are wrapped in a block).
pub open spec fn p_substatement(s: Seq<TokV>, p: int) -> PRes<StmtV>
    decreases s.len() - p, 22int,
{
    if !(0 <= p < s.len()) {
        stuck()
    } else if is_tok(s, p, Token::LBrace) {
        match p_block(s, p) {
            Err(e) => Err(e),
            Ok((b, p1)) => Ok((StmtV::Block(b), p1)),
        }
    } else {
        match p_statement(s, p) {
            Err(e) => Err(e),
            Ok((v, p1)) => Ok((if v.len() == 1 { v[0] } else { StmtV::Block(v) }, p1)),
        }
    }
}

/// `if '(' expr ')' substatement (else substatement)?`.
pub open spec fn p_if(s: Seq<TokV>, p: int) -> PRes<Seq<StmtV>>
    decreases s.len() - p, 18int,
{
    if !(0 <= p < s.len()) {
        stuck()
    } else if !is_tok(s, p + 1, Token::LParen) {
        unexpected(s, p + 1, "'('"@)
    } else {
        match p_expr(s, p + 2) {
            Err(e) => Err(e),
            Ok((c, p1)) => if !is_tok(s, p1, Token::RParen) {
                unexpected(s, p1, "')'"@)
            } else if !(p < p1 < s.len()) {
                stuck()
            } else {
                match p_substatement(s, p1 + 1) {
                    Err(e) => Err(e),
                    Ok((t, p2)) => if is_kw(s, p2, "else"@) {
                        if p < p2 < s.len() {
                            match p_substatement(s, p2 + 1) {
                                Err(e) => Err(e),
                                Ok((f, p3)) => Ok((seq![StmtV::If(c, Box::new(t), Some(Box::new(f)))], p3)),
                            }
                        } else {
                            stuck()
                        }
                    } else {
                        Ok((seq![StmtV::If(c, Box::new(t), None)], p2))
                    },
                }
            },
        }
    }
}

/// `while '(' expr ')' substatement`.
pub open spec fn p_while(s: Seq<TokV>, p: int) -> PRes<Seq<StmtV>>
    decreases s.len() - p, 16int,
{
    if !(0 <= p < s.len()) {
        stuck()
    } else if !is_tok(s, p + 1, Token::LParen) {
        unexpected(s, p + 1, "'('"@)
    } else {
        match p_expr(s, p + 2) {
            Err(e) => Err(e),
            Ok((c, p1)) => if !is_tok(s, p1, Token::RParen) {
                unexpected(s, p1, "')'"@)
            } else if !(p < p1 < s.len()) {
                stuck()
            } else {
                match p_substatement(s, p1 + 1) {
                    Err(e) => Err(e),
                    Ok((b, p2)) => Ok((seq![StmtV::While(c, Box::new(b))], p2)),
                }
            },
        }
    }
}

/// The initializer clause of a `for` header, with the position after its `;`.
pub open spec fn p_for_init(s: Seq<TokV>, p: int) -> PRes<Option<StmtV>> {
    if is_tok(s, p, Token::Semicolon) {
        Ok((None, p + 1))
    } else if decl_start(s, p) {
        match p_decl(s, p) {
            Err(e) => Err(e),
            Ok((v, p1)) => Ok((Some(if v.len() == 1 { v[0] } else { StmtV::Block(v) }), p1)),
        }
    } else {
        match p_expr(s, p) {
            Err(e) => Err(e),
            Ok((e, p1)) => if is_tok(s, p1, Token::Semicolon) {
                Ok((Some(StmtV::Expr(e)), p1 + 1))
            } else {
                unexpected(s, p1, "';'"@)
            },
        }
    }
}

/// An optional expression ended by `end` (which is consumed).
pub open spec fn p_opt_expr_until(s: Seq<TokV>, p: int, end: TokV, what: Seq<char>) -> PRes<Option<ExprV>> {
    if is_tok(s, p, end) {
        Ok((None, p + 1))
    } else {
        match p_expr(s, p) {
            Err(e) => Err(e),
            Ok((e, p1)) => if is_tok(s, p1, end) {
                Ok((Some(e), p1 + 1))
            } else {
                unexpected(s, p1, what)
            },
        }
    }
}

/// `for '(' init cond? ';' update? ')' substatement`.
pub open spec fn p_for(s: Seq<TokV>, p: int) -> PRes<Seq<StmtV>>
    decreases s.len() - p, 17int,
{
    if !(0 <= p < s.len()) {
        stuck()
    } else if !is_tok(s, p + 1, Token::LParen) {
        unexpected(s, p + 1, "'('"@)
    } else {
        match p_for_init(s, p + 2) {
            Err(e) => Err(e),
            Ok((init, p1)) => match p_opt_expr_until(s, p1, Token::Semicolon, "';'"@) {
                Err(e) => Err(e),
                Ok((cond, p2)) => match p_opt_expr_until(s, p2, Token::RParen, "')'"@) {
                    Err(e) => Err(e),
                    Ok((update, p3)) => if p < p3 <= s.len() {
                        match p_substatement(s, p3) {
                            Err(e) => Err(e),
                            Ok((body, p4)) => Ok((
                                seq![StmtV::For(
                                    match init {
                                        Some(i) => Some(Box::new(i)),
                                        None => None,
                                    },
                                    cond,
                                    update,
                                    Box::new(body),
                                )],
                                p4,
                            )),
                        }
                    } else {
                        stuck()
                    },
                },
            },
        }
    }
}

// ----------------------------------------------------------------- items --

/// An optional `: SEMANTIC` annotation.
pub open spec fn p_semantic(s: Seq<TokV>, p: int) -> PRes<Option<Seq<char>>> {
    if is_tok(s, p, Token::Colon) {
        match ident_at(s, p + 1) {
            Some(n) => Ok((Some(n), p + 2)),
            None => unexpected(s, p + 1, "identifier"@),
        }
    } else {
        Ok((None, p))
    }
}

/// Parameter qualifiers: `out`, `inout`, and the ignored `in`/`const`/`uniform`.
pub open spec fn param_quals(s: Seq<TokV>, p: int, q: ParamQual) -> (ParamQual, int)
    decreases s.len() - p,
{
    match ident_at(s, p) {
        Some(n) => if !(0 <= p < s.len()) {
            (q, p)
        } else if n == "out"@ {
            param_quals(s, p + 1, ParamQual::Out)
        } else if n == "inout"@ {
            param_quals(s, p + 1, ParamQual::InOut)
        } else if n == "in"@ || n == "const"@ || n == "uniform"@ {
            param_quals(s, p + 1, q)
        } else {
            (q, p)
        },
        None => (q, p),
    }
}

pub open spec fn p_params_rest(s: Seq<TokV>, p: int, acc: Seq<ParamV>) -> PRes<Seq<ParamV>>
    decreases s.len() - p,
{
    let (qual, p1) = param_quals(s, p, ParamQual::In);
    match type_at(s, p1) {
        None => unexpected(s, p1, "parameter type"@),
        Some(ty) => match ident_at(s, p1 + 1) {
            None => unexpected(s, p1 + 1, "identifier"@),
            Some(name) => match p_semantic(s, p1 + 2) {
                Err(e) => Err(e),
                Ok((semantic, p2)) => {
                    let acc2 = acc.push(ParamV { qualifier: qual, ty, name, semantic });
                    if is_tok(s, p2, Token::Comma) {
                        if p <= p1 && p1 + 2 <= p2 < s.len() {
                            p_params_rest(s, p2 + 1, acc2)
                        } else {
                            stuck()
                        }
                    } else if is_tok(s, p2, Token::RParen) {
                        Ok((acc2, p2 + 1))
                    } else {
                        unexpected(s, p2, "')'"@)
                    }
                },
            },
        },
    }
}

/// `'(' (param (',' param)*)? ')'`.
pub open spec fn p_params(s: Seq<TokV>, p: int) -> PRes<Seq<ParamV>> {
    if !is_tok(s, p, Token::LParen) {
        unexpected(s, p, "'('"@)
    } else if is_tok(s, p + 1, Token::RParen) {
        Ok((Seq::empty(), p + 2))
    } else {
        p_params_rest(s, p + 1, Seq::empty())
    }
}

/// Leading declaration qualifiers of an item: whether `uniform` is among
/// them, and the position after them.
pub open spec fn item_quals(s: Seq<TokV>, p: int, uniform: bool) -> (bool, int)
    decreases s.len() - p,
{
    match ident_at(s, p) {
        Some(n) => if is_qualifier(n) && 0 <= p < s.len() {
            item_quals(s, p + 1, uniform || n == "uniform"@)
        } else {
            (uniform, p)
        },
        None => (uniform, p),
    }
}

/// Global declarators `name : SEM? (= expr)? (, name ...)* ;` with the first
/// name already read.
pub open spec fn p_globals(s: Seq<TokV>, p: int, uniform: bool, ty: Type, name: Seq<char>, acc: Seq<ItemV>) -> PRes<Seq<ItemV>>
    decreases s.len() - p,
{
    match p_semantic(s, p) {
        Err(e) => Err(e),
        Ok((semantic, p1)) => {
            let init_res: PRes<Option<ExprV>> = if is_tok(s, p1, Token::Assign) {
                match p_expr(s, p1 + 1) {
                    Err(e) => Err(e),
                    Ok((e, p2)) => Ok((Some(e), p2)),
                }
            } else {
                Ok((None, p1))
            };
            match init_res {
                Err(e) => Err(e),
                Ok((init, p2)) => {
                    let acc2 = acc.push(ItemV::Global { uniform, ty, name, semantic, init });
                    if is_tok(s, p2, Token::Comma) {
                        match ident_at(s, p2 + 1) {
                            None => unexpected(s, p2 + 1, "identifier"@),
                            Some(n2) => if p <= p2 < s.len() {
                                p_globals(s, p2 + 2, uniform, ty, n2, acc2)
                            } else {
                                stuck()
                            },
                        }
                    } else if is_tok(s, p2, Token::Semicolon) {
                        Ok((acc2, p2 + 1))
                    } else {
                        unexpected(s, p2, "';'"@)
                    }
                },
            }
        },
    }
}

/// A top-level item: a function, a sampler declaration, or global variables.
pub open spec fn p_item(s: Seq<TokV>, p: int) -> PRes<Seq<ItemV>> {
    let (uniform, q) = item_quals(s, p, false);
    match type_at(s, q) {
        None => unexpected(s, q, "a type"@),
        Some(ty) => match ident_at(s, q + 1) {
            None => unexpected(s, q + 1, "identifier"@),
            Some(name) => if is_tok(s, q + 2, Token::LParen) {
                match p_params(s, q + 2) {
                    Err(e) => Err(e),
                    Ok((params, p1)) => match p_block(s, p1) {
                        Err(e) => Err(e),
                        Ok((body, p2)) => Ok((seq![ItemV::Function(FunctionV { ret: ty, name, params, body })], p2)),
                    },
                }
            } else if ty == Type::Sampler2D || ty == Type::Sampler3D {
                if is_tok(s, q + 2, Token::Semicolon) {
                    Ok((seq![ItemV::Sampler { ty, name }], q + 3))
                } else {
                    unexpected(s, q + 2, "';'"@)
                }
            } else {
                p_globals(s, q + 2, uniform, ty, name, Seq::empty())
            },
        },
    }
}

/// Items until `Eof`.
pub open spec fn p_items(s: Seq<TokV>, p: int, acc: Seq<ItemV>) -> Result<Seq<ItemV>, ParseErrorV>
    decreases s.len() - p,
{
    if is_tok(s, p, Token::Eof) || !(0 <= p < s.len()) {
        Ok(acc)
    } else {
        match p_item(s, p) {
            Err(e) => Err(e),
            Ok((items, p1)) => if p < p1 <= s.len() {
                p_items(s, p1, acc + items)
            } else {
                Err(ParseErrorV::Unexpected { got: Token::Eof, expected: Seq::empty() })
            },
        }
    }
}

/// The items of a translation unit given as UTF-8 bytes.
pub open spec fn parse_bytes(b: Seq<u8>) -> Result<Seq<ItemV>, ParseErrorV> {
    match lex_bytes(b) {
        Err(e) => Err(ParseErrorV::Lex(e)),
        Ok(ts) => p_items(ts, 0, Seq::empty()),
    }
}

} // verus!
