//! Recursive-descent parser for the Milkdrop HLSL dialect. Every parsing
//! function works on the token vector and a position, and is proved to compute
//! exactly its counterpart in `grammar`.

use vstd::prelude::*;
use crate::text::str_eq;
use crate::shader::ast::{
    AssignOp, BinOp, Expr, ExprV, Function, Item, ItemV, Param, ParamQual, ParamV, Stmt, StmtV,
    Type, UnOp, expr_view, exprs_view, stmt_view, stmts_view, opt_expr_view, opt_string_view,
    lemma_exprs_view_push, lemma_stmts_view, lemma_stmts_view_push,
};
use crate::shader::lexer::{
    LexError, Tok, TokV, Token, tok_clone, tok_is, toks_view, lex, lex_bytes, lemma_lex_ends_eof,
};
use crate::shader::grammar::{
    PRes, ParseErrorV, tk, ident_at, unexpected, type_of_name, is_qualifier, type_at, skip_quals,
    decl_start, binop_of, assign_op_of, is_tok, is_kw, p_expr, p_ternary, p_binary,
    p_binary_rest, p_unary, p_postfix, p_postfix_rest, p_call_args, p_args_rest, p_primary,
    p_declarators, p_declarators_next, p_decl, p_comma_exprs, p_statement, p_block, p_block_rest,
    p_substatement, p_if, p_while, p_for_init, p_opt_expr_until, p_for, p_semantic, param_quals,
    p_params_rest, p_params, item_quals, p_globals, p_item, p_items, parse_bytes,
};

verus! {

/// A parse failure.
#[derive(Debug)]
pub enum ParseError {
    Lex(LexError),
    Unexpected { got: Tok, expected: String },
}

impl View for ParseError {
    type V = ParseErrorV;

    open spec fn view(&self) -> ParseErrorV {
        match self {
            ParseError::Lex(e) => ParseErrorV::Lex(e@),
            ParseError::Unexpected { got, expected } => ParseErrorV::Unexpected { got: got@, expected: expected@ },
        }
    }
}

/// The token sequence ends with the `Eof` marker.
pub open spec fn ends_eof(s: Seq<TokV>) -> bool {
    s.len() > 0 && s[s.len() - 1] == Token::<Seq<char>>::Eof
}

pub open spec fn items_view(v: Seq<Item>) -> Seq<ItemV> {
    v.map_values(|i: Item| i@)
}

pub open spec fn params_view(v: Seq<Param>) -> Seq<ParamV> {
    v.map_values(|x: Param| x@)
}

spec fn ok_after<T>(r: Result<(T, usize), ParseError>, p: int, n: int) -> bool {
    r matches Ok((_, q)) ==> p < q < n
}

spec fn expr_res(r: Result<(Expr, usize), ParseError>, want: PRes<ExprV>) -> bool {
    match r {
        Ok((e, q)) => want == Ok::<(ExprV, int), ParseErrorV>((expr_view(e), q as int)),
        Err(err) => want == Err::<(ExprV, int), ParseErrorV>(err@),
    }
}

spec fn exprs_res(r: Result<(Vec<Expr>, usize), ParseError>, want: PRes<Seq<ExprV>>) -> bool {
    match r {
        Ok((v, q)) => want == Ok::<(Seq<ExprV>, int), ParseErrorV>((exprs_view(v@), q as int)),
        Err(err) => want == Err::<(Seq<ExprV>, int), ParseErrorV>(err@),
    }
}

spec fn opt_expr_res(r: Result<(Option<Expr>, usize), ParseError>, want: PRes<Option<ExprV>>) -> bool {
    match r {
        Ok((v, q)) => want == Ok::<(Option<ExprV>, int), ParseErrorV>((opt_expr_view(v), q as int)),
        Err(err) => want == Err::<(Option<ExprV>, int), ParseErrorV>(err@),
    }
}

spec fn stmts_res(r: Result<(Vec<Stmt>, usize), ParseError>, want: PRes<Seq<StmtV>>) -> bool {
    match r {
        Ok((v, q)) => want == Ok::<(Seq<StmtV>, int), ParseErrorV>((stmts_view(v@), q as int)),
        Err(err) => want == Err::<(Seq<StmtV>, int), ParseErrorV>(err@),
    }
}

spec fn stmt_res(r: Result<(Stmt, usize), ParseError>, want: PRes<StmtV>) -> bool {
    match r {
        Ok((v, q)) => want == Ok::<(StmtV, int), ParseErrorV>((stmt_view(v), q as int)),
        Err(err) => want == Err::<(StmtV, int), ParseErrorV>(err@),
    }
}

spec fn opt_stmt_view(v: Option<Stmt>) -> Option<StmtV> {
    match v {
        Some(x) => Some(stmt_view(x)),
        None => None,
    }
}

spec fn opt_stmt_res(r: Result<(Option<Stmt>, usize), ParseError>, want: PRes<Option<StmtV>>) -> bool {
    match r {
        Ok((v, q)) => want == Ok::<(Option<StmtV>, int), ParseErrorV>((opt_stmt_view(v), q as int)),
        Err(err) => want == Err::<(Option<StmtV>, int), ParseErrorV>(err@),
    }
}

spec fn sem_res(r: Result<(Option<String>, usize), ParseError>, want: PRes<Option<Seq<char>>>) -> bool {
    match r {
        Ok((v, q)) => want == Ok::<(Option<Seq<char>>, int), ParseErrorV>((opt_string_view(v), q as int)),
        Err(err) => want == Err::<(Option<Seq<char>>, int), ParseErrorV>(err@),
    }
}

spec fn params_res(r: Result<(Vec<Param>, usize), ParseError>, want: PRes<Seq<ParamV>>) -> bool {
    match r {
        Ok((v, q)) => want == Ok::<(Seq<ParamV>, int), ParseErrorV>((params_view(v@), q as int)),
        Err(err) => want == Err::<(Seq<ParamV>, int), ParseErrorV>(err@),
    }
}

spec fn items_res(r: Result<(Vec<Item>, usize), ParseError>, want: PRes<Seq<ItemV>>) -> bool {
    match r {
        Ok((v, q)) => want == Ok::<(Seq<ItemV>, int), ParseErrorV>((items_view(v@), q as int)),
        Err(err) => want == Err::<(Seq<ItemV>, int), ParseErrorV>(err@),
    }
}

proof fn lemma_stmts_view_concat(a: Seq<Stmt>, b: Seq<Stmt>)
    ensures
        stmts_view(a + b) == stmts_view(a) + stmts_view(b),
    decreases b.len(),
{
    if b.len() == 0 {
        assert(a + b =~= a);
        assert(stmts_view(a) + stmts_view(b) =~= stmts_view(a));
    } else {
        let b0 = b.subrange(0, b.len() - 1);
        let x = b[b.len() - 1];
        lemma_stmts_view_concat(a, b0);
        assert(a + b =~= (a + b0).push(x));
        assert(b =~= b0.push(x));
        lemma_stmts_view_push(a + b0, x);
        lemma_stmts_view_push(b0, x);
        assert(stmts_view(a) + stmts_view(b0).push(stmt_view(x)) =~= (stmts_view(a) + stmts_view(b0)).push(stmt_view(x)));
    }
}

/// A one-statement vector.
fn one_stmt(s: Stmt) -> (r: Vec<Stmt>)
    ensures
        stmts_view(r@) == seq![stmt_view(s)],
{
    let mut v: Vec<Stmt> = Vec::new();
    v.push(s);
    proof {
        lemma_stmts_view_push(Seq::empty(), s);
        assert(v@ =~= Seq::<Stmt>::empty().push(s));
        assert(stmts_view(Seq::<Stmt>::empty()) =~= Seq::<StmtV>::empty());
        assert(Seq::<StmtV>::empty().push(stmt_view(s)) =~= seq![stmt_view(s)]);
    }
    v
}

/// A one-item vector.
fn one_item(i: Item) -> (r: Vec<Item>)
    ensures
        items_view(r@) == seq![i@],
{
    let mut v: Vec<Item> = Vec::new();
    v.push(i);
    proof {
        assert(items_view(v@) =~= seq![i@]);
    }
    v
}

/// The statement a list of statements stands for under control flow: the
/// single statement, or a block of them.
fn single_or_block(mut v: Vec<Stmt>) -> (r: Stmt)
    ensures
        stmt_view(r) == (if stmts_view(v@).len() == 1 { stmts_view(v@)[0] } else { StmtV::Block(stmts_view(v@)) }),
{
    proof {
        lemma_stmts_view(v@);
    }
    if v.len() == 1 {
        let ghost v0 = v@;
        let r = v.pop().unwrap();
        assert(r == v0[0]);
        r
    } else {
        Stmt::Block(v)
    }
}

// ------------------------------------------------------------ tokens --

/// Whether the token at `p` is the text-free token `k`.
fn at(t: &Vec<Tok>, p: usize, k: &Tok) -> (r: bool)
    requires
        !(k is Ident) && !(k is Float) && !(k is Int),
    ensures
        r == is_tok(toks_view(t@), p as int, k@),
{
    if p < t.len() {
        tok_is(&t[p], k)
    } else {
        match k {
            Token::Eof => true,
            _ => false,
        }
    }
}

/// The identifier at `p`, if there is one.
fn ident_of<'a>(t: &'a Vec<Tok>, p: usize) -> (r: Option<&'a String>)
    ensures
        match r {
            Some(n) => ident_at(toks_view(t@), p as int) == Some(n@),
            None => ident_at(toks_view(t@), p as int) is None,
        },
{
    if p < t.len() {
        match &t[p] {
            Token::Ident(n) => Some(n),
            _ => None,
        }
    } else {
        None
    }
}

/// The failure "unexpected <token at p>, expected <what>".
fn unexpected_at(t: &Vec<Tok>, p: usize, what: &str) -> (r: ParseError)
    ensures
        r@ == (ParseErrorV::Unexpected { got: tk(toks_view(t@), p as int), expected: what@ }),
{
    let got = if p < t.len() {
        tok_clone(&t[p])
    } else {
        Token::Eof
    };
    ParseError::Unexpected { got, expected: what.to_owned() }
}

/// The type a type keyword names.
fn type_from_ident(n: &str) -> (r: Option<Type>)
    ensures
        r == type_of_name(n@),
{
    if str_eq(n, "void") {
        Some(Type::Void)
    } else if str_eq(n, "float") || str_eq(n, "half") || str_eq(n, "double") || str_eq(n, "float1")
        || str_eq(n, "half1") || str_eq(n, "double1") {
        Some(Type::Float)
    } else if str_eq(n, "int") || str_eq(n, "uint") || str_eq(n, "dword") || str_eq(n, "int1") || str_eq(n, "uint1") {
        Some(Type::Int)
    } else if str_eq(n, "bool") || str_eq(n, "bool1") {
        Some(Type::Bool)
    } else if str_eq(n, "float2") || str_eq(n, "half2") || str_eq(n, "double2") {
        Some(Type::Float2)
    } else if str_eq(n, "float3") || str_eq(n, "half3") || str_eq(n, "double3") {
        Some(Type::Float3)
    } else if str_eq(n, "float4") || str_eq(n, "half4") || str_eq(n, "double4") {
        Some(Type::Float4)
    } else if str_eq(n, "int2") || str_eq(n, "uint2") {
        Some(Type::Int2)
    } else if str_eq(n, "int3") || str_eq(n, "uint3") {
        Some(Type::Int3)
    } else if str_eq(n, "int4") || str_eq(n, "uint4") {
        Some(Type::Int4)
    } else if str_eq(n, "bool2") {
        Some(Type::Bool2)
    } else if str_eq(n, "bool3") {
        Some(Type::Bool3)
    } else if str_eq(n, "bool4") {
        Some(Type::Bool4)
    } else if str_eq(n, "float2x2") {
        Some(Type::Mat2)
    } else if str_eq(n, "float3x3") {
        Some(Type::Mat3)
    } else if str_eq(n, "float4x4") {
        Some(Type::Mat4)
    } else if str_eq(n, "float4x3") {
        Some(Type::Mat4x3)
    } else if str_eq(n, "float3x4") {
        Some(Type::Mat3x4)
    } else if str_eq(n, "sampler2D") || str_eq(n, "sampler") {
        Some(Type::Sampler2D)
    } else if str_eq(n, "sampler3D") {
        Some(Type::Sampler3D)
    } else {
        None
    }
}

fn is_qualifier_name(n: &str) -> (r: bool)
    ensures
        r == is_qualifier(n@),
{
    str_eq(n, "uniform") || str_eq(n, "const") || str_eq(n, "static") || str_eq(n, "inline") || str_eq(n, "row_major")
        || str_eq(n, "column_major")
}

/// The type keyword at `p`, if there is one.
fn peek_type(t: &Vec<Tok>, p: usize) -> (r: Option<Type>)
    ensures
        r == type_at(toks_view(t@), p as int),
{
    match ident_of(t, p) {
        Some(n) => type_from_ident(n),
        None => None,
    }
}

fn is_keyword(t: &Vec<Tok>, p: usize, kw: &str) -> (r: bool)
    ensures
        r == is_kw(toks_view(t@), p as int, kw@),
{
    match ident_of(t, p) {
        Some(n) => str_eq(n, kw),
        None => false,
    }
}

fn skip_qualifiers(t: &Vec<Tok>, p: usize) -> (r: usize)
    requires
        ends_eof(toks_view(t@)),
        p < t.len(),
    ensures
        r == skip_quals(toks_view(t@), p as int),
        p <= r < t.len(),
{
    let ghost s = toks_view(t@);
    let mut q = p;
    loop
        invariant
            s == toks_view(t@),
            ends_eof(s),
            p <= q < t.len(),
            skip_quals(s, p as int) == skip_quals(s, q as int),
        decreases t.len() - q,
    {
        match ident_of(t, q) {
            Some(n) => {
                if is_qualifier_name(n) {
                    q = q + 1;
                } else {
                    return q;
                }
            },
            None => {
                return q;
            },
        }
    }
}

/// Whether a (possibly qualified) declaration starts at `p`.
fn peek_decl(t: &Vec<Tok>, p: usize) -> (r: bool)
    requires
        ends_eof(toks_view(t@)),
        p < t.len(),
    ensures
        r == decl_start(toks_view(t@), p as int),
{
    let q = skip_qualifiers(t, p);
    peek_type(t, q).is_some() && ident_of(t, q + 1).is_some()
}

fn binop_at(t: &Vec<Tok>, p: usize) -> (r: Option<(BinOp, u8, u8)>)
    ensures
        r == binop_of(tk(toks_view(t@), p as int)),
{
    if p >= t.len() {
        return None;
    }
    match &t[p] {
        Token::OrOr => Some((BinOp::Or, 1, 2)),
        Token::AndAnd => Some((BinOp::And, 3, 4)),
        Token::Pipe => Some((BinOp::BitOr, 5, 6)),
        Token::Caret => Some((BinOp::BitXor, 7, 8)),
        Token::Amp => Some((BinOp::BitAnd, 9, 10)),
        Token::Eq => Some((BinOp::Eq, 11, 12)),
        Token::Ne => Some((BinOp::Ne, 11, 12)),
        Token::Lt => Some((BinOp::Lt, 13, 14)),
        Token::Gt => Some((BinOp::Gt, 13, 14)),
        Token::Le => Some((BinOp::Le, 13, 14)),
        Token::Ge => Some((BinOp::Ge, 13, 14)),
        Token::Shl => Some((BinOp::Shl, 15, 16)),
        Token::Shr => Some((BinOp::Shr, 15, 16)),
        Token::Plus => Some((BinOp::Add, 17, 18)),
        Token::Minus => Some((BinOp::Sub, 17, 18)),
        Token::Star => Some((BinOp::Mul, 19, 20)),
        Token::Slash => Some((BinOp::Div, 19, 20)),
        Token::Percent => Some((BinOp::Mod, 19, 20)),
        _ => None,
    }
}

fn assign_op_at(t: &Vec<Tok>, p: usize) -> (r: Option<AssignOp>)
    ensures
        r == assign_op_of(tk(toks_view(t@), p as int)),
{
    if p >= t.len() {
        return None;
    }
    match &t[p] {
        Token::Assign => Some(AssignOp::Assign),
        Token::PlusAssign => Some(AssignOp::Add),
        Token::MinusAssign => Some(AssignOp::Sub),
        Token::StarAssign => Some(AssignOp::Mul),
        Token::SlashAssign => Some(AssignOp::Div),
        Token::PercentAssign => Some(AssignOp::Mod),
        _ => None,
    }
}

// ------------------------------------------------------- expressions --

/// `expr := ternary (assign-op expr)?`.
fn parse_expr(t: &Vec<Tok>, p: usize) -> (r: Result<(Expr, usize), ParseError>)
    requires
        ends_eof(toks_view(t@)),
        p < t.len(),
    ensures
        expr_res(r, p_expr(toks_view(t@), p as int)),
        ok_after(r, p as int, t.len() as int),
    decreases t.len() - p, 7int,
{
    let (lhs, p1) = match parse_ternary(t, p) {
        Ok(x) => x,
        Err(e) => return Err(e),
    };
    match assign_op_at(t, p1) {
        None => Ok((lhs, p1)),
        Some(op) => {
            match parse_expr(t, p1 + 1) {
                Ok((rhs, p2)) => Ok((Expr::Assign(op, Box::new(lhs), Box::new(rhs)), p2)),
                Err(e) => Err(e),
            }
        },
    }
}

/// `ternary := binary ('?' expr ':' expr)?`.
fn parse_ternary(t: &Vec<Tok>, p: usize) -> (r: Result<(Expr, usize), ParseError>)
    requires
        ends_eof(toks_view(t@)),
        p < t.len(),
    ensures
        expr_res(r, p_ternary(toks_view(t@), p as int)),
        ok_after(r, p as int, t.len() as int),
    decreases t.len() - p, 6int,
{
    let (c, p1) = match parse_binary(t, p, 0) {
        Ok(x) => x,
        Err(e) => return Err(e),
    };
    if at(t, p1, &Token::Question) {
        let (th, p2) = match parse_expr(t, p1 + 1) {
            Ok(x) => x,
            Err(e) => return Err(e),
        };
        if at(t, p2, &Token::Colon) {
            match parse_expr(t, p2 + 1) {
                Ok((el, p3)) => Ok((Expr::Ternary(Box::new(c), Box::new(th), Box::new(el)), p3)),
                Err(e) => Err(e),
            }
        } else {
            Err(unexpected_at(t, p2, "':'"))
        }
    } else {
        Ok((c, p1))
    }
}

/// Precedence climbing over the binary operators binding at least `min_bp`.
fn parse_binary(t: &Vec<Tok>, p: usize, min_bp: u8) -> (r: Result<(Expr, usize), ParseError>)
    requires
        ends_eof(toks_view(t@)),
        p < t.len(),
    ensures
        expr_res(r, p_binary(toks_view(t@), p as int, min_bp)),
        ok_after(r, p as int, t.len() as int),
    decreases t.len() - p, 5int,
{
    let ghost s = toks_view(t@);
    let (mut lhs, mut q) = match parse_unary(t, p) {
        Ok(x) => x,
        Err(e) => return Err(e),
    };
    loop
        invariant
            s == toks_view(t@),
            ends_eof(s),
            p < q < t.len(),
            p_binary(s, p as int, min_bp) == p_binary_rest(s, q as int, min_bp, expr_view(lhs)),
        decreases t.len() - q,
    {
        match binop_at(t, q) {
            None => {
                return Ok((lhs, q));
            },
            Some((op, l_bp, r_bp)) => {
                if l_bp < min_bp {
                    return Ok((lhs, q));
                }
                let (rhs, q2) = match parse_binary(t, q + 1, r_bp) {
                    Ok(x) => x,
                    Err(e) => return Err(e),
                };
                lhs = Expr::Binary(op, Box::new(lhs), Box::new(rhs));
                q = q2;
            },
        }
    }
}

/// Prefix operators, then a postfix expression.
fn parse_unary(t: &Vec<Tok>, p: usize) -> (r: Result<(Expr, usize), ParseError>)
    requires
        ends_eof(toks_view(t@)),
        p < t.len(),
    ensures
        expr_res(r, p_unary(toks_view(t@), p as int)),
        ok_after(r, p as int, t.len() as int),
    decreases t.len() - p, 4int,
{
    if at(t, p, &Token::Minus) {
        match parse_unary(t, p + 1) {
            Ok((x, p1)) => Ok((Expr::Unary(UnOp::Neg, Box::new(x)), p1)),
            Err(e) => Err(e),
        }
    } else if at(t, p, &Token::Plus) {
        parse_unary(t, p + 1)
    } else if at(t, p, &Token::Bang) {
        match parse_unary(t, p + 1) {
            Ok((x, p1)) => Ok((Expr::Unary(UnOp::Not, Box::new(x)), p1)),
            Err(e) => Err(e),
        }
    } else if at(t, p, &Token::Tilde) {
        match parse_unary(t, p + 1) {
            Ok((x, p1)) => Ok((Expr::Unary(UnOp::BitNot, Box::new(x)), p1)),
            Err(e) => Err(e),
        }
    } else if at(t, p, &Token::PlusPlus) {
        match parse_unary(t, p + 1) {
            Ok((x, p1)) => Ok((Expr::PreInc(Box::new(x)), p1)),
            Err(e) => Err(e),
        }
    } else if at(t, p, &Token::MinusMinus) {
        match parse_unary(t, p + 1) {
            Ok((x, p1)) => Ok((Expr::PreDec(Box::new(x)), p1)),
            Err(e) => Err(e),
        }
    } else {
        parse_postfix(t, p)
    }
}

/// A primary expression with its member, index, call and `++`/`--` suffixes.
fn parse_postfix(t: &Vec<Tok>, p: usize) -> (r: Result<(Expr, usize), ParseError>)
    requires
        ends_eof(toks_view(t@)),
        p < t.len(),
    ensures
        expr_res(r, p_postfix(toks_view(t@), p as int)),
        ok_after(r, p as int, t.len() as int),
    decreases t.len() - p, 3int,
{
    let ghost s = toks_view(t@);
    let (mut e, mut q) = match parse_primary(t, p) {
        Ok(x) => x,
        Err(err) => return Err(err),
    };
    loop
        invariant
            s == toks_view(t@),
            ends_eof(s),
            p < q < t.len(),
            p_postfix(s, p as int) == p_postfix_rest(s, q as int, expr_view(e)),
        decreases t.len() - q,
    {
        if at(t, q, &Token::Dot) {
            match ident_of(t, q + 1) {
                Some(f) => {
                    e = Expr::Member(Box::new(e), f.clone());
                    q = q + 2;
                },
                None => {
                    return Err(unexpected_at(t, q + 1, "identifier"));
                },
            }
        } else if at(t, q, &Token::LBracket) {
            let (idx, q1) = match parse_expr(t, q + 1) {
                Ok(x) => x,
                Err(err) => return Err(err),
            };
            if at(t, q1, &Token::RBracket) {
                e = Expr::Index(Box::new(e), Box::new(idx));
                q = q1 + 1;
            } else {
                return Err(unexpected_at(t, q1, "']'"));
            }
        } else if at(t, q, &Token::LParen) {
            match e {
                Expr::Ident(name) => {
                    let (args, q1) = match parse_call_args(t, q) {
                        Ok(x) => x,
                        Err(err) => return Err(err),
                    };
                    e = Expr::Call(name, args);
                    q = q1;
                },
                other => {
                    return Ok((other, q));
                },
            }
        } else if at(t, q, &Token::PlusPlus) {
            e = Expr::PostInc(Box::new(e));
            q = q + 1;
        } else if at(t, q, &Token::MinusMinus) {
            e = Expr::PostDec(Box::new(e));
            q = q + 1;
        } else {
            return Ok((e, q));
        }
    }
}

/// `'(' (expr (',' expr)*)? ')'`.
fn parse_call_args(t: &Vec<Tok>, p: usize) -> (r: Result<(Vec<Expr>, usize), ParseError>)
    requires
        ends_eof(toks_view(t@)),
        p < t.len(),
    ensures
        exprs_res(r, p_call_args(toks_view(t@), p as int)),
        ok_after(r, p as int, t.len() as int),
    decreases t.len() - p, 1int,
{
    let ghost s = toks_view(t@);
    if !at(t, p, &Token::LParen) {
        return Err(unexpected_at(t, p, "'('"));
    }
    let mut args: Vec<Expr> = Vec::new();
    if at(t, p + 1, &Token::RParen) {
        proof {
            assert(exprs_view(args@) =~= Seq::<ExprV>::empty());
        }
        return Ok((args, p + 2));
    }
    let mut q = p + 1;
    proof {
        assert(exprs_view(args@) =~= Seq::<ExprV>::empty());
    }
    loop
        invariant
            s == toks_view(t@),
            ends_eof(s),
            p < q < t.len(),
            p_call_args(s, p as int) == p_args_rest(s, q as int, exprs_view(args@)),
        decreases t.len() - q,
    {
        let (a, q1) = match parse_expr(t, q) {
            Ok(x) => x,
            Err(err) => return Err(err),
        };
        proof {
            lemma_exprs_view_push(args@, a);
        }
        if at(t, q1, &Token::Comma) {
            args.push(a);
            q = q1 + 1;
        } else if at(t, q1, &Token::RParen) {
            args.push(a);
            return Ok((args, q1 + 1));
        } else {
            return Err(unexpected_at(t, q1, "')'"));
        }
    }
}

/// Literals, identifiers, constructors `type(args)`, casts `(type) unary` and
/// parenthesized expressions.
fn parse_primary(t: &Vec<Tok>, p: usize) -> (r: Result<(Expr, usize), ParseError>)
    requires
        ends_eof(toks_view(t@)),
        p < t.len(),
    ensures
        expr_res(r, p_primary(toks_view(t@), p as int)),
        ok_after(r, p as int, t.len() as int),
    decreases t.len() - p, 2int,
{
    match &t[p] {
        Token::Int(v) => Ok((Expr::IntLit(*v), p + 1)),
        Token::Float(x) => Ok((Expr::FloatLit(x.clone()), p + 1)),
        Token::Ident(n) => {
            if str_eq(n, "true") {
                Ok((Expr::BoolLit(true), p + 1))
            } else if str_eq(n, "false") {
                Ok((Expr::BoolLit(false), p + 1))
            } else {
                match type_from_ident(n) {
                    Some(ty) => {
                        if at(t, p + 1, &Token::LParen) {
                            match parse_call_args(t, p + 1) {
                                Ok((args, p1)) => Ok((Expr::Construct(ty, args), p1)),
                                Err(e) => Err(e),
                            }
                        } else {
                            Ok((Expr::Ident(n.clone()), p + 1))
                        }
                    },
                    None => Ok((Expr::Ident(n.clone()), p + 1)),
                }
            }
        },
        Token::LParen => {
            let cast = peek_type(t, p + 1);
            match cast {
                Some(ty) => {
                    if at(t, p + 2, &Token::RParen) {
                        return match parse_unary(t, p + 3) {
                            Ok((x, p1)) => {
                                let mut v: Vec<Expr> = Vec::new();
                                v.push(x);
                                proof {
                                    lemma_exprs_view_push(Seq::empty(), x);
                                    assert(v@ =~= Seq::<Expr>::empty().push(x));
                                    assert(exprs_view(Seq::<Expr>::empty()) =~= Seq::<ExprV>::empty());
                                    assert(Seq::<ExprV>::empty().push(expr_view(x)) =~= seq![expr_view(x)]);
                                }
                                Ok((Expr::Construct(ty, v), p1))
                            },
                            Err(e) => Err(e),
                        };
                    }
                },
                None => {},
            }
            let (e, p1) = match parse_expr(t, p + 1) {
                Ok(x) => x,
                Err(err) => return Err(err),
            };
            if at(t, p1, &Token::RParen) {
                Ok((e, p1 + 1))
            } else {
                Err(unexpected_at(t, p1, "')'"))
            }
        },
        _ => Err(unexpected_at(t, p, "expression")),
    }
}

// -------------------------------------------------------- statements --

/// A declaration statement `qualifiers type name (= expr)? (, name ...)* ;`,
/// one `Decl` per declarator.
fn parse_decl(t: &Vec<Tok>, p: usize) -> (r: Result<(Vec<Stmt>, usize), ParseError>)
    requires
        ends_eof(toks_view(t@)),
        p < t.len(),
        decl_start(toks_view(t@), p as int),
    ensures
        stmts_res(r, p_decl(toks_view(t@), p as int)),
        ok_after(r, p as int, t.len() as int),
{
    let ghost s = toks_view(t@);
    let q = skip_qualifiers(t, p);
    let ty = match peek_type(t, q) {
        Some(ty) => ty,
        None => {
            assert(false);
            return Err(unexpected_at(t, q, "a type"));
        },
    };
    let mut v: Vec<Stmt> = Vec::new();
    let mut r = q + 1;
    proof {
        assert(stmts_view(v@) =~= Seq::<StmtV>::empty());
    }
    loop
        invariant
            s == toks_view(t@),
            ends_eof(s),
            p < r < t.len(),
            p_decl(s, p as int) == p_declarators(s, r as int, ty, stmts_view(v@)),
        decreases t.len() - r,
    {
        let name = match ident_of(t, r) {
            Some(n) => n.clone(),
            None => return Err(unexpected_at(t, r, "identifier")),
        };
        let r1;
        if at(t, r + 1, &Token::Assign) {
            let (init, e1) = match parse_expr(t, r + 2) {
                Ok(x) => x,
                Err(e) => return Err(e),
            };
            let d = Stmt::Decl { ty, name, init: Some(init) };
            proof {
                lemma_stmts_view_push(v@, d);
            }
            v.push(d);
            r1 = e1;
        } else {
            let d = Stmt::Decl { ty, name, init: None };
            proof {
                lemma_stmts_view_push(v@, d);
            }
            v.push(d);
            r1 = r + 1;
        }
        if at(t, r1, &Token::Comma) {
            r = r1 + 1;
        } else if at(t, r1, &Token::Semicolon) {
            return Ok((v, r1 + 1));
        } else {
            return Err(unexpected_at(t, r1, "';'"));
        }
    }
}

/// One statement, as the statements it stands for (none for `;`, one per
/// declarator or comma-separated expression).
#[verifier::rlimit(40)]
fn parse_statement(t: &Vec<Tok>, p: usize) -> (r: Result<(Vec<Stmt>, usize), ParseError>)
    requires
        ends_eof(toks_view(t@)),
        p < t.len(),
    ensures
        stmts_res(r, p_statement(toks_view(t@), p as int)),
        ok_after(r, p as int, t.len() as int),
    decreases t.len() - p, 21int,
{
    let ghost s = toks_view(t@);
    if at(t, p, &Token::Semicolon) {
        let v: Vec<Stmt> = Vec::new();
        proof {
            assert(stmts_view(v@) =~= Seq::<StmtV>::empty());
        }
        return Ok((v, p + 1));
    }
    if at(t, p, &Token::LBrace) {
        return match parse_block(t, p) {
            Ok((b, p1)) => Ok((one_stmt(Stmt::Block(b)), p1)),
            Err(e) => Err(e),
        };
    }
    if is_keyword(t, p, "if") {
        return parse_if(t, p);
    }
    if is_keyword(t, p, "for") {
        return parse_for(t, p);
    }
    if is_keyword(t, p, "while") {
        return parse_while(t, p);
    }
    if is_keyword(t, p, "return") {
        if at(t, p + 1, &Token::Semicolon) {
            return Ok((one_stmt(Stmt::Return(None)), p + 2));
        }
        let (e, p1) = match parse_expr(t, p + 1) {
            Ok(x) => x,
            Err(err) => return Err(err),
        };
        if at(t, p1, &Token::Semicolon) {
            return Ok((one_stmt(Stmt::Return(Some(e))), p1 + 1));
        } else {
            return Err(unexpected_at(t, p1, "';'"));
        }
    }
    if peek_decl(t, p) {
        return parse_decl(t, p);
    }
    let (e, p1) = match parse_expr(t, p) {
        Ok(x) => x,
        Err(err) => return Err(err),
    };
    let mut v = one_stmt(Stmt::Expr(e));
    let mut q = p1;
    loop
        invariant
            s == toks_view(t@),
            ends_eof(s),
            p < q < t.len(),
            p_statement(s, p as int) == p_comma_exprs(s, q as int, stmts_view(v@)),
        decreases t.len() - q,
    {
        if at(t, q, &Token::Comma) {
            let (e2, q1) = match parse_expr(t, q + 1) {
                Ok(x) => x,
                Err(err) => return Err(err),
            };
            let st = Stmt::Expr(e2);
            proof {
                lemma_stmts_view_push(v@, st);
            }
            v.push(st);
            q = q1;
        } else if at(t, q, &Token::Semicolon) {
            return Ok((v, q + 1));
        } else {
            return Err(unexpected_at(t, q, "';'"));
        }
    }
}

/// `'{' statement* '}'`.
fn parse_block(t: &Vec<Tok>, p: usize) -> (r: Result<(Vec<Stmt>, usize), ParseError>)
    requires
        ends_eof(toks_view(t@)),
        p < t.len(),
    ensures
        stmts_res(r, p_block(toks_view(t@), p as int)),
        ok_after(r, p as int, t.len() as int),
    decreases t.len() - p, 20int,
{
    let ghost s = toks_view(t@);
    if !at(t, p, &Token::LBrace) {
        return Err(unexpected_at(t, p, "'{'"));
    }
    let mut v: Vec<Stmt> = Vec::new();
    let mut q = p + 1;
    proof {
        assert(stmts_view(v@) =~= Seq::<StmtV>::empty());
    }
    loop
        invariant
            s == toks_view(t@),
            ends_eof(s),
            p < q < t.len(),
            p_block(s, p as int) == p_block_rest(s, q as int, stmts_view(v@)),
        decreases t.len() - q,
    {
        if at(t, q, &Token::RBrace) {
            return Ok((v, q + 1));
        }
        if at(t, q, &Token::Eof) {
            return Err(unexpected_at(t, q, "'}'"));
        }
        let (mut w, q1) = match parse_statement(t, q) {
            Ok(x) => x,
            Err(err) => return Err(err),
        };
        proof {
            lemma_stmts_view_concat(v@, w@);
        }
        v.append(&mut w);
        q = q1;
    }
}

/// The statement nested under control flow: a block, or one statement
/// (several are wrapped in a block).
fn parse_substatement(t: &Vec<Tok>, p: usize) -> (r: Result<(Stmt, usize), ParseError>)
    requires
        ends_eof(toks_view(t@)),
        p < t.len(),
    ensures
        stmt_res(r, p_substatement(toks_view(t@), p as int)),
        ok_after(r, p as int, t.len() as int),
    decreases t.len() - p, 22int,
{
    if at(t, p, &Token::LBrace) {
        match parse_block(t, p) {
            Ok((b, p1)) => Ok((Stmt::Block(b), p1)),
            Err(e) => Err(e),
        }
    } else {
        match parse_statement(t, p) {
            Ok((v, p1)) => Ok((single_or_block(v), p1)),
            Err(e) => Err(e),
        }
    }
}

/// `if '(' expr ')' substatement (else substatement)?`.
fn parse_if(t: &Vec<Tok>, p: usize) -> (r: Result<(Vec<Stmt>, usize), ParseError>)
    requires
        ends_eof(toks_view(t@)),
        p < t.len(),
    ensures
        stmts_res(r, p_if(toks_view(t@), p as int)),
        ok_after(r, p as int, t.len() as int),
    decreases t.len() - p, 18int,
{
    if !at(t, p + 1, &Token::LParen) {
        return Err(unexpected_at(t, p + 1, "'('"));
    }
    let (c, p1) = match parse_expr(t, p + 2) {
        Ok(x) => x,
        Err(e) => return Err(e),
    };
    if !at(t, p1, &Token::RParen) {
        return Err(unexpected_at(t, p1, "')'"));
    }
    let (th, p2) = match parse_substatement(t, p1 + 1) {
        Ok(x) => x,
        Err(e) => return Err(e),
    };
    if is_keyword(t, p2, "else") {
        match parse_substatement(t, p2 + 1) {
            Ok((el, p3)) => Ok((one_stmt(Stmt::If(c, Box::new(th), Some(Box::new(el)))), p3)),
            Err(e) => Err(e),
        }
    } else {
        Ok((one_stmt(Stmt::If(c, Box::new(th), None)), p2))
    }
}

/// `while '(' expr ')' substatement`.
fn parse_while(t: &Vec<Tok>, p: usize) -> (r: Result<(Vec<Stmt>, usize), ParseError>)
    requires
        ends_eof(toks_view(t@)),
        p < t.len(),
    ensures
        stmts_res(r, p_while(toks_view(t@), p as int)),
        ok_after(r, p as int, t.len() as int),
    decreases t.len() - p, 16int,
{
    if !at(t, p + 1, &Token::LParen) {
        return Err(unexpected_at(t, p + 1, "'('"));
    }
    let (c, p1) = match parse_expr(t, p + 2) {
        Ok(x) => x,
        Err(e) => return Err(e),
    };
    if !at(t, p1, &Token::RParen) {
        return Err(unexpected_at(t, p1, "')'"));
    }
    match parse_substatement(t, p1 + 1) {
        Ok((b, p2)) => Ok((one_stmt(Stmt::While(c, Box::new(b))), p2)),
        Err(e) => Err(e),
    }
}

/// The initializer clause of a `for` header, through its `;`.
fn parse_for_init(t: &Vec<Tok>, p: usize) -> (r: Result<(Option<Stmt>, usize), ParseError>)
    requires
        ends_eof(toks_view(t@)),
        p < t.len(),
    ensures
        opt_stmt_res(r, p_for_init(toks_view(t@), p as int)),
        ok_after(r, p as int, t.len() as int),
{
    if at(t, p, &Token::Semicolon) {
        Ok((None, p + 1))
    } else if peek_decl(t, p) {
        match parse_decl(t, p) {
            Ok((v, p1)) => Ok((Some(single_or_block(v)), p1)),
            Err(e) => Err(e),
        }
    } else {
        let (e, p1) = match parse_expr(t, p) {
            Ok(x) => x,
            Err(err) => return Err(err),
        };
        if at(t, p1, &Token::Semicolon) {
            Ok((Some(Stmt::Expr(e)), p1 + 1))
        } else {
            Err(unexpected_at(t, p1, "';'"))
        }
    }
}

/// An optional expression ended by `end`, which is consumed.
fn parse_opt_expr_until(t: &Vec<Tok>, p: usize, end: &Tok, what: &str) -> (r: Result<(Option<Expr>, usize), ParseError>)
    requires
        ends_eof(toks_view(t@)),
        p < t.len(),
        !(end is Ident) && !(end is Float) && !(end is Int) && !(end is Eof),
    ensures
        opt_expr_res(r, p_opt_expr_until(toks_view(t@), p as int, end@, what@)),
        ok_after(r, p as int, t.len() as int),
{
    if at(t, p, end) {
        Ok((None, p + 1))
    } else {
        let (e, p1) = match parse_expr(t, p) {
            Ok(x) => x,
            Err(err) => return Err(err),
        };
        if at(t, p1, end) {
            Ok((Some(e), p1 + 1))
        } else {
            Err(unexpected_at(t, p1, what))
        }
    }
}

/// `for '(' init cond? ';' update? ')' substatement`.
fn parse_for(t: &Vec<Tok>, p: usize) -> (r: Result<(Vec<Stmt>, usize), ParseError>)
    requires
        ends_eof(toks_view(t@)),
        p < t.len(),
    ensures
        stmts_res(r, p_for(toks_view(t@), p as int)),
        ok_after(r, p as int, t.len() as int),
    decreases t.len() - p, 17int,
{
    if !at(t, p + 1, &Token::LParen) {
        return Err(unexpected_at(t, p + 1, "'('"));
    }
    let (init, p1) = match parse_for_init(t, p + 2) {
        Ok(x) => x,
        Err(e) => return Err(e),
    };
    let (cond, p2) = match parse_opt_expr_until(t, p1, &Token::Semicolon, "';'") {
        Ok(x) => x,
        Err(e) => return Err(e),
    };
    let (update, p3) = match parse_opt_expr_until(t, p2, &Token::RParen, "')'") {
        Ok(x) => x,
        Err(e) => return Err(e),
    };
    let (body, p4) = match parse_substatement(t, p3) {
        Ok(x) => x,
        Err(e) => return Err(e),
    };
    let init_box = match init {
        Some(i) => Some(Box::new(i)),
        None => None,
    };
    Ok((one_stmt(Stmt::For(init_box, cond, update, Box::new(body))), p4))
}

// ------------------------------------------------------------- items --

/// An optional `: SEMANTIC` annotation.
fn parse_semantic(t: &Vec<Tok>, p: usize) -> (r: Result<(Option<String>, usize), ParseError>)
    requires
        ends_eof(toks_view(t@)),
        p < t.len(),
    ensures
        sem_res(r, p_semantic(toks_view(t@), p as int)),
        r matches Ok((_, q)) ==> p <= q < t.len(),
{
    if at(t, p, &Token::Colon) {
        match ident_of(t, p + 1) {
            Some(n) => Ok((Some(n.clone()), p + 2)),
            None => Err(unexpected_at(t, p + 1, "identifier")),
        }
    } else {
        Ok((None, p))
    }
}

/// Parameter qualifiers: `out`, `inout`, and the ignored `in`/`const`/`uniform`.
fn parse_param_quals(t: &Vec<Tok>, p: usize) -> (r: (ParamQual, usize))
    requires
        ends_eof(toks_view(t@)),
        p < t.len(),
    ensures
        (r.0, r.1 as int) == param_quals(toks_view(t@), p as int, ParamQual::In),
        p <= r.1 < t.len(),
{
    let ghost s = toks_view(t@);
    let mut q = p;
    let mut qual = ParamQual::In;
    loop
        invariant
            s == toks_view(t@),
            ends_eof(s),
            p <= q < t.len(),
            param_quals(s, p as int, ParamQual::In) == param_quals(s, q as int, qual),
        decreases t.len() - q,
    {
        match ident_of(t, q) {
            Some(n) => {
                if str_eq(n, "out") {
                    qual = ParamQual::Out;
                    q = q + 1;
                } else if str_eq(n, "inout") {
                    qual = ParamQual::InOut;
                    q = q + 1;
                } else if str_eq(n, "in") || str_eq(n, "const") || str_eq(n, "uniform") {
                    q = q + 1;
                } else {
                    return (qual, q);
                }
            },
            None => {
                return (qual, q);
            },
        }
    }
}

/// `'(' (param (',' param)*)? ')'`.
fn parse_params(t: &Vec<Tok>, p: usize) -> (r: Result<(Vec<Param>, usize), ParseError>)
    requires
        ends_eof(toks_view(t@)),
        p < t.len(),
    ensures
        params_res(r, p_params(toks_view(t@), p as int)),
        ok_after(r, p as int, t.len() as int),
{
    let ghost s = toks_view(t@);
    if !at(t, p, &Token::LParen) {
        return Err(unexpected_at(t, p, "'('"));
    }
    let mut ps: Vec<Param> = Vec::new();
    proof {
        assert(params_view(ps@) =~= Seq::<ParamV>::empty());
    }
    if at(t, p + 1, &Token::RParen) {
        return Ok((ps, p + 2));
    }
    let mut q = p + 1;
    loop
        invariant
            s == toks_view(t@),
            ends_eof(s),
            p < q < t.len(),
            p_params(s, p as int) == p_params_rest(s, q as int, params_view(ps@)),
        decreases t.len() - q,
    {
        let (qual, q1) = parse_param_quals(t, q);
        let ty = match peek_type(t, q1) {
            Some(ty) => ty,
            None => return Err(unexpected_at(t, q1, "parameter type")),
        };
        let name = match ident_of(t, q1 + 1) {
            Some(n) => n.clone(),
            None => return Err(unexpected_at(t, q1 + 1, "identifier")),
        };
        let (semantic, q2) = match parse_semantic(t, q1 + 2) {
            Ok(x) => x,
            Err(e) => return Err(e),
        };
        let prm = Param { qualifier: qual, ty, name, semantic };
        proof {
            assert(params_view(ps@.push(prm)) =~= params_view(ps@).push(prm@));
        }
        ps.push(prm);
        if at(t, q2, &Token::Comma) {
            q = q2 + 1;
        } else if at(t, q2, &Token::RParen) {
            return Ok((ps, q2 + 1));
        } else {
            return Err(unexpected_at(t, q2, "')'"));
        }
    }
}

/// Leading declaration qualifiers of an item: whether `uniform` is among them,
/// and the position after them.
fn parse_item_quals(t: &Vec<Tok>, p: usize) -> (r: (bool, usize))
    requires
        ends_eof(toks_view(t@)),
        p < t.len(),
    ensures
        (r.0, r.1 as int) == item_quals(toks_view(t@), p as int, false),
        p <= r.1 < t.len(),
{
    let ghost s = toks_view(t@);
    let mut q = p;
    let mut uniform = false;
    loop
        invariant
            s == toks_view(t@),
            ends_eof(s),
            p <= q < t.len(),
            item_quals(s, p as int, false) == item_quals(s, q as int, uniform),
        decreases t.len() - q,
    {
        match ident_of(t, q) {
            Some(n) => {
                if is_qualifier_name(n) {
                    uniform = uniform || str_eq(n, "uniform");
                    q = q + 1;
                } else {
                    return (uniform, q);
                }
            },
            None => {
                return (uniform, q);
            },
        }
    }
}

/// A top-level item: a function, a sampler declaration, or global variables
/// (one item per declarator).
#[verifier::rlimit(40)]
fn parse_item(t: &Vec<Tok>, p: usize) -> (r: Result<(Vec<Item>, usize), ParseError>)
    requires
        ends_eof(toks_view(t@)),
        p < t.len(),
    ensures
        items_res(r, p_item(toks_view(t@), p as int)),
        ok_after(r, p as int, t.len() as int),
{
    let ghost s = toks_view(t@);
    let (uniform, q) = parse_item_quals(t, p);
    let ty = match peek_type(t, q) {
        Some(ty) => ty,
        None => return Err(unexpected_at(t, q, "a type")),
    };
    let name = match ident_of(t, q + 1) {
        Some(n) => n.clone(),
        None => return Err(unexpected_at(t, q + 1, "identifier")),
    };
    if at(t, q + 2, &Token::LParen) {
        let (params, p1) = match parse_params(t, q + 2) {
            Ok(x) => x,
            Err(e) => return Err(e),
        };
        let (body, p2) = match parse_block(t, p1) {
            Ok(x) => x,
            Err(e) => return Err(e),
        };
        return Ok((one_item(Item::Function(Function { ret: ty, name, params, body })), p2));
    }
    if ty == Type::Sampler2D || ty == Type::Sampler3D {
        if at(t, q + 2, &Token::Semicolon) {
            return Ok((one_item(Item::Sampler { ty, name }), q + 3));
        } else {
            return Err(unexpected_at(t, q + 2, "';'"));
        }
    }
    let mut acc: Vec<Item> = Vec::new();
    let mut nm = name;
    let mut r = q + 2;
    proof {
        assert(items_view(acc@) =~= Seq::<ItemV>::empty());
    }
    loop
        invariant
            s == toks_view(t@),
            ends_eof(s),
            p < r < t.len(),
            p_item(s, p as int) == p_globals(s, r as int, uniform, ty, nm@, items_view(acc@)),
        decreases t.len() - r,
    {
        let (semantic, r1) = match parse_semantic(t, r) {
            Ok(x) => x,
            Err(e) => return Err(e),
        };
        let (init, r2) = if at(t, r1, &Token::Assign) {
            match parse_expr(t, r1 + 1) {
                Ok((e, r2)) => (Some(e), r2),
                Err(e) => return Err(e),
            }
        } else {
            (None, r1)
        };
        let it = Item::Global { uniform, ty, name: nm, semantic, init };
        proof {
            assert(items_view(acc@.push(it)) =~= items_view(acc@).push(it@));
        }
        acc.push(it);
        if at(t, r2, &Token::Comma) {
            match ident_of(t, r2 + 1) {
                Some(n2) => {
                    nm = n2.clone();
                    r = r2 + 2;
                },
                None => return Err(unexpected_at(t, r2 + 1, "identifier")),
            }
        } else if at(t, r2, &Token::Semicolon) {
            return Ok((acc, r2 + 1));
        } else {
            return Err(unexpected_at(t, r2, "';'"));
        }
    }
}

/// Parses a full translation unit (after preprocessing): its items in order,
/// or the first failure.
pub fn parse(src: &str) -> (r: Result<Vec<Item>, ParseError>)
    ensures
        match r {
            Ok(items) => parse_bytes(vstd::utf8::encode_utf8(src@)) == Ok::<Seq<ItemV>, ParseErrorV>(items_view(items@)),
            Err(e) => parse_bytes(vstd::utf8::encode_utf8(src@)) == Err::<Seq<ItemV>, ParseErrorV>(e@),
        },
{
    let t = match lex(src) {
        Ok(t) => t,
        Err(e) => return Err(ParseError::Lex(e)),
    };
    let ghost s = toks_view(t@);
    proof {
        lemma_lex_ends_eof(vstd::utf8::encode_utf8(src@), 0);
    }
    let mut items: Vec<Item> = Vec::new();
    let mut q: usize = 0;
    proof {
        assert(items_view(items@) =~= Seq::<ItemV>::empty());
    }
    loop
        invariant
            s == toks_view(t@),
            ends_eof(s),
            q < t.len(),
            parse_bytes(vstd::utf8::encode_utf8(src@)) == p_items(s, q as int, items_view(items@)),
        decreases t.len() - q,
    {
        if at(&t, q, &Token::Eof) {
            return Ok(items);
        }
        let (mut v, q1) = match parse_item(&t, q) {
            Ok(x) => x,
            Err(e) => return Err(e),
        };
        proof {
            assert(items_view(items@ + v@) =~= items_view(items@) + items_view(v@));
        }
        items.append(&mut v);
        q = q1;
    }
}

} // verus!
