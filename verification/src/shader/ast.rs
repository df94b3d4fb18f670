//! Syntax tree of the Milkdrop HLSL dialect, with the plain (view) form the
//! contracts speak of.

use vstd::prelude::*;

verus! {

/// HLSL types used by preset shaders.
#[derive(Clone, Copy, Debug, PartialEq, Eq, Structural)]
pub enum Type {
    Void,
    Float,
    Int,
    Bool,
    Float2,
    Float3,
    Float4,
    Int2,
    Int3,
    Int4,
    Bool2,
    Bool3,
    Bool4,
    /// `floatNxN` square matrices.
    Mat2,
    Mat3,
    Mat4,
    /// `float4x3` / `float3x4` (rows x cols, HLSL convention).
    Mat4x3,
    Mat3x4,
    Sampler2D,
    Sampler3D,
}

/// Component count of a vector type.
pub open spec fn vector_len_of(t: Type) -> Option<u8> {
    match t {
        Type::Float2 | Type::Int2 | Type::Bool2 => Some(2u8),
        Type::Float3 | Type::Int3 | Type::Bool3 => Some(3u8),
        Type::Float4 | Type::Int4 | Type::Bool4 => Some(4u8),
        _ => None,
    }
}

/// Scalar types.
pub open spec fn is_scalar_type(t: Type) -> bool {
    t == Type::Float || t == Type::Int || t == Type::Bool
}

impl Type {
    /// Component count for a vector type, else `None`.
    pub fn vector_len(self) -> (r: Option<u8>)
        ensures
            r == vector_len_of(self),
    {
        match self {
            Type::Float2 | Type::Int2 | Type::Bool2 => Some(2),
            Type::Float3 | Type::Int3 | Type::Bool3 => Some(3),
            Type::Float4 | Type::Int4 | Type::Bool4 => Some(4),
            _ => None,
        }
    }

    pub fn is_scalar(self) -> (r: bool)
        ensures
            r == is_scalar_type(self),
    {
        match self {
            Type::Float | Type::Int | Type::Bool => true,
            _ => false,
        }
    }
}

#[derive(Clone, Copy, Debug, PartialEq, Eq, Structural)]
pub enum UnOp {
    Neg,
    Not,
    BitNot,
}

#[derive(Clone, Copy, Debug, PartialEq, Eq, Structural)]
pub enum BinOp {
    Add,
    Sub,
    Mul,
    Div,
    Mod,
    Eq,
    Ne,
    Lt,
    Gt,
    Le,
    Ge,
    And,
    Or,
    BitAnd,
    BitOr,
    BitXor,
    Shl,
    Shr,
}

#[derive(Clone, Copy, Debug, PartialEq, Eq, Structural)]
pub enum AssignOp {
    Assign,
    Add,
    Sub,
    Mul,
    Div,
    Mod,
}

/// An expression. A float literal keeps the text it was written with
/// (digits, point and exponent, without a suffix).
#[derive(Debug)]
pub enum Expr {
    IntLit(i64),
    FloatLit(String),
    BoolLit(bool),
    Ident(String),
    Unary(UnOp, Box<Expr>),
    PostInc(Box<Expr>),
    PostDec(Box<Expr>),
    PreInc(Box<Expr>),
    PreDec(Box<Expr>),
    Binary(BinOp, Box<Expr>, Box<Expr>),
    Assign(AssignOp, Box<Expr>, Box<Expr>),
    Ternary(Box<Expr>, Box<Expr>, Box<Expr>),
    /// Member / swizzle access: `expr.field`.
    Member(Box<Expr>, String),
    Index(Box<Expr>, Box<Expr>),
    /// Function or intrinsic call.
    Call(String, Vec<Expr>),
    /// Type constructor, e.g. `float3(1, 2, 3)`.
    Construct(Type, Vec<Expr>),
}

/// The plain form of an expression.
pub enum ExprV {
    IntLit(i64),
    FloatLit(Seq<char>),
    BoolLit(bool),
    Ident(Seq<char>),
    Unary(UnOp, Box<ExprV>),
    PostInc(Box<ExprV>),
    PostDec(Box<ExprV>),
    PreInc(Box<ExprV>),
    PreDec(Box<ExprV>),
    Binary(BinOp, Box<ExprV>, Box<ExprV>),
    Assign(AssignOp, Box<ExprV>, Box<ExprV>),
    Ternary(Box<ExprV>, Box<ExprV>, Box<ExprV>),
    Member(Box<ExprV>, Seq<char>),
    Index(Box<ExprV>, Box<ExprV>),
    Call(Seq<char>, Seq<ExprV>),
    Construct(Type, Seq<ExprV>),
}

pub open spec fn exprs_view(s: Seq<Expr>) -> Seq<ExprV>
    decreases s,
{
    if s.len() == 0 {
        Seq::empty()
    } else {
        exprs_view(s.subrange(0, s.len() - 1)).push(expr_view(s[s.len() - 1]))
    }
}

pub open spec fn expr_view(e: Expr) -> ExprV
    decreases e,
{
    match e {
        Expr::IntLit(v) => ExprV::IntLit(v),
        Expr::FloatLit(t) => ExprV::FloatLit(t@),
        Expr::BoolLit(b) => ExprV::BoolLit(b),
        Expr::Ident(n) => ExprV::Ident(n@),
        Expr::Unary(op, x) => ExprV::Unary(op, Box::new(expr_view(*x))),
        Expr::PostInc(x) => ExprV::PostInc(Box::new(expr_view(*x))),
        Expr::PostDec(x) => ExprV::PostDec(Box::new(expr_view(*x))),
        Expr::PreInc(x) => ExprV::PreInc(Box::new(expr_view(*x))),
        Expr::PreDec(x) => ExprV::PreDec(Box::new(expr_view(*x))),
        Expr::Binary(op, a, b) => ExprV::Binary(op, Box::new(expr_view(*a)), Box::new(expr_view(*b))),
        Expr::Assign(op, a, b) => ExprV::Assign(op, Box::new(expr_view(*a)), Box::new(expr_view(*b))),
        Expr::Ternary(c, t, f) => ExprV::Ternary(
            Box::new(expr_view(*c)),
            Box::new(expr_view(*t)),
            Box::new(expr_view(*f)),
        ),
        Expr::Member(b, f) => ExprV::Member(Box::new(expr_view(*b)), f@),
        Expr::Index(b, i) => ExprV::Index(Box::new(expr_view(*b)), Box::new(expr_view(*i))),
        Expr::Call(n, args) => ExprV::Call(n@, exprs_view(args@)),
        Expr::Construct(t, args) => ExprV::Construct(t, exprs_view(args@)),
    }
}

impl View for Expr {
    type V = ExprV;

    open spec fn view(&self) -> ExprV {
        expr_view(*self)
    }
}

pub proof fn lemma_exprs_view(s: Seq<Expr>)
    ensures
        exprs_view(s).len() == s.len(),
        forall|i: int| 0 <= i < s.len() ==> #[trigger] exprs_view(s)[i] == expr_view(s[i]),
    decreases s.len(),
{
    if s.len() > 0 {
        lemma_exprs_view(s.subrange(0, s.len() - 1));
    }
}

pub proof fn lemma_exprs_view_push(s: Seq<Expr>, e: Expr)
    ensures
        exprs_view(s.push(e)) == exprs_view(s).push(expr_view(e)),
{
    assert(s.push(e).subrange(0, s.len() as int) =~= s);
}

#[derive(Debug)]
pub enum Stmt {
    /// A single declarator: `ty name (= init)?`.
    Decl { ty: Type, name: String, init: Option<Expr> },
    Expr(Expr),
    If(Expr, Box<Stmt>, Option<Box<Stmt>>),
    For(Option<Box<Stmt>>, Option<Expr>, Option<Expr>, Box<Stmt>),
    While(Expr, Box<Stmt>),
    Return(Option<Expr>),
    Block(Vec<Stmt>),
}

/// The plain form of a statement.
pub enum StmtV {
    Decl { ty: Type, name: Seq<char>, init: Option<ExprV> },
    Expr(ExprV),
    If(ExprV, Box<StmtV>, Option<Box<StmtV>>),
    For(Option<Box<StmtV>>, Option<ExprV>, Option<ExprV>, Box<StmtV>),
    While(ExprV, Box<StmtV>),
    Return(Option<ExprV>),
    Block(Seq<StmtV>),
}

pub open spec fn opt_expr_view(e: Option<Expr>) -> Option<ExprV> {
    match e {
        Some(x) => Some(expr_view(x)),
        None => None,
    }
}

pub open spec fn stmts_view(s: Seq<Stmt>) -> Seq<StmtV>
    decreases s,
{
    if s.len() == 0 {
        Seq::empty()
    } else {
        stmts_view(s.subrange(0, s.len() - 1)).push(stmt_view(s[s.len() - 1]))
    }
}

pub open spec fn stmt_view(st: Stmt) -> StmtV
    decreases st,
{
    match st {
        Stmt::Decl { ty, name, init } => StmtV::Decl { ty, name: name@, init: opt_expr_view(init) },
        Stmt::Expr(e) => StmtV::Expr(expr_view(e)),
        Stmt::If(c, t, e) => StmtV::If(
            expr_view(c),
            Box::new(stmt_view(*t)),
            match e {
                Some(x) => Some(Box::new(stmt_view(*x))),
                None => None,
            },
        ),
        Stmt::For(i, c, u, b) => StmtV::For(
            match i {
                Some(x) => Some(Box::new(stmt_view(*x))),
                None => None,
            },
            opt_expr_view(c),
            opt_expr_view(u),
            Box::new(stmt_view(*b)),
        ),
        Stmt::While(c, b) => StmtV::While(expr_view(c), Box::new(stmt_view(*b))),
        Stmt::Return(v) => StmtV::Return(opt_expr_view(v)),
        Stmt::Block(b) => StmtV::Block(stmts_view(b@)),
    }
}

impl View for Stmt {
    type V = StmtV;

    open spec fn view(&self) -> StmtV {
        stmt_view(*self)
    }
}

pub proof fn lemma_stmts_view(s: Seq<Stmt>)
    ensures
        stmts_view(s).len() == s.len(),
        forall|i: int| 0 <= i < s.len() ==> #[trigger] stmts_view(s)[i] == stmt_view(s[i]),
    decreases s.len(),
{
    if s.len() > 0 {
        lemma_stmts_view(s.subrange(0, s.len() - 1));
    }
}

pub proof fn lemma_stmts_view_push(s: Seq<Stmt>, e: Stmt)
    ensures
        stmts_view(s.push(e)) == stmts_view(s).push(stmt_view(e)),
{
    assert(s.push(e).subrange(0, s.len() as int) =~= s);
}

#[derive(Clone, Copy, Debug, PartialEq, Eq, Structural)]
pub enum ParamQual {
    In,
    Out,
    InOut,
}

#[derive(Debug)]
pub struct Param {
    pub qualifier: ParamQual,
    pub ty: Type,
    pub name: String,
    pub semantic: Option<String>,
}

/// The plain form of a parameter.
pub struct ParamV {
    pub qualifier: ParamQual,
    pub ty: Type,
    pub name: Seq<char>,
    pub semantic: Option<Seq<char>>,
}

pub open spec fn opt_string_view(s: Option<String>) -> Option<Seq<char>> {
    match s {
        Some(x) => Some(x@),
        None => None,
    }
}

impl View for Param {
    type V = ParamV;

    open spec fn view(&self) -> ParamV {
        ParamV {
            qualifier: self.qualifier,
            ty: self.ty,
            name: self.name@,
            semantic: opt_string_view(self.semantic),
        }
    }
}

#[derive(Debug)]
pub struct Function {
    pub ret: Type,
    pub name: String,
    pub params: Vec<Param>,
    pub body: Vec<Stmt>,
}

/// The plain form of a function.
pub struct FunctionV {
    pub ret: Type,
    pub name: Seq<char>,
    pub params: Seq<ParamV>,
    pub body: Seq<StmtV>,
}

impl View for Function {
    type V = FunctionV;

    open spec fn view(&self) -> FunctionV {
        FunctionV {
            ret: self.ret,
            name: self.name@,
            params: self.params@.map_values(|p: Param| p@),
            body: stmts_view(self.body@),
        }
    }
}

#[derive(Debug)]
pub enum Item {
    Function(Function),
    /// A global variable (often `uniform`).
    Global { uniform: bool, ty: Type, name: String, semantic: Option<String>, init: Option<Expr> },
    /// A combined-sampler declaration, e.g. `sampler2D sampler_main;`.
    Sampler { ty: Type, name: String },
}

/// The plain form of a top-level item.
pub enum ItemV {
    Function(FunctionV),
    Global { uniform: bool, ty: Type, name: Seq<char>, semantic: Option<Seq<char>>, init: Option<ExprV> },
    Sampler { ty: Type, name: Seq<char> },
}

impl View for Item {
    type V = ItemV;

    open spec fn view(&self) -> ItemV {
        match self {
            Item::Function(f) => ItemV::Function(f@),
            Item::Global { uniform, ty, name, semantic, init } => ItemV::Global {
                uniform: *uniform,
                ty: *ty,
                name: name@,
                semantic: opt_string_view(*semantic),
                init: opt_expr_view(*init),
            },
            Item::Sampler { ty, name } => ItemV::Sampler { ty: *ty, name: name@ },
        }
    }
}

} // verus!
