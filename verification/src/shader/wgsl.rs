//! What the WGSL code generator emits, stated over the plain syntax tree.
//!
//! WGSL is much stricter than HLSL, so generation is more than a syntactic
//! rewrite: scalars are promoted to vectors, vector/scalar operands are
//! broadcast explicitly, `c ? a : b` becomes `select(b, a, c)`, multi-component
//! swizzle assignments are expanded component-wise, `out` parameters are lifted
//! into a returned struct and intrinsics are renamed. The functions here give
//! the text for every construct; `codegen` is proved to produce exactly it.

use vstd::prelude::*;
use crate::text::{nat_text, int_text, lower_ascii};
use crate::shader::ast::{AssignOp, BinOp, ExprV, FunctionV, ItemV, ParamQual, ParamV, StmtV, Type, UnOp, vector_len_of, is_scalar_type};

verus! {

/// Names in scope with their types; a later entry shadows an earlier one.
pub type ScopeV = Seq<(Seq<char>, Type)>;

/// A function's signature: its name, return type, parameter types and
/// whether it has `out` parameters.
pub type FnSigV = (Seq<char>, Type, Seq<Type>, bool);

/// What the whole module declares: its global variables and its functions.
pub struct GlobalsV {
    pub vars: ScopeV,
    pub fns: Seq<FnSigV>,
}

/// The signature recorded last for the function `n`.
pub open spec fn find_fn(fs: Seq<FnSigV>, n: Seq<char>) -> Option<FnSigV>
    decreases fs.len(),
{
    if fs.len() == 0 {
        None
    } else if fs[fs.len() - 1].0 == n {
        Some(fs[fs.len() - 1])
    } else {
        find_fn(fs.subrange(0, fs.len() - 1), n)
    }
}

/// The generator state the statement rules thread: the text so far, the
/// local scope and the temporary counter.
pub type GenV = (Seq<char>, ScopeV, nat);

pub open spec fn lookup(m: ScopeV, k: Seq<char>) -> Option<Type>
    decreases m.len(),
{
    if m.len() == 0 {
        None
    } else if m[m.len() - 1].0 == k {
        Some(m[m.len() - 1].1)
    } else {
        lookup(m.subrange(0, m.len() - 1), k)
    }
}

pub open spec fn reserved_a(n: Seq<char>) -> bool {
    n == "alias"@ || n == "const_assert"@ || n == "continuing"@ || n == "diagnostic"@ || n == "enable"@ || n == "fn"@ || n == "let"@ || n == "loop"@ || n == "override"@ || n == "requires"@ || n == "var"@ || n == "NULL"@ || n == "Self"@ || n == "abstract"@ || n == "active"@ || n == "alignas"@ || n == "alignof"@ || n == "as"@ || n == "asm"@ || n == "asm_fragment"@ || n == "async"@ || n == "attribute"@ || n == "auto"@ || n == "await"@ || n == "become"@ || n == "cast"@ || n == "catch"@ || n == "class"@ || n == "co_await"@ || n == "co_return"@ || n == "co_yield"@ || n == "coherent"@ || n == "column_major"@ || n == "common"@ || n == "compile"@ || n == "compile_fragment"@ || n == "concept"@ || n == "const_cast"@ || n == "consteval"@ || n == "constexpr"@
}

pub open spec fn reserved_b(n: Seq<char>) -> bool {
    n == "constinit"@ || n == "crate"@ || n == "debugger"@ || n == "decltype"@ || n == "delete"@ || n == "demote"@ || n == "demote_to_helper"@ || n == "do"@ || n == "dynamic_cast"@ || n == "enum"@ || n == "explicit"@ || n == "export"@ || n == "extends"@ || n == "extern"@ || n == "external"@ || n == "fallthrough"@ || n == "filter"@ || n == "final"@ || n == "finally"@ || n == "friend"@ || n == "from"@ || n == "fxgroup"@ || n == "get"@ || n == "goto"@ || n == "groupshared"@ || n == "highp"@ || n == "impl"@ || n == "implements"@ || n == "import"@ || n == "inline"@ || n == "instanceof"@ || n == "interface"@ || n == "layout"@ || n == "lowp"@ || n == "macro"@ || n == "macro_rules"@ || n == "match"@ || n == "mediump"@ || n == "meta"@ || n == "mod"@
}

pub open spec fn reserved_c(n: Seq<char>) -> bool {
    n == "module"@ || n == "move"@ || n == "mut"@ || n == "mutable"@ || n == "namespace"@ || n == "new"@ || n == "nil"@ || n == "noexcept"@ || n == "noinline"@ || n == "nointerpolation"@ || n == "non_coherent"@ || n == "noncoherent"@ || n == "noperspective"@ || n == "null"@ || n == "nullptr"@ || n == "of"@ || n == "operator"@ || n == "package"@ || n == "packoffset"@ || n == "partition"@ || n == "pass"@ || n == "patch"@ || n == "pixelfragment"@ || n == "precise"@ || n == "precision"@ || n == "premerge"@ || n == "priv"@ || n == "protected"@ || n == "pub"@ || n == "public"@ || n == "readonly"@ || n == "ref"@ || n == "regardless"@ || n == "register"@ || n == "reinterpret_cast"@ || n == "require"@ || n == "resource"@ || n == "restrict"@ || n == "self"@ || n == "set"@
}

pub open spec fn reserved_d(n: Seq<char>) -> bool {
    n == "shared"@ || n == "sizeof"@ || n == "smooth"@ || n == "snorm"@ || n == "static"@ || n == "static_assert"@ || n == "static_cast"@ || n == "std"@ || n == "subroutine"@ || n == "super"@ || n == "target"@ || n == "template"@ || n == "this"@ || n == "thread_local"@ || n == "throw"@ || n == "trait"@ || n == "try"@ || n == "type"@ || n == "typedef"@ || n == "typeid"@ || n == "typename"@ || n == "typeof"@ || n == "union"@ || n == "unless"@ || n == "unorm"@ || n == "unsafe"@ || n == "unsized"@ || n == "use"@ || n == "using"@ || n == "varying"@ || n == "virtual"@ || n == "volatile"@ || n == "wgsl"@ || n == "where"@ || n == "with"@ || n == "writeonly"@ || n == "yield"@
}

/// The WGSL keywords and reserved words an HLSL variable might be named.
pub open spec fn is_reserved_word(n: Seq<char>) -> bool {
    reserved_a(n) || reserved_b(n) || reserved_c(n) || reserved_d(n)
}

/// The WGSL name of an HLSL variable: a WGSL keyword or reserved word gets
/// the suffix `_pm`; other names are kept.
pub open spec fn ident_text(n: Seq<char>) -> Seq<char> {
    if is_reserved_word(n) {
        n + "_pm"@
    } else {
        n
    }
}

/// The type of a name: a local, else a global, else `float`.
pub open spec fn name_type(g: GlobalsV, l: ScopeV, n: Seq<char>) -> Type {
    match lookup(l, n) {
        Some(t) => t,
        None => match lookup(g.vars, n) {
            Some(t) => t,
            None => Type::Float,
        },
    }
}

// ------------------------------------------------------------ types --

pub open spec fn wgsl_name(ty: Type) -> Seq<char> {
    match ty {
        Type::Void => "()"@,
        Type::Float => "f32"@,
        Type::Int => "i32"@,
        Type::Bool => "bool"@,
        Type::Float2 => "vec2<f32>"@,
        Type::Float3 => "vec3<f32>"@,
        Type::Float4 => "vec4<f32>"@,
        Type::Int2 => "vec2<i32>"@,
        Type::Int3 => "vec3<i32>"@,
        Type::Int4 => "vec4<i32>"@,
        Type::Bool2 => "vec2<bool>"@,
        Type::Bool3 => "vec3<bool>"@,
        Type::Bool4 => "vec4<bool>"@,
        Type::Mat2 => "mat2x2<f32>"@,
        Type::Mat3 => "mat3x3<f32>"@,
        Type::Mat4 => "mat4x4<f32>"@,
        Type::Mat4x3 => "mat3x4<f32>"@,
        Type::Mat3x4 => "mat4x3<f32>"@,
        Type::Sampler2D => "texture_2d<f32>"@,
        Type::Sampler3D => "texture_2d<f32>"@,
    }
}

pub open spec fn zero_text(ty: Type) -> Seq<char> {
    match ty {
        Type::Float => "0.0"@,
        Type::Int => "0"@,
        Type::Bool => "false"@,
        _ => wgsl_name(ty) + "()"@,
    }
}

/// The scalar component type (vectors and matrices to their base scalar).
pub open spec fn scalar_type(ty: Type) -> Type {
    match ty {
        Type::Float2 | Type::Float3 | Type::Float4 | Type::Mat2 | Type::Mat3 | Type::Mat4 | Type::Mat4x3
        | Type::Mat3x4 => Type::Float,
        Type::Int2 | Type::Int3 | Type::Int4 => Type::Int,
        Type::Bool2 | Type::Bool3 | Type::Bool4 => Type::Bool,
        _ => ty,
    }
}

/// The `n`-component vector of a scalar type (other inputs unchanged).
pub open spec fn vec_type(scalar: Type, n: u8) -> Type {
    if scalar == Type::Float && n == 2 {
        Type::Float2
    } else if scalar == Type::Float && n == 3 {
        Type::Float3
    } else if scalar == Type::Float && n == 4 {
        Type::Float4
    } else if scalar == Type::Int && n == 2 {
        Type::Int2
    } else if scalar == Type::Int && n == 3 {
        Type::Int3
    } else if scalar == Type::Int && n == 4 {
        Type::Int4
    } else if scalar == Type::Bool && n == 2 {
        Type::Bool2
    } else if scalar == Type::Bool && n == 3 {
        Type::Bool3
    } else if scalar == Type::Bool && n == 4 {
        Type::Bool4
    } else {
        scalar
    }
}

/// Common arithmetic type of two operands: float wins over int over bool, and
/// a vector width wins, the narrower of two (the wider operand is truncated).
pub open spec fn common_type(a: Type, b: Type) -> Type {
    let scalar = if scalar_type(a) == Type::Float || scalar_type(b) == Type::Float {
        Type::Float
    } else if scalar_type(a) == Type::Int || scalar_type(b) == Type::Int {
        Type::Int
    } else {
        Type::Bool
    };
    match vector_len_of(a) {
        Some(n) => match vector_len_of(b) {
            Some(m) => vec_type(scalar, if m < n { m } else { n }),
            None => vec_type(scalar, n),
        },
        None => match vector_len_of(b) {
            Some(n) => vec_type(scalar, n),
            None => scalar,
        },
    }
}

pub open spec fn is_swizzle_char(c: char) -> bool {
    c == 'x' || c == 'y' || c == 'z' || c == 'w' || c == 'r' || c == 'g' || c == 'b' || c == 'a'
}

/// One to four of `xyzwrgba`.
pub open spec fn is_swizzle_name(f: Seq<char>) -> bool {
    1 <= f.len() <= 4 && forall|i: int| 0 <= i < f.len() ==> is_swizzle_char(#[trigger] f[i])
}

pub open spec fn member_ty(base: Type, field: Seq<char>) -> Type {
    if (vector_len_of(base) is Some || is_scalar_type(base)) && is_swizzle_name(field) {
        if field.len() == 1 {
            scalar_type(base)
        } else {
            vec_type(scalar_type(base), field.len() as u8)
        }
    } else {
        scalar_type(base)
    }
}

pub open spec fn index_ty(base: Type) -> Type {
    match base {
        Type::Mat2 => Type::Float2,
        Type::Mat3 => Type::Float3,
        Type::Mat4 => Type::Float4,
        _ => scalar_type(base),
    }
}

pub open spec fn op_text(op: BinOp) -> Seq<char> {
    match op {
        BinOp::Add => "+"@,
        BinOp::Sub => "-"@,
        BinOp::Mul => "*"@,
        BinOp::Div => "/"@,
        BinOp::Mod => "%"@,
        BinOp::Eq => "=="@,
        BinOp::Ne => "!="@,
        BinOp::Lt => "<"@,
        BinOp::Gt => ">"@,
        BinOp::Le => "<="@,
        BinOp::Ge => ">="@,
        BinOp::BitAnd => "&"@,
        BinOp::BitOr => "|"@,
        BinOp::BitXor => "^"@,
        BinOp::Shl => "<<"@,
        BinOp::Shr => ">>"@,
        BinOp::And => "&&"@,
        BinOp::Or => "||"@,
    }
}

pub open spec fn assign_text(op: AssignOp) -> Seq<char> {
    match op {
        AssignOp::Assign => "="@,
        AssignOp::Add => "+="@,
        AssignOp::Sub => "-="@,
        AssignOp::Mul => "*="@,
        AssignOp::Div => "/="@,
        AssignOp::Mod => "%="@,
    }
}

pub open spec fn unop_text(op: UnOp) -> Seq<char> {
    match op {
        UnOp::Neg => "-"@,
        UnOp::Not => "!"@,
        UnOp::BitNot => "~"@,
    }
}

/// Comparisons and logical operators, whose result is `bool`.
pub open spec fn is_bool_op(op: BinOp) -> bool {
    op == BinOp::Eq || op == BinOp::Ne || op == BinOp::Lt || op == BinOp::Gt || op == BinOp::Le || op == BinOp::Ge
        || op == BinOp::And || op == BinOp::Or
}

/// An arithmetic operator (`+ - * / %`).
pub open spec fn is_arith_op(op: BinOp) -> bool {
    op == BinOp::Add || op == BinOp::Sub || op == BinOp::Mul || op == BinOp::Div || op == BinOp::Mod
}

/// The float type of the same width as `t`.
pub open spec fn float_of(t: Type) -> Type {
    match vector_len_of(t) {
        Some(n) => vec_type(Type::Float, n),
        None => Type::Float,
    }
}

/// `t` holds bools or integers.
pub open spec fn is_bool_or_int(t: Type) -> bool {
    scalar_type(t) == Type::Bool || scalar_type(t) == Type::Int
}

/// The type of an arithmetic operation: the common type, bools counting as
/// floats (HLSL computes with them as 0 and 1).
pub open spec fn arith_type(a: Type, b: Type) -> Type {
    if scalar_type(common_type(a, b)) == Type::Bool {
        float_of(common_type(a, b))
    } else {
        common_type(a, b)
    }
}

/// The text `s` of an expression `e` of type `et`, made a float value: a
/// bool or integer value is converted (an integer literal is already written
/// as a float where one is wanted).
pub open spec fn float_text(et: Type, e: ExprV, s: Seq<char>) -> Seq<char> {
    if is_bool_or_int(et) && !(e is IntLit) {
        wgsl_name(float_of(et)) + "("@ + s + ")"@
    } else {
        s
    }
}

/// A scalar literal, wrapped in a vector constructor for vector types.
pub open spec fn lit_broadcast(ty: Type, lit: Seq<char>) -> Seq<char> {
    if vector_len_of(ty) is Some {
        wgsl_name(ty) + "("@ + lit + ")"@
    } else {
        lit
    }
}

/// Component count used for broadcasting and truncation (0 for non-numeric).
pub open spec fn width(t: Type) -> nat {
    match vector_len_of(t) {
        Some(n) => n as nat,
        None => if is_scalar_type(t) { 1 } else { 0 },
    }
}

pub open spec fn swizzle_prefix(n: nat) -> Seq<char> {
    if n == 1 {
        "x"@
    } else if n == 2 {
        "xy"@
    } else if n == 3 {
        "xyz"@
    } else {
        "xyzw"@
    }
}

pub open spec fn is_matrix(t: Type) -> bool {
    t == Type::Mat2 || t == Type::Mat3 || t == Type::Mat4 || t == Type::Mat4x3 || t == Type::Mat3x4
}

/// The components `t.x`, `t.y`, ... of the first `n` lanes of `t`.
pub open spec fn component_list(t: Seq<char>, n: nat) -> Seq<char>
    decreases n,
{
    if n == 0 {
        Seq::empty()
    } else if n == 1 {
        t + ".x"@
    } else {
        component_list(t, (n - 1) as nat) + ", "@ + t + "."@ + seq![swizzle_prefix(4)[n - 1]]
    }
}

pub open spec fn is_texture_call(lower: Seq<char>) -> bool {
    lower == "tex2d"@ || lower == "tex3d"@ || lower == "tex2dlod"@ || lower == "tex2dbias"@
}

pub open spec fn is_common_type_call(lower: Seq<char>) -> bool {
    lower == "pow"@ || lower == "min"@ || lower == "max"@ || lower == "step"@ || lower == "clamp"@ || lower == "atan"@
        || lower == "smoothstep"@ || lower == "dot"@ || lower == "distance"@ || lower == "reflect"@
}

// --------------------------------------------------- float literals --

pub open spec fn is_digit_char(c: char) -> bool {
    '0' <= c && c <= '9'
}

pub open spec fn digit_val(c: char) -> int {
    (c as int) - 48
}

/// The length of the run of decimal digits starting at `i`.
pub open spec fn digit_run(t: Seq<char>, i: int) -> nat
    decreases t.len() - i,
{
    if 0 <= i < t.len() && is_digit_char(t[i]) {
        1 + digit_run(t, i + 1)
    } else {
        0
    }
}

pub open spec fn digits_value(d: Seq<char>) -> nat
    decreases d.len(),
{
    if d.len() == 0 {
        0
    } else {
        digits_value(d.subrange(0, d.len() - 1)) * 10 + (digit_val(d[d.len() - 1]) as nat)
    }
}

/// `s` without its leading `'0'`s.
pub open spec fn strip_leading_zeros(s: Seq<char>) -> Seq<char>
    decreases s.len(),
{
    if s.len() > 0 && s[0] == '0' {
        strip_leading_zeros(s.subrange(1, s.len() as int))
    } else {
        s
    }
}

/// How many `'0'`s end `s`.
pub open spec fn trailing_zeros(s: Seq<char>) -> nat
    decreases s.len(),
{
    if s.len() > 0 && s[s.len() - 1] == '0' {
        1 + trailing_zeros(s.subrange(0, s.len() - 1))
    } else {
        0
    }
}

pub open spec fn zeros(n: nat) -> Seq<char> {
    Seq::new(n, |i: int| '0')
}

/// The decimal text of the value `0.m * 10^point` (`m` digits with no
/// leading or trailing zero), always holding a `.`.
pub open spec fn decimal_text(m: Seq<char>, point: int) -> Seq<char> {
    if point <= 0 {
        "0."@ + zeros((-point) as nat) + m
    } else if point >= m.len() {
        m + zeros((point - m.len()) as nat) + ".0"@
    } else {
        m.subrange(0, point) + "."@ + m.subrange(point, m.len() as int)
    }
}

/// The length of the integer part of a float literal's text.
pub open spec fn int_digits(t: Seq<char>) -> int {
    digit_run(t, 0) as int
}

pub open spec fn has_point(t: Seq<char>) -> bool {
    int_digits(t) < t.len() && t[int_digits(t)] == '.'
}

/// The number of digits after the point.
pub open spec fn frac_digits(t: Seq<char>) -> int {
    if has_point(t) { digit_run(t, int_digits(t) + 1) as int } else { 0 }
}

/// Where the mantissa (digits, point, digits) ends.
pub open spec fn mant_end(t: Seq<char>) -> int {
    if has_point(t) { int_digits(t) + 1 + frac_digits(t) } else { int_digits(t) }
}

/// The mantissa's digits without the point.
pub open spec fn mantissa(t: Seq<char>) -> Seq<char> {
    t.subrange(0, int_digits(t)) + (if has_point(t) { t.subrange(int_digits(t) + 1, mant_end(t)) } else { Seq::empty() })
}

/// The value of the exponent part (`e`, an optional sign, digits), else 0.
pub open spec fn exponent(t: Seq<char>) -> int {
    let e = mant_end(t);
    let has_exp = e < t.len() && (t[e] == 'e' || t[e] == 'E');
    let neg = has_exp && e + 1 < t.len() && t[e + 1] == '-';
    let signed = has_exp && e + 1 < t.len() && (t[e + 1] == '-' || t[e + 1] == '+');
    let es: int = if signed { e + 2 } else { e + 1 };
    let ev: int = if has_exp { digits_value(t.subrange(es, es + digit_run(t, es))) as int } else { 0 };
    if neg { -ev } else { ev }
}

/// The WGSL text of a float literal as the lexer reads it (`digits`, an
/// optional `.digits` and an optional exponent): its exact decimal value
/// written out in full, without an exponent and with a `.`. Values above the
/// `f64` range become `3.4e38`; values below it become `0.0`.
pub open spec fn float_literal_text(t: Seq<char>) -> Seq<char> {
    let m0 = strip_leading_zeros(mantissa(t));
    let m = m0.subrange(0, m0.len() - trailing_zeros(m0));
    let point: int = m0.len() + exponent(t) - frac_digits(t);
    if m.len() == 0 {
        "0.0"@
    } else if point > 309 {
        "3.4e38"@
    } else if point < -323 {
        "0.0"@
    } else {
        decimal_text(m, point)
    }
}

/// A float literal is always written so that WGSL reads it as a float: its
/// text holds a decimal point.
pub proof fn law_float_text_has_point(t: Seq<char>)
    ensures
        float_literal_text(t).contains('.'),
{
    reveal_strlit("0.0");
    reveal_strlit("3.4e38");
    reveal_strlit("0.");
    reveal_strlit(".0");
    reveal_strlit(".");
    let m0 = strip_leading_zeros(mantissa(t));
    let m = m0.subrange(0, m0.len() - trailing_zeros(m0));
    let point: int = m0.len() + exponent(t) - frac_digits(t);
    let r = float_literal_text(t);
    if m.len() == 0 || point < -323 {
        assert(r[1] == '.');
    } else if point > 309 {
        assert(r[1] == '.');
    } else if point <= 0 {
        assert(r[1] == '.');
    } else if point >= m.len() {
        let k = m.len() + (point - m.len());
        assert(r[k] == '.');
    } else {
        assert(r[point] == '.');
    }
}

// -------------------------------------------------- type inference --

/// The type the generator assumes for an expression.
pub open spec fn infer(g: GlobalsV, l: ScopeV, e: ExprV) -> Type
    decreases e, 2int,
{
    match e {
        ExprV::IntLit(_) => Type::Int,
        ExprV::FloatLit(_) => Type::Float,
        ExprV::BoolLit(_) => Type::Bool,
        ExprV::Ident(n) => name_type(g, l, n),
        ExprV::Unary(op, x) => if op == UnOp::Not {
            Type::Bool
        } else if op == UnOp::Neg && scalar_type(infer(g, l, *x)) == Type::Bool {
            float_of(infer(g, l, *x))
        } else {
            infer(g, l, *x)
        },
        ExprV::PostInc(x) => infer(g, l, *x),
        ExprV::PostDec(x) => infer(g, l, *x),
        ExprV::PreInc(x) => infer(g, l, *x),
        ExprV::PreDec(x) => infer(g, l, *x),
        ExprV::Binary(op, a, b) => if is_bool_op(op) {
            Type::Bool
        } else if is_arith_op(op) {
            arith_type(infer(g, l, *a), infer(g, l, *b))
        } else {
            common_type(infer(g, l, *a), infer(g, l, *b))
        },
        ExprV::Assign(_, lhs, _) => infer(g, l, *lhs),
        ExprV::Ternary(_, t, _) => infer(g, l, *t),
        ExprV::Member(b, f) => member_ty(infer(g, l, *b), f),
        ExprV::Index(b, _) => index_ty(infer(g, l, *b)),
        ExprV::Construct(ty, _) => ty,
        ExprV::Call(n, args) => call_type(g, l, n, args),
    }
}

/// The result type of a call.
pub open spec fn call_type(g: GlobalsV, l: ScopeV, n: Seq<char>, args: Seq<ExprV>) -> Type
    decreases args, 1int,
{
    let lower = lower_ascii(n);
    if lower == "dot"@ || lower == "length"@ || lower == "distance"@ || lower == "determinant"@ {
        Type::Float
    } else if is_texture_call(lower) {
        Type::Float4
    } else if lower == "cross"@ {
        Type::Float3
    } else if lower == "any"@ || lower == "all"@ {
        Type::Bool
    } else if lower == "mul"@ {
        match first_vector_type(g, l, args) {
            Some(t) => t,
            None => Type::Float4,
        }
    } else if find_fn(g.fns, n) is Some {
        user_ret(g, n)
    } else if args.len() > 0 {
        infer(g, l, args[0])
    } else {
        Type::Float
    }
}

/// The return type of the module's function `n`.
pub open spec fn user_ret(g: GlobalsV, n: Seq<char>) -> Type {
    match find_fn(g.fns, n) {
        Some(sig) => sig.1,
        None => Type::Float,
    }
}

/// The parameter types of the module's function `n`.
pub open spec fn user_params(g: GlobalsV, n: Seq<char>) -> Seq<Type> {
    match find_fn(g.fns, n) {
        Some(sig) => sig.2,
        None => Seq::empty(),
    }
}

/// A call of a function of the module whose parameters the arguments can be
/// matched to (one argument per parameter, no `out` parameter).
pub open spec fn is_user_call(g: GlobalsV, n: Seq<char>, args: Seq<ExprV>) -> bool {
    match find_fn(g.fns, n) {
        Some(sig) => !sig.3 && sig.2.len() == args.len(),
        None => false,
    }
}

/// The first vector type among the arguments' types.
pub open spec fn first_vector_type(g: GlobalsV, l: ScopeV, args: Seq<ExprV>) -> Option<Type>
    decreases args, 0int,
{
    if args.len() == 0 {
        None
    } else if vector_len_of(infer(g, l, args[0])) is Some {
        Some(infer(g, l, args[0]))
    } else {
        first_vector_type(g, l, args.subrange(1, args.len() as int))
    }
}

/// `common_type` folded over the argument types, from `float`.
pub open spec fn fold_common(g: GlobalsV, l: ScopeV, args: Seq<ExprV>) -> Type
    decreases args.len(),
{
    if args.len() == 0 {
        Type::Float
    } else {
        common_type(fold_common(g, l, args.subrange(0, args.len() - 1)), infer(g, l, args[args.len() - 1]))
    }
}

// ------------------------------------------------------ expressions --

/// The WGSL text of an expression; `want` is the scalar type preferred for
/// integer literals.
pub open spec fn gen_expr(g: GlobalsV, l: ScopeV, e: ExprV, want: Type) -> Seq<char>
    decreases e, 1int,
{
    match e {
        ExprV::IntLit(v) => if want == Type::Int {
            int_text(v as int)
        } else {
            int_text(v as int) + ".0"@
        },
        ExprV::FloatLit(t) => float_literal_text(t),
        ExprV::BoolLit(b) => if b {
            "true"@
        } else {
            "false"@
        },
        ExprV::Ident(n) => ident_text(n),
        ExprV::Unary(op, x) => {
            let s = gen_expr(g, l, *x, if op == UnOp::Not { Type::Bool } else { want });
            let ix = infer(g, l, *x);
            unop_text(op) + "("@ + (if op == UnOp::Neg && scalar_type(ix) == Type::Bool {
                wgsl_name(float_of(ix)) + "("@ + s + ")"@
            } else {
                s
            }) + ")"@
        },
        ExprV::PostInc(x) => gen_expr(g, l, *x, want),
        ExprV::PostDec(x) => gen_expr(g, l, *x, want),
        ExprV::PreInc(x) => gen_expr(g, l, *x, want),
        ExprV::PreDec(x) => gen_expr(g, l, *x, want),
        ExprV::Binary(op, a, b) => if op == BinOp::And || op == BinOp::Or {
            "("@ + gen_expr(g, l, *a, Type::Bool) + " "@ + op_text(op) + " "@ + gen_expr(g, l, *b, Type::Bool) + ")"@
        } else {
            let common = if is_arith_op(op) {
                arith_type(infer(g, l, *a), infer(g, l, *b))
            } else {
                common_type(infer(g, l, *a), infer(g, l, *b))
            };
            "("@ + gen_bcast(g, l, *a, common) + " "@ + op_text(op) + " "@ + gen_bcast(g, l, *b, common) + ")"@
        },
        ExprV::Assign(_, lhs, _) => gen_expr(g, l, *lhs, want),
        ExprV::Ternary(c, t, f) => {
            let ty = infer(g, l, *t);
            "select("@ + gen_bcast(g, l, *f, ty) + ", "@ + gen_expr(g, l, *t, scalar_type(ty)) + ", "@ + gen_expr(
                g,
                l,
                *c,
                Type::Bool,
            ) + ")"@
        },
        ExprV::Member(b, f) => if is_scalar_type(infer(g, l, *b)) && is_swizzle_name(f) {
            if f.len() == 1 {
                gen_expr(g, l, *b, Type::Float)
            } else {
                wgsl_name(member_ty(infer(g, l, *b), f)) + "("@ + gen_expr(g, l, *b, Type::Float) + ")"@
            }
        } else {
            gen_expr(g, l, *b, Type::Float) + "."@ + f
        },
        ExprV::Index(b, i) => gen_expr(g, l, *b, Type::Float) + "["@ + gen_expr(g, l, *i, Type::Int) + "]"@,
        ExprV::Construct(ty, args) => if is_matrix(ty) && args.len() == 1 && vector_len_of(infer(g, l, args[0])) is Some {
            wgsl_name(ty) + "("@ + matrix_parts(g, l, args[0]) + ")"@
        } else if scalar_type(ty) == Type::Float {
            wgsl_name(ty) + "("@ + gen_float_list(g, l, args) + ")"@
        } else {
            wgsl_name(ty) + "("@ + gen_list(g, l, args, scalar_type(ty)) + ")"@
        },
        ExprV::Call(n, args) => gen_call(g, l, n, args),
    }
}

/// `e` coerced to `target`: a bool or integer value made float for a float
/// target, then a scalar broadcast to a vector target, a wider vector
/// truncated to the target width, otherwise unchanged.
pub open spec fn gen_bcast(g: GlobalsV, l: ScopeV, e: ExprV, target: Type) -> Seq<char>
    decreases e, 2int,
{
    let et = infer(g, l, e);
    let s0 = gen_expr(g, l, e, scalar_type(target));
    let s = if scalar_type(target) == Type::Float { float_text(et, e, s0) } else { s0 };
    if vector_len_of(target) is Some && is_scalar_type(et) {
        wgsl_name(target) + "("@ + s + ")"@
    } else if width(target) >= 1 && width(et) > width(target) {
        "("@ + s + ")."@ + swizzle_prefix(width(target))
    } else {
        s
    }
}

/// The arguments' texts, separated by `", "`.
pub open spec fn gen_list(g: GlobalsV, l: ScopeV, args: Seq<ExprV>, want: Type) -> Seq<char>
    decreases args, 0int,
{
    if args.len() == 0 {
        Seq::empty()
    } else if args.len() == 1 {
        gen_expr(g, l, args[0], want)
    } else {
        gen_list(g, l, args.subrange(0, args.len() - 1), want) + ", "@ + gen_expr(g, l, args[args.len() - 1], want)
    }
}

/// The scalars a matrix is built from when it is given one vector: the
/// vector constructor's own arguments, or the vector's lanes.
pub open spec fn matrix_parts(g: GlobalsV, l: ScopeV, a: ExprV) -> Seq<char>
    decreases a, 2int,
{
    match a {
        ExprV::Construct(vt, inner) => if vector_len_of(vt) is Some {
            gen_float_list(g, l, inner)
        } else {
            component_list(gen_expr(g, l, a, Type::Float), width(infer(g, l, a)))
        },
        _ => component_list(gen_expr(g, l, a, Type::Float), width(infer(g, l, a))),
    }
}

/// The arguments as float values, separated by `", "`.
pub open spec fn gen_float_list(g: GlobalsV, l: ScopeV, args: Seq<ExprV>) -> Seq<char>
    decreases args, 0int,
{
    if args.len() == 0 {
        Seq::empty()
    } else {
        let i = args.len() - 1;
        let t = float_text(infer(g, l, args[i]), args[i], gen_expr(g, l, args[i], Type::Float));
        if args.len() == 1 {
            t
        } else {
            gen_float_list(g, l, args.subrange(0, i)) + ", "@ + t
        }
    }
}

/// The arguments coerced to `target`, separated by `", "`.
pub open spec fn gen_bcast_list(g: GlobalsV, l: ScopeV, args: Seq<ExprV>, target: Type) -> Seq<char>
    decreases args, 0int,
{
    if args.len() == 0 {
        Seq::empty()
    } else if args.len() == 1 {
        gen_bcast(g, l, args[0], target)
    } else {
        gen_bcast_list(g, l, args.subrange(0, args.len() - 1), target) + ", "@ + gen_bcast(
            g,
            l,
            args[args.len() - 1],
            target,
        )
    }
}

/// The arguments, each coerced to its parameter's type, separated by `", "`.
pub open spec fn gen_coerced_list(g: GlobalsV, l: ScopeV, args: Seq<ExprV>, tys: Seq<Type>) -> Seq<char>
    decreases args, 0int,
{
    if args.len() == 0 {
        Seq::empty()
    } else if args.len() == 1 {
        gen_bcast(g, l, args[0], tys[0])
    } else {
        gen_coerced_list(g, l, args.subrange(0, args.len() - 1), tys) + ", "@ + gen_bcast(
            g,
            l,
            args[args.len() - 1],
            tys[args.len() - 1],
        )
    }
}

/// The texture coordinate of a `tex2D` call keeps its first two components.
pub open spec fn tex_coord(g: GlobalsV, l: ScopeV, lower: Seq<char>, a: ExprV) -> Seq<char>
    decreases a, 2int,
{
    let uv = gen_expr(g, l, a, Type::Float);
    if lower == "tex2d"@ && (match vector_len_of(infer(g, l, a)) {
        Some(n) => n > 2,
        None => false,
    }) {
        "("@ + uv + ").xy"@
    } else {
        uv
    }
}

/// A call: texture sampling with the `<s>` / `<s>_sampler` binding
/// convention, remapped intrinsics, and plain calls under the lower-cased name.
pub open spec fn gen_call(g: GlobalsV, l: ScopeV, n: Seq<char>, args: Seq<ExprV>) -> Seq<char>
    decreases args, 1int,
{
    let lower = lower_ascii(n);
    if is_texture_call(lower) && args.len() >= 2 {
        let s = gen_expr(g, l, args[0], Type::Float);
        "textureSample("@ + s + ", "@ + s + "_sampler, "@ + tex_coord(g, l, lower, args[1]) + ")"@
    } else if lower == "lerp"@ && args.len() == 3 {
        let ty = fold_common(g, l, args);
        "mix("@ + gen_bcast(g, l, args[0], ty) + ", "@ + gen_bcast(g, l, args[1], ty) + ", "@ + gen_expr(
            g,
            l,
            args[2],
            Type::Float,
        ) + ")"@
    } else if lower == "saturate"@ && args.len() == 1 {
        let ty = infer(g, l, args[0]);
        "clamp("@ + gen_expr(g, l, args[0], scalar_type(ty)) + ", "@ + lit_broadcast(ty, "0.0"@) + ", "@ + lit_broadcast(
            ty,
            "1.0"@,
        ) + ")"@
    } else if lower == "frac"@ {
        "fract"@ + "("@ + gen_list(g, l, args, Type::Float) + ")"@
    } else if lower == "rsqrt"@ {
        "inverseSqrt"@ + "("@ + gen_list(g, l, args, Type::Float) + ")"@
    } else if lower == "ddx"@ {
        "dpdx"@ + "("@ + gen_list(g, l, args, Type::Float) + ")"@
    } else if lower == "ddy"@ {
        "dpdy"@ + "("@ + gen_list(g, l, args, Type::Float) + ")"@
    } else if lower == "fmod"@ && args.len() == 2 {
        let common = common_type(infer(g, l, args[0]), infer(g, l, args[1]));
        "("@ + gen_bcast(g, l, args[0], common) + " % "@ + gen_bcast(g, l, args[1], common) + ")"@
    } else if lower == "mul"@ && args.len() == 2 {
        if is_matrix(infer(g, l, args[0])) || is_matrix(infer(g, l, args[1])) {
            "("@ + gen_expr(g, l, args[1], Type::Float) + " * "@ + gen_expr(g, l, args[0], Type::Float) + ")"@
        } else {
            "("@ + gen_expr(g, l, args[0], Type::Float) + " * "@ + gen_expr(g, l, args[1], Type::Float) + ")"@
        }
    } else if is_common_type_call(lower) && vector_len_of(fold_common(g, l, args)) is Some {
        lower + "("@ + gen_bcast_list(g, l, args, fold_common(g, l, args)) + ")"@
    } else if is_user_call(g, n, args) {
        n + "("@ + gen_coerced_list(g, l, args, user_params(g, n)) + ")"@
    } else {
        lower + "("@ + gen_list(g, l, args, Type::Float) + ")"@
    }
}

/// `fmod(a, b)` is `a` modulo `b`: it becomes `(a % b)`, the first argument
/// the dividend and the second the divisor, in the order the source gives
/// them, both brought to their common type. On two float operands the text
/// is just the operands' own texts around ` % `.
pub proof fn law_fmod_dividend_first(g: GlobalsV, l: ScopeV, n: Seq<char>, args: Seq<ExprV>)
    requires
        lower_ascii(n) == "fmod"@,
        args.len() == 2,
    ensures
        ({
            let common = common_type(infer(g, l, args[0]), infer(g, l, args[1]));
            gen_call(g, l, n, args) == "("@ + gen_bcast(g, l, args[0], common) + " % "@ + gen_bcast(
                g,
                l,
                args[1],
                common,
            ) + ")"@
        }),
        infer(g, l, args[0]) == Type::Float && infer(g, l, args[1]) == Type::Float ==> gen_call(g, l, n, args)
            == "("@ + gen_expr(g, l, args[0], Type::Float) + " % "@ + gen_expr(g, l, args[1], Type::Float) + ")"@,
{
    reveal_strlit("fmod");
    reveal_strlit("tex2d");
    reveal_strlit("tex3d");
    reveal_strlit("tex2dlod");
    reveal_strlit("tex2dbias");
    reveal_strlit("frac");
    reveal_strlit("rsqrt");
    reveal_strlit("ddx");
    reveal_strlit("ddy");
    assert("fmod"@[0] != "tex2d"@[0]);
    assert("fmod"@[0] != "tex3d"@[0]);
    assert("fmod"@[0] != "tex2dlod"@[0]);
    assert("fmod"@[0] != "tex2dbias"@[0]);
    assert("fmod"@[1] != "frac"@[1]);
    assert("fmod"@.len() != "rsqrt"@.len());
    assert("fmod"@.len() != "ddx"@.len());
    assert("fmod"@.len() != "ddy"@.len());
}

/// `lerp(a, b, t)` becomes `mix(a, b, t)` with its arguments in the same
/// order, `a` and `b` brought to their common type and `t` as a float;
/// `mul(a, b)` of two non-matrix operands becomes `(a * b)`, in source order.
pub proof fn law_lerp_and_mul_keep_order(g: GlobalsV, l: ScopeV, n: Seq<char>, args: Seq<ExprV>)
    ensures
        lower_ascii(n) == "lerp"@ && args.len() == 3 ==> gen_call(g, l, n, args) == "mix("@ + gen_bcast(
            g,
            l,
            args[0],
            fold_common(g, l, args),
        ) + ", "@ + gen_bcast(g, l, args[1], fold_common(g, l, args)) + ", "@ + gen_expr(g, l, args[2], Type::Float)
            + ")"@,
        lower_ascii(n) == "mul"@ && args.len() == 2 && !is_matrix(infer(g, l, args[0])) && !is_matrix(
            infer(g, l, args[1]),
        ) ==> gen_call(g, l, n, args) == "("@ + gen_expr(g, l, args[0], Type::Float) + " * "@ + gen_expr(
            g,
            l,
            args[1],
            Type::Float,
        ) + ")"@,
{
    reveal_strlit("lerp");
    reveal_strlit("mul");
    reveal_strlit("tex2d");
    reveal_strlit("tex3d");
    reveal_strlit("tex2dlod");
    reveal_strlit("tex2dbias");
    reveal_strlit("saturate");
    reveal_strlit("frac");
    reveal_strlit("rsqrt");
    reveal_strlit("ddx");
    reveal_strlit("ddy");
    reveal_strlit("fmod");
    assert("lerp"@[0] != "tex2d"@[0]);
    assert("lerp"@[0] != "tex3d"@[0]);
    assert("lerp"@[0] != "tex2dlod"@[0]);
    assert("lerp"@[0] != "tex2dbias"@[0]);
    assert("mul"@[0] != "tex2d"@[0]);
    assert("mul"@[0] != "tex3d"@[0]);
    assert("mul"@[0] != "tex2dlod"@[0]);
    assert("mul"@[0] != "tex2dbias"@[0]);
    assert("mul"@[0] != "lerp"@[0]);
    assert("mul"@[0] != "saturate"@[0]);
    assert("mul"@[0] != "frac"@[0]);
    assert("mul"@[0] != "rsqrt"@[0]);
    assert("mul"@[0] != "ddx"@[0]);
    assert("mul"@[0] != "ddy"@[0]);
    assert("mul"@[0] != "fmod"@[0]);
}

// ---------------------------------------------------- mutated names --

/// The variable at the root of an l-value (`a.b[c].d` gives `a`).
pub open spec fn root_ident(e: ExprV) -> Option<Seq<char>>
    decreases e,
{
    match e {
        ExprV::Ident(n) => Some(n),
        ExprV::Member(b, _) => root_ident(*b),
        ExprV::Index(b, _) => root_ident(*b),
        _ => None,
    }
}

/// `n` is the root of an assignment or increment target inside `e`.
pub open spec fn expr_mutates(e: ExprV, n: Seq<char>) -> bool
    decreases e, 1int,
{
    match e {
        ExprV::Assign(_, t, v) => root_ident(*t) == Some(n) || expr_mutates(*v, n),
        ExprV::PreInc(x) => root_ident(*x) == Some(n),
        ExprV::PostInc(x) => root_ident(*x) == Some(n),
        ExprV::PreDec(x) => root_ident(*x) == Some(n),
        ExprV::PostDec(x) => root_ident(*x) == Some(n),
        ExprV::Unary(_, x) => expr_mutates(*x, n),
        ExprV::Binary(_, a, b) => expr_mutates(*a, n) || expr_mutates(*b, n),
        ExprV::Ternary(c, t, f) => expr_mutates(*c, n) || expr_mutates(*t, n) || expr_mutates(*f, n),
        ExprV::Member(b, _) => expr_mutates(*b, n),
        ExprV::Index(b, i) => expr_mutates(*b, n) || expr_mutates(*i, n),
        ExprV::Call(_, args) => exprs_mutate(args, n),
        ExprV::Construct(_, args) => exprs_mutate(args, n),
        _ => false,
    }
}

pub open spec fn exprs_mutate(args: Seq<ExprV>, n: Seq<char>) -> bool
    decreases args, 0int,
{
    if args.len() == 0 {
        false
    } else {
        exprs_mutate(args.subrange(0, args.len() - 1), n) || expr_mutates(args[args.len() - 1], n)
    }
}

pub open spec fn opt_expr_mutates(e: Option<ExprV>, n: Seq<char>) -> bool {
    match e {
        Some(x) => expr_mutates(x, n),
        None => false,
    }
}

/// `n` is assigned or incremented somewhere in `s`.
pub open spec fn stmt_mutates(s: StmtV, n: Seq<char>) -> bool
    decreases s, 1int,
{
    match s {
        StmtV::Decl { init, .. } => opt_expr_mutates(init, n),
        StmtV::Expr(e) => expr_mutates(e, n),
        StmtV::Return(v) => opt_expr_mutates(v, n),
        StmtV::Block(b) => stmts_mutate(b, n),
        StmtV::If(c, t, e) => expr_mutates(c, n) || stmt_mutates(*t, n) || (match e {
            Some(x) => stmt_mutates(*x, n),
            None => false,
        }),
        StmtV::While(c, b) => expr_mutates(c, n) || stmt_mutates(*b, n),
        StmtV::For(i, c, u, b) => (match i {
            Some(x) => stmt_mutates(*x, n),
            None => false,
        }) || opt_expr_mutates(c, n) || opt_expr_mutates(u, n) || stmt_mutates(*b, n),
    }
}

pub open spec fn stmts_mutate(b: Seq<StmtV>, n: Seq<char>) -> bool
    decreases b, 0int,
{
    if b.len() == 0 {
        false
    } else {
        stmts_mutate(b.subrange(0, b.len() - 1), n) || stmt_mutates(b[b.len() - 1], n)
    }
}

/// `e` reads no variable (so a module-scope initializer can keep it).
pub open spec fn is_const_expr(e: ExprV) -> bool
    decreases e, 1int,
{
    match e {
        ExprV::IntLit(_) => true,
        ExprV::FloatLit(_) => true,
        ExprV::BoolLit(_) => true,
        ExprV::Unary(_, x) => is_const_expr(*x),
        ExprV::Binary(_, a, b) => is_const_expr(*a) && is_const_expr(*b),
        ExprV::Ternary(c, t, f) => is_const_expr(*c) && is_const_expr(*t) && is_const_expr(*f),
        ExprV::Member(b, _) => is_const_expr(*b),
        ExprV::Index(b, i) => is_const_expr(*b) && is_const_expr(*i),
        ExprV::Construct(_, args) => all_const(args),
        ExprV::Call(_, args) => all_const(args),
        _ => false,
    }
}

pub open spec fn all_const(args: Seq<ExprV>) -> bool
    decreases args, 0int,
{
    if args.len() == 0 {
        true
    } else {
        all_const(args.subrange(0, args.len() - 1)) && is_const_expr(args[args.len() - 1])
    }
}

// ------------------------------------------------------- statements --

/// The temporary counter after one more temporary (it stops at the top of
/// the machine range).
pub open spec fn next_temp(t: nat) -> nat {
    if t < usize::MAX {
        t + 1
    } else {
        t
    }
}

/// One component assignment per swizzle letter: `base.c op tmp[i];`.
pub open spec fn swizzle_lines(pad: Seq<char>, base: Seq<char>, field: Seq<char>, op: Seq<char>, tmp: Seq<char>) -> Seq<char>
    decreases field.len(),
{
    if field.len() == 0 {
        Seq::empty()
    } else {
        let i = field.len() - 1;
        swizzle_lines(pad, base, field.subrange(0, i), op, tmp) + pad + "    "@ + base + "."@ + seq![field[i]] + " "@
            + op + " "@ + tmp + "["@ + nat_text(i as nat) + "];\n"@
    }
}

/// An assignment statement; a multi-component swizzle target is assigned
/// component by component from a temporary.
pub open spec fn gen_assign(g: GlobalsV, st: GenV, op: AssignOp, lhs: ExprV, rhs: ExprV, pad: Seq<char>) -> GenV {
    let l = st.1;
    let target_ty = infer(g, l, lhs);
    match lhs {
        ExprV::Member(base, field) => if is_swizzle_name(field) && field.len() > 1 {
            let tmp = "_pm_tmp"@ + nat_text(st.2);
            (
                st.0 + pad + "{\n"@ + pad + "    let "@ + tmp + " = "@ + gen_bcast(g, l, rhs, target_ty) + ";\n"@
                    + swizzle_lines(pad, gen_expr(g, l, *base, Type::Float), field, assign_text(op), tmp) + pad
                    + "}\n"@,
                l,
                next_temp(st.2),
            )
        } else {
            (
                st.0 + pad + gen_expr(g, l, lhs, Type::Float) + " "@ + assign_text(op) + " "@ + gen_bcast(
                    g,
                    l,
                    rhs,
                    target_ty,
                ) + ";\n"@,
                l,
                st.2,
            )
        },
        _ => (
            st.0 + pad + gen_expr(g, l, lhs, Type::Float) + " "@ + assign_text(op) + " "@ + gen_bcast(g, l, rhs, target_ty)
                + ";\n"@,
            l,
            st.2,
        ),
    }
}

/// An increment (`up`) or decrement statement: `x++;` / `x--;` on integers;
/// on floats, which WGSL cannot increment, `x = (x + 1.0);` / `x = (x - 1.0);`.
pub open spec fn step_text(g: GlobalsV, l: ScopeV, x: ExprV, up: bool) -> Seq<char> {
    if scalar_type(infer(g, l, x)) == Type::Float {
        let t = gen_expr(g, l, x, Type::Float);
        t + " = ("@ + t + (if up { " + 1.0);\n"@ } else { " - 1.0);\n"@ })
    } else {
        gen_expr(g, l, x, Type::Int) + (if up { "++;\n"@ } else { "--;\n"@ })
    }
}

/// An expression statement: increments, decrements, assignments, or the
/// expression followed by `;`.
pub open spec fn gen_expr_stmt(g: GlobalsV, st: GenV, e: ExprV, pad: Seq<char>) -> GenV {
    let l = st.1;
    match e {
        ExprV::PostInc(x) => (st.0 + pad + step_text(g, l, *x, true), l, st.2),
        ExprV::PreInc(x) => (st.0 + pad + step_text(g, l, *x, true), l, st.2),
        ExprV::PostDec(x) => (st.0 + pad + step_text(g, l, *x, false), l, st.2),
        ExprV::PreDec(x) => (st.0 + pad + step_text(g, l, *x, false), l, st.2),
        ExprV::Assign(op, lhs, rhs) => gen_assign(g, st, op, *lhs, *rhs, pad),
        _ => (st.0 + pad + gen_expr(g, l, e, Type::Float) + ";\n"@, l, st.2),
    }
}

/// The value a `return` gives in a function returning `rty`: a number
/// returned where a bool is declared is true when it is not zero.
pub open spec fn return_text(g: GlobalsV, l: ScopeV, e: ExprV, rty: Type) -> Seq<char> {
    let s = gen_expr(g, l, e, Type::Float);
    if rty == Type::Bool && infer(g, l, e) == Type::Float {
        s + " != 0.0"@
    } else if rty == Type::Bool && infer(g, l, e) == Type::Int {
        s + " != 0"@
    } else {
        s
    }
}

/// A statement at indentation `pad`; `ret` is what `return` yields inside a
/// function with `out` parameters, `rty` the function's return type.
pub open spec fn gen_stmt(g: GlobalsV, st: GenV, s: StmtV, pad: Seq<char>, ret: Option<Seq<char>>, rty: Type) -> GenV
    decreases s, 1int,
{
    let l = st.1;
    match s {
        StmtV::Decl { ty, name, init } => {
            let l2 = l.push((name, ty));
            let v = match init {
                Some(e) => gen_bcast(g, l2, e, ty),
                None => zero_text(ty),
            };
            (st.0 + pad + "var "@ + ident_text(name) + ": "@ + wgsl_name(ty) + " = "@ + v + ";\n"@, l2, st.2)
        },
        StmtV::Expr(e) => gen_expr_stmt(g, st, e, pad),
        StmtV::Return(v) => match ret {
            Some(re) => (st.0 + pad + "return "@ + re + ";\n"@, l, st.2),
            None => match v {
                Some(e) => (st.0 + pad + "return "@ + return_text(g, l, e, rty) + ";\n"@, l, st.2),
                None => (st.0 + pad + "return;\n"@, l, st.2),
            },
        },
        StmtV::Block(b) => {
            let s2 = gen_stmts(g, (st.0 + pad + "{\n"@, l, st.2), b, pad + "    "@, ret, rty);
            (s2.0 + pad + "}\n"@, s2.1, s2.2)
        },
        StmtV::If(c, t, e) => {
            let s1 = (st.0 + pad + "if ("@ + gen_expr(g, l, c, Type::Bool) + ") {\n"@, l, st.2);
            let s2 = gen_as_block(g, s1, *t, pad + "    "@, ret, rty);
            let s3 = match e {
                Some(x) => gen_as_block(g, (s2.0 + pad + "} else {\n"@, s2.1, s2.2), *x, pad + "    "@, ret, rty),
                None => s2,
            };
            (s3.0 + pad + "}\n"@, s3.1, s3.2)
        },
        StmtV::While(c, b) => {
            let s1 = (st.0 + pad + "while ("@ + gen_expr(g, l, c, Type::Bool) + ") {\n"@, l, st.2);
            let s2 = gen_as_block(g, s1, *b, pad + "    "@, ret, rty);
            (s2.0 + pad + "}\n"@, s2.1, s2.2)
        },
        StmtV::For(i, c, u, b) => {
            let s1 = (st.0 + pad + "{\n"@, l, st.2);
            let s2 = match i {
                Some(x) => gen_stmt(g, s1, *x, pad + "    "@, ret, rty),
                None => s1,
            };
            let cs = match c {
                Some(x) => gen_expr(g, s2.1, x, Type::Bool),
                None => "true"@,
            };
            let s3 = (s2.0 + pad + "    while ("@ + cs + ") {\n"@, s2.1, s2.2);
            let s4 = gen_as_block(g, s3, *b, pad + "        "@, ret, rty);
            let s5 = match u {
                Some(x) => gen_expr_stmt(g, s4, x, pad + "        "@),
                None => s4,
            };
            (s5.0 + pad + "    }\n"@ + pad + "}\n"@, s5.1, s5.2)
        },
    }
}

/// A nested statement: a block's statements go directly at `pad`.
pub open spec fn gen_as_block(g: GlobalsV, st: GenV, s: StmtV, pad: Seq<char>, ret: Option<Seq<char>>, rty: Type) -> GenV
    decreases s, 2int,
{
    match s {
        StmtV::Block(b) => gen_stmts(g, st, b, pad, ret, rty),
        _ => gen_stmt(g, st, s, pad, ret, rty),
    }
}

pub open spec fn gen_stmts(g: GlobalsV, st: GenV, b: Seq<StmtV>, pad: Seq<char>, ret: Option<Seq<char>>, rty: Type) -> GenV
    decreases b, 0int,
{
    if b.len() == 0 {
        st
    } else {
        gen_stmt(g, gen_stmts(g, st, b.subrange(0, b.len() - 1), pad, ret, rty), b[b.len() - 1], pad, ret, rty)
    }
}

// -------------------------------------------------------- functions --

/// The parameters as a scope, in order.
pub open spec fn params_scope(ps: Seq<ParamV>) -> ScopeV {
    ps.map_values(|p: ParamV| (p.name, p.ty))
}

pub open spec fn out_params(ps: Seq<ParamV>) -> Seq<ParamV>
    decreases ps.len(),
{
    if ps.len() == 0 {
        Seq::empty()
    } else if ps[ps.len() - 1].qualifier == ParamQual::Out {
        out_params(ps.subrange(0, ps.len() - 1)).push(ps[ps.len() - 1])
    } else {
        out_params(ps.subrange(0, ps.len() - 1))
    }
}

pub open spec fn in_params(ps: Seq<ParamV>) -> Seq<ParamV>
    decreases ps.len(),
{
    if ps.len() == 0 {
        Seq::empty()
    } else if ps[ps.len() - 1].qualifier != ParamQual::Out {
        in_params(ps.subrange(0, ps.len() - 1)).push(ps[ps.len() - 1])
    } else {
        in_params(ps.subrange(0, ps.len() - 1))
    }
}

/// The fields of the output struct: `@location(i) name: type,`.
pub open spec fn out_fields(outs: Seq<ParamV>) -> Seq<char>
    decreases outs.len(),
{
    if outs.len() == 0 {
        Seq::empty()
    } else {
        let i = outs.len() - 1;
        out_fields(outs.subrange(0, i)) + "    @location("@ + nat_text(i as nat) + ") "@ + ident_text(outs[i].name) + ": "@
            + wgsl_name(outs[i].ty) + ",\n"@
    }
}

/// A WGSL parameter; one the body writes to is renamed `<name>_param`.
pub open spec fn param_text(p: ParamV, body: Seq<StmtV>) -> Seq<char> {
    (if stmts_mutate(body, p.name) { p.name + "_param"@ } else { ident_text(p.name) }) + ": "@ + wgsl_name(p.ty)
}

pub open spec fn params_text(ins: Seq<ParamV>, body: Seq<StmtV>) -> Seq<char>
    decreases ins.len(),
{
    if ins.len() == 0 {
        Seq::empty()
    } else if ins.len() == 1 {
        param_text(ins[0], body)
    } else {
        params_text(ins.subrange(0, ins.len() - 1), body) + ", "@ + param_text(ins[ins.len() - 1], body)
    }
}

/// The names of the parameters, separated by `", "`.
pub open spec fn names_text(ps: Seq<ParamV>) -> Seq<char>
    decreases ps.len(),
{
    if ps.len() == 0 {
        Seq::empty()
    } else if ps.len() == 1 {
        ident_text(ps[0].name)
    } else {
        names_text(ps.subrange(0, ps.len() - 1)) + ", "@ + ident_text(ps[ps.len() - 1].name)
    }
}

/// `out` parameters become zero-initialized locals.
pub open spec fn out_var_lines(outs: Seq<ParamV>) -> Seq<char>
    decreases outs.len(),
{
    if outs.len() == 0 {
        Seq::empty()
    } else {
        let p = outs[outs.len() - 1];
        out_var_lines(outs.subrange(0, outs.len() - 1)) + "    var "@ + ident_text(p.name) + ": "@ + wgsl_name(p.ty) + " = "@
            + zero_text(p.ty) + ";\n"@
    }
}

/// Mutable local copies of the parameters the body writes to.
pub open spec fn param_copy_lines(ins: Seq<ParamV>, body: Seq<StmtV>) -> Seq<char>
    decreases ins.len(),
{
    if ins.len() == 0 {
        Seq::empty()
    } else {
        let p = ins[ins.len() - 1];
        param_copy_lines(ins.subrange(0, ins.len() - 1), body) + (if stmts_mutate(body, p.name) {
            "    var "@ + ident_text(p.name) + " = "@ + p.name + "_param;\n"@
        } else {
            Seq::empty()
        })
    }
}

/// What `return` yields in a function with `out` parameters.
pub open spec fn out_return(f: FunctionV) -> Option<Seq<char>> {
    let outs = out_params(f.params);
    if outs.len() == 0 {
        None
    } else {
        Some(f.name + "Output("@ + names_text(outs) + ")"@)
    }
}

pub open spec fn ret_text(f: FunctionV) -> Seq<char> {
    if out_params(f.params).len() > 0 {
        " -> "@ + f.name + "Output"@
    } else if f.ret != Type::Void {
        " -> "@ + wgsl_name(f.ret)
    } else {
        Seq::empty()
    }
}

/// The function's text up to its body: the output struct, the signature, the
/// zeroed `out` locals and the parameter copies.
pub open spec fn function_head(f: FunctionV) -> Seq<char> {
    let outs = out_params(f.params);
    let ins = in_params(f.params);
    (if outs.len() > 0 {
        "struct "@ + f.name + "Output"@ + " {\n"@ + out_fields(outs) + "}\n\n"@
    } else {
        Seq::empty()
    }) + "fn "@ + f.name + "("@ + params_text(ins, f.body) + ")"@ + ret_text(f) + " {\n"@ + out_var_lines(outs)
        + param_copy_lines(ins, f.body)
}

/// A function; its scope starts with its parameters. The entry function
/// `PS` starts with `prologue`, the global initializers run at entry.
pub open spec fn gen_function(g: GlobalsV, st: GenV, f: FunctionV, prologue: Seq<char>) -> GenV {
    let pro = if f.name == "PS"@ { prologue } else { Seq::empty() };
    let s1 = gen_stmts(g, (st.0 + function_head(f) + pro, params_scope(f.params), st.2), f.body, "    "@, out_return(f), f.ret);
    let tail = match out_return(f) {
        Some(re) => "    return "@ + re + ";\n"@,
        None => Seq::empty(),
    };
    (s1.0 + tail + "}\n\n"@, s1.1, s1.2)
}

// ------------------------------------------------------------ module --

/// The global variables of a module, in order.
pub open spec fn globals_scope(items: Seq<ItemV>) -> ScopeV
    decreases items.len(),
{
    if items.len() == 0 {
        Seq::empty()
    } else {
        let rest = globals_scope(items.subrange(0, items.len() - 1));
        match items[items.len() - 1] {
            ItemV::Global { ty, name, .. } => rest.push((name, ty)),
            _ => rest,
        }
    }
}

/// Globals become module-scope `var<private>` declarations; an initializer
/// that reads a variable cannot stay at module scope, and runs at the entry
/// of `PS` instead (see `prologue_lines`).
pub open spec fn global_lines(g: GlobalsV, items: Seq<ItemV>) -> Seq<char>
    decreases items.len(),
{
    if items.len() == 0 {
        Seq::empty()
    } else {
        let rest = global_lines(g, items.subrange(0, items.len() - 1));
        match items[items.len() - 1] {
            ItemV::Global { ty, name, init, .. } => rest + "var<private> "@ + ident_text(name) + ": "@ + wgsl_name(ty) + (match init {
                Some(e) => if is_const_expr(e) {
                    " = "@ + gen_expr(g, Seq::empty(), e, ty)
                } else {
                    Seq::empty()
                },
                None => Seq::empty(),
            }) + ";\n"@,
            _ => rest,
        }
    }
}

/// Samplers become comments stating the binding convention.
pub open spec fn sampler_lines(items: Seq<ItemV>) -> Seq<char>
    decreases items.len(),
{
    if items.len() == 0 {
        Seq::empty()
    } else {
        let rest = sampler_lines(items.subrange(0, items.len() - 1));
        match items[items.len() - 1] {
            ItemV::Sampler { ty, name } => rest + "// sampler "@ + name + ": bind `"@ + name + "` as "@ + (if ty
                == Type::Sampler3D {
                "texture_3d<f32>"@
            } else {
                "texture_2d<f32>"@
            }) + " and `"@ + name + "_sampler` as sampler\n"@,
            _ => rest,
        }
    }
}

/// The assignments of the global initializers that read a variable, in
/// order, as the first statements of `PS`.
pub open spec fn prologue_lines(g: GlobalsV, items: Seq<ItemV>) -> Seq<char>
    decreases items.len(),
{
    if items.len() == 0 {
        Seq::empty()
    } else {
        let rest = prologue_lines(g, items.subrange(0, items.len() - 1));
        match items[items.len() - 1] {
            ItemV::Global { ty, name, init, .. } => match init {
                Some(e) => if is_const_expr(e) {
                    rest
                } else {
                    rest + "    "@ + ident_text(name) + " = "@ + gen_bcast(g, Seq::empty(), e, ty) + ";\n"@
                },
                None => rest,
            },
            _ => rest,
        }
    }
}

pub open spec fn gen_functions(g: GlobalsV, st: GenV, items: Seq<ItemV>, prologue: Seq<char>) -> GenV
    decreases items.len(),
{
    if items.len() == 0 {
        st
    } else {
        let s1 = gen_functions(g, st, items.subrange(0, items.len() - 1), prologue);
        match items[items.len() - 1] {
            ItemV::Function(f) => gen_function(g, s1, f, prologue),
            _ => s1,
        }
    }
}

/// The WGSL module for a list of items: globals, sampler notes, a blank line
/// if either was written, then the functions.
/// The signatures of the module's functions, in order.
pub open spec fn fn_sigs(items: Seq<ItemV>) -> Seq<FnSigV>
    decreases items.len(),
{
    if items.len() == 0 {
        Seq::empty()
    } else {
        let rest = fn_sigs(items.subrange(0, items.len() - 1));
        match items[items.len() - 1] {
            ItemV::Function(f) => rest.push(
                (f.name, f.ret, f.params.map_values(|p: ParamV| p.ty), out_params(f.params).len() > 0),
            ),
            _ => rest,
        }
    }
}

pub open spec fn generate_text(items: Seq<ItemV>) -> Seq<char> {
    let g = GlobalsV { vars: globals_scope(items), fns: fn_sigs(items) };
    let head = global_lines(g, items) + sampler_lines(items);
    let head2 = if head.len() > 0 { head.push('\n') } else { head };
    gen_functions(g, (head2, Seq::empty(), 0), items, prologue_lines(g, items)).0
}

} // verus!
