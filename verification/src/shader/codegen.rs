//! WGSL code generation from the HLSL syntax tree, proved to emit exactly the
//! text `wgsl` states for every construct.
//!
//! Global uniforms are emitted as `var<private>` so a translated shader is a
//! self-contained module; the preset engine applies the real uniform and
//! texture binding layout later.

use vstd::prelude::*;
use crate::text::{push_char, push_str, push_int, push_nat, str_chars, str_eq, nat_text, int_text, ascii_lower};
use crate::shader::ast::{
    AssignOp, BinOp, Expr, ExprV, Function, Item, ItemV, Param, ParamQual, ParamV, Stmt, StmtV, Type, UnOp, vector_len_of, is_scalar_type, expr_view, exprs_view,
    lemma_exprs_view, stmt_view, stmts_view, lemma_stmts_view, opt_expr_view, opt_string_view,
};
use crate::shader::wgsl::{
    ScopeV, GlobalsV, FnSigV, find_fn, is_user_call, gen_coerced_list, fn_sigs, lookup, name_type, wgsl_name, zero_text, scalar_type, vec_type, common_type,
    is_swizzle_char, is_swizzle_name, member_ty, index_ty, op_text, assign_text, unop_text,
    is_bool_op, lit_broadcast, width, swizzle_prefix,  is_texture_call, is_arith_op, float_of, is_bool_or_int,
    arith_type, float_text, gen_float_list, is_matrix, component_list, matrix_parts, reserved_a, reserved_b, reserved_c, reserved_d, is_reserved_word, ident_text,
    is_common_type_call, is_digit_char, digit_val, digit_run, digits_value, strip_leading_zeros,
    trailing_zeros, zeros, decimal_text, float_literal_text, int_digits, has_point, frac_digits, mant_end,
    mantissa, exponent, infer, call_type, first_vector_type,
    fold_common, gen_expr, gen_bcast, gen_list, gen_bcast_list, tex_coord, gen_call, step_text, GenV, root_ident,
    expr_mutates, exprs_mutate, opt_expr_mutates, stmt_mutates, stmts_mutate, next_temp, swizzle_lines,
    gen_assign, gen_expr_stmt, gen_stmt, gen_as_block, gen_stmts, params_scope, out_params, in_params,
    out_fields, param_text, params_text, names_text, out_var_lines, param_copy_lines, out_return, ret_text,
    function_head, gen_function, globals_scope, global_lines, sampler_lines, gen_functions, generate_text,
    is_const_expr, all_const, prologue_lines, return_text,
};
use crate::shader::parser::items_view;

verus! {

pub open spec fn scope_view(v: Seq<(String, Type)>) -> ScopeV {
    v.map_values(|p: (String, Type)| (p.0@, p.1))
}

// ------------------------------------------------------------ types --

fn wgsl_type(ty: Type) -> (r: &'static str)
    ensures
        r@ == wgsl_name(ty),
{
    match ty {
        Type::Void => "()",
        Type::Float => "f32",
        Type::Int => "i32",
        Type::Bool => "bool",
        Type::Float2 => "vec2<f32>",
        Type::Float3 => "vec3<f32>",
        Type::Float4 => "vec4<f32>",
        Type::Int2 => "vec2<i32>",
        Type::Int3 => "vec3<i32>",
        Type::Int4 => "vec4<i32>",
        Type::Bool2 => "vec2<bool>",
        Type::Bool3 => "vec3<bool>",
        Type::Bool4 => "vec4<bool>",
        Type::Mat2 => "mat2x2<f32>",
        Type::Mat3 => "mat3x3<f32>",
        Type::Mat4 => "mat4x4<f32>",
        Type::Mat4x3 => "mat3x4<f32>",
        Type::Mat3x4 => "mat4x3<f32>",
        Type::Sampler2D => "texture_2d<f32>",
        Type::Sampler3D => "texture_2d<f32>",
    }
}

fn push_zero_value(out: &mut String, ty: Type)
    ensures
        final(out)@ == old(out)@ + zero_text(ty),
{
    match ty {
        Type::Float => push_str(out, "0.0"),
        Type::Int => push_str(out, "0"),
        Type::Bool => push_str(out, "false"),
        _ => {
            push_str(out, wgsl_type(ty));
            push_str(out, "()");
        },
    }
}

fn scalar_of(ty: Type) -> (r: Type)
    ensures
        r == scalar_type(ty),
{
    match ty {
        Type::Float2 | Type::Float3 | Type::Float4 | Type::Mat2 | Type::Mat3 | Type::Mat4 | Type::Mat4x3
        | Type::Mat3x4 => Type::Float,
        Type::Int2 | Type::Int3 | Type::Int4 => Type::Int,
        Type::Bool2 | Type::Bool3 | Type::Bool4 => Type::Bool,
        _ => ty,
    }
}

fn vec_of(scalar: Type, n: u8) -> (r: Type)
    ensures
        r == vec_type(scalar, n),
{
    if scalar == Type::Float && n == 2 {
        Type::Float2
    } else if scalar == Type::Float && n == 3 {
        Type::Float3
    } else if scalar == Type::Float && n == 4 {
        Type::Float4
    } else if scalar == Type::Int && n == 2 {
        Type::Int2
    } else if scalar == Type::Int && n == 3 {
        Type::Int3
    } else if scalar == Type::Int && n == 4 {
        Type::Int4
    } else if scalar == Type::Bool && n == 2 {
        Type::Bool2
    } else if scalar == Type::Bool && n == 3 {
        Type::Bool3
    } else if scalar == Type::Bool && n == 4 {
        Type::Bool4
    } else {
        scalar
    }
}

/// Common arithmetic type of two operands (a vector wins, the narrower of two
/// vectors wins; float wins over int).
fn arith_common(a: Type, b: Type) -> (r: Type)
    ensures
        r == common_type(a, b),
{
    let sa = scalar_of(a);
    let sb = scalar_of(b);
    let scalar = if sa == Type::Float || sb == Type::Float {
        Type::Float
    } else if sa == Type::Int || sb == Type::Int {
        Type::Int
    } else {
        Type::Bool
    };
    match a.vector_len() {
        Some(n) => match b.vector_len() {
            Some(m) => vec_of(scalar, if m < n { m } else { n }),
            None => vec_of(scalar, n),
        },
        None => match b.vector_len() {
            Some(n) => vec_of(scalar, n),
            None => scalar,
        },
    }
}

/// The float type of the same width.
fn float_type_of(t: Type) -> (r: Type)
    ensures
        r == float_of(t),
{
    match t.vector_len() {
        Some(n) => vec_of(Type::Float, n),
        None => Type::Float,
    }
}

fn bool_or_int(t: Type) -> (r: bool)
    ensures
        r == is_bool_or_int(t),
{
    let s = scalar_of(t);
    s == Type::Bool || s == Type::Int
}

fn is_arith(op: BinOp) -> (r: bool)
    ensures
        r == is_arith_op(op),
{
    op == BinOp::Add || op == BinOp::Sub || op == BinOp::Mul || op == BinOp::Div || op == BinOp::Mod
}

/// The type of an arithmetic operation (bools counting as floats).
fn arith_result(a: Type, b: Type) -> (r: Type)
    ensures
        r == arith_type(a, b),
{
    let c = arith_common(a, b);
    if scalar_of(c) == Type::Bool {
        float_type_of(c)
    } else {
        c
    }
}

fn is_swizzle(field: &str) -> (r: bool)
    ensures
        r == is_swizzle_name(field@),
{
    let cs = str_chars(field);
    if cs.len() == 0 || cs.len() > 4 {
        return false;
    }
    for i in 0..cs.len()
        invariant
            cs@ == field@,
            forall|j: int| 0 <= j < i ==> is_swizzle_char(#[trigger] cs@[j]),
    {
        let c = cs[i];
        if !(c == 'x' || c == 'y' || c == 'z' || c == 'w' || c == 'r' || c == 'g' || c == 'b' || c == 'a') {
            return false;
        }
    }
    true
}

fn member_type(base: Type, field: &str) -> (r: Type)
    ensures
        r == member_ty(base, field@),
{
    if (base.vector_len().is_some() || base.is_scalar()) && is_swizzle(field) {
        let n = str_chars(field).len();
        let scalar = scalar_of(base);
        if n == 1 {
            scalar
        } else {
            vec_of(scalar, n as u8)
        }
    } else {
        scalar_of(base)
    }
}

fn index_type(base: Type) -> (r: Type)
    ensures
        r == index_ty(base),
{
    match base {
        Type::Mat2 => Type::Float2,
        Type::Mat3 => Type::Float3,
        Type::Mat4 => Type::Float4,
        _ => scalar_of(base),
    }
}

fn bin_op_str(op: BinOp) -> (r: &'static str)
    ensures
        r@ == op_text(op),
{
    match op {
        BinOp::Add => "+",
        BinOp::Sub => "-",
        BinOp::Mul => "*",
        BinOp::Div => "/",
        BinOp::Mod => "%",
        BinOp::Eq => "==",
        BinOp::Ne => "!=",
        BinOp::Lt => "<",
        BinOp::Gt => ">",
        BinOp::Le => "<=",
        BinOp::Ge => ">=",
        BinOp::BitAnd => "&",
        BinOp::BitOr => "|",
        BinOp::BitXor => "^",
        BinOp::Shl => "<<",
        BinOp::Shr => ">>",
        BinOp::And => "&&",
        BinOp::Or => "||",
    }
}

fn assign_op_str(op: AssignOp) -> (r: &'static str)
    ensures
        r@ == assign_text(op),
{
    match op {
        AssignOp::Assign => "=",
        AssignOp::Add => "+=",
        AssignOp::Sub => "-=",
        AssignOp::Mul => "*=",
        AssignOp::Div => "/=",
        AssignOp::Mod => "%=",
    }
}

fn un_op_str(op: UnOp) -> (r: &'static str)
    ensures
        r@ == unop_text(op),
{
    match op {
        UnOp::Neg => "-",
        UnOp::Not => "!",
        UnOp::BitNot => "~",
    }
}

fn broadcast_scalar_literal(out: &mut String, ty: Type, lit: &str)
    ensures
        final(out)@ == old(out)@ + lit_broadcast(ty, lit@),
{
    if ty.vector_len().is_some() {
        push_str(out, wgsl_type(ty));
        push_str(out, "(");
        push_str(out, lit);
        push_str(out, ")");
    } else {
        push_str(out, lit);
    }
}

fn width_of(t: Type) -> (r: u8)
    ensures
        r == width(t),
        r <= 4,
{
    match t.vector_len() {
        Some(n) => n,
        None => if t.is_scalar() {
            1
        } else {
            0
        },
    }
}

fn push_swizzle_prefix(out: &mut String, n: u8)
    ensures
        final(out)@ == old(out)@ + swizzle_prefix(n as nat),
{
    if n == 1 {
        push_str(out, "x");
    } else if n == 2 {
        push_str(out, "xy");
    } else if n == 3 {
        push_str(out, "xyz");
    } else {
        push_str(out, "xyzw");
    }
}

fn reserved_a_exec(n: &str) -> (r: bool)
    ensures
        r == reserved_a(n@),
{
    str_eq(n, "alias")
        || str_eq(n, "const_assert")
        || str_eq(n, "continuing")
        || str_eq(n, "diagnostic")
        || str_eq(n, "enable")
        || str_eq(n, "fn")
        || str_eq(n, "let")
        || str_eq(n, "loop")
        || str_eq(n, "override")
        || str_eq(n, "requires")
        || str_eq(n, "var")
        || str_eq(n, "NULL")
        || str_eq(n, "Self")
        || str_eq(n, "abstract")
        || str_eq(n, "active")
        || str_eq(n, "alignas")
        || str_eq(n, "alignof")
        || str_eq(n, "as")
        || str_eq(n, "asm")
        || str_eq(n, "asm_fragment")
        || str_eq(n, "async")
        || str_eq(n, "attribute")
        || str_eq(n, "auto")
        || str_eq(n, "await")
        || str_eq(n, "become")
        || str_eq(n, "cast")
        || str_eq(n, "catch")
        || str_eq(n, "class")
        || str_eq(n, "co_await")
        || str_eq(n, "co_return")
        || str_eq(n, "co_yield")
        || str_eq(n, "coherent")
        || str_eq(n, "column_major")
        || str_eq(n, "common")
        || str_eq(n, "compile")
        || str_eq(n, "compile_fragment")
        || str_eq(n, "concept")
        || str_eq(n, "const_cast")
        || str_eq(n, "consteval")
        || str_eq(n, "constexpr")
}

fn reserved_b_exec(n: &str) -> (r: bool)
    ensures
        r == reserved_b(n@),
{
    str_eq(n, "constinit")
        || str_eq(n, "crate")
        || str_eq(n, "debugger")
        || str_eq(n, "decltype")
        || str_eq(n, "delete")
        || str_eq(n, "demote")
        || str_eq(n, "demote_to_helper")
        || str_eq(n, "do")
        || str_eq(n, "dynamic_cast")
        || str_eq(n, "enum")
        || str_eq(n, "explicit")
        || str_eq(n, "export")
        || str_eq(n, "extends")
        || str_eq(n, "extern")
        || str_eq(n, "external")
        || str_eq(n, "fallthrough")
        || str_eq(n, "filter")
        || str_eq(n, "final")
        || str_eq(n, "finally")
        || str_eq(n, "friend")
        || str_eq(n, "from")
        || str_eq(n, "fxgroup")
        || str_eq(n, "get")
        || str_eq(n, "goto")
        || str_eq(n, "groupshared")
        || str_eq(n, "highp")
        || str_eq(n, "impl")
        || str_eq(n, "implements")
        || str_eq(n, "import")
        || str_eq(n, "inline")
        || str_eq(n, "instanceof")
        || str_eq(n, "interface")
        || str_eq(n, "layout")
        || str_eq(n, "lowp")
        || str_eq(n, "macro")
        || str_eq(n, "macro_rules")
        || str_eq(n, "match")
        || str_eq(n, "mediump")
        || str_eq(n, "meta")
        || str_eq(n, "mod")
}

fn reserved_c_exec(n: &str) -> (r: bool)
    ensures
        r == reserved_c(n@),
{
    str_eq(n, "module")
        || str_eq(n, "move")
        || str_eq(n, "mut")
        || str_eq(n, "mutable")
        || str_eq(n, "namespace")
        || str_eq(n, "new")
        || str_eq(n, "nil")
        || str_eq(n, "noexcept")
        || str_eq(n, "noinline")
        || str_eq(n, "nointerpolation")
        || str_eq(n, "non_coherent")
        || str_eq(n, "noncoherent")
        || str_eq(n, "noperspective")
        || str_eq(n, "null")
        || str_eq(n, "nullptr")
        || str_eq(n, "of")
        || str_eq(n, "operator")
        || str_eq(n, "package")
        || str_eq(n, "packoffset")
        || str_eq(n, "partition")
        || str_eq(n, "pass")
        || str_eq(n, "patch")
        || str_eq(n, "pixelfragment")
        || str_eq(n, "precise")
        || str_eq(n, "precision")
        || str_eq(n, "premerge")
        || str_eq(n, "priv")
        || str_eq(n, "protected")
        || str_eq(n, "pub")
        || str_eq(n, "public")
        || str_eq(n, "readonly")
        || str_eq(n, "ref")
        || str_eq(n, "regardless")
        || str_eq(n, "register")
        || str_eq(n, "reinterpret_cast")
        || str_eq(n, "require")
        || str_eq(n, "resource")
        || str_eq(n, "restrict")
        || str_eq(n, "self")
        || str_eq(n, "set")
}

fn reserved_d_exec(n: &str) -> (r: bool)
    ensures
        r == reserved_d(n@),
{
    str_eq(n, "shared")
        || str_eq(n, "sizeof")
        || str_eq(n, "smooth")
        || str_eq(n, "snorm")
        || str_eq(n, "static")
        || str_eq(n, "static_assert")
        || str_eq(n, "static_cast")
        || str_eq(n, "std")
        || str_eq(n, "subroutine")
        || str_eq(n, "super")
        || str_eq(n, "target")
        || str_eq(n, "template")
        || str_eq(n, "this")
        || str_eq(n, "thread_local")
        || str_eq(n, "throw")
        || str_eq(n, "trait")
        || str_eq(n, "try")
        || str_eq(n, "type")
        || str_eq(n, "typedef")
        || str_eq(n, "typeid")
        || str_eq(n, "typename")
        || str_eq(n, "typeof")
        || str_eq(n, "union")
        || str_eq(n, "unless")
        || str_eq(n, "unorm")
        || str_eq(n, "unsafe")
        || str_eq(n, "unsized")
        || str_eq(n, "use")
        || str_eq(n, "using")
        || str_eq(n, "varying")
        || str_eq(n, "virtual")
        || str_eq(n, "volatile")
        || str_eq(n, "wgsl")
        || str_eq(n, "where")
        || str_eq(n, "with")
        || str_eq(n, "writeonly")
        || str_eq(n, "yield")
}

/// Whether `n` is a WGSL keyword or reserved word.
fn is_reserved(n: &str) -> (r: bool)
    ensures
        r == is_reserved_word(n@),
{
    reserved_a_exec(n) || reserved_b_exec(n) || reserved_c_exec(n) || reserved_d_exec(n)
}

/// Appends the WGSL name of the variable `n` (see `ident_text`).
fn push_ident(out: &mut String, n: &str)
    ensures
        final(out)@ == old(out)@ + ident_text(n@),
{
    push_str(out, n);
    if is_reserved(n) {
        push_str(out, "_pm");
    }
}

fn matrix_type(t: Type) -> (r: bool)
    ensures
        r == is_matrix(t),
{
    t == Type::Mat2 || t == Type::Mat3 || t == Type::Mat4 || t == Type::Mat4x3 || t == Type::Mat3x4
}

/// Appends `t.x, t.y, ...` for the first `n` lanes.
fn push_components(out: &mut String, t: &str, n: u8)
    requires
        n <= 4,
    ensures
        final(out)@ == old(out)@ + component_list(t@, n as nat),
{
    let ghost o = out@;
    let mut i: u8 = 0;
    assert(component_list(t@, 0) =~= Seq::<char>::empty());
    while i < n
        invariant
            i <= n <= 4,
            out@ == o + component_list(t@, i as nat),
        decreases n - i,
    {
        if i > 0 {
            push_str(out, ", ");
        }
        push_str(out, t);
        push_str(out, ".");
        let c = if i == 0 {
            'x'
        } else if i == 1 {
            'y'
        } else if i == 2 {
            'z'
        } else {
            'w'
        };
        proof {
            reveal_strlit("xyzw");
            reveal_strlit(".x");
            reveal_strlit(".");
            reveal_strlit(", ");
            assert(swizzle_prefix(4)[i as int] == c);
        }
        push_char(out, c);
        i = i + 1;
        proof {
            if i == 1 {
                assert(out@ =~= o + component_list(t@, 1));
            } else {
                assert(out@ =~= o + component_list(t@, i as nat));
            }
        }
    }
}

/// The type recorded last for `k` in `m`.
fn lookup_name(m: &Vec<(String, Type)>, k: &str) -> (r: Option<Type>)
    ensures
        r == lookup(scope_view(m@), k@),
{
    let ghost v = scope_view(m@);
    let mut i = m.len();
    assert(v.subrange(0, i as int) =~= v);
    while i > 0
        invariant
            i <= m.len(),
            v == scope_view(m@),
            lookup(v, k@) == lookup(v.subrange(0, i as int), k@),
        decreases i,
    {
        assert(v.subrange(0, i as int).subrange(0, i - 1) =~= v.subrange(0, i - 1));
        if str_eq(m[i - 1].0.as_str(), k) {
            return Some(m[i - 1].1);
        }
        i = i - 1;
    }
    None
}

// --------------------------------------------------- float literals --

/// The end of the run of decimal digits starting at `i`.
fn digit_run_end(c: &Vec<char>, i: usize) -> (r: usize)
    requires
        i <= c.len(),
    ensures
        r == i + digit_run(c@, i as int),
        r <= c.len(),
{
    let mut j = i;
    while j < c.len() && '0' <= c[j] && c[j] <= '9'
        invariant
            i <= j <= c.len(),
            digit_run(c@, i as int) == (j - i) + digit_run(c@, j as int),
        decreases c.len() - j,
    {
        j = j + 1;
    }
    j
}

proof fn lemma_digit_run_bound(t: Seq<char>, i: int)
    requires
        0 <= i,
    ensures
        i + digit_run(t, i) <= (if i <= t.len() { t.len() as int } else { i }),
    decreases t.len() - i,
{
    if 0 <= i < t.len() && is_digit_char(t[i]) {
        lemma_digit_run_bound(t, i + 1);
    }
}

/// Exponents beyond this bound put every literal outside the `f64` range.
const EXP_CAP: i128 = 100_000_000_000_000_000_000;

/// `min(digits_value(c[s..e]), EXP_CAP)`.
fn exponent_value(c: &Vec<char>, s: usize, e: usize) -> (r: i128)
    requires
        s <= e <= c.len(),
        forall|k: int| s <= k < e ==> is_digit_char(#[trigger] c@[k]),
    ensures
        r == (if digits_value(c@.subrange(s as int, e as int)) < EXP_CAP { digits_value(c@.subrange(s as int, e as int)) as int } else { EXP_CAP as int }),
{
    let mut v: i128 = 0;
    let mut j = s;
    assert(c@.subrange(s as int, s as int) =~= Seq::<char>::empty());
    while j < e
        invariant
            s <= j <= e <= c.len(),
            forall|k: int| s <= k < e ==> is_digit_char(#[trigger] c@[k]),
            v == (if digits_value(c@.subrange(s as int, j as int)) < EXP_CAP { digits_value(c@.subrange(s as int, j as int)) as int } else { EXP_CAP as int }),
        decreases e - j,
    {
        let ghost prev = c@.subrange(s as int, j as int);
        let ghost next = c@.subrange(s as int, j + 1);
        assert(next.subrange(0, next.len() - 1) =~= prev);
        assert(next[next.len() - 1] == c@[j as int]);
        assert(is_digit_char(c@[j as int]));
        let d: i128 = (c[j] as u32 - 48) as i128;
        if v < EXP_CAP {
            let w = v * 10 + d;
            v = if w < EXP_CAP { w } else { EXP_CAP };
        }
        j = j + 1;
    }
    v
}

fn push_zeros(out: &mut String, n: usize)
    ensures
        final(out)@ == old(out)@ + zeros(n as nat),
{
    let ghost o = out@;
    for i in 0..n
        invariant
            out@ == o + zeros(i as nat),
    {
        push_char(out, '0');
        assert(zeros(i as nat).push('0') =~= zeros((i + 1) as nat));
    }
}

fn push_char_range(out: &mut String, c: &Vec<char>, s: usize, e: usize)
    requires
        s <= e <= c.len(),
    ensures
        final(out)@ == old(out)@ + c@.subrange(s as int, e as int),
{
    let ghost o = out@;
    for i in s..e
        invariant
            s <= i <= e <= c.len(),
            out@ == o + c@.subrange(s as int, i as int),
    {
        push_char(out, c[i]);
        assert(c@.subrange(s as int, i as int).push(c@[i as int]) =~= c@.subrange(s as int, i + 1));
    }
}

proof fn lemma_strip_leading(s: Seq<char>, k: int)
    requires
        0 <= k <= s.len(),
        forall|j: int| 0 <= j < k ==> s[j] == '0',
    ensures
        strip_leading_zeros(s) == strip_leading_zeros(s.subrange(k, s.len() as int)),
    decreases k,
{
    if k > 0 {
        let t = s.subrange(1, s.len() as int);
        assert forall|j: int| 0 <= j < k - 1 implies t[j] == '0' by {
            assert(t[j] == s[j + 1]);
        }
        lemma_strip_leading(t, k - 1);
        assert(t.subrange(k - 1, t.len() as int) =~= s.subrange(k, s.len() as int));
    } else {
        assert(s.subrange(0, s.len() as int) =~= s);
    }
}

proof fn lemma_trailing(s: Seq<char>, k: int)
    requires
        0 <= k <= s.len(),
        forall|j: int| s.len() - k <= j < s.len() ==> s[j] == '0',
    ensures
        trailing_zeros(s) == k + trailing_zeros(s.subrange(0, s.len() - k)),
    decreases k,
{
    if k > 0 {
        let t = s.subrange(0, s.len() - 1);
        assert forall|j: int| t.len() - (k - 1) <= j < t.len() implies t[j] == '0' by {
            assert(t[j] == s[j]);
        }
        lemma_trailing(t, k - 1);
        assert(t.subrange(0, t.len() - (k - 1)) =~= s.subrange(0, s.len() - k));
    } else {
        assert(s.subrange(0, s.len() as int) =~= s);
    }
}

/// The mantissa digits of a float literal, its number of fraction digits and
/// where it ends.
fn mantissa_of(c: &Vec<char>) -> (r: (Vec<char>, usize, usize))
    ensures
        r.0@ == mantissa(c@),
        r.1 == frac_digits(c@),
        r.2 == mant_end(c@),
        r.0@.len() <= c@.len(),
{
    let ghost t = c@;
    proof {
        lemma_digit_run_bound(t, 0);
    }
    let n1 = digit_run_end(c, 0);
    let hp = n1 < c.len() && c[n1] == '.';
    let me = if hp {
        proof {
            lemma_digit_run_bound(t, n1 + 1);
        }
        digit_run_end(c, n1 + 1)
    } else {
        n1
    };
    let n2: usize = if hp { me - n1 - 1 } else { 0 };
    let mut mant: Vec<char> = Vec::new();
    for i in 0..n1
        invariant
            n1 <= c.len(),
            mant@ == c@.subrange(0, i as int),
    {
        mant.push(c[i]);
        assert(c@.subrange(0, i as int).push(c@[i as int]) =~= c@.subrange(0, i + 1));
    }
    if hp {
        let ghost m0 = mant@;
        for i in n1 + 1..me
            invariant
                n1 + 1 <= me <= c.len(),
                m0 == c@.subrange(0, n1 as int),
                mant@ == m0 + c@.subrange(n1 + 1, i as int),
        {
            mant.push(c[i]);
            assert(c@.subrange(n1 + 1, i as int).push(c@[i as int]) =~= c@.subrange(n1 + 1, i + 1));
        }
    }
    assert(mant@ =~= mantissa(t));
    (mant, n2, me)
}

/// The exponent of a float literal, clamped to `[-EXP_CAP, EXP_CAP]`.
fn exponent_of(c: &Vec<char>, me: usize) -> (r: i128)
    requires
        me == mant_end(c@),
        me <= c.len(),
    ensures
        r == (if exponent(c@) >= EXP_CAP { EXP_CAP as int } else if exponent(c@) <= -EXP_CAP { -EXP_CAP } else { exponent(c@) }),
{
    let ghost t = c@;
    let has_exp = me < c.len() && (c[me] == 'e' || c[me] == 'E');
    if !has_exp {
        return 0;
    }
    let neg = me + 1 < c.len() && c[me + 1] == '-';
    let signed = me + 1 < c.len() && (c[me + 1] == '-' || c[me + 1] == '+');
    let es = if signed { me + 2 } else { me + 1 };
    proof {
        lemma_digit_run_bound(t, es as int);
    }
    let ee = digit_run_end(c, es);
    proof {
        assert forall|k: int| es <= k < ee implies is_digit_char(#[trigger] c@[k]) by {
            lemma_digit_run_prefix(t, es as int, k);
        }
    }
    let ev = exponent_value(c, es, ee);
    if neg {
        -ev
    } else {
        ev
    }
}

/// Appends `decimal_text(mant[s..e], point)`.
fn push_decimal(out: &mut String, mant: &Vec<char>, s: usize, e: usize, point: i128)
    requires
        s < e <= mant.len(),
        -323 <= point <= 309,
    ensures
        final(out)@ == old(out)@ + decimal_text(mant@.subrange(s as int, e as int), point as int),
{
    let ghost m = mant@.subrange(s as int, e as int);
    let len = e - s;
    if point <= 0 {
        push_str(out, "0.");
        push_zeros(out, (-point) as usize);
        push_char_range(out, mant, s, e);
    } else if point >= len as i128 {
        push_char_range(out, mant, s, e);
        push_zeros(out, (point - len as i128) as usize);
        push_str(out, ".0");
    } else {
        let split = s + point as usize;
        push_char_range(out, mant, s, split);
        push_str(out, ".");
        push_char_range(out, mant, split, e);
        assert(mant@.subrange(s as int, split as int) =~= m.subrange(0, point as int));
        assert(mant@.subrange(split as int, e as int) =~= m.subrange(point as int, len as int));
    }
}

/// The WGSL text of a float literal's text (see `float_literal_text`).
pub fn fmt_float(text: &str) -> (r: String)
    ensures
        r@ == float_literal_text(text@),
{
    let c = str_chars(text);
    let (mant, n2, me) = mantissa_of(&c);
    proof {
        lemma_digit_run_bound(c@, 0);
        if has_point(c@) {
            lemma_digit_run_bound(c@, int_digits(c@) + 1);
        }
    }
    let ev = exponent_of(&c, me);
    // Leading zeros of the mantissa.
    let mut k: usize = 0;
    while k < mant.len() && mant[k] == '0'
        invariant
            k <= mant.len(),
            forall|j: int| 0 <= j < k ==> mant@[j] == '0',
        decreases mant.len() - k,
    {
        k = k + 1;
    }
    proof {
        lemma_strip_leading(mant@, k as int);
        lemma_strip_done(mant@.subrange(k as int, mant@.len() as int));
    }
    let ghost m0 = mant@.subrange(k as int, mant@.len() as int);
    // Trailing zeros of what remains.
    let mut tz: usize = 0;
    while tz < mant.len() - k && mant[mant.len() - 1 - tz] == '0'
        invariant
            k <= mant.len(),
            m0 == mant@.subrange(k as int, mant@.len() as int),
            tz <= m0.len(),
            forall|j: int| m0.len() - tz <= j < m0.len() ==> m0[j] == '0',
        decreases mant.len() - k - tz,
    {
        tz = tz + 1;
    }
    proof {
        lemma_trailing(m0, tz as int);
        lemma_trailing_done(m0.subrange(0, m0.len() - tz));
    }
    let m_end = mant.len() - tz;
    let point: i128 = (mant.len() - k) as i128 + ev - n2 as i128;
    assert(mant@.subrange(k as int, m_end as int) =~= m0.subrange(0, m0.len() - tz));
    let mut out = String::new();
    if m_end == k {
        push_str(&mut out, "0.0");
    } else if point > 309 {
        push_str(&mut out, "3.4e38");
    } else if point < -323 {
        push_str(&mut out, "0.0");
    } else {
        push_decimal(&mut out, &mant, k, m_end, point);
    }
    out
}

proof fn lemma_strip_done(s: Seq<char>)
    requires
        s.len() > 0 ==> s[0] != '0',
    ensures
        strip_leading_zeros(s) == s,
{
}

proof fn lemma_trailing_done(s: Seq<char>)
    requires
        s.len() > 0 ==> s[s.len() - 1] != '0',
    ensures
        trailing_zeros(s) == 0,
{
}

proof fn lemma_digit_run_prefix(t: Seq<char>, i: int, k: int)
    requires
        0 <= i <= k < i + digit_run(t, i),
    ensures
        is_digit_char(t[k]),
    decreases k - i,
{
    if k > i {
        lemma_digit_run_prefix(t, i + 1, k);
    }
}

// ------------------------------------------------------ expressions --

/// A function's signature: its name, return type, parameter types and
/// whether it has `out` parameters.
pub struct FnSig {
    pub name: String,
    pub ret: Type,
    pub params: Vec<Type>,
    pub has_out: bool,
}

pub open spec fn sig_view(s: FnSig) -> FnSigV {
    (s.name@, s.ret, s.params@, s.has_out)
}

pub open spec fn sigs_view(v: Seq<FnSig>) -> Seq<FnSigV> {
    v.map_values(|s: FnSig| sig_view(s))
}

/// Names in scope during generation: the module's globals and functions and
/// the current function's locals (later entries shadow earlier ones).
pub struct Scope {
    pub globals: Vec<(String, Type)>,
    pub fns: Vec<FnSig>,
    pub locals: Vec<(String, Type)>,
}

impl Scope {
    pub open spec fn g(&self) -> GlobalsV {
        GlobalsV { vars: scope_view(self.globals@), fns: sigs_view(self.fns@) }
    }

    /// The position of the signature recorded last for the function `n`.
    fn find_sig(&self, n: &str) -> (r: Option<usize>)
        ensures
            r matches Some(i) ==> i < self.fns@.len() && find_fn(self.g().fns, n@) == Some(sig_view(self.fns@[i as int])),
            r is None ==> find_fn(self.g().fns, n@) is None,
    {
        let ghost fs = sigs_view(self.fns@);
        let mut i = self.fns.len();
        assert(fs.subrange(0, i as int) =~= fs);
        while i > 0
            invariant
                i <= self.fns.len(),
                fs == sigs_view(self.fns@),
                find_fn(fs, n@) == find_fn(fs.subrange(0, i as int), n@),
            decreases i,
        {
            let ghost sub = fs.subrange(0, i as int);
            assert(sub[sub.len() - 1] == sig_view(self.fns@[i - 1]));
            if str_eq(self.fns[i - 1].name.as_str(), n) {
                return Some(i - 1);
            }
            assert(sub.subrange(0, sub.len() - 1) =~= fs.subrange(0, i - 1));
            i = i - 1;
        }
        None
    }

    pub open spec fn l(&self) -> ScopeV {
        scope_view(self.locals@)
    }

    fn type_of_name(&self, n: &str) -> (r: Type)
        ensures
            r == name_type(self.g(), self.l(), n@),
    {
        match lookup_name(&self.locals, n) {
            Some(t) => t,
            None => match lookup_name(&self.globals, n) {
                Some(t) => t,
                None => Type::Float,
            },
        }
    }

    /// The type the generator assumes for `e`.
    fn infer(&self, e: &Expr) -> (r: Type)
        ensures
            r == infer(self.g(), self.l(), expr_view(*e)),
        decreases e, 2int,
    {
        match e {
            Expr::IntLit(_) => Type::Int,
            Expr::FloatLit(_) => Type::Float,
            Expr::BoolLit(_) => Type::Bool,
            Expr::Ident(n) => self.type_of_name(n),
            Expr::Unary(op, x) => if *op == UnOp::Not {
                Type::Bool
            } else {
                let ix = self.infer(x);
                if *op == UnOp::Neg && scalar_of(ix) == Type::Bool {
                    float_type_of(ix)
                } else {
                    ix
                }
            },
            Expr::PostInc(x) => self.infer(x),
            Expr::PostDec(x) => self.infer(x),
            Expr::PreInc(x) => self.infer(x),
            Expr::PreDec(x) => self.infer(x),
            Expr::Binary(op, a, b) => {
                let op = *op;
                if op == BinOp::Eq || op == BinOp::Ne || op == BinOp::Lt || op == BinOp::Gt || op == BinOp::Le
                    || op == BinOp::Ge || op == BinOp::And || op == BinOp::Or {
                    Type::Bool
                } else if is_arith(op) {
                    arith_result(self.infer(a), self.infer(b))
                } else {
                    arith_common(self.infer(a), self.infer(b))
                }
            },
            Expr::Assign(_, lhs, _) => self.infer(lhs),
            Expr::Ternary(_, t, _) => self.infer(t),
            Expr::Member(b, f) => member_type(self.infer(b), f),
            Expr::Index(b, _) => index_type(self.infer(b)),
            Expr::Construct(ty, _) => *ty,
            Expr::Call(n, args) => self.call_type(n, args),
        }
    }

    fn call_type(&self, n: &String, args: &Vec<Expr>) -> (r: Type)
        ensures
            r == call_type(self.g(), self.l(), n@, exprs_view(args@)),
        decreases args, 1int,
    {
        proof {
            lemma_exprs_view(args@);
        }
        let lower = ascii_lower(n);
        let lw = lower.as_str();
        if str_eq(lw, "dot") || str_eq(lw, "length") || str_eq(lw, "distance") || str_eq(lw, "determinant") {
            Type::Float
        } else if str_eq(lw, "tex2d") || str_eq(lw, "tex3d") || str_eq(lw, "tex2dlod") || str_eq(lw, "tex2dbias") {
            Type::Float4
        } else if str_eq(lw, "cross") {
            Type::Float3
        } else if str_eq(lw, "any") || str_eq(lw, "all") {
            Type::Bool
        } else if str_eq(lw, "mul") {
            match self.first_vector(args) {
                Some(t) => t,
                None => Type::Float4,
            }
        } else if let Some(k) = self.find_sig(n.as_str()) {
            self.fns[k].ret
        } else if args.len() > 0 {
            self.infer(&args[0])
        } else {
            Type::Float
        }
    }

    fn first_vector(&self, args: &Vec<Expr>) -> (r: Option<Type>)
        ensures
            r == first_vector_type(self.g(), self.l(), exprs_view(args@)),
        decreases args, 0int,
    {
        let ghost a = exprs_view(args@);
        proof {
            lemma_exprs_view(args@);
        }
        let mut i: usize = 0;
        assert(a.subrange(0, a.len() as int) =~= a);
        while i < args.len()
            invariant
                i <= args.len(),
                a == exprs_view(args@),
                a.len() == args.len(),
                forall|j: int| 0 <= j < a.len() ==> #[trigger] a[j] == expr_view(args@[j]),
                first_vector_type(self.g(), self.l(), a) == first_vector_type(self.g(), self.l(), a.subrange(i as int, a.len() as int)),
            decreases args.len() - i,
        {
            let ghost rest = a.subrange(i as int, a.len() as int);
            assert(rest[0] == a[i as int]);
            assert(rest.subrange(1, rest.len() as int) =~= a.subrange(i + 1, a.len() as int));
            let t = self.infer(&args[i]);
            if t.vector_len().is_some() {
                return Some(t);
            }
            i = i + 1;
        }
        None
    }

    fn fold_common(&self, args: &Vec<Expr>) -> (r: Type)
        ensures
            r == fold_common(self.g(), self.l(), exprs_view(args@)),
    {
        let ghost a = exprs_view(args@);
        proof {
            lemma_exprs_view(args@);
        }
        let mut acc = Type::Float;
        assert(a.subrange(0, 0) =~= Seq::<ExprV>::empty());
        for i in 0..args.len()
            invariant
                a == exprs_view(args@),
                a.len() == args.len(),
                forall|j: int| 0 <= j < a.len() ==> #[trigger] a[j] == expr_view(args@[j]),
                acc == fold_common(self.g(), self.l(), a.subrange(0, i as int)),
        {
            let t = self.infer(&args[i]);
            assert(a.subrange(0, i + 1).subrange(0, i as int) =~= a.subrange(0, i as int));
            acc = arith_common(acc, t);
        }
        assert(a.subrange(0, a.len() as int) =~= a);
        acc
    }

    /// Appends the WGSL text of `e`; `want` is the preferred scalar type for
    /// integer literals.
    #[verifier::rlimit(80)]
    fn expr(&self, out: &mut String, e: &Expr, want: Type)
        ensures
            final(out)@ == old(out)@ + gen_expr(self.g(), self.l(), expr_view(*e), want),
        decreases e, 1int,
    {
        let ghost o = out@;
        match e {
            Expr::IntLit(v) => {
                push_int(out, *v);
                if want != Type::Int {
                    push_str(out, ".0");
                }
            },
            Expr::FloatLit(t) => {
                let s = fmt_float(t);
                push_str(out, &s);
            },
            Expr::BoolLit(b) => {
                if *b {
                    push_str(out, "true");
                } else {
                    push_str(out, "false");
                }
            },
            Expr::Ident(n) => push_ident(out, n),
            Expr::Unary(..) => self.unary_expr(out, e, want),
            Expr::PostInc(x) => self.expr(out, x, want),
            Expr::PostDec(x) => self.expr(out, x, want),
            Expr::PreInc(x) => self.expr(out, x, want),
            Expr::PreDec(x) => self.expr(out, x, want),
            Expr::Binary(..) => self.binary_expr(out, e),
            Expr::Assign(_, lhs, _) => self.expr(out, lhs, want),
            Expr::Ternary(c, t, f) => {
                let ty = self.infer(t);
                push_str(out, "select(");
                self.broadcast(out, f, ty);
                push_str(out, ", ");
                self.expr(out, t, scalar_of(ty));
                push_str(out, ", ");
                self.expr(out, c, Type::Bool);
                push_str(out, ")");
            },
            Expr::Member(b, f) => {
                let bt = self.infer(b);
                if bt.is_scalar() && is_swizzle(f) {
                    if str_chars(f).len() == 1 {
                        self.expr(out, b, Type::Float);
                    } else {
                        push_str(out, wgsl_type(member_type(bt, f)));
                        push_str(out, "(");
                        self.expr(out, b, Type::Float);
                        push_str(out, ")");
                    }
                } else {
                    self.expr(out, b, Type::Float);
                    push_str(out, ".");
                    push_str(out, f);
                }
            },
            Expr::Index(b, i) => {
                self.expr(out, b, Type::Float);
                push_str(out, "[");
                self.expr(out, i, Type::Int);
                push_str(out, "]");
            },
            Expr::Construct(..) => self.construct_expr(out, e),
            Expr::Call(n, args) => self.call(out, n, args),
        }
    }

    fn unary_expr(&self, out: &mut String, e: &Expr, want: Type)
        requires
            e is Unary,
        ensures
            final(out)@ == old(out)@ + gen_expr(self.g(), self.l(), expr_view(*e), want),
        decreases e, 0int,
    {
        match e {
            Expr::Unary(op, x) => {
                push_str(out, un_op_str(*op));
                push_str(out, "(");
                let ix = self.infer(x);
                let conv = *op == UnOp::Neg && scalar_of(ix) == Type::Bool;
                if conv {
                    push_str(out, wgsl_type(float_type_of(ix)));
                    push_str(out, "(");
                }
                self.expr(out, x, if *op == UnOp::Not { Type::Bool } else { want });
                if conv {
                    push_str(out, ")");
                }
                push_str(out, ")");
            },
            _ => {},
        }
    }

    #[verifier::spinoff_prover]
    #[verifier::rlimit(80)]
    fn binary_expr(&self, out: &mut String, e: &Expr)
        requires
            e is Binary,
        ensures
            forall|want: Type| final(out)@ == old(out)@ + gen_expr(self.g(), self.l(), expr_view(*e), want),
        decreases e, 0int,
    {
        match e {
            Expr::Binary(op, a, b) => {
                let op = *op;
                push_str(out, "(");
                if op == BinOp::And || op == BinOp::Or {
                    self.expr(out, a, Type::Bool);
                    push_str(out, " ");
                    push_str(out, bin_op_str(op));
                    push_str(out, " ");
                    self.expr(out, b, Type::Bool);
                } else {
                    let common = if is_arith(op) {
                        arith_result(self.infer(a), self.infer(b))
                    } else {
                        arith_common(self.infer(a), self.infer(b))
                    };
                    self.broadcast(out, a, common);
                    push_str(out, " ");
                    push_str(out, bin_op_str(op));
                    push_str(out, " ");
                    self.broadcast(out, b, common);
                }
                push_str(out, ")");
            },
            _ => {},
        }
    }

    #[verifier::spinoff_prover]
    #[verifier::rlimit(80)]
    fn construct_expr(&self, out: &mut String, e: &Expr)
        requires
            e is Construct,
        ensures
            forall|want: Type| final(out)@ == old(out)@ + gen_expr(self.g(), self.l(), expr_view(*e), want),
        decreases e, 0int,
    {
        match e {
            Expr::Construct(ty, args) => {
                proof {
                    lemma_exprs_view(args@);
                }
                push_str(out, wgsl_type(*ty));
                push_str(out, "(");
                if matrix_type(*ty) && args.len() == 1 && self.infer(&args[0]).vector_len().is_some() {
                    self.matrix_parts(out, &args[0]);
                } else if scalar_of(*ty) == Type::Float {
                    self.float_list(out, args);
                } else {
                    self.list(out, args, scalar_of(*ty));
                }
                push_str(out, ")");
            },
            _ => {},
        }
    }

    /// Appends `e` coerced to `target`: a scalar is broadcast to a vector
    /// target and a wider vector is truncated to the target width.
    fn broadcast(&self, out: &mut String, e: &Expr, target: Type)
        ensures
            final(out)@ == old(out)@ + gen_bcast(self.g(), self.l(), expr_view(*e), target),
        decreases e, 3int,
    {
        let et = self.infer(e);
        let tw = width_of(target);
        let ew = width_of(et);
        if target.vector_len().is_some() && et.is_scalar() {
            push_str(out, wgsl_type(target));
            push_str(out, "(");
            self.float_value(out, e, et, scalar_of(target));
            push_str(out, ")");
        } else if tw >= 1 && ew > tw {
            push_str(out, "(");
            self.float_value(out, e, et, scalar_of(target));
            push_str(out, ").");
            push_swizzle_prefix(out, tw);
        } else {
            self.float_value(out, e, et, scalar_of(target));
        }
    }

    /// Appends `e` (of type `et`) for the scalar type `want`: made a float
    /// value when `want` is float.
    fn float_value(&self, out: &mut String, e: &Expr, et: Type, want: Type)
        requires
            et == infer(self.g(), self.l(), expr_view(*e)),
        ensures
            final(out)@ == old(out)@ + (if want == Type::Float {
                float_text(et, expr_view(*e), gen_expr(self.g(), self.l(), expr_view(*e), want))
            } else {
                gen_expr(self.g(), self.l(), expr_view(*e), want)
            }),
        decreases e, 2int,
    {
        let conv = want == Type::Float && bool_or_int(et) && !matches!(e, Expr::IntLit(_));
        if conv {
            push_str(out, wgsl_type(float_type_of(et)));
            push_str(out, "(");
        }
        self.expr(out, e, want);
        if conv {
            push_str(out, ")");
        }
    }

    /// Appends the scalars a matrix given the one vector `a` is built from.
    fn matrix_parts(&self, out: &mut String, a: &Expr)
        ensures
            final(out)@ == old(out)@ + matrix_parts(self.g(), self.l(), expr_view(*a)),
        decreases a, 2int,
    {
        match a {
            Expr::Construct(vt, inner) => {
                if vt.vector_len().is_some() {
                    self.float_list(out, inner);
                    return;
                }
            },
            _ => {},
        }
        let mut t = String::new();
        self.expr(&mut t, a, Type::Float);
        let n = width_of(self.infer(a));
        push_components(out, t.as_str(), n);
    }

    /// Appends the arguments as float values, separated by `", "`.
    fn float_list(&self, out: &mut String, args: &Vec<Expr>)
        ensures
            final(out)@ == old(out)@ + gen_float_list(self.g(), self.l(), exprs_view(args@)),
        decreases args, 0int,
    {
        let ghost a = exprs_view(args@);
        let ghost o = out@;
        proof {
            lemma_exprs_view(args@);
        }
        assert(a.subrange(0, 0) =~= Seq::<ExprV>::empty());
        for i in 0..args.len()
            invariant
                a == exprs_view(args@),
                a.len() == args.len(),
                forall|j: int| 0 <= j < a.len() ==> #[trigger] a[j] == expr_view(args@[j]),
                out@ == o + gen_float_list(self.g(), self.l(), a.subrange(0, i as int)),
        {
            assert(a.subrange(0, i + 1).subrange(0, i as int) =~= a.subrange(0, i as int));
            if i > 0 {
                push_str(out, ", ");
            }
            let et = self.infer(&args[i]);
            self.float_value(out, &args[i], et, Type::Float);
        }
        assert(a.subrange(0, a.len() as int) =~= a);
    }

    /// Appends the arguments' texts separated by `", "`.
    fn list(&self, out: &mut String, args: &Vec<Expr>, want: Type)
        ensures
            final(out)@ == old(out)@ + gen_list(self.g(), self.l(), exprs_view(args@), want),
        decreases args, 0int,
    {
        let ghost a = exprs_view(args@);
        let ghost o = out@;
        proof {
            lemma_exprs_view(args@);
        }
        assert(a.subrange(0, 0) =~= Seq::<ExprV>::empty());
        for i in 0..args.len()
            invariant
                a == exprs_view(args@),
                a.len() == args.len(),
                forall|j: int| 0 <= j < a.len() ==> #[trigger] a[j] == expr_view(args@[j]),
                out@ == o + gen_list(self.g(), self.l(), a.subrange(0, i as int), want),
        {
            assert(a.subrange(0, i + 1).subrange(0, i as int) =~= a.subrange(0, i as int));
            if i > 0 {
                push_str(out, ", ");
            }
            self.expr(out, &args[i], want);
        }
        assert(a.subrange(0, a.len() as int) =~= a);
    }

    /// Appends the arguments, each coerced to its parameter's type.
    fn coerced_list(&self, out: &mut String, args: &Vec<Expr>, tys: &Vec<Type>)
        requires
            tys.len() == args.len(),
        ensures
            final(out)@ == old(out)@ + gen_coerced_list(self.g(), self.l(), exprs_view(args@), tys@),
        decreases args, 0int,
    {
        let ghost a = exprs_view(args@);
        let ghost o = out@;
        proof {
            lemma_exprs_view(args@);
        }
        assert(a.subrange(0, 0) =~= Seq::<ExprV>::empty());
        for i in 0..args.len()
            invariant
                a == exprs_view(args@),
                a.len() == args.len(),
                tys.len() == args.len(),
                forall|j: int| 0 <= j < a.len() ==> #[trigger] a[j] == expr_view(args@[j]),
                out@ == o + gen_coerced_list(self.g(), self.l(), a.subrange(0, i as int), tys@),
        {
            assert(a.subrange(0, i + 1).subrange(0, i as int) =~= a.subrange(0, i as int));
            if i > 0 {
                push_str(out, ", ");
            }
            self.broadcast(out, &args[i], tys[i]);
        }
        assert(a.subrange(0, a.len() as int) =~= a);
    }

    /// Appends the arguments coerced to `target`, separated by `", "`.
    fn broadcast_list(&self, out: &mut String, args: &Vec<Expr>, target: Type)
        ensures
            final(out)@ == old(out)@ + gen_bcast_list(self.g(), self.l(), exprs_view(args@), target),
        decreases args, 0int,
    {
        let ghost a = exprs_view(args@);
        let ghost o = out@;
        proof {
            lemma_exprs_view(args@);
        }
        assert(a.subrange(0, 0) =~= Seq::<ExprV>::empty());
        for i in 0..args.len()
            invariant
                a == exprs_view(args@),
                a.len() == args.len(),
                forall|j: int| 0 <= j < a.len() ==> #[trigger] a[j] == expr_view(args@[j]),
                out@ == o + gen_bcast_list(self.g(), self.l(), a.subrange(0, i as int), target),
        {
            assert(a.subrange(0, i + 1).subrange(0, i as int) =~= a.subrange(0, i as int));
            if i > 0 {
                push_str(out, ", ");
            }
            self.broadcast(out, &args[i], target);
        }
        assert(a.subrange(0, a.len() as int) =~= a);
    }

    /// Appends a texture coordinate; `tex2D` keeps the first two components.
    fn tex_coord(&self, out: &mut String, lower: &str, a: &Expr)
        ensures
            final(out)@ == old(out)@ + tex_coord(self.g(), self.l(), lower@, expr_view(*a)),
        decreases a, 2int,
    {
        let wide = match self.infer(a).vector_len() {
            Some(n) => n > 2,
            None => false,
        };
        if str_eq(lower, "tex2d") && wide {
            push_str(out, "(");
            self.expr(out, a, Type::Float);
            push_str(out, ").xy");
        } else {
            self.expr(out, a, Type::Float);
        }
    }

    fn texture_call(&self, out: &mut String, lw: &str, args: &Vec<Expr>)
        requires
            args.len() >= 2,
        ensures
            final(out)@ == old(out)@ + ({
                let a = exprs_view(args@);
                let s = gen_expr(self.g(), self.l(), a[0], Type::Float);
                "textureSample("@ + s + ", "@ + s + "_sampler, "@ + tex_coord(self.g(), self.l(), lw@, a[1]) + ")"@
            }),
        decreases args, 1int,
    {
        proof {
            lemma_exprs_view(args@);
        }
        let mut s = String::new();
        self.expr(&mut s, &args[0], Type::Float);
        assert(s@ =~= gen_expr(self.g(), self.l(), exprs_view(args@)[0], Type::Float));
        push_str(out, "textureSample(");
        push_str(out, &s);
        push_str(out, ", ");
        push_str(out, &s);
        push_str(out, "_sampler, ");
        self.tex_coord(out, lw, &args[1]);
        push_str(out, ")");
    }

    fn lerp_call(&self, out: &mut String, args: &Vec<Expr>)
        requires
            args.len() == 3,
        ensures
            final(out)@ == old(out)@ + ({
                let a = exprs_view(args@);
                let ty = fold_common(self.g(), self.l(), a);
                "mix("@ + gen_bcast(self.g(), self.l(), a[0], ty) + ", "@ + gen_bcast(self.g(), self.l(), a[1], ty) + ", "@
                    + gen_expr(self.g(), self.l(), a[2], Type::Float) + ")"@
            }),
        decreases args, 1int,
    {
        proof {
            lemma_exprs_view(args@);
        }
        let ty = self.fold_common(args);
        push_str(out, "mix(");
        self.broadcast(out, &args[0], ty);
        push_str(out, ", ");
        self.broadcast(out, &args[1], ty);
        push_str(out, ", ");
        self.expr(out, &args[2], Type::Float);
        push_str(out, ")");
    }

    /// Appends an increment (`up`) or decrement statement of `x`.
    fn step(&self, out: &mut String, x: &Expr, up: bool)
        ensures
            final(out)@ == old(out)@ + step_text(self.g(), self.l(), expr_view(*x), up),
    {
        let ty = self.infer(x);
        if scalar_of(ty) == Type::Float {
            let mut t = String::new();
            self.expr(&mut t, x, Type::Float);
            push_str(out, t.as_str());
            push_str(out, " = (");
            push_str(out, t.as_str());
            push_str(out, if up { " + 1.0);\n" } else { " - 1.0);\n" });
        } else {
            self.expr(out, x, Type::Int);
            push_str(out, if up { "++;\n" } else { "--;\n" });
        }
    }

    fn saturate_call(&self, out: &mut String, args: &Vec<Expr>)
        requires
            args.len() == 1,
        ensures
            final(out)@ == old(out)@ + ({
                let a = exprs_view(args@);
                let ty = infer(self.g(), self.l(), a[0]);
                "clamp("@ + gen_expr(self.g(), self.l(), a[0], scalar_type(ty)) + ", "@ + lit_broadcast(ty, "0.0"@) + ", "@
                    + lit_broadcast(ty, "1.0"@) + ")"@
            }),
        decreases args, 1int,
    {
        proof {
            lemma_exprs_view(args@);
        }
        let ty = self.infer(&args[0]);
        push_str(out, "clamp(");
        self.expr(out, &args[0], scalar_of(ty));
        push_str(out, ", ");
        broadcast_scalar_literal(out, ty, "0.0");
        push_str(out, ", ");
        broadcast_scalar_literal(out, ty, "1.0");
        push_str(out, ")");
    }

    fn fmod_call(&self, out: &mut String, args: &Vec<Expr>)
        requires
            args.len() == 2,
        ensures
            final(out)@ == old(out)@ + ({
                let a = exprs_view(args@);
                let common = common_type(infer(self.g(), self.l(), a[0]), infer(self.g(), self.l(), a[1]));
                "("@ + gen_bcast(self.g(), self.l(), a[0], common) + " % "@ + gen_bcast(self.g(), self.l(), a[1], common) + ")"@
            }),
        decreases args, 1int,
    {
        proof {
            lemma_exprs_view(args@);
        }
        let common = arith_common(self.infer(&args[0]), self.infer(&args[1]));
        push_str(out, "(");
        self.broadcast(out, &args[0], common);
        push_str(out, " % ");
        self.broadcast(out, &args[1], common);
        push_str(out, ")");
    }

    fn mul_call(&self, out: &mut String, args: &Vec<Expr>)
        requires
            args.len() == 2,
        ensures
            final(out)@ == old(out)@ + ({
                let a = exprs_view(args@);
                if is_matrix(infer(self.g(), self.l(), a[0])) || is_matrix(infer(self.g(), self.l(), a[1])) {
                    "("@ + gen_expr(self.g(), self.l(), a[1], Type::Float) + " * "@ + gen_expr(
                        self.g(),
                        self.l(),
                        a[0],
                        Type::Float,
                    ) + ")"@
                } else {
                    "("@ + gen_expr(self.g(), self.l(), a[0], Type::Float) + " * "@ + gen_expr(
                        self.g(),
                        self.l(),
                        a[1],
                        Type::Float,
                    ) + ")"@
                }
            }),
        decreases args, 1int,
    {
        proof {
            lemma_exprs_view(args@);
        }
        let flip = matrix_type(self.infer(&args[0])) || matrix_type(self.infer(&args[1]));
        let (first, second) = if flip { (1, 0) } else { (0, 1) };
        push_str(out, "(");
        self.expr(out, &args[first], Type::Float);
        push_str(out, " * ");
        self.expr(out, &args[second], Type::Float);
        push_str(out, ")");
    }

    /// Appends a call: texture sampling with the `<s>` / `<s>_sampler`
    /// binding convention, remapped intrinsics, or a plain call under the
    /// lower-cased name.
    #[verifier::spinoff_prover]
    #[verifier::rlimit(80)]
    fn call(&self, out: &mut String, n: &String, args: &Vec<Expr>)
        ensures
            final(out)@ == old(out)@ + gen_call(self.g(), self.l(), n@, exprs_view(args@)),
        decreases args, 2int,
    {
        proof {
            lemma_exprs_view(args@);
        }
        let lower = ascii_lower(n);
        let lw = lower.as_str();
        let nargs = args.len();
        if (str_eq(lw, "tex2d") || str_eq(lw, "tex3d") || str_eq(lw, "tex2dlod") || str_eq(lw, "tex2dbias"))
            && nargs >= 2 {
            self.texture_call(out, lw, args);
        } else if str_eq(lw, "lerp") && nargs == 3 {
            self.lerp_call(out, args);
        } else if str_eq(lw, "saturate") && nargs == 1 {
            self.saturate_call(out, args);
        } else if str_eq(lw, "frac") {
            self.simple_call(out, "fract", args);
        } else if str_eq(lw, "rsqrt") {
            self.simple_call(out, "inverseSqrt", args);
        } else if str_eq(lw, "ddx") {
            self.simple_call(out, "dpdx", args);
        } else if str_eq(lw, "ddy") {
            self.simple_call(out, "dpdy", args);
        } else if str_eq(lw, "fmod") && nargs == 2 {
            self.fmod_call(out, args);
        } else if str_eq(lw, "mul") && nargs == 2 {
            self.mul_call(out, args);
        } else {
            let common_call = str_eq(lw, "pow") || str_eq(lw, "min") || str_eq(lw, "max") || str_eq(lw, "step")
                || str_eq(lw, "clamp") || str_eq(lw, "atan") || str_eq(lw, "smoothstep") || str_eq(lw, "dot")
                || str_eq(lw, "distance") || str_eq(lw, "reflect");
            if common_call {
                let common = self.fold_common(args);
                if common.vector_len().is_some() {
                    push_str(out, lw);
                    push_str(out, "(");
                    self.broadcast_list(out, args, common);
                    push_str(out, ")");
                    return;
                }
            }
            if let Some(k) = self.find_sig(n.as_str()) {
                if !self.fns[k].has_out && self.fns[k].params.len() == nargs {
                    push_str(out, n.as_str());
                    push_str(out, "(");
                    self.coerced_list(out, args, &self.fns[k].params);
                    push_str(out, ")");
                    return;
                }
            }
            self.simple_call(out, lw, args);
        }
    }

    /// Appends `name(args)` with float-formatted literals.
    fn simple_call(&self, out: &mut String, name: &str, args: &Vec<Expr>)
        ensures
            final(out)@ == old(out)@ + name@ + "("@ + gen_list(self.g(), self.l(), exprs_view(args@), Type::Float) + ")"@,
        decreases args, 1int,
    {
        push_str(out, name);
        push_str(out, "(");
        self.list(out, args, Type::Float);
        push_str(out, ")");
    }
}

/// Whether `e` reads no variable.
fn is_const(e: &Expr) -> (r: bool)
    ensures
        r == is_const_expr(expr_view(*e)),
    decreases e, 1int,
{
    match e {
        Expr::IntLit(_) | Expr::FloatLit(_) | Expr::BoolLit(_) => true,
        Expr::Unary(_, x) => is_const(x),
        Expr::Binary(_, a, b) => is_const(a) && is_const(b),
        Expr::Ternary(c, t, f) => is_const(c) && is_const(t) && is_const(f),
        Expr::Member(b, _) => is_const(b),
        Expr::Index(b, i) => is_const(b) && is_const(i),
        Expr::Construct(_, args) => are_const(args),
        Expr::Call(_, args) => are_const(args),
        _ => false,
    }
}

fn are_const(args: &Vec<Expr>) -> (r: bool)
    ensures
        r == all_const(exprs_view(args@)),
    decreases args, 0int,
{
    let ghost a = exprs_view(args@);
    proof {
        lemma_exprs_view(args@);
    }
    assert(a.subrange(0, 0) =~= Seq::<ExprV>::empty());
    let mut i: usize = 0;
    while i < args.len()
        invariant
            a == exprs_view(args@),
            a.len() == args.len(),
            forall|j: int| 0 <= j < a.len() ==> #[trigger] a[j] == expr_view(args@[j]),
            i <= args.len(),
            all_const(a.subrange(0, i as int)),
        decreases args.len() - i,
    {
        assert(a.subrange(0, i + 1).subrange(0, i as int) =~= a.subrange(0, i as int));
        if !is_const(&args[i]) {
            proof {
                lemma_all_const_prefix(a, i + 1);
            }
            return false;
        }
        i = i + 1;
    }
    assert(a.subrange(0, a.len() as int) =~= a);
    true
}

/// A sequence whose prefix has a non-constant element is not all constant.
proof fn lemma_all_const_prefix(a: Seq<ExprV>, k: int)
    requires
        0 < k <= a.len(),
        !all_const(a.subrange(0, k)),
    ensures
        !all_const(a),
    decreases a.len(),
{
    if k == a.len() {
        assert(a.subrange(0, k) =~= a);
    } else {
        assert(a.subrange(0, a.len() - 1).subrange(0, k) =~= a.subrange(0, k));
        lemma_all_const_prefix(a.subrange(0, a.len() - 1), k);
    }
}

// ---------------------------------------------------- mutated names --

fn root_ident_of(e: &Expr) -> (r: Option<&String>)
    ensures
        match r {
            Some(n) => root_ident(expr_view(*e)) == Some(n@),
            None => root_ident(expr_view(*e)) is None,
        },
    decreases e,
{
    match e {
        Expr::Ident(n) => Some(n),
        Expr::Member(b, _) => root_ident_of(b),
        Expr::Index(b, _) => root_ident_of(b),
        _ => None,
    }
}

fn is_root(e: &Expr, n: &str) -> (r: bool)
    ensures
        r == (root_ident(expr_view(*e)) == Some(n@)),
{
    match root_ident_of(e) {
        Some(m) => str_eq(m, n),
        None => false,
    }
}

/// Whether `n` is the root of an assignment or increment target in `e`.
fn expr_mutates_name(e: &Expr, n: &str) -> (r: bool)
    ensures
        r == expr_mutates(expr_view(*e), n@),
    decreases e, 1int,
{
    match e {
        Expr::Assign(_, t, v) => is_root(t, n) || expr_mutates_name(v, n),
        Expr::PreInc(x) => is_root(x, n),
        Expr::PostInc(x) => is_root(x, n),
        Expr::PreDec(x) => is_root(x, n),
        Expr::PostDec(x) => is_root(x, n),
        Expr::Unary(_, x) => expr_mutates_name(x, n),
        Expr::Binary(_, a, b) => expr_mutates_name(a, n) || expr_mutates_name(b, n),
        Expr::Ternary(c, t, f) => expr_mutates_name(c, n) || expr_mutates_name(t, n) || expr_mutates_name(f, n),
        Expr::Member(b, _) => expr_mutates_name(b, n),
        Expr::Index(b, i) => expr_mutates_name(b, n) || expr_mutates_name(i, n),
        Expr::Call(_, args) => exprs_mutate_name(args, n),
        Expr::Construct(_, args) => exprs_mutate_name(args, n),
        _ => false,
    }
}

fn exprs_mutate_name(args: &Vec<Expr>, n: &str) -> (r: bool)
    ensures
        r == exprs_mutate(exprs_view(args@), n@),
    decreases args, 0int,
{
    let ghost a = exprs_view(args@);
    proof {
        lemma_exprs_view(args@);
    }
    let mut found = false;
    assert(a.subrange(0, 0) =~= Seq::<ExprV>::empty());
    for i in 0..args.len()
        invariant
            a == exprs_view(args@),
            a.len() == args.len(),
            forall|j: int| 0 <= j < a.len() ==> #[trigger] a[j] == expr_view(args@[j]),
            found == exprs_mutate(a.subrange(0, i as int), n@),
    {
        assert(a.subrange(0, i + 1).subrange(0, i as int) =~= a.subrange(0, i as int));
        let m = expr_mutates_name(&args[i], n);
        found = found || m;
    }
    assert(a.subrange(0, a.len() as int) =~= a);
    found
}

fn opt_expr_mutates_name(e: &Option<Expr>, n: &str) -> (r: bool)
    ensures
        r == opt_expr_mutates(opt_expr_view(*e), n@),
{
    match e {
        Some(x) => expr_mutates_name(x, n),
        None => false,
    }
}

/// Whether `n` is assigned or incremented anywhere in `s`.
fn stmt_mutates_name(s: &Stmt, n: &str) -> (r: bool)
    ensures
        r == stmt_mutates(stmt_view(*s), n@),
    decreases s, 1int,
{
    match s {
        Stmt::Decl { init, .. } => opt_expr_mutates_name(init, n),
        Stmt::Expr(e) => expr_mutates_name(e, n),
        Stmt::Return(v) => opt_expr_mutates_name(v, n),
        Stmt::Block(b) => stmts_mutate_name(b, n),
        Stmt::If(c, t, e) => {
            expr_mutates_name(c, n) || stmt_mutates_name(t, n) || match e {
                Some(x) => stmt_mutates_name(x, n),
                None => false,
            }
        },
        Stmt::While(c, b) => expr_mutates_name(c, n) || stmt_mutates_name(b, n),
        Stmt::For(i, c, u, b) => {
            (match i {
                Some(x) => stmt_mutates_name(x, n),
                None => false,
            }) || opt_expr_mutates_name(c, n) || opt_expr_mutates_name(u, n) || stmt_mutates_name(b, n)
        },
    }
}

fn stmts_mutate_name(b: &Vec<Stmt>, n: &str) -> (r: bool)
    ensures
        r == stmts_mutate(stmts_view(b@), n@),
    decreases b, 0int,
{
    let ghost a = stmts_view(b@);
    proof {
        lemma_stmts_view(b@);
    }
    let mut found = false;
    assert(a.subrange(0, 0) =~= Seq::<StmtV>::empty());
    for i in 0..b.len()
        invariant
            a == stmts_view(b@),
            a.len() == b.len(),
            forall|j: int| 0 <= j < a.len() ==> #[trigger] a[j] == stmt_view(b@[j]),
            found == stmts_mutate(a.subrange(0, i as int), n@),
    {
        assert(a.subrange(0, i + 1).subrange(0, i as int) =~= a.subrange(0, i as int));
        let m = stmt_mutates_name(&b[i], n);
        found = found || m;
    }
    assert(a.subrange(0, a.len() as int) =~= a);
    found
}

// ------------------------------------------------------- statements --

/// The code generator: the names in scope, the text so far and the counter
/// for swizzle-assignment temporaries.
pub struct Generator {
    pub scope: Scope,
    pub out: String,
    pub temp: usize,
}

impl Generator {
    pub open spec fn state(&self) -> GenV {
        (self.out@, self.scope.l(), self.temp as nat)
    }

    #[verifier::rlimit(60)]
    fn swizzle_assign(&mut self, op: AssignOp, base: &Expr, field: &String, rhs: &Expr, target_ty: Type, pad: &String)
        ensures
            final(self).scope.globals@ == old(self).scope.globals@,
            final(self).scope.fns@ == old(self).scope.fns@,
            final(self).scope.locals@ == old(self).scope.locals@,
            final(self).temp as nat == next_temp(old(self).temp as nat),
            final(self).out@ == old(self).out@ + pad@ + "{\n"@ + pad@ + "    let "@ + ("_pm_tmp"@ + nat_text(old(self).temp as nat))
                + " = "@ + gen_bcast(old(self).scope.g(), old(self).scope.l(), expr_view(*rhs), target_ty) + ";\n"@
                + swizzle_lines(pad@, gen_expr(old(self).scope.g(), old(self).scope.l(), expr_view(*base), Type::Float), field@,
                assign_text(op), "_pm_tmp"@ + nat_text(old(self).temp as nat)) + pad@ + "}\n"@,
    {
        let ghost o = self.out@;
        let mut base_s = String::new();
        self.scope.expr(&mut base_s, base, Type::Float);
        let mut tmp = String::new();
        push_str(&mut tmp, "_pm_tmp");
        push_nat(&mut tmp, self.temp as u64);
        if self.temp < usize::MAX {
            self.temp = self.temp + 1;
        }
        push_str(&mut self.out, pad);
        push_str(&mut self.out, "{\n");
        push_str(&mut self.out, pad);
        push_str(&mut self.out, "    let ");
        push_str(&mut self.out, &tmp);
        push_str(&mut self.out, " = ");
        self.scope.broadcast(&mut self.out, rhs, target_ty);
        push_str(&mut self.out, ";\n");
        let ghost o2 = self.out@;
        let cs = str_chars(field);
        let op_s = assign_op_str(op);
        assert(field@.take(0) =~= Seq::<char>::empty());
        for i in 0..cs.len()
            invariant
                cs@ == field@,
                self.scope.globals@ == old(self).scope.globals@,
                self.scope.fns@ == old(self).scope.fns@,
                self.scope.locals@ == old(self).scope.locals@,
                self.temp as nat == next_temp(old(self).temp as nat),
                self.out@ == o2 + swizzle_lines(pad@, base_s@, field@.take(i as int), op_s@, tmp@),
        {
            assert(field@.take(i + 1).subrange(0, i as int) =~= field@.take(i as int));
            assert(field@.take(i + 1)[i as int] == cs@[i as int]);
            push_str(&mut self.out, pad);
            push_str(&mut self.out, "    ");
            push_str(&mut self.out, &base_s);
            push_str(&mut self.out, ".");
            push_char(&mut self.out, cs[i]);
            push_str(&mut self.out, " ");
            push_str(&mut self.out, op_s);
            push_str(&mut self.out, " ");
            push_str(&mut self.out, &tmp);
            push_str(&mut self.out, "[");
            push_nat(&mut self.out, i as u64);
            push_str(&mut self.out, "];\n");
            assert(seq![cs@[i as int]] =~= seq![field@.take(i + 1)[i as int]]);
        }
        assert(field@.take(cs.len() as int) =~= field@);
        push_str(&mut self.out, pad);
        push_str(&mut self.out, "}\n");
    }

    fn plain_assign(&mut self, op: AssignOp, lhs: &Expr, rhs: &Expr, target_ty: Type, pad: &String)
        ensures
            final(self).scope.globals@ == old(self).scope.globals@,
            final(self).scope.fns@ == old(self).scope.fns@,
            final(self).scope.locals@ == old(self).scope.locals@,
            final(self).temp == old(self).temp,
            final(self).out@ == old(self).out@ + pad@ + gen_expr(old(self).scope.g(), old(self).scope.l(), expr_view(*lhs), Type::Float)
                + " "@ + assign_text(op) + " "@ + gen_bcast(old(self).scope.g(), old(self).scope.l(), expr_view(*rhs), target_ty)
                + ";\n"@,
    {
        push_str(&mut self.out, pad);
        self.scope.expr(&mut self.out, lhs, Type::Float);
        push_str(&mut self.out, " ");
        push_str(&mut self.out, assign_op_str(op));
        push_str(&mut self.out, " ");
        self.scope.broadcast(&mut self.out, rhs, target_ty);
        push_str(&mut self.out, ";\n");
    }

    /// An assignment statement.
    #[verifier::rlimit(40)]
    fn emit_assign(&mut self, op: AssignOp, lhs: &Expr, rhs: &Expr, pad: &String)
        ensures
            final(self).scope.globals@ == old(self).scope.globals@,
            final(self).scope.fns@ == old(self).scope.fns@,
            final(self).state() == gen_assign(old(self).scope.g(), old(self).state(), op, expr_view(*lhs), expr_view(*rhs), pad@),
    {
        let target_ty = self.scope.infer(lhs);
        match lhs {
            Expr::Member(base, field) => {
                if is_swizzle(field) && str_chars(field).len() > 1 {
                    self.swizzle_assign(op, base, field, rhs, target_ty, pad);
                } else {
                    self.plain_assign(op, lhs, rhs, target_ty, pad);
                }
            },
            _ => self.plain_assign(op, lhs, rhs, target_ty, pad),
        }
    }

    /// An expression statement.
    fn emit_expr_stmt(&mut self, e: &Expr, pad: &String)
        ensures
            final(self).scope.globals@ == old(self).scope.globals@,
            final(self).scope.fns@ == old(self).scope.fns@,
            final(self).state() == gen_expr_stmt(old(self).scope.g(), old(self).state(), expr_view(*e), pad@),
    {
        match e {
            Expr::PostInc(x) | Expr::PreInc(x) => {
                push_str(&mut self.out, pad);
                self.scope.step(&mut self.out, x, true);
            },
            Expr::PostDec(x) | Expr::PreDec(x) => {
                push_str(&mut self.out, pad);
                self.scope.step(&mut self.out, x, false);
            },
            Expr::Assign(op, lhs, rhs) => self.emit_assign(*op, lhs, rhs, pad),
            _ => {
                push_str(&mut self.out, pad);
                self.scope.expr(&mut self.out, e, Type::Float);
                push_str(&mut self.out, ";\n");
            },
        }
    }

    /// A statement at indentation `pad`; `ret` is what `return` yields in a
    /// function with `out` parameters.
    #[verifier::rlimit(80)]
    fn stmt(&mut self, s: &Stmt, pad: &String, ret: &Option<String>, rty: Type)
        ensures
            final(self).scope.globals@ == old(self).scope.globals@,
            final(self).scope.fns@ == old(self).scope.fns@,
            final(self).state() == gen_stmt(old(self).scope.g(), old(self).state(), stmt_view(*s), pad@, opt_string_view(*ret), rty),
        decreases s, 1int,
    {
        let mut inner = pad.clone();
        push_str(&mut inner, "    ");
        match s {
            Stmt::Decl { ty, name, init } => {
                self.scope.locals.push((name.clone(), *ty));
                proof {
                    assert(scope_view(self.scope.locals@) =~= scope_view(old(self).scope.locals@).push((name@, *ty)));
                }
                push_str(&mut self.out, pad);
                push_str(&mut self.out, "var ");
                push_ident(&mut self.out, name);
                push_str(&mut self.out, ": ");
                push_str(&mut self.out, wgsl_type(*ty));
                push_str(&mut self.out, " = ");
                match init {
                    Some(e) => self.scope.broadcast(&mut self.out, e, *ty),
                    None => push_zero_value(&mut self.out, *ty),
                }
                push_str(&mut self.out, ";\n");
            },
            Stmt::Expr(e) => self.emit_expr_stmt(e, pad),
            Stmt::Return(v) => {
                push_str(&mut self.out, pad);
                match ret {
                    Some(re) => {
                        push_str(&mut self.out, "return ");
                        push_str(&mut self.out, re);
                        push_str(&mut self.out, ";\n");
                    },
                    None => match v {
                        Some(e) => {
                            push_str(&mut self.out, "return ");
                            self.scope.expr(&mut self.out, e, Type::Float);
                            if rty == Type::Bool {
                                let et = self.scope.infer(e);
                                if et == Type::Float {
                                    push_str(&mut self.out, " != 0.0");
                                } else if et == Type::Int {
                                    push_str(&mut self.out, " != 0");
                                }
                            }
                            push_str(&mut self.out, ";\n");
                        },
                        None => push_str(&mut self.out, "return;\n"),
                    },
                }
            },
            Stmt::Block(b) => {
                push_str(&mut self.out, pad);
                push_str(&mut self.out, "{\n");
                self.stmts(b, &inner, ret, rty);
                push_str(&mut self.out, pad);
                push_str(&mut self.out, "}\n");
            },
            Stmt::If(c, t, e) => {
                push_str(&mut self.out, pad);
                push_str(&mut self.out, "if (");
                self.scope.expr(&mut self.out, c, Type::Bool);
                push_str(&mut self.out, ") {\n");
                self.stmt_as_block(t, &inner, ret, rty);
                match e {
                    Some(x) => {
                        push_str(&mut self.out, pad);
                        push_str(&mut self.out, "} else {\n");
                        self.stmt_as_block(x, &inner, ret, rty);
                    },
                    None => {},
                }
                push_str(&mut self.out, pad);
                push_str(&mut self.out, "}\n");
            },
            Stmt::While(c, b) => {
                push_str(&mut self.out, pad);
                push_str(&mut self.out, "while (");
                self.scope.expr(&mut self.out, c, Type::Bool);
                push_str(&mut self.out, ") {\n");
                self.stmt_as_block(b, &inner, ret, rty);
                push_str(&mut self.out, pad);
                push_str(&mut self.out, "}\n");
            },
            Stmt::For(i, c, u, b) => {
                push_str(&mut self.out, pad);
                push_str(&mut self.out, "{\n");
                match i {
                    Some(x) => self.stmt(x, &inner, ret, rty),
                    None => {},
                }
                let mut cs = String::new();
                match c {
                    Some(x) => self.scope.expr(&mut cs, x, Type::Bool),
                    None => push_str(&mut cs, "true"),
                }
                push_str(&mut self.out, pad);
                push_str(&mut self.out, "    while (");
                push_str(&mut self.out, &cs);
                push_str(&mut self.out, ") {\n");
                let mut inner2 = inner.clone();
                push_str(&mut inner2, "    ");
                proof {
                    assert(inner2@ =~= pad@ + "        "@) by {
                        reveal_strlit("    ");
                        reveal_strlit("        ");
                    }
                }
                self.stmt_as_block(b, &inner2, ret, rty);
                match u {
                    Some(x) => self.emit_expr_stmt(x, &inner2),
                    None => {},
                }
                push_str(&mut self.out, pad);
                push_str(&mut self.out, "    }\n");
                push_str(&mut self.out, pad);
                push_str(&mut self.out, "}\n");
            },
        }
    }

    /// A nested statement: a block's statements go directly at `pad`.
    fn stmt_as_block(&mut self, s: &Stmt, pad: &String, ret: &Option<String>, rty: Type)
        ensures
            final(self).scope.globals@ == old(self).scope.globals@,
            final(self).scope.fns@ == old(self).scope.fns@,
            final(self).state() == gen_as_block(old(self).scope.g(), old(self).state(), stmt_view(*s), pad@, opt_string_view(*ret), rty),
        decreases s, 2int,
    {
        match s {
            Stmt::Block(b) => self.stmts(b, pad, ret, rty),
            _ => self.stmt(s, pad, ret, rty),
        }
    }

    fn stmts(&mut self, b: &Vec<Stmt>, pad: &String, ret: &Option<String>, rty: Type)
        ensures
            final(self).scope.globals@ == old(self).scope.globals@,
            final(self).scope.fns@ == old(self).scope.fns@,
            final(self).state() == gen_stmts(old(self).scope.g(), old(self).state(), stmts_view(b@), pad@, opt_string_view(*ret), rty),
        decreases b, 0int,
    {
        let ghost a = stmts_view(b@);
        let ghost g = self.scope.g();
        let ghost st0 = self.state();
        proof {
            lemma_stmts_view(b@);
        }
        assert(a.subrange(0, 0) =~= Seq::<StmtV>::empty());
        for i in 0..b.len()
            invariant
                a == stmts_view(b@),
                a.len() == b.len(),
                forall|j: int| 0 <= j < a.len() ==> #[trigger] a[j] == stmt_view(b@[j]),
                g == self.scope.g(),
                self.scope.globals@ == old(self).scope.globals@,
                self.scope.fns@ == old(self).scope.fns@,
                self.state() == gen_stmts(g, st0, a.subrange(0, i as int), pad@, opt_string_view(*ret), rty),
        {
            assert(a.subrange(0, i + 1).subrange(0, i as int) =~= a.subrange(0, i as int));
            self.stmt(&b[i], pad, ret, rty);
        }
        assert(a.subrange(0, a.len() as int) =~= a);
    }
}

// -------------------------------------------------------- functions --

pub open spec fn params_view(v: Seq<Param>) -> Seq<ParamV> {
    v.map_values(|x: Param| x@)
}

proof fn lemma_param_split(ps: Seq<ParamV>, i: int)
    requires
        0 <= i < ps.len(),
    ensures
        out_params(ps.take(i + 1)) == (if ps[i].qualifier == ParamQual::Out {
            out_params(ps.take(i)).push(ps[i])
        } else {
            out_params(ps.take(i))
        }),
        in_params(ps.take(i + 1)) == (if ps[i].qualifier != ParamQual::Out {
            in_params(ps.take(i)).push(ps[i])
        } else {
            in_params(ps.take(i))
        }),
{
    assert(ps.take(i + 1).subrange(0, i) =~= ps.take(i));
}

proof fn lemma_push_prefix<A>(s: Seq<A>, x: A)
    ensures
        s.push(x).subrange(0, s.len() as int) == s,
        s.push(x)[s.len() as int] == x,
{
    assert(s.push(x).subrange(0, s.len() as int) =~= s);
}

impl Generator {
    /// The fields of the output struct and how many `out` parameters there are.
    #[verifier::spinoff_prover]
    #[verifier::rlimit(40)]
    fn out_struct_fields(f: &Function) -> (r: (String, usize))
        ensures
            r.0@ == out_fields(out_params(params_view(f.params@))),
            r.1 == out_params(params_view(f.params@)).len(),
    {
        let ghost ps = params_view(f.params@);
        let n = f.params.len();
        let mut fields = String::new();
        let mut nout: usize = 0;
        assert(ps.take(0) =~= Seq::<ParamV>::empty());
        for i in 0..n
            invariant
                n == f.params.len(),
                ps == params_view(f.params@),
                nout == out_params(ps.take(i as int)).len(),
                nout <= i,
                fields@ == out_fields(out_params(ps.take(i as int))),
        {
            proof {
                lemma_param_split(ps, i as int);
            }
            let p = &f.params[i];
            if p.qualifier == ParamQual::Out {
                proof {
                    lemma_push_prefix(out_params(ps.take(i as int)), ps[i as int]);
                }
                push_str(&mut fields, "    @location(");
                push_nat(&mut fields, nout as u64);
                push_str(&mut fields, ") ");
                push_ident(&mut fields, &p.name);
                push_str(&mut fields, ": ");
                push_str(&mut fields, wgsl_type(p.ty));
                push_str(&mut fields, ",\n");
                nout = nout + 1;
            }
        }
        assert(ps.take(n as int) =~= ps);
        (fields, nout)
    }

    #[verifier::spinoff_prover]
    #[verifier::rlimit(40)]
    fn push_params(out: &mut String, f: &Function)
        ensures
            final(out)@ == old(out)@ + params_text(in_params(params_view(f.params@)), stmts_view(f.body@)),
    {
        let ghost ps = params_view(f.params@);
        let ghost body = stmts_view(f.body@);
        let ghost o2 = out@;
        let n = f.params.len();
        let mut nin: usize = 0;
        assert(ps.take(0) =~= Seq::<ParamV>::empty());
        for i in 0..n
            invariant
                n == f.params.len(),
                ps == params_view(f.params@),
                body == stmts_view(f.body@),
                nin == in_params(ps.take(i as int)).len(),
                nin <= i,
                out@ == o2 + params_text(in_params(ps.take(i as int)), body),
        {
            proof {
                lemma_param_split(ps, i as int);
            }
            let p = &f.params[i];
            if p.qualifier != ParamQual::Out {
                proof {
                    lemma_push_prefix(in_params(ps.take(i as int)), ps[i as int]);
                }
                if nin > 0 {
                    push_str(out, ", ");
                }
                if stmts_mutate_name(&f.body, &p.name) {
                    push_str(out, &p.name);
                    push_str(out, "_param");
                } else {
                    push_ident(out, &p.name);
                }
                push_str(out, ": ");
                push_str(out, wgsl_type(p.ty));
                nin = nin + 1;
            }
        }
        assert(ps.take(n as int) =~= ps);
    }

    #[verifier::spinoff_prover]
    #[verifier::rlimit(40)]
    fn push_out_vars(out: &mut String, f: &Function)
        ensures
            final(out)@ == old(out)@ + out_var_lines(out_params(params_view(f.params@))),
    {
        let ghost ps = params_view(f.params@);
        let ghost o3 = out@;
        let n = f.params.len();
        assert(ps.take(0) =~= Seq::<ParamV>::empty());
        for i in 0..n
            invariant
                n == f.params.len(),
                ps == params_view(f.params@),
                out@ == o3 + out_var_lines(out_params(ps.take(i as int))),
        {
            proof {
                lemma_param_split(ps, i as int);
            }
            let p = &f.params[i];
            if p.qualifier == ParamQual::Out {
                proof {
                    lemma_push_prefix(out_params(ps.take(i as int)), ps[i as int]);
                }
                push_str(out, "    var ");
                push_ident(out, &p.name);
                push_str(out, ": ");
                push_str(out, wgsl_type(p.ty));
                push_str(out, " = ");
                push_zero_value(out, p.ty);
                push_str(out, ";\n");
            }
        }
        assert(ps.take(n as int) =~= ps);
    }

    #[verifier::spinoff_prover]
    #[verifier::rlimit(40)]
    fn push_param_copies(out: &mut String, f: &Function)
        ensures
            final(out)@ == old(out)@ + param_copy_lines(in_params(params_view(f.params@)), stmts_view(f.body@)),
    {
        let ghost ps = params_view(f.params@);
        let ghost body = stmts_view(f.body@);
        let ghost o4 = out@;
        let n = f.params.len();
        assert(ps.take(0) =~= Seq::<ParamV>::empty());
        for i in 0..n
            invariant
                n == f.params.len(),
                ps == params_view(f.params@),
                body == stmts_view(f.body@),
                out@ == o4 + param_copy_lines(in_params(ps.take(i as int)), body),
        {
            proof {
                lemma_param_split(ps, i as int);
            }
            let p = &f.params[i];
            if p.qualifier != ParamQual::Out {
                proof {
                    lemma_push_prefix(in_params(ps.take(i as int)), ps[i as int]);
                }
                if stmts_mutate_name(&f.body, &p.name) {
                    push_str(out, "    var ");
                    push_ident(out, &p.name);
                    push_str(out, " = ");
                    push_str(out, &p.name);
                    push_str(out, "_param;\n");
                }
            }
        }
        assert(ps.take(n as int) =~= ps);
    }

    /// The function's text up to its body.
    fn function_head(&mut self, f: &Function)
        ensures
            final(self).scope == old(self).scope,
            final(self).temp == old(self).temp,
            final(self).out@ == old(self).out@ + function_head(f@),
    {
        let ghost o = self.out@;
        assert(f@.params == params_view(f.params@));
        let (fields, nout) = Generator::out_struct_fields(f);
        let mut head = String::new();
        if nout > 0 {
            push_str(&mut head, "struct ");
            push_str(&mut head, &f.name);
            push_str(&mut head, "Output");
            push_str(&mut head, " {\n");
            push_str(&mut head, &fields);
            push_str(&mut head, "}\n\n");
        }
        push_str(&mut head, "fn ");
        push_str(&mut head, &f.name);
        push_str(&mut head, "(");
        Generator::push_params(&mut head, f);
        push_str(&mut head, ")");
        if nout > 0 {
            push_str(&mut head, " -> ");
            push_str(&mut head, &f.name);
            push_str(&mut head, "Output");
        } else if f.ret != Type::Void {
            push_str(&mut head, " -> ");
            push_str(&mut head, wgsl_type(f.ret));
        }
        push_str(&mut head, " {\n");
        Generator::push_out_vars(&mut head, f);
        Generator::push_param_copies(&mut head, f);
        assert(head@ =~= function_head(f@));
        push_str(&mut self.out, &head);
    }

    /// What `return` yields in a function with `out` parameters.
    #[verifier::spinoff_prover]
    #[verifier::rlimit(40)]
    fn out_return(f: &Function) -> (r: Option<String>)
        ensures
            opt_string_view(r) == out_return(f@),
    {
        let ghost ps = params_view(f.params@);
        assert(f@.params == ps);
        let mut names = String::new();
        let mut nout: usize = 0;
        assert(ps.take(0) =~= Seq::<ParamV>::empty());
        for i in 0..f.params.len()
            invariant
                ps == params_view(f.params@),
                nout == out_params(ps.take(i as int)).len(),
                nout <= i,
                names@ == names_text(out_params(ps.take(i as int))),
        {
            proof {
                lemma_param_split(ps, i as int);
            }
            let p = &f.params[i];
            if p.qualifier == ParamQual::Out {
                proof {
                    lemma_push_prefix(out_params(ps.take(i as int)), ps[i as int]);
                }
                if nout > 0 {
                    push_str(&mut names, ", ");
                }
                push_ident(&mut names, &p.name);
                nout = nout + 1;
            }
        }
        assert(ps.take(f.params.len() as int) =~= ps);
        if nout == 0 {
            None
        } else {
            let mut r = f.name.clone();
            push_str(&mut r, "Output(");
            push_str(&mut r, &names);
            push_str(&mut r, ")");
            Some(r)
        }
    }

    /// A function; its scope starts with its parameters. The entry function
    /// `PS` starts with `prologue`.
    fn function(&mut self, f: &Function, prologue: &String)
        ensures
            final(self).scope.globals@ == old(self).scope.globals@,
            final(self).scope.fns@ == old(self).scope.fns@,
            final(self).state() == gen_function(old(self).scope.g(), old(self).state(), f@, prologue@),
    {
        let ghost ps = params_view(f.params@);
        let ghost g = self.scope.g();
        let ghost st0 = self.state();
        assert(f@.params == ps);
        self.function_head(f);
        if str_eq(f.name.as_str(), "PS") {
            push_str(&mut self.out, prologue.as_str());
        }
        let mut locals: Vec<(String, Type)> = Vec::new();
        for i in 0..f.params.len()
            invariant
                ps == params_view(f.params@),
                locals@.len() == i,
                scope_view(locals@) == params_scope(ps.take(i as int)),
        {
            let ghost before = locals@;
            locals.push((f.params[i].name.clone(), f.params[i].ty));
            proof {
                assert(ps.take(i + 1) =~= ps.take(i as int).push(ps[i as int]));
                assert(ps[i as int] == f.params@[i as int]@);
                assert(locals@ =~= before.push(locals@[i as int]));
                assert(scope_view(locals@) =~= scope_view(before).push((ps[i as int].name, ps[i as int].ty)));
                assert(params_scope(ps.take(i + 1)) =~= params_scope(ps.take(i as int)).push((ps[i as int].name, ps[i as int].ty)));
            }
        }
        proof {
            assert(ps.take(f.params.len() as int) =~= ps);
        }
        self.scope.locals = locals;
        let ret = Generator::out_return(f);
        let pad = "    ".to_owned();
        self.stmts(&f.body, &pad, &ret, f.ret);
        match &ret {
            Some(re) => {
                push_str(&mut self.out, "    return ");
                push_str(&mut self.out, re);
                push_str(&mut self.out, ";\n");
            },
            None => {},
        }
        push_str(&mut self.out, "}\n\n");
    }
}

/// The signature of a function.
fn signature_of(f: &Function) -> (r: FnSig)
    ensures
        sig_view(r) == (
            f@.name,
            f@.ret,
            f@.params.map_values(|p: ParamV| p.ty),
            out_params(f@.params).len() > 0,
        ),
{
    let ghost ps = params_view(f.params@);
    let mut tys: Vec<Type> = Vec::new();
    let mut has_out = false;
    assert(ps.take(0) =~= Seq::<ParamV>::empty());
    for i in 0..f.params.len()
        invariant
            ps == params_view(f.params@),
            tys@ == ps.take(i as int).map_values(|p: ParamV| p.ty),
            has_out == (out_params(ps.take(i as int)).len() > 0),
    {
        proof {
            lemma_param_split(ps, i as int);
        }
        let p = &f.params[i];
        assert(ps[i as int] == p@);
        tys.push(p.ty);
        if p.qualifier == ParamQual::Out {
            has_out = true;
        }
        assert(tys@ =~= ps.take(i + 1).map_values(|p: ParamV| p.ty));
    }
    assert(ps.take(f.params.len() as int) =~= ps);
    FnSig { name: f.name.clone(), ret: f.ret, params: tys, has_out }
}

/// Generates the WGSL module for parsed items: globals as `var<private>`
/// declarations, sampler binding notes, then the functions.
#[verifier::spinoff_prover]
#[verifier::rlimit(80)]
pub fn generate(items: &[Item]) -> (r: String)
    ensures
        r@ == generate_text(items_view(items@)),
{
    let ghost iv = items_view(items@);
    let n = items.len();
    let mut globals: Vec<(String, Type)> = Vec::new();
    assert(iv.take(0) =~= Seq::<ItemV>::empty());
    for i in 0..n
        invariant
            n == items.len(),
            iv == items_view(items@),
            scope_view(globals@) == globals_scope(iv.take(i as int)),
    {
        assert(iv.take(i + 1).subrange(0, i as int) =~= iv.take(i as int));
        match &items[i] {
            Item::Global { ty, name, .. } => {
                globals.push((name.clone(), *ty));
                assert(scope_view(globals@) =~= globals_scope(iv.take(i as int)).push((name@, *ty)));
            },
            _ => {},
        }
    }
    assert(iv.take(n as int) =~= iv);
    let mut fns: Vec<FnSig> = Vec::new();
    assert(iv.take(0) =~= Seq::<ItemV>::empty());
    for i in 0..n
        invariant
            n == items.len(),
            iv == items_view(items@),
            sigs_view(fns@) == fn_sigs(iv.take(i as int)),
    {
        assert(iv.take(i + 1).subrange(0, i as int) =~= iv.take(i as int));
        match &items[i] {
            Item::Function(f) => {
                let sig = signature_of(f);
                let ghost before = fns@;
                fns.push(sig);
                assert(sigs_view(fns@) =~= sigs_view(before).push(sig_view(sig)));
            },
            _ => {},
        }
    }
    assert(iv.take(n as int) =~= iv);
    let ghost g = GlobalsV { vars: globals_scope(iv), fns: fn_sigs(iv) };
    let mut gen = Generator { scope: Scope { globals, fns, locals: Vec::new() }, out: String::new(), temp: 0 };
    assert(gen.scope.l() =~= Seq::<(Seq<char>, Type)>::empty());
    for i in 0..n
        invariant
            n == items.len(),
            iv == items_view(items@),
            gen.scope.g() == g,
            gen.scope.l() == Seq::<(Seq<char>, Type)>::empty(),
            gen.temp == 0,
            gen.out@ == global_lines(g, iv.take(i as int)),
    {
        assert(iv.take(i + 1).subrange(0, i as int) =~= iv.take(i as int));
        match &items[i] {
            Item::Global { ty, name, init, .. } => {
                push_str(&mut gen.out, "var<private> ");
                push_ident(&mut gen.out, name);
                push_str(&mut gen.out, ": ");
                push_str(&mut gen.out, wgsl_type(*ty));
                match init {
                    Some(e) => {
                        if is_const(e) {
                            push_str(&mut gen.out, " = ");
                            gen.scope.expr(&mut gen.out, e, *ty);
                        }
                    },
                    None => {},
                }
                push_str(&mut gen.out, ";\n");
            },
            _ => {},
        }
    }
    assert(iv.take(n as int) =~= iv);
    let ghost o1 = gen.out@;
    for i in 0..n
        invariant
            n == items.len(),
            iv == items_view(items@),
            gen.scope.g() == g,
            gen.scope.l() == Seq::<(Seq<char>, Type)>::empty(),
            gen.temp == 0,
            gen.out@ == o1 + sampler_lines(iv.take(i as int)),
    {
        assert(iv.take(i + 1).subrange(0, i as int) =~= iv.take(i as int));
        match &items[i] {
            Item::Sampler { ty, name } => {
                push_str(&mut gen.out, "// sampler ");
                push_str(&mut gen.out, name);
                push_str(&mut gen.out, ": bind `");
                push_str(&mut gen.out, name);
                push_str(&mut gen.out, "` as ");
                if *ty == Type::Sampler3D {
                    push_str(&mut gen.out, "texture_3d<f32>");
                } else {
                    push_str(&mut gen.out, "texture_2d<f32>");
                }
                push_str(&mut gen.out, " and `");
                push_str(&mut gen.out, name);
                push_str(&mut gen.out, "_sampler` as sampler\n");
            },
            _ => {},
        }
    }
    assert(iv.take(n as int) =~= iv);
    let mut prologue = String::new();
    for i in 0..n
        invariant
            n == items.len(),
            iv == items_view(items@),
            gen.scope.g() == g,
            gen.scope.l() == Seq::<(Seq<char>, Type)>::empty(),
            prologue@ == prologue_lines(g, iv.take(i as int)),
    {
        assert(iv.take(i + 1).subrange(0, i as int) =~= iv.take(i as int));
        match &items[i] {
            Item::Global { ty, name, init, .. } => match init {
                Some(e) => {
                    if !is_const(e) {
                        push_str(&mut prologue, "    ");
                        push_ident(&mut prologue, name);
                        push_str(&mut prologue, " = ");
                        gen.scope.broadcast(&mut prologue, e, *ty);
                        push_str(&mut prologue, ";\n");
                    }
                },
                None => {},
            },
            _ => {},
        }
    }
    assert(iv.take(n as int) =~= iv);
    if str_chars(gen.out.as_str()).len() > 0 {
        push_char(&mut gen.out, '\n');
    }
    let ghost st0 = gen.state();
    for i in 0..n
        invariant
            n == items.len(),
            iv == items_view(items@),
            gen.scope.g() == g,
            prologue@ == prologue_lines(g, iv),
            gen.state() == gen_functions(g, st0, iv.take(i as int), prologue@),
    {
        assert(iv.take(i + 1).subrange(0, i as int) =~= iv.take(i as int));
        match &items[i] {
            Item::Function(f) => gen.function(f, &prologue),
            _ => {},
        }
    }
    assert(iv.take(n as int) =~= iv);
    gen.out
}

} // verus!
