//! Milkdrop preset shader → render-ready WGSL.
//!
//! Wraps the preset's `shader_body { … }` into a `PS(…)` entry function,
//! prepends the uniform and intrinsic header, translates it to WGSL and then
//! assembles a complete module — uniform buffer, texture/sampler bindings, a
//! fullscreen vertex stage and a fragment entry that runs `PS`.
//!
//! Uniform values (`_c0.._c13`, `_q*`, rotation matrices) are filled by the
//! renderer per frame; this module only declares and wires them.

use vstd::prelude::*;
use crate::text::{push_char, push_str, push_nat, str_chars, nat_text};
use crate::shader::parser::ParseError;
use crate::shader::grammar::ParseErrorV;
use crate::shader::{translate, translate_text};

verus! {

/// Which preset shader a body is.
#[derive(Clone, Copy, Debug, PartialEq, Eq, Structural)]
pub enum ShaderKind {
    Warp,
    Composite,
}

/// Why a preset shader could not be turned into WGSL.
#[derive(Debug)]
pub enum ShaderError {
    MissingEntry,
    MissingBrace,
    Translate(ParseError),
}

/// The plain form of a shader failure.
pub enum ShaderErrorV {
    MissingEntry,
    MissingBrace,
    Translate(ParseErrorV),
}

impl View for ShaderError {
    type V = ShaderErrorV;

    open spec fn view(&self) -> ShaderErrorV {
        match self {
            ShaderError::MissingEntry => ShaderErrorV::MissingEntry,
            ShaderError::MissingBrace => ShaderErrorV::MissingBrace,
            ShaderError::Translate(e) => ShaderErrorV::Translate(e@),
        }
    }
}

impl ShaderError {
    /// The message describing the failure.
    pub fn message(&self) -> (r: String)
        ensures
            r@ == (match self {
                ShaderError::MissingEntry => "preset shader has no 'shader_body' entry point"@,
                ShaderError::MissingBrace => "preset shader is missing braces"@,
                ShaderError::Translate(_) => "HLSL->WGSL translation failed"@,
            }),
    {
        match self {
            ShaderError::MissingEntry => "preset shader has no 'shader_body' entry point".to_owned(),
            ShaderError::MissingBrace => "preset shader is missing braces".to_owned(),
            ShaderError::Translate(_) => "HLSL->WGSL translation failed".to_owned(),
        }
    }
}

impl From<ParseError> for ShaderError {
    fn from(e: ParseError) -> Self {
        ShaderError::Translate(e)
    }
}

impl vstd::std_specs::convert::FromSpecImpl<ParseError> for ShaderError {
    open spec fn obeys_from_spec() -> bool {
        true
    }

    open spec fn from_spec(v: ParseError) -> Self {
        ShaderError::Translate(v)
    }
}

/// A translated preset shader: the WGSL module and the texture names it
/// binds, in binding order (`textures[i]` at `@binding(2*i+1)`, its sampler at
/// `@binding(2*i+2)`).
#[derive(Debug)]
pub struct TranslatedShader {
    pub wgsl: String,
    pub textures: Vec<String>,
}

/// The translated warp shader's core, for the renderer to place in a
/// mesh-vertex pipeline.
pub struct WarpShaderParts {
    /// `var<private>` uniform globals and the `PS` function.
    pub ps_wgsl: String,
    /// Textures the shader samples, in first-reference order.
    pub textures: Vec<String>,
}

pub open spec fn strings_view(v: Seq<String>) -> Seq<Seq<char>> {
    v.map_values(|s: String| s@)
}

// -------------------------------------------------------- constants --

pub const WARP_SIGNATURE: &'static str = "\nvoid PS(float4 _vDiffuse : COLOR,\n        float4 _uv : TEXCOORD0,\n        float2 _rad_ang : TEXCOORD1,\n        out float4 _return_value : COLOR0,\n        out float4 _mv_tex_coords : COLOR1)\n";

pub const COMPOSITE_SIGNATURE: &'static str = "\nvoid PS(float4 _vDiffuse : COLOR,\n        float2 _uv : TEXCOORD0,\n        float2 _rad_ang : TEXCOORD1,\n        out float4 _return_value : COLOR)\n";

pub const WARP_DEFINES: &'static str = "#define rad _rad_ang.x\n#define ang _rad_ang.y\n";

pub const COMPOSITE_DEFINES: &'static str = "#define rad _rad_ang.x\n#define ang _rad_ang.y\n#define hue_shader _vDiffuse.xyz\n";

/// `uv` and `uv_orig` are mutable locals of `PS`, seeded from the texture
/// coordinates, so that a shader may assign to them or to their components.
pub const WARP_LOCALS: &'static str = "float2 uv = _uv.xy;\nfloat2 uv_orig = _uv.zw;\n";

pub const COMPOSITE_LOCALS: &'static str = "float2 uv = _uv.xy;\nfloat2 uv_orig = _uv.xy;\n";

pub const FS_MAIN_HEAD: &'static str = "@fragment\nfn fs_main(in: VsOut) -> @location(0) vec4<f32> {\n    load_uniforms();\n    let ra = rad_ang_of(in.uv);\n    let diffuse = vec4<f32>(1.0, 1.0, 1.0, 1.0);\n    let o = ";

pub const FS_MAIN_TAIL: &'static str = ";\n    return vec4<f32>(o._return_value.rgb, 1.0);\n}\n";

/// The fullscreen vertex stage and the polar-coordinate helper.
pub const ENTRY_PRELUDE: &'static str = "
struct VsOut {
    @builtin(position) pos: vec4<f32>,
    @location(0) uv: vec2<f32>,
};

@vertex
fn vs_main(@builtin(vertex_index) vid: u32) -> VsOut {
    var corners = array<vec2<f32>, 3>(
        vec2<f32>(-1.0, -1.0), vec2<f32>(3.0, -1.0), vec2<f32>(-1.0, 3.0),
    );
    let p = corners[vid];
    var out: VsOut;
    out.pos = vec4<f32>(p, 0.0, 1.0);
    out.uv = vec2<f32>(p.x * 0.5 + 0.5, p.y * 0.5 + 0.5);
    return out;
}

// Polar coordinates the preset reads as `rad`/`ang` (aspect = _c0).
fn rad_ang_of(uv: vec2<f32>) -> vec2<f32> {
    let px = (uv.x * 2.0 - 1.0) * _c0.x;
    let py = (uv.y * 2.0 - 1.0) * _c0.y;
    let denom = sqrt(_c0.x * _c0.x + _c0.y * _c0.y);
    var rad = 0.0;
    if (denom > 0.0) { rad = sqrt(px * px + py * py) / denom; }
    var ang = atan2(py, px);
    if (ang < 0.0) { ang = ang + 6.2831853; }
    return vec2<f32>(rad, ang);
}
";

/// The preset-shader header: uniform declarations (so the translator infers
/// `vec4` types for `_cN.x` swizzles) and the `#define` intrinsics preset
/// authors use.
pub const HEADER: &'static str = "
#define M_PI 3.14159265359
#define M_PI_2 6.28318530718
#define M_INV_PI_2 0.159154943091895
uniform float4 rand_frame;
uniform float4 rand_preset;
uniform float4 _c0;
uniform float4 _c1, _c2, _c3, _c4, _c5, _c6, _c7, _c8, _c9, _c10, _c11, _c12, _c13;
uniform float4 _qa, _qb, _qc, _qd, _qe, _qf, _qg, _qh;
uniform float4x3 rot_s1, rot_s2, rot_s3, rot_s4;
uniform float4x3 rot_d1, rot_d2, rot_d3, rot_d4;
uniform float4x3 rot_f1, rot_f2, rot_f3, rot_f4;
uniform float4x3 rot_vf1, rot_vf2, rot_vf3, rot_vf4;
uniform float4x3 rot_uf1, rot_uf2, rot_uf3, rot_uf4;
uniform float4x3 rot_rand1, rot_rand2, rot_rand3, rot_rand4;

#define time     _c2.x
#define fps      _c2.y
#define frame    _c2.z
#define progress _c2.w
#define bass _c3.x
#define mid  _c3.y
#define treb _c3.z
#define vol  _c3.w
#define bass_att _c4.x
#define mid_att  _c4.y
#define treb_att _c4.z
#define vol_att  _c4.w
#define q1 _qa.x
#define q2 _qa.y
#define q3 _qa.z
#define q4 _qa.w
#define q5 _qb.x
#define q6 _qb.y
#define q7 _qb.z
#define q8 _qb.w
#define q9 _qc.x
#define q10 _qc.y
#define q11 _qc.z
#define q12 _qc.w
#define q13 _qd.x
#define q14 _qd.y
#define q15 _qd.z
#define q16 _qd.w
#define q17 _qe.x
#define q18 _qe.y
#define q19 _qe.z
#define q20 _qe.w
#define q21 _qf.x
#define q22 _qf.y
#define q23 _qf.z
#define q24 _qf.w
#define q25 _qg.x
#define q26 _qg.y
#define q27 _qg.z
#define q28 _qg.w
#define q29 _qh.x
#define q30 _qh.y
#define q31 _qh.z
#define q32 _qh.w
#define aspect   _c0
#define texsize  _c7
#define roam_cos _c8
#define roam_sin _c9
#define slow_roam_cos _c10
#define slow_roam_sin _c11
#define mip_x   _c12.x
#define mip_y   _c12.y
#define mip_avg _c12.z
#define blur1_min _c6.z
#define blur1_max _c6.w
#define blur2_min _c13.x
#define blur2_max _c13.y
#define blur3_min _c13.z
#define blur3_max _c13.w
#define GetMain(uv) (tex2D(sampler_main,uv).xyz)
#define GetPixel(uv) (tex2D(sampler_main,uv).xyz)
#define GetBlur1(uv) (tex2D(sampler_blur1,uv).xyz*_c5.x + _c5.y)
#define GetBlur2(uv) (tex2D(sampler_blur2,uv).xyz*_c5.z + _c5.w)
#define GetBlur3(uv) (tex2D(sampler_blur3,uv).xyz*_c6.x + _c6.y)
#define lum(x) (dot(x,float3(0.32,0.49,0.29)))
#define tex2d tex2D
#define tex3d tex3D
";

// ---------------------------------------------------------- search --

pub open spec fn occurs_at(s: Seq<char>, pat: Seq<char>, i: int) -> bool {
    0 <= i && i + pat.len() <= s.len() && s.subrange(i, i + pat.len()) == pat
}

/// The first occurrence of `pat` at or after `i`.
pub open spec fn find_from(s: Seq<char>, pat: Seq<char>, i: int) -> Option<int>
    decreases s.len() + 1 - i,
{
    if i < 0 || i + pat.len() > s.len() {
        None
    } else if occurs_at(s, pat, i) {
        Some(i)
    } else {
        find_from(s, pat, i + 1)
    }
}

/// The last `c` before position `n`.
pub open spec fn rfind_char(s: Seq<char>, c: char, n: int) -> Option<int>
    decreases n,
{
    if n <= 0 {
        None
    } else if s[n - 1] == c {
        Some(n - 1)
    } else {
        rfind_char(s, c, n - 1)
    }
}

pub proof fn lemma_find_from(s: Seq<char>, pat: Seq<char>, i: int)
    requires
        0 <= i,
    ensures
        find_from(s, pat, i) matches Some(p) ==> i <= p && occurs_at(s, pat, p),
        find_from(s, pat, i) matches Some(p) ==> forall|q: int| i <= q < p ==> !occurs_at(s, pat, q),
        find_from(s, pat, i) is None ==> forall|q: int| i <= q ==> !occurs_at(s, pat, q),
    decreases s.len() + 1 - i,
{
    if i + pat.len() <= s.len() && !occurs_at(s, pat, i) {
        lemma_find_from(s, pat, i + 1);
    }
}

pub proof fn lemma_rfind_char(s: Seq<char>, c: char, n: int)
    requires
        0 <= n <= s.len(),
    ensures
        rfind_char(s, c, n) matches Some(p) ==> 0 <= p < n && s[p] == c,
    decreases n,
{
    if n > 0 && s[n - 1] != c {
        lemma_rfind_char(s, c, n - 1);
    }
}

// ------------------------------------------------------------- wrap --

/// The text without its `= sampler_state { … };` override blocks, removed one
/// at a time from the first.
pub open spec fn strip_sampler_state_text(s: Seq<char>) -> Seq<char>
    decreases s.len(),
{
    match find_from(s, "sampler_state"@, 0) {
        None => s,
        Some(pos) => {
            proof {
                lemma_find_from(s, "sampler_state"@, 0);
            }
            let start = match rfind_char(s, '=', pos) {
                Some(q) => q,
                None => pos,
            };
            match find_from(s, "}"@, pos) {
                None => s,
                Some(b) => match find_from(s, ";"@, b) {
                    None => s,
                    Some(sc) => {
                        proof {
                            reveal_strlit("}");
                            reveal_strlit(";");
                            lemma_find_from(s, "}"@, pos);
                            lemma_find_from(s, ";"@, b);
                            lemma_rfind_char(s, '=', pos);
                        }
                        strip_sampler_state_text(s.subrange(0, start) + s.subrange(sc + 1, s.len() as int))
                    },
                },
            }
        },
    }
}

pub open spec fn signature_text(kind: ShaderKind) -> Seq<char> {
    match kind {
        ShaderKind::Warp => WARP_SIGNATURE@,
        ShaderKind::Composite => COMPOSITE_SIGNATURE@,
    }
}

pub open spec fn defines_text(kind: ShaderKind) -> Seq<char> {
    match kind {
        ShaderKind::Warp => WARP_DEFINES@,
        ShaderKind::Composite => COMPOSITE_DEFINES@,
    }
}

pub open spec fn locals_text(kind: ShaderKind) -> Seq<char> {
    match kind {
        ShaderKind::Warp => WARP_LOCALS@,
        ShaderKind::Composite => COMPOSITE_LOCALS@,
    }
}

/// The HLSL translation unit for a preset's shader body: the header, the
/// coordinate defines, and the body with `shader_body` replaced by the `PS`
/// signature, its first `{` opening the declarations of `ret`, `uv` and
/// `uv_orig` (and the motion vector copy for a warp shader) and its last `}` closing after the return
/// assignment.
pub open spec fn wrap_text(body: Seq<char>, kind: ShaderKind) -> Result<Seq<char>, ShaderErrorV> {
    let b = strip_sampler_state_text(body);
    match find_from(b, "shader_body"@, 0) {
        None => Err(ShaderErrorV::MissingEntry),
        Some(ep) => {
            let after = b.subrange(ep + 11, b.len() as int);
            match find_from(after, "{"@, 0) {
                None => Err(ShaderErrorV::MissingBrace),
                Some(br) => {
                    let after_brace = after.subrange(br + 1, after.len() as int);
                    match rfind_char(after_brace, '}', after_brace.len() as int) {
                        None => Err(ShaderErrorV::MissingBrace),
                        Some(lb) => Ok(
                            HEADER@ + defines_text(kind) + b.subrange(0, ep) + signature_text(kind) + after.subrange(0, br)
                                + "{\nfloat3 ret = 0;\n"@ + locals_text(kind) + (if kind == ShaderKind::Warp {
                                "_mv_tex_coords.xy = _uv.xy;\n"@
                            } else {
                                Seq::empty()
                            }) + after_brace.subrange(0, lb) + "\n_return_value = float4(ret.xyz, 1.0);\n}\n"@,
                        ),
                    }
                },
            }
        },
    }
}

/// `i` is where `c` first occurs in `s`.
pub open spec fn first_at(s: Seq<char>, c: char, i: int) -> bool {
    0 <= i < s.len() && s[i] == c && forall|q: int| 0 <= q < i ==> s[q] != c
}

/// `i` is where `c` last occurs in `s`.
pub open spec fn last_at(s: Seq<char>, c: char, i: int) -> bool {
    0 <= i < s.len() && s[i] == c && forall|q: int| i < q < s.len() ==> s[q] != c
}

/// `i` is where `pat` first occurs in `s`.
pub open spec fn first_occurrence(s: Seq<char>, pat: Seq<char>, i: int) -> bool {
    occurs_at(s, pat, i) && forall|q: int| 0 <= q < i ==> !occurs_at(s, pat, q)
}

proof fn lemma_rfind_last(s: Seq<char>, c: char, n: int)
    requires
        0 <= n <= s.len(),
    ensures
        rfind_char(s, c, n) matches Some(p) ==> 0 <= p < n && s[p] == c && forall|q: int| p < q < n ==> s[q] != c,
        rfind_char(s, c, n) is None ==> forall|q: int| 0 <= q < n ==> s[q] != c,
    decreases n,
{
    if n > 0 && s[n - 1] != c {
        lemma_rfind_last(s, c, n - 1);
    }
}

proof fn lemma_find_char(s: Seq<char>, c: char)
    ensures
        find_from(s, seq![c], 0) matches Some(p) ==> first_at(s, c, p),
        find_from(s, seq![c], 0) is None ==> !s.contains(c),
{
    lemma_find_from(s, seq![c], 0);
    assert forall|q: int| 0 <= q < s.len() implies occurs_at(s, seq![c], q) == (s[q] == c) by {
        if s[q] == c {
            assert(s.subrange(q, q + 1) =~= seq![c]);
        }
        if occurs_at(s, seq![c], q) {
            assert(s.subrange(q, q + 1)[0] == s[q]);
        }
    }
    match find_from(s, seq![c], 0) {
        Some(p) => {},
        None => {
            if s.contains(c) {
                let q = choose|q: int| 0 <= q < s.len() && s[q] == c;
                assert(occurs_at(s, seq![c], q));
            }
        },
    }
}

/// Wrapping a body that holds no `sampler_state` block: without
/// `shader_body` it fails for a missing entry; otherwise, with `a` the text
/// after the first `shader_body`, it fails for a missing brace exactly when
/// `a` has no `{` or no `}` after its first `{`, and else it keeps the text
/// before `shader_body` and before that `{` as it is, keeps what lies
/// between the `{` and the last `}`, and drops the text after that `}`.
pub proof fn law_wrap(body: Seq<char>, kind: ShaderKind)
    requires
        forall|i: int| !occurs_at(body, "sampler_state"@, i),
    ensures
        (forall|i: int| !occurs_at(body, "shader_body"@, i)) ==> wrap_text(body, kind) == Err::<
            Seq<char>,
            ShaderErrorV,
        >(ShaderErrorV::MissingEntry),
        forall|ep: int| #[trigger]
            first_occurrence(body, "shader_body"@, ep) ==> {
                let a = body.subrange(ep + 11, body.len() as int);
                &&& wrap_text(body, kind) == Err::<Seq<char>, ShaderErrorV>(ShaderErrorV::MissingBrace) <==> (!a.contains(
                    '{',
                ) || exists|br: int| first_at(a, '{', br) && !a.subrange(br + 1, a.len() as int).contains('}'))
                &&& forall|br: int, lb: int|
                    #![trigger first_at(a, '{', br), last_at(a.subrange(br + 1, a.len() as int), '}', lb)]
                    first_at(a, '{', br) && last_at(a.subrange(br + 1, a.len() as int), '}', lb) ==> wrap_text(body, kind)
                        == Ok::<Seq<char>, ShaderErrorV>(
                        HEADER@ + defines_text(kind) + body.subrange(0, ep) + signature_text(kind) + a.subrange(0, br)
                            + "{\nfloat3 ret = 0;\n"@ + locals_text(kind) + (if kind == ShaderKind::Warp {
                            "_mv_tex_coords.xy = _uv.xy;\n"@
                        } else {
                            Seq::empty()
                        }) + a.subrange(br + 1, br + 1 + lb) + "\n_return_value = float4(ret.xyz, 1.0);\n}\n"@,
                    )
            },
{
    reveal_strlit("shader_body");
    reveal_strlit("{");
    reveal_strlit("}");
    lemma_find_from(body, "sampler_state"@, 0);
    assert(strip_sampler_state_text(body) == body);
    lemma_find_from(body, "shader_body"@, 0);
    assert forall|ep: int| #[trigger] first_occurrence(body, "shader_body"@, ep) implies {
        let a = body.subrange(ep + 11, body.len() as int);
        &&& wrap_text(body, kind) == Err::<Seq<char>, ShaderErrorV>(ShaderErrorV::MissingBrace) <==> (!a.contains('{')
            || exists|br: int| first_at(a, '{', br) && !a.subrange(br + 1, a.len() as int).contains('}'))
        &&& forall|br: int, lb: int|
            #![trigger first_at(a, '{', br), last_at(a.subrange(br + 1, a.len() as int), '}', lb)]
            first_at(a, '{', br) && last_at(a.subrange(br + 1, a.len() as int), '}', lb) ==> wrap_text(body, kind)
                == Ok::<Seq<char>, ShaderErrorV>(
                HEADER@ + defines_text(kind) + body.subrange(0, ep) + signature_text(kind) + a.subrange(0, br)
                    + "{\nfloat3 ret = 0;\n"@ + locals_text(kind) + (if kind == ShaderKind::Warp {
                    "_mv_tex_coords.xy = _uv.xy;\n"@
                } else {
                    Seq::empty()
                }) + a.subrange(br + 1, br + 1 + lb) + "\n_return_value = float4(ret.xyz, 1.0);\n}\n"@,
            )
    } by {
        match find_from(body, "shader_body"@, 0) {
            Some(p) => {
                if p < ep {
                    assert(!occurs_at(body, "shader_body"@, p));
                }
                if ep < p {
                    assert(!occurs_at(body, "shader_body"@, ep));
                }
            },
            None => {
                assert(!occurs_at(body, "shader_body"@, ep));
            },
        }
        let a = body.subrange(ep + 11, body.len() as int);
        assert("{"@ =~= seq!['{']);
        assert("}"@ =~= seq!['}']);
        lemma_find_char(a, '{');
        assert(find_from(body, "shader_body"@, 0) == Some(ep));
        match find_from(a, "{"@, 0) {
            Some(b0) => {
                assert(first_at(a, '{', b0));
                let ab = a.subrange(b0 + 1, a.len() as int);
                lemma_rfind_last(ab, '}', ab.len() as int);
                if !ab.contains('}') {
                    assert(rfind_char(ab, '}', ab.len() as int) is None) by {
                        if rfind_char(ab, '}', ab.len() as int) is Some {
                            let r = rfind_char(ab, '}', ab.len() as int).unwrap();
                            assert(ab[r] == '}');
                        }
                    }
                    assert(wrap_text(body, kind) == Err::<Seq<char>, ShaderErrorV>(ShaderErrorV::MissingBrace));
                }
                if ab.contains('}') {
                    let q = choose|q: int| 0 <= q < ab.len() && ab[q] == '}';
                    assert(rfind_char(ab, '}', ab.len() as int) is Some);
                    let r = rfind_char(ab, '}', ab.len() as int).unwrap();
                    assert(wrap_text(body, kind) == Ok::<Seq<char>, ShaderErrorV>(
                        HEADER@ + defines_text(kind) + body.subrange(0, ep) + signature_text(kind) + a.subrange(0, b0)
                            + "{\nfloat3 ret = 0;\n"@ + locals_text(kind) + (if kind == ShaderKind::Warp {
                            "_mv_tex_coords.xy = _uv.xy;\n"@
                        } else {
                            Seq::empty()
                        }) + ab.subrange(0, r) + "\n_return_value = float4(ret.xyz, 1.0);\n}\n"@,
                    ));
                    assert(ab.subrange(0, r) =~= a.subrange(b0 + 1, b0 + 1 + r));
                    assert(!(exists|br: int| first_at(a, '{', br) && !a.subrange(br + 1, a.len() as int).contains('}'))) by {
                        if exists|br: int| first_at(a, '{', br) && !a.subrange(br + 1, a.len() as int).contains('}') {
                            let br = choose|br: int| first_at(a, '{', br) && !a.subrange(br + 1, a.len() as int).contains('}');
                            if br < b0 {
                                assert(a[br] != '{');
                            }
                            if b0 < br {
                                assert(a[b0] != '{');
                            }
                            assert(ab[q] == '}');
                        }
                    }
                }
                assert forall|br: int| first_at(a, '{', br) implies br == b0 by {
                    if br < b0 {
                        assert(a[br] != '{');
                    }
                    if b0 < br {
                        assert(a[b0] != '{');
                    }
                }
                assert forall|br: int, lb: int|
                    #![trigger first_at(a, '{', br), last_at(a.subrange(br + 1, a.len() as int), '}', lb)]
                    first_at(a, '{', br) && last_at(a.subrange(br + 1, a.len() as int), '}', lb) implies lb
                    == rfind_char(ab, '}', ab.len() as int).unwrap() by {
                    let r = rfind_char(ab, '}', ab.len() as int).unwrap();
                    if lb < r {
                        assert(ab[r] != '}');
                    }
                    if r < lb {
                        assert(ab[lb] != '}');
                    }
                }
            },
            None => {
                assert(wrap_text(body, kind) == Err::<Seq<char>, ShaderErrorV>(ShaderErrorV::MissingBrace));
                assert(!a.contains('{'));
            },
        }
    }
}

// --------------------------------------------------------- textures --

/// `char::is_alphanumeric` (Unicode alphabetic or numeric).
pub uninterp spec fn alphanumeric(c: char) -> bool;

pub open spec fn name_char(c: char) -> bool {
    alphanumeric(c) || c == '_'
}

/// The length of the run of name characters starting at `i`.
pub open spec fn name_run(s: Seq<char>, i: int) -> nat
    decreases s.len() - i,
{
    if 0 <= i < s.len() && name_char(s[i]) {
        1 + name_run(s, i + 1)
    } else {
        0
    }
}

/// The names after each `textureSample(` from `i` on, each taken once, added
/// to `found`.
pub open spec fn texture_names(s: Seq<char>, i: int, found: Seq<Seq<char>>) -> Seq<Seq<char>>
    decreases s.len() - i,
{
    match find_from(s, "textureSample("@, i) {
        None => found,
        Some(p) => {
            let a = p + 14;
            let name = s.subrange(a, a + name_run(s, a));
            let found2 = if name.len() > 0 && !found.contains(name) { found.push(name) } else { found };
            if i < a <= s.len() {
                texture_names(s, a, found2)
            } else {
                found2
            }
        },
    }
}

pub open spec fn textures_of(wgsl: Seq<char>) -> Seq<Seq<char>> {
    texture_names(wgsl, 0, Seq::empty())
}

proof fn lemma_texture_names_distinct(s: Seq<char>, i: int, found: Seq<Seq<char>>)
    requires
        found.no_duplicates(),
        forall|j: int| 0 <= j < found.len() ==> #[trigger] found[j].len() > 0,
    ensures
        texture_names(s, i, found).no_duplicates(),
        forall|j: int|
            0 <= j < texture_names(s, i, found).len() ==> #[trigger] texture_names(s, i, found)[j].len() > 0,
    decreases s.len() - i,
{
    match find_from(s, "textureSample("@, i) {
        None => {},
        Some(p) => {
            let a = p + 14;
            let name = s.subrange(a, a + name_run(s, a));
            let found2 = if name.len() > 0 && !found.contains(name) { found.push(name) } else { found };
            if name.len() > 0 && !found.contains(name) {
                assert forall|x: int, y: int| 0 <= x < y < found2.len() implies found2[x] != found2[y] by {
                    if y == found.len() {
                        assert(found[x] == found2[x]);
                        if found2[x] == found2[y] {
                            assert(found.contains(name));
                        }
                    }
                }
            }
            if i < a <= s.len() {
                lemma_texture_names_distinct(s, a, found2);
            }
        },
    }
}

/// Each texture is listed once, and no name is empty.
pub proof fn law_textures_distinct(wgsl: Seq<char>)
    ensures
        textures_of(wgsl).no_duplicates(),
        forall|j: int| 0 <= j < textures_of(wgsl).len() ==> #[trigger] textures_of(wgsl)[j].len() > 0,
{
    lemma_texture_names_distinct(wgsl, 0, Seq::empty());
}

/// `pat` occurs somewhere in `s`.
pub open spec fn contains_text(s: Seq<char>, pat: Seq<char>) -> bool {
    exists|i: int| occurs_at(s, pat, i)
}

/// The binding line of texture `name` at position `i` of the texture list.
pub open spec fn texture_binding(name: Seq<char>, i: int) -> Seq<char> {
    "@group(0) @binding("@ + nat_text((2 * i + 1) as nat) + ") var "@ + name + ": texture_2d<f32>;\n"@
}

/// The binding line of the sampler of texture `name` at position `i`.
pub open spec fn sampler_binding(name: Seq<char>, i: int) -> Seq<char> {
    "@group(0) @binding("@ + nat_text((2 * i + 2) as nat) + ") var "@ + name + "_sampler: sampler;\n"@
}

proof fn lemma_contains_in(a: Seq<char>, b: Seq<char>, c: Seq<char>, pat: Seq<char>)
    requires
        contains_text(b, pat),
    ensures
        contains_text(a + b + c, pat),
{
    let i = choose|i: int| occurs_at(b, pat, i);
    assert((a + b + c).subrange(a.len() + i, a.len() + i + pat.len()) =~= b.subrange(i, i + pat.len()));
    assert(occurs_at(a + b + c, pat, a.len() + i));
}

proof fn lemma_whole_contains(s: Seq<char>)
    ensures
        contains_text(s, s),
{
    assert(s.subrange(0, s.len() as int) =~= s);
    assert(occurs_at(s, s, 0));
}

proof fn lemma_binding_lines(t: Seq<Seq<char>>)
    ensures
        forall|i: int|
            0 <= i < t.len() ==> contains_text(binding_lines(t), #[trigger] texture_binding(t[i], i)) && contains_text(
                binding_lines(t),
                sampler_binding(t[i], i),
            ),
    decreases t.len(),
{
    if t.len() > 0 {
        let n = t.len() - 1;
        let pre = t.subrange(0, n);
        lemma_binding_lines(pre);
        let x = binding_lines(pre);
        let tb = texture_binding(t[n], n);
        let sb = sampler_binding(t[n], n);
        assert(binding_lines(t) =~= x + tb + sb);
        assert forall|i: int| 0 <= i < t.len() implies contains_text(binding_lines(t), #[trigger] texture_binding(t[i], i))
            && contains_text(binding_lines(t), sampler_binding(t[i], i)) by {
            if i < n {
                assert(pre[i] == t[i]);
                lemma_contains_in(Seq::empty(), x, tb + sb, texture_binding(t[i], i));
                lemma_contains_in(Seq::empty(), x, tb + sb, sampler_binding(t[i], i));
                assert(Seq::<char>::empty() + x + (tb + sb) =~= binding_lines(t));
            } else {
                lemma_whole_contains(tb);
                lemma_whole_contains(sb);
                lemma_contains_in(x, tb, sb, tb);
                lemma_contains_in(x + tb, sb, Seq::empty(), sb);
                assert(x + tb + sb + Seq::<char>::empty() =~= binding_lines(t));
            }
        }
    }
}

proof fn lemma_name_run(s: Seq<char>, i: int)
    requires
        0 <= i <= s.len(),
    ensures
        i + name_run(s, i) <= s.len(),
    decreases s.len() - i,
{
    if i < s.len() && name_char(s[i]) {
        lemma_name_run(s, i + 1);
    }
}

proof fn lemma_texture_names_sampled(s: Seq<char>, i: int, found: Seq<Seq<char>>)
    requires
        0 <= i,
        forall|j: int| 0 <= j < found.len() ==> contains_text(s, "textureSample("@ + #[trigger] found[j]),
    ensures
        forall|j: int|
            0 <= j < texture_names(s, i, found).len() ==> contains_text(
                s,
                "textureSample("@ + #[trigger] texture_names(s, i, found)[j],
            ),
    decreases s.len() - i,
{
    reveal_strlit("textureSample(");
    lemma_find_from(s, "textureSample("@, i);
    match find_from(s, "textureSample("@, i) {
        None => {
            assert(texture_names(s, i, found) == found);
        },
        Some(p) => {
            let a = p + 14;
            lemma_name_run(s, a);
            let name = s.subrange(a, a + name_run(s, a));
            let found2 = if name.len() > 0 && !found.contains(name) { found.push(name) } else { found };
            assert(s.subrange(p, a) =~= "textureSample("@);
            assert(s.subrange(p, p + ("textureSample("@ + name).len()) =~= "textureSample("@ + name);
            assert(occurs_at(s, "textureSample("@ + name, p));
            assert forall|j: int| 0 <= j < found2.len() implies contains_text(s, "textureSample("@ + #[trigger] found2[j]) by {
                if j < found.len() {
                    assert(found2[j] == found[j]);
                }
            }
            if i < a <= s.len() {
                lemma_texture_names_sampled(s, a, found2);
                assert(texture_names(s, i, found) == texture_names(s, a, found2));
            } else {
                assert(texture_names(s, i, found) == found2);
            }
        },
    }
}

/// Every texture of a translated preset shader (see [`to_wgsl`]) is listed
/// once, has its texture bound at `2i+1` and its sampler at `2i+2` (`i` its
/// place in the list) in the assembled module, and is sampled there.
#[verifier::spinoff_prover]
#[verifier::rlimit(80)]
pub proof fn law_textures_bound(translated: Seq<char>, kind: ShaderKind)
    ensures
        textures_of(translated).no_duplicates(),
        forall|i: int|
            0 <= i < textures_of(translated).len() ==> {
                &&& contains_text(
                    assemble_text(translated, kind),
                    #[trigger] texture_binding(textures_of(translated)[i], i),
                )
                &&& contains_text(assemble_text(translated, kind), sampler_binding(textures_of(translated)[i], i))
                &&& contains_text(assemble_text(translated, kind), "textureSample("@ + textures_of(translated)[i])
            },
{
    law_textures_distinct(translated);
    let t = textures_of(translated);
    let w = assemble_text(translated, kind);
    lemma_binding_lines(t);
    lemma_texture_names_sampled(translated, 0, Seq::empty());
    let x1 = "struct MdUniforms {\n"@ + field_lines(uniform_list()) + "}\n@group(0) @binding(0) var<uniform> md: MdUniforms;\n\n"@;
    let y1 = "\n"@ + translated + "\n"@ + "fn load_uniforms() {\n"@ + load_lines(uniform_list()) + "}\n\n"@ + ENTRY_PRELUDE@
        + FS_MAIN_HEAD@ + ps_call_text(kind) + FS_MAIN_TAIL@;
    assert(w =~= x1 + binding_lines(t) + y1);
    let x2 = x1 + binding_lines(t) + "\n"@;
    let y2 = "\n"@ + "fn load_uniforms() {\n"@ + load_lines(uniform_list()) + "}\n\n"@ + ENTRY_PRELUDE@ + FS_MAIN_HEAD@
        + ps_call_text(kind) + FS_MAIN_TAIL@;
    assert(w =~= x2 + translated + y2);
    assert forall|i: int| 0 <= i < t.len() implies {
        &&& contains_text(w, #[trigger] texture_binding(t[i], i))
        &&& contains_text(w, sampler_binding(t[i], i))
        &&& contains_text(w, "textureSample("@ + t[i])
    } by {
        lemma_contains_in(x1, binding_lines(t), y1, texture_binding(t[i], i));
        lemma_contains_in(x1, binding_lines(t), y1, sampler_binding(t[i], i));
        lemma_contains_in(x2, translated, y2, "textureSample("@ + t[i]);
    }
}

// --------------------------------------------------------- uniforms --

/// A uniform: its private variable, its field in the uniform block and its
/// WGSL type.
pub type UniformV = (Seq<char>, Seq<char>, Seq<char>);

pub open spec fn c_uniforms(n: nat) -> Seq<UniformV>
    decreases n,
{
    if n == 0 {
        Seq::empty()
    } else {
        c_uniforms((n - 1) as nat).push(("_c"@ + nat_text((n - 1) as nat), "c"@ + nat_text((n - 1) as nat), "vec4<f32>"@))
    }
}

pub open spec fn q_uniforms(n: nat) -> Seq<UniformV>
    decreases n,
{
    if n == 0 {
        Seq::empty()
    } else {
        let l = (97 + n - 1) as char;
        q_uniforms((n - 1) as nat).push(("_q"@ + seq![l], "q"@ + seq![l], "vec4<f32>"@))
    }
}

pub open spec fn rot_group(g: int) -> Seq<char> {
    if g == 0 {
        "s"@
    } else if g == 1 {
        "d"@
    } else if g == 2 {
        "f"@
    } else if g == 3 {
        "vf"@
    } else if g == 4 {
        "uf"@
    } else {
        "rand"@
    }
}

/// The rotation matrices: four per group, in group order.
pub open spec fn rot_uniforms(n: nat) -> Seq<UniformV>
    decreases n,
{
    if n == 0 {
        Seq::empty()
    } else {
        let k = n - 1;
        let name = "rot_"@ + rot_group(k / 4) + nat_text((k % 4 + 1) as nat);
        rot_uniforms((n - 1) as nat).push((name, name, "mat3x4<f32>"@))
    }
}

/// The fixed list of shader uniforms, in the layout the renderer uploads.
pub open spec fn uniform_list() -> Seq<UniformV> {
    c_uniforms(14) + q_uniforms(8) + seq![
        ("rand_frame"@, "rand_frame"@, "vec4<f32>"@),
        ("rand_preset"@, "rand_preset"@, "vec4<f32>"@),
    ] + rot_uniforms(24)
}

/// `field: type,` lines of the uniform block.
pub open spec fn field_lines(u: Seq<UniformV>) -> Seq<char>
    decreases u.len(),
{
    if u.len() == 0 {
        Seq::empty()
    } else {
        let x = u[u.len() - 1];
        field_lines(u.subrange(0, u.len() - 1)) + "    "@ + x.1 + ": "@ + x.2 + ",\n"@
    }
}

/// `var = md.field;` lines copying the block into the private globals.
pub open spec fn load_lines(u: Seq<UniformV>) -> Seq<char>
    decreases u.len(),
{
    if u.len() == 0 {
        Seq::empty()
    } else {
        let x = u[u.len() - 1];
        load_lines(u.subrange(0, u.len() - 1)) + "    "@ + x.0 + " = md."@ + x.1 + ";\n"@
    }
}

pub open spec fn uniforms_struct_text() -> Seq<char> {
    "struct MdUniforms {\n"@ + field_lines(uniform_list()) + "}\n"@
}

pub open spec fn load_uniforms_text() -> Seq<char> {
    "fn load_uniforms() {\n"@ + load_lines(uniform_list()) + "}\n"@
}

/// A texture and its sampler at bindings `2i+1` and `2i+2`.
pub open spec fn binding_lines(t: Seq<Seq<char>>) -> Seq<char>
    decreases t.len(),
{
    if t.len() == 0 {
        Seq::empty()
    } else {
        let i = t.len() - 1;
        binding_lines(t.subrange(0, i)) + "@group(0) @binding("@ + nat_text((2 * i + 1) as nat) + ") var "@ + t[i]
            + ": texture_2d<f32>;\n"@ + "@group(0) @binding("@ + nat_text((2 * i + 2) as nat) + ") var "@ + t[i]
            + "_sampler: sampler;\n"@
    }
}

pub open spec fn ps_call_text(kind: ShaderKind) -> Seq<char> {
    match kind {
        ShaderKind::Warp => "PS(diffuse, vec4<f32>(in.uv, in.uv), ra)"@,
        ShaderKind::Composite => "PS(diffuse, in.uv, ra)"@,
    }
}

/// The complete module around the translated code.
pub open spec fn assemble_text(translated: Seq<char>, kind: ShaderKind) -> Seq<char> {
    "struct MdUniforms {\n"@ + field_lines(uniform_list()) + "}\n@group(0) @binding(0) var<uniform> md: MdUniforms;\n\n"@
        + binding_lines(textures_of(translated)) + "\n"@ + translated + "\n"@ + "fn load_uniforms() {\n"@ + load_lines(
        uniform_list(),
    ) + "}\n\n"@ + ENTRY_PRELUDE@ + FS_MAIN_HEAD@ + ps_call_text(kind) + FS_MAIN_TAIL@
}

// ------------------------------------------------------- executable --

/// `char::is_alphanumeric`: whether `c` is alphabetic or numeric in Unicode.
/// The contract names the result `alphanumeric(c)` and, for ASCII, states
/// what the Unicode properties give there: exactly the letters and digits.
#[verifier::external_body]
fn is_alphanumeric(c: char) -> (r: bool)
    ensures
        r == alphanumeric(c),
        (c as u32) < 0x80 ==> (r <==> ('a' <= c && c <= 'z') || ('A' <= c && c <= 'Z') || ('0' <= c && c <= '9')),
{
    c.is_alphanumeric()
}

fn chars_of(s: &str) -> (r: Vec<char>)
    ensures
        r@ == s@,
{
    str_chars(s)
}

/// The first occurrence of `pat` in `s` at or after `from`.
fn find_chars(s: &Vec<char>, pat: &Vec<char>, from: usize) -> (r: Option<usize>)
    requires
        from <= s.len(),
    ensures
        match r {
            Some(p) => find_from(s@, pat@, from as int) == Some(p as int) && p + pat.len() <= s.len(),
            None => find_from(s@, pat@, from as int) is None,
        },
{
    let mut i = from;
    while i <= s.len() && s.len() - i >= pat.len()
        invariant
            from <= i,
            find_from(s@, pat@, from as int) == find_from(s@, pat@, i as int),
        decreases s.len() + 1 - i,
    {
        let mut ok = true;
        let mut k: usize = 0;
        while k < pat.len()
            invariant
                i + pat.len() <= s.len(),
                k <= pat.len(),
                ok == (forall|j: int| 0 <= j < k ==> s@[i + j] == pat@[j]),
            decreases pat.len() - k,
        {
            if s[i + k] != pat[k] {
                ok = false;
            }
            k = k + 1;
        }
        if ok {
            assert(s@.subrange(i as int, i + pat.len()) =~= pat@);
            return Some(i);
        }
        assert(!occurs_at(s@, pat@, i as int)) by {
            if occurs_at(s@, pat@, i as int) {
                let j = choose|j: int| 0 <= j < pat.len() && s@[i + j] != pat@[j];
                assert(s@.subrange(i as int, i + pat.len())[j] == s@[i + j]);
            }
        }
        i = i + 1;
    }
    None
}

/// The last `c` in `s[..n]`.
fn rfind_in(s: &Vec<char>, c: char, n: usize) -> (r: Option<usize>)
    requires
        n <= s.len(),
    ensures
        match r {
            Some(p) => rfind_char(s@, c, n as int) == Some(p as int) && p < n,
            None => rfind_char(s@, c, n as int) is None,
        },
{
    let mut k = n;
    while k > 0
        invariant
            k <= n <= s.len(),
            rfind_char(s@, c, n as int) == rfind_char(s@, c, k as int),
        decreases k,
    {
        if s[k - 1] == c {
            return Some(k - 1);
        }
        k = k - 1;
    }
    None
}

fn copy_chars(v: &Vec<char>, s: usize, e: usize) -> (r: Vec<char>)
    requires
        s <= e <= v.len(),
    ensures
        r@ == v@.subrange(s as int, e as int),
{
    let mut r: Vec<char> = Vec::new();
    for i in s..e
        invariant
            s <= e <= v.len(),
            r@ == v@.subrange(s as int, i as int),
    {
        r.push(v[i]);
        assert(v@.subrange(s as int, i as int).push(v@[i as int]) =~= v@.subrange(s as int, i + 1));
    }
    r
}

fn push_range(out: &mut String, v: &Vec<char>, s: usize, e: usize)
    requires
        s <= e <= v.len(),
    ensures
        final(out)@ == old(out)@ + v@.subrange(s as int, e as int),
{
    let ghost o = out@;
    for i in s..e
        invariant
            s <= e <= v.len(),
            out@ == o + v@.subrange(s as int, i as int),
    {
        push_char(out, v[i]);
        assert(v@.subrange(s as int, i as int).push(v@[i as int]) =~= v@.subrange(s as int, i + 1));
    }
}

/// Removes the `= sampler_state { … };` override blocks, which have no WGSL
/// equivalent.
pub fn strip_sampler_state(src: &str) -> (r: String)
    ensures
        r@ == strip_sampler_state_text(src@),
{
    let mut s = chars_of(src);
    let key = chars_of("sampler_state");
    let close = chars_of("}");
    let semi = chars_of(";");
    proof {
        reveal_strlit("}");
        reveal_strlit(";");
    }
    loop
        invariant
            key@ == "sampler_state"@,
            close@ == "}"@,
            semi@ == ";"@,
            close@.len() == 1,
            semi@.len() == 1,
            strip_sampler_state_text(src@) == strip_sampler_state_text(s@),
        decreases s.len(),
    {
        let pos = match find_chars(&s, &key, 0) {
            Some(p) => p,
            None => return string_from(&s),
        };
        proof {
            lemma_find_from(s@, "sampler_state"@, 0);
        }
        let start = match rfind_in(&s, '=', pos) {
            Some(q) => q,
            None => pos,
        };
        let b = match find_chars(&s, &close, pos) {
            Some(b) => b,
            None => return string_from(&s),
        };
        proof {
            lemma_find_from(s@, "}"@, pos as int);
        }
        let sc = match find_chars(&s, &semi, b) {
            Some(sc) => sc,
            None => return string_from(&s),
        };
        proof {
            lemma_find_from(s@, ";"@, b as int);
            lemma_rfind_char(s@, '=', pos as int);
        }
        let mut t = copy_chars(&s, 0, start);
        let rest = copy_chars(&s, sc + 1, s.len());
        let ghost t0 = t@;
        t.append(&mut rest.clone());
        assert(t@ =~= s@.subrange(0, start as int) + s@.subrange(sc + 1, s@.len() as int));
        s = t;
    }
}

fn string_from(v: &Vec<char>) -> (r: String)
    ensures
        r@ == v@,
{
    let mut r = String::new();
    push_range(&mut r, v, 0, v.len());
    assert(v@.subrange(0, v@.len() as int) =~= v@);
    r
}

/// Wraps a preset's raw shader body into a full HLSL translation unit: the
/// `shader_body` becomes a `PS()` function, with the header and the
/// per-shader coordinate defines before it.
pub fn wrap(body: &str, kind: ShaderKind) -> (r: Result<String, ShaderError>)
    ensures
        match r {
            Ok(s) => wrap_text(body@, kind) == Ok::<Seq<char>, ShaderErrorV>(s@),
            Err(e) => wrap_text(body@, kind) == Err::<Seq<char>, ShaderErrorV>(e@),
        },
{
    let stripped = strip_sampler_state(body);
    let b = chars_of(stripped.as_str());
    let ghost bs = b@;
    let ep = match find_chars(&b, &chars_of("shader_body"), 0) {
        Some(p) => p,
        None => return Err(ShaderError::MissingEntry),
    };
    proof {
        reveal_strlit("shader_body");
    }
    let after = copy_chars(&b, ep + 11, b.len());
    let br = match find_chars(&after, &chars_of("{"), 0) {
        Some(p) => p,
        None => return Err(ShaderError::MissingBrace),
    };
    proof {
        reveal_strlit("{");
    }
    let after_brace = copy_chars(&after, br + 1, after.len());
    let lb = match rfind_in(&after_brace, '}', after_brace.len()) {
        Some(p) => p,
        None => return Err(ShaderError::MissingBrace),
    };
    let mut full = String::new();
    push_str(&mut full, HEADER);
    match kind {
        ShaderKind::Warp => push_str(&mut full, WARP_DEFINES),
        ShaderKind::Composite => push_str(&mut full, COMPOSITE_DEFINES),
    }
    push_range(&mut full, &b, 0, ep);
    match kind {
        ShaderKind::Warp => push_str(&mut full, WARP_SIGNATURE),
        ShaderKind::Composite => push_str(&mut full, COMPOSITE_SIGNATURE),
    }
    push_range(&mut full, &after, 0, br);
    push_str(&mut full, "{\nfloat3 ret = 0;\n");
    match kind {
        ShaderKind::Warp => push_str(&mut full, WARP_LOCALS),
        ShaderKind::Composite => push_str(&mut full, COMPOSITE_LOCALS),
    }
    if kind == ShaderKind::Warp {
        push_str(&mut full, "_mv_tex_coords.xy = _uv.xy;\n");
    }
    push_range(&mut full, &after_brace, 0, lb);
    push_str(&mut full, "\n_return_value = float4(ret.xyz, 1.0);\n}\n");
    Ok(full)
}

/// The textures referenced as `textureSample(<name>, …)`, each once, in
/// first-reference order.
pub fn find_textures(wgsl: &str) -> (r: Vec<String>)
    ensures
        strings_view(r@) == textures_of(wgsl@),
{
    let s = chars_of(wgsl);
    let needle = chars_of("textureSample(");
    proof {
        reveal_strlit("textureSample(");
    }
    let mut found: Vec<String> = Vec::new();
    let mut i: usize = 0;
    assert(strings_view(found@) =~= Seq::<Seq<char>>::empty());
    loop
        invariant
            s@ == wgsl@,
            needle@ == "textureSample("@,
            needle@.len() == 14,
            i <= s.len(),
            textures_of(wgsl@) == texture_names(s@, i as int, strings_view(found@)),
        decreases s.len() - i,
    {
        let p = match find_chars(&s, &needle, i) {
            Some(p) => p,
            None => return found,
        };
        proof {
            lemma_find_from(s@, needle@, i as int);
        }
        let a = p + 14;
        let mut e = a;
        while e < s.len() && (is_alphanumeric(s[e]) || s[e] == '_')
            invariant
                a <= e <= s.len(),
                name_run(s@, a as int) == (e - a) + name_run(s@, e as int),
            decreases s.len() - e,
        {
            e = e + 1;
        }
        let name = copy_chars(&s, a, e);
        let ghost nv = name@;
        assert(nv == s@.subrange(a as int, a + name_run(s@, a as int)));
        if name.len() > 0 && !contains_name(&found, &name) {
            let mut ns = String::new();
            push_range(&mut ns, &name, 0, name.len());
            assert(name@.subrange(0, name@.len() as int) =~= name@);
            let ghost prev = found@;
            found.push(ns);
            assert(strings_view(found@) =~= strings_view(prev).push(nv));
        }
        i = a;
    }
}

fn contains_name(found: &Vec<String>, name: &Vec<char>) -> (r: bool)
    ensures
        r == strings_view(found@).contains(name@),
{
    let ghost v = strings_view(found@);
    for i in 0..found.len()
        invariant
            v == strings_view(found@),
            forall|j: int| 0 <= j < i ==> v[j] != name@,
    {
        let c = chars_of(found[i].as_str());
        if chars_same(&c, name) {
            assert(v[i as int] == name@);
            return true;
        }
    }
    false
}

fn chars_same(a: &Vec<char>, b: &Vec<char>) -> (r: bool)
    ensures
        r == (a@ == b@),
{
    if a.len() != b.len() {
        return false;
    }
    for i in 0..a.len()
        invariant
            a@.len() == b@.len(),
            forall|j: int| 0 <= j < i ==> a@[j] == b@[j],
    {
        if a[i] != b[i] {
            return false;
        }
    }
    assert(a@ =~= b@);
    true
}

pub open spec fn uniforms_view(v: Seq<(String, String, &'static str)>) -> Seq<UniformV> {
    v.map_values(|u: (String, String, &'static str)| (u.0@, u.1@, u.2@))
}

fn push_uniform(v: &mut Vec<(String, String, &'static str)>, var: String, field: String, ty: &'static str)
    ensures
        uniforms_view(final(v)@) == uniforms_view(old(v)@).push((var@, field@, ty@)),
{
    v.push((var, field, ty));
    assert(uniforms_view(v@) =~= uniforms_view(old(v)@).push((var@, field@, ty@)));
}

/// The fixed list of shader uniforms: `(private var, struct field, wgsl
/// type)`, in the layout the renderer uploads every frame.
pub fn uniforms() -> (r: Vec<(String, String, &'static str)>)
    ensures
        uniforms_view(r@) == uniform_list(),
{
    let mut v: Vec<(String, String, &'static str)> = Vec::new();
    assert(uniforms_view(v@) =~= c_uniforms(0));
    for n in 0..14u64
        invariant
            uniforms_view(v@) == c_uniforms(n as nat),
    {
        let mut var = "_c".to_owned();
        push_nat(&mut var, n);
        let mut field = "c".to_owned();
        push_nat(&mut field, n);
        push_uniform(&mut v, var, field, "vec4<f32>");
    }
    let ghost cpart = uniforms_view(v@);
    let letters = chars_of("abcdefgh");
    proof {
        reveal_strlit("abcdefgh");
    }
    assert(letters@.len() == 8);
    assert(letters@[0] == 'a' && letters@[1] == 'b' && letters@[2] == 'c' && letters@[3] == 'd' && letters@[4] == 'e'
        && letters@[5] == 'f' && letters@[6] == 'g' && letters@[7] == 'h');
    assert(q_uniforms(0) =~= Seq::<UniformV>::empty());
    for n in 0..8usize
        invariant
            letters@ == "abcdefgh"@,
            letters@.len() == 8,
            forall|j: int| 0 <= j < 8 ==> #[trigger] letters@[j] == (97 + j) as char,
            uniforms_view(v@) == cpart + q_uniforms(n as nat),
    {
        let l = letters[n];
        assert(l == (97 + n) as char);
        let mut var = "_q".to_owned();
        push_char(&mut var, l);
        let mut field = "q".to_owned();
        push_char(&mut field, l);
        let ghost vv = var@;
        let ghost fv = field@;
        assert(vv =~= "_q"@ + seq![l]);
        assert(fv =~= "q"@ + seq![l]);
        push_uniform(&mut v, var, field, "vec4<f32>");
        assert(cpart + q_uniforms((n + 1) as nat) =~= (cpart + q_uniforms(n as nat)).push((vv, fv, "vec4<f32>"@)));
    }
    push_uniform(&mut v, "rand_frame".to_owned(), "rand_frame".to_owned(), "vec4<f32>");
    push_uniform(&mut v, "rand_preset".to_owned(), "rand_preset".to_owned(), "vec4<f32>");
    let ghost mid = uniforms_view(v@);
    assert(mid =~= c_uniforms(14) + q_uniforms(8) + seq![
        ("rand_frame"@, "rand_frame"@, "vec4<f32>"@),
        ("rand_preset"@, "rand_preset"@, "vec4<f32>"@),
    ]);
    let groups = ["s", "d", "f", "vf", "uf", "rand"];
    assert(rot_uniforms(0) =~= Seq::<UniformV>::empty());
    for g in 0..6usize
        invariant
            groups@ == seq!["s", "d", "f", "vf", "uf", "rand"],
            uniforms_view(v@) == mid + rot_uniforms((4 * g) as nat),
    {
        let grp = groups[g];
        assert(grp@ == rot_group(g as int));
        for i in 1..5u64
            invariant
                g < 6,
                grp@ == rot_group(g as int),
                uniforms_view(v@) == mid + rot_uniforms((4 * g + i - 1) as nat),
        {
            let mut name = "rot_".to_owned();
            push_str(&mut name, grp);
            push_nat(&mut name, i);
            let field = name.clone();
            let ghost k = 4 * g + i - 1;
            assert(k / 4 == g && k % 4 + 1 == i) by (nonlinear_arith)
                requires k == 4 * g + i - 1, 1 <= i <= 4;
            push_uniform(&mut v, name, field, "mat3x4<f32>");
            assert(mid + rot_uniforms((k + 1) as nat) =~= (mid + rot_uniforms(k as nat)).push((name@, name@, "mat3x4<f32>"@)));
        }
    }
    v
}

fn push_field_lines(out: &mut String, u: &Vec<(String, String, &'static str)>)
    ensures
        final(out)@ == old(out)@ + field_lines(uniforms_view(u@)),
{
    let ghost o = out@;
    let ghost uv = uniforms_view(u@);
    assert(uv.subrange(0, 0) =~= Seq::<UniformV>::empty());
    for i in 0..u.len()
        invariant
            uv == uniforms_view(u@),
            out@ == o + field_lines(uv.subrange(0, i as int)),
    {
        assert(uv.subrange(0, i + 1).subrange(0, i as int) =~= uv.subrange(0, i as int));
        push_str(out, "    ");
        push_str(out, u[i].1.as_str());
        push_str(out, ": ");
        push_str(out, u[i].2);
        push_str(out, ",\n");
    }
    assert(uv.subrange(0, uv.len() as int) =~= uv);
}

fn push_load_lines(out: &mut String, u: &Vec<(String, String, &'static str)>)
    ensures
        final(out)@ == old(out)@ + load_lines(uniforms_view(u@)),
{
    let ghost o = out@;
    let ghost uv = uniforms_view(u@);
    assert(uv.subrange(0, 0) =~= Seq::<UniformV>::empty());
    for i in 0..u.len()
        invariant
            uv == uniforms_view(u@),
            out@ == o + load_lines(uv.subrange(0, i as int)),
    {
        assert(uv.subrange(0, i + 1).subrange(0, i as int) =~= uv.subrange(0, i as int));
        push_str(out, "    ");
        push_str(out, u[i].0.as_str());
        push_str(out, " = md.");
        push_str(out, u[i].1.as_str());
        push_str(out, ";\n");
    }
    assert(uv.subrange(0, uv.len() as int) =~= uv);
}

/// The `MdUniforms` WGSL struct definition (no `@group`/`@binding`).
pub fn md_uniforms_struct() -> (r: String)
    ensures
        r@ == uniforms_struct_text(),
{
    let mut s = "struct MdUniforms {\n".to_owned();
    push_field_lines(&mut s, &uniforms());
    push_str(&mut s, "}\n");
    s
}

/// The `load_uniforms()` WGSL that copies the `md` block into the private
/// globals the translated code reads.
pub fn md_load_uniforms() -> (r: String)
    ensures
        r@ == load_uniforms_text(),
{
    let mut s = "fn load_uniforms() {\n".to_owned();
    push_load_lines(&mut s, &uniforms());
    push_str(&mut s, "}\n");
    s
}

/// Appends the binding lines of the textures, in order.
#[verifier::spinoff_prover]
fn push_binding_lines(out: &mut String, textures: &Vec<String>)
    ensures
        final(out)@ == old(out)@ + binding_lines(strings_view(textures@)),
{
    let ghost tv = strings_view(textures@);
    let ghost o = out@;
    assert(tv.subrange(0, 0) =~= Seq::<Seq<char>>::empty());
    for i in 0..textures.len()
        invariant
            tv == strings_view(textures@),
            out@ == o + binding_lines(tv.subrange(0, i as int)),
    {
        assert(tv.subrange(0, i + 1).subrange(0, i as int) =~= tv.subrange(0, i as int));
        assert(tv.subrange(0, i + 1)[i as int] == textures@[i as int]@);
        push_binding_pair(out, i, textures[i].as_str());
    }
    assert(tv.subrange(0, tv.len() as int) =~= tv);
}

/// Assembles the final WGSL: uniform block, texture bindings, the translated
/// globals and `PS` function, the `load_uniforms` copy and a fullscreen entry.
pub fn assemble(translated: &str, kind: ShaderKind) -> (r: (String, Vec<String>))
    ensures
        r.0@ == assemble_text(translated@, kind),
        strings_view(r.1@) == textures_of(translated@),
{
    let u = uniforms();
    let mut out = "struct MdUniforms {\n".to_owned();
    push_field_lines(&mut out, &u);
    push_str(&mut out, "}\n@group(0) @binding(0) var<uniform> md: MdUniforms;\n\n");
    let textures = find_textures(translated);
    push_binding_lines(&mut out, &textures);
    push_str(&mut out, "\n");
    push_str(&mut out, translated);
    push_str(&mut out, "\n");
    push_str(&mut out, "fn load_uniforms() {\n");
    push_load_lines(&mut out, &u);
    push_str(&mut out, "}\n\n");
    push_str(&mut out, ENTRY_PRELUDE);
    push_str(&mut out, FS_MAIN_HEAD);
    match kind {
        ShaderKind::Warp => push_str(&mut out, "PS(diffuse, vec4<f32>(in.uv, in.uv), ra)"),
        ShaderKind::Composite => push_str(&mut out, "PS(diffuse, in.uv, ra)"),
    }
    push_str(&mut out, FS_MAIN_TAIL);
    (out, textures)
}

/// A texture and its sampler at bindings `2i+1` and `2i+2`.
fn push_binding_pair(out: &mut String, i: usize, name: &str)
    ensures
        final(out)@ == old(out)@ + "@group(0) @binding("@ + nat_text((2 * i + 1) as nat) + ") var "@ + name@
            + ": texture_2d<f32>;\n"@ + "@group(0) @binding("@ + nat_text((2 * i + 2) as nat) + ") var "@ + name@
            + "_sampler: sampler;\n"@,
{
    let b: u128 = 2 * (i as u128) + 1;
    push_str(out, "@group(0) @binding(");
    push_wide(out, b);
    push_str(out, ") var ");
    push_str(out, name);
    push_str(out, ": texture_2d<f32>;\n");
    push_str(out, "@group(0) @binding(");
    push_wide(out, b + 1);
    push_str(out, ") var ");
    push_str(out, name);
    push_str(out, "_sampler: sampler;\n");
}

/// Appends the decimal text of `n`.
fn push_wide(out: &mut String, n: u128)
    ensures
        final(out)@ == old(out)@ + nat_text(n as nat),
    decreases n,
{
    if n >= 10 {
        push_wide(out, n / 10);
    }
    let d: u8 = (n % 10) as u8;
    push_char(out, (48u8 + d) as char);
}

/// What translating a preset shader gives: the assembled module and its
/// textures, or the failure of wrapping or of translation.
pub open spec fn to_wgsl_result(body: Seq<char>, kind: ShaderKind) -> Result<(Seq<char>, Seq<Seq<char>>), ShaderErrorV> {
    match wrap_text(body, kind) {
        Err(e) => Err(e),
        Ok(w) => match translate_text(w) {
            Err(e) => Err(ShaderErrorV::Translate(e)),
            Ok(t) => Ok((assemble_text(t, kind), textures_of(t))),
        },
    }
}

/// Translates a preset shader body to a complete, render-ready WGSL module.
pub fn to_wgsl(body: &str, kind: ShaderKind) -> (r: Result<TranslatedShader, ShaderError>)
    ensures
        match r {
            Ok(t) => to_wgsl_result(body@, kind) == Ok::<(Seq<char>, Seq<Seq<char>>), ShaderErrorV>((t.wgsl@, strings_view(t.textures@))),
            Err(e) => to_wgsl_result(body@, kind) == Err::<(Seq<char>, Seq<Seq<char>>), ShaderErrorV>(e@),
        },
{
    let wrapped = match wrap(body, kind) {
        Ok(w) => w,
        Err(e) => return Err(e),
    };
    let translated = match translate(wrapped.as_str()) {
        Ok(t) => t,
        Err(e) => return Err(ShaderError::Translate(e)),
    };
    let (wgsl, textures) = assemble(translated.as_str(), kind);
    Ok(TranslatedShader { wgsl, textures })
}

/// Translates a preset warp shader to its `PS` core, for the renderer's mesh
/// pipeline.
pub fn warp_shader_parts(body: &str) -> (r: Result<WarpShaderParts, ShaderError>)
    ensures
        match r {
            Ok(p) => (match wrap_text(body@, ShaderKind::Warp) {
                Ok(w) => translate_text(w) == Ok::<Seq<char>, ParseErrorV>(p.ps_wgsl@),
                Err(_) => false,
            }) && strings_view(p.textures@) == textures_of(p.ps_wgsl@),
            Err(e) => match wrap_text(body@, ShaderKind::Warp) {
                Err(w) => e@ == w,
                Ok(w) => translate_text(w) matches Err(t) && e@ == ShaderErrorV::Translate(t),
            },
        },
{
    let wrapped = match wrap(body, ShaderKind::Warp) {
        Ok(w) => w,
        Err(e) => return Err(e),
    };
    let translated = match translate(wrapped.as_str()) {
        Ok(t) => t,
        Err(e) => return Err(ShaderError::Translate(e)),
    };
    let textures = find_textures(translated.as_str());
    Ok(WarpShaderParts { ps_wgsl: translated, textures })
}

} // verus!
