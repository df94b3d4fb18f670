use projectm_rs::preset::preset_shader::{
    find_textures, md_load_uniforms, md_uniforms_struct, strip_sampler_state, to_wgsl as shader_to_wgsl, uniforms,
    warp_shader_parts, wrap, ShaderError, ShaderKind,
};

fn validate(wgsl: &str) -> Result<(), String> {
    let module = naga::front::wgsl::parse_str(wgsl)
        .map_err(|e| format!("naga parse error: {}\n--- WGSL ---\n{wgsl}", e.emit_to_string(wgsl)))?;
    let mut v = naga::valid::Validator::new(naga::valid::ValidationFlags::all(), naga::valid::Capabilities::all());
    v.validate(&module).map_err(|e| format!("naga validation error: {e:?}\n--- WGSL ---\n{wgsl}"))?;
    Ok(())
}

#[test]
fn default_composite_shader_compiles() {
    let body = "shader_body\n{\nret = tex2D(sampler_main, uv).xyz;\n}";
    let wgsl = shader_to_wgsl(body, ShaderKind::Composite).expect("translate").wgsl;
    validate(&wgsl).unwrap();
    assert!(wgsl.contains("textureSample(sampler_main"));
    assert!(wgsl.contains("@fragment"));
}

#[test]
fn composite_with_uniforms_and_intrinsics() {
    let body = r#"shader_body
{
    ret = GetPixel(uv);
    ret *= 1.0 + 0.3 * bass;
    ret.r = ret.r * (0.5 + 0.5 * sin(time));
    float l = lum(ret);
    ret = lerp(ret, float3(l, l, l), 0.2);
}"#;
    let wgsl = shader_to_wgsl(body, ShaderKind::Composite).expect("translate").wgsl;
    validate(&wgsl).unwrap();
    assert!(wgsl.contains("md.c2"));
}

#[test]
fn warp_shader_compiles() {
    let body = r#"shader_body
{
    ret = tex2D(sampler_main, uv).xyz;
    ret *= 0.99;
    ret += GetPixel(uv + float2(0.001, 0.0)) * 0.1;
}"#;
    let wgsl = shader_to_wgsl(body, ShaderKind::Warp).expect("translate").wgsl;
    validate(&wgsl).unwrap();
    assert!(wgsl.contains("_mv_tex_coords"));
}

#[test]
fn getblur_references_blur_samplers() {
    let body = "shader_body { ret = GetBlur1(uv) * 0.5 + GetPixel(uv) * 0.5; }";
    let wgsl = shader_to_wgsl(body, ShaderKind::Composite).expect("translate").wgsl;
    validate(&wgsl).unwrap();
    assert!(wgsl.contains("sampler_blur1"));
}

#[test]
fn warp_uv_lvalue_write_compiles() {
    let body = r#"shader_body
{
    float d = 0.01;
    uv.x += d;
    uv.y -= d;
    ret = tex2D(sampler_main, uv).xyz;
}"#;
    let wgsl = shader_to_wgsl(body, ShaderKind::Warp).expect("translate").wgsl;
    validate(&wgsl).unwrap();
    assert!(wgsl.contains("var uv: vec2<f32> = _uv.xy"), "uv is a mutable local");
    assert!(!wgsl.contains("_uv.xy.x +="), "no chained-swizzle lvalue");
}

#[test]
fn warp_uv_full_swizzle_assignment_compiles() {
    let body = r#"shader_body
{
    float2 off = float2(0.1, 0.2);
    uv.xy = uv + off;
    ret = tex2D(sampler_main, uv).xyz;
}"#;
    let wgsl = shader_to_wgsl(body, ShaderKind::Warp).expect("translate").wgsl;
    validate(&wgsl).unwrap();
}

#[test]
fn warp_uv_orig_read_path_compiles() {
    let body = r#"shader_body
{
    ret = tex2D(sampler_main, uv).xyz;
    ret += tex2D(sampler_main, uv_orig).xyz * 0.2;
}"#;
    let wgsl = shader_to_wgsl(body, ShaderKind::Warp).expect("translate").wgsl;
    validate(&wgsl).unwrap();
    assert!(wgsl.contains("var uv_orig: vec2<f32> = _uv.zw"), "uv_orig seeded from _uv.zw");
}

#[test]
fn read_only_uv_still_compiles_unchanged() {
    let body = "shader_body\n{\nret = tex2D(sampler_main, uv).xyz * 0.98;\n}";
    let warp = shader_to_wgsl(body, ShaderKind::Warp).expect("translate").wgsl;
    let comp = shader_to_wgsl(body, ShaderKind::Composite).expect("translate").wgsl;
    validate(&warp).unwrap();
    validate(&comp).unwrap();
    assert!(warp.contains("textureSample(sampler_main, sampler_main_sampler, uv)"));
}

#[test]
fn non_uv_swizzle_assignment_unchanged() {
    let body = r#"shader_body
{
    ret = tex2D(sampler_main, uv).xyz;
    ret.x = 0.5;
    ret.yz = float2(0.2, 0.3);
}"#;
    let wgsl = shader_to_wgsl(body, ShaderKind::Composite).expect("translate").wgsl;
    validate(&wgsl).unwrap();
}

#[test]
fn missing_shader_body_errors() {
    assert!(shader_to_wgsl("ret = uv.x;", ShaderKind::Composite).is_err());
}

#[test]
fn missing_braces_error() {
    assert!(matches!(wrap("shader_body ret = 1;", ShaderKind::Composite), Err(ShaderError::MissingBrace)));
    assert!(matches!(wrap("shader_body { ret = 1;", ShaderKind::Composite), Err(ShaderError::MissingBrace)));
    assert!(matches!(wrap("nothing", ShaderKind::Warp), Err(ShaderError::MissingEntry)));
}

#[test]
fn wrap_builds_ps_entry() {
    let w = wrap("shader_body\n{\nret = 1;\n}", ShaderKind::Warp).unwrap();
    assert!(w.contains("void PS(float4 _vDiffuse : COLOR,"));
    assert!(w.contains("{\nfloat3 ret = 0;\nfloat2 uv = _uv.xy;\nfloat2 uv_orig = _uv.zw;\n_mv_tex_coords.xy = _uv.xy;\n\nret = 1;\n\n_return_value = float4(ret.xyz, 1.0);\n}\n"));
    assert!(!w.contains("#define uv"));
    let c = wrap("shader_body\n{\nret = 1;\n}", ShaderKind::Composite).unwrap();
    assert!(c.contains("#define hue_shader _vDiffuse.xyz\n"));
    assert!(c.contains("{\nfloat3 ret = 0;\nfloat2 uv = _uv.xy;\nfloat2 uv_orig = _uv.xy;\n\nret = 1;"));
    assert!(!c.contains("_mv_tex_coords.xy = _uv.xy;"));
}

#[test]
fn sampler_state_blocks_are_removed() {
    let s = strip_sampler_state("sampler2D s = sampler_state { Filter = LINEAR; };\nx");
    assert_eq!(s, "sampler2D s \nx");
    assert_eq!(strip_sampler_state("plain"), "plain");
}

#[test]
fn textures_found_once_in_order() {
    let t = find_textures("textureSample(b, b_sampler, uv) + textureSample(a, a_sampler, uv) + textureSample(b, x)");
    assert_eq!(t, vec!["b".to_string(), "a".to_string()]);
    assert!(find_textures("textureSample(").is_empty());
}

#[test]
fn uniform_layout() {
    let u = uniforms();
    assert_eq!(u.len(), 48);
    assert_eq!(u[0], ("_c0".to_string(), "c0".to_string(), "vec4<f32>"));
    assert_eq!(u[14], ("_qa".to_string(), "qa".to_string(), "vec4<f32>"));
    assert_eq!(u[22].0, "rand_frame");
    assert_eq!(u[24], ("rot_s1".to_string(), "rot_s1".to_string(), "mat3x4<f32>"));
    assert_eq!(u[47].0, "rot_rand4");
    assert!(md_uniforms_struct().starts_with("struct MdUniforms {\n    c0: vec4<f32>,\n"));
    assert!(md_load_uniforms().contains("    rot_vf2 = md.rot_vf2;\n"));
}

#[test]
fn default_composite_shader_assembles() {
    let body = "shader_body\n{\nret = tex2D(sampler_main, uv).xyz;\n}";
    let t = shader_to_wgsl(body, ShaderKind::Composite).expect("translate");
    assert_eq!(t.textures, vec!["sampler_main".to_string()]);
    assert!(t.wgsl.contains("@group(0) @binding(1) var sampler_main: texture_2d<f32>;\n"));
    assert!(t.wgsl.contains("@group(0) @binding(2) var sampler_main_sampler: sampler;\n"));
    assert!(t.wgsl.contains("let o = PS(diffuse, in.uv, ra);"));
}

#[test]
fn warp_parts_list_textures() {
    let body = "shader_body\n{\nret = tex2D(sampler_main, uv).xyz + GetBlur1(uv);\n}";
    let p = warp_shader_parts(body).expect("translate");
    assert_eq!(p.textures, vec!["sampler_main".to_string(), "sampler_blur1".to_string()]);
    assert!(p.ps_wgsl.contains("fn PS("));
}

#[test]
fn wrap_keeps_prefix_and_drops_text_after_last_brace() {
    let w = wrap("float4 k;\nshader_body { ret = 1; } trailing_junk", ShaderKind::Warp).unwrap();
    assert!(w.contains("float4 k;\n"));
    assert!(w.contains("ret = 1;"));
    assert!(!w.contains("trailing_junk"));
    assert!(!w.contains("shader_body"));
}
