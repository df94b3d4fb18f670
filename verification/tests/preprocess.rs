use projectm_rs::shader::preprocess::preprocess;

fn pp(s: &str) -> String {
    // Collapse whitespace for stable comparisons.
    preprocess(s).split_whitespace().collect::<Vec<_>>().join(" ")
}

#[test]
fn object_like_define() {
    let src = "#define time _c2.x\nfloat t = time;";
    assert_eq!(pp(src), "float t = _c2.x;");
}

#[test]
fn function_like_define() {
    let src = "#define lum(x) (dot(x,float3(0.32,0.49,0.29)))\nfloat l = lum(color);";
    assert_eq!(pp(src), "float l = (dot(color,float3(0.32,0.49,0.29)));");
}

#[test]
fn nested_macro_expansion() {
    // GetBlur1 expands to a tex2D call referencing _c5, like the real header.
    let src = "#define GetBlur1(uv) (tex2D(sampler_blur1,uv).xyz*_c5.x + _c5.y)\n\
               float3 b = GetBlur1(texCoord);";
    assert_eq!(pp(src), "float3 b = (tex2D(sampler_blur1,texCoord).xyz*_c5.x + _c5.y);");
}

#[test]
fn recursive_object_macros() {
    let src = "#define A B\n#define B 42\nint x = A;";
    assert_eq!(pp(src), "int x = 42;");
}

#[test]
fn self_reference_is_not_infinite() {
    let src = "#define x x\nint y = x;";
    assert_eq!(pp(src), "int y = x;");
}

#[test]
fn comments_stripped_before_expansion() {
    let src = "#define time _c2.x\nfloat t = time; // time is here\nfloat u = /* x */ time;";
    assert_eq!(pp(src), "float t = _c2.x; float u = _c2.x;");
}

#[test]
fn arg_with_nested_parens() {
    let src = "#define f(a) [a]\nint z = f(g(1,2));";
    assert_eq!(pp(src), "int z = [g(1,2)];");
}

#[test]
fn exact_output_keeps_lines() {
    assert_eq!(preprocess("a\r\nb"), "a\nb\n");
    assert_eq!(preprocess("#ifdef X\nint a;\n#endif\n"), "int a;\n");
    assert_eq!(preprocess(""), "");
}

#[test]
fn block_comment_keeps_newlines() {
    assert_eq!(preprocess("a/* x\ny */b"), "a\n b\n");
    assert_eq!(preprocess("a /* open"), "a  \n");
}

#[test]
fn line_continuation_joins_define() {
    let src = "#define TWO 1 + \\\n 1\nint v = TWO;";
    assert_eq!(pp(src), "int v = 1 + 1;");
}

#[test]
fn function_macro_without_call_is_left_alone() {
    assert_eq!(pp("#define f(a) [a]\nint f;"), "int f;");
    assert_eq!(pp("#define f(a) [a]\nint w = f (1);"), "int w = [1];");
    assert_eq!(pp("#define f(a) [a]\nint w = f(1"), "int w = f(1");
}

#[test]
fn missing_argument_becomes_empty() {
    assert_eq!(pp("#define g(a,b) a-b\nint w = g(1);"), "int w = 1-;");
    assert_eq!(pp("#define g(a,b) a-b\nint w = g( 1 , 2 );"), "int w = 1-2;");
}

#[test]
fn later_define_wins() {
    assert_eq!(pp("#define A 1\n#define A 2\nint x = A;"), "int x = 2;");
}

#[test]
fn mutual_recursion_stops() {
    assert_eq!(pp("#define A B\n#define B A\nint x = A;"), "int x = A;");
}

#[test]
fn non_ascii_bytes_are_read_one_char_each() {
    // Text the preprocessor writes holds one char per byte.
    assert_eq!(preprocess("é"), "\u{c3}\u{83}\u{c2}\u{a9}\n");
}

#[test]
fn comments_keep_every_line() {
    let src = "a // one\nb /* two\nthree */ c\n// four\nd";
    assert_eq!(preprocess(src).matches('\n').count(), src.matches('\n').count() + 1);
    assert_eq!(preprocess(src), "a \nb \n  c\n\nd\n");
    // the one exception: a final newline inside a block comment never closed
    assert_eq!(preprocess("a /* open\n"), "a  \n");
}

#[test]
fn plain_text_comes_back_line_by_line() {
    assert_eq!(preprocess("float a = b;\r\n\nc * d"), "float a = b;\n\nc * d\n");
    assert_eq!(preprocess(""), "");
}
