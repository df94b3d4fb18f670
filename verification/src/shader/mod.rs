//! Translation of Milkdrop preset shaders (a DirectX 9 era HLSL dialect) into
//! WGSL: `#define` preprocessing, lexing, parsing and code generation.

pub mod ast;
pub mod lexer;
pub mod grammar;
pub mod parser;
pub mod wgsl;
pub mod codegen;
pub mod preprocess;

use vstd::prelude::*;
use crate::shader::parser::{ParseError, parse, items_view};
use crate::shader::grammar::{ParseErrorV, parse_bytes};
use crate::shader::preprocess::{preprocess, preprocess_text};
use crate::shader::codegen::generate;
use crate::shader::wgsl::generate_text;

verus! {

/// What translating a shader gives: the WGSL text of the parsed, fully
/// preprocessed source, or the parse failure.
pub open spec fn translate_text(src: Seq<char>) -> Result<Seq<char>, ParseErrorV> {
    match parse_bytes(vstd::utf8::encode_utf8(preprocess_text(src))) {
        Ok(items) => Ok(generate_text(items)),
        Err(e) => Err(e),
    }
}

/// Translates Milkdrop HLSL preset shader source into WGSL: `#define`
/// preprocessing, parsing, code generation. Global uniforms become
/// `var<private>` placeholders, so the result is a self-contained module.
pub fn translate(src: &str) -> (r: Result<String, ParseError>)
    ensures
        match r {
            Ok(w) => translate_text(src@) == Ok::<Seq<char>, ParseErrorV>(w@),
            Err(e) => translate_text(src@) == Err::<Seq<char>, ParseErrorV>(e@),
        },
{
    let pre = preprocess(src);
    match parse(pre.as_str()) {
        Ok(items) => Ok(generate(items.as_slice())),
        Err(e) => Err(e),
    }
}

} // verus!
