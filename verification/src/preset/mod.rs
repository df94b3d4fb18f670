//! The Milkdrop preset side: the `.milk` file parser and the translation of
//! preset shaders into render-ready WGSL.

pub mod parser;
pub mod preset_shader;
pub mod state;
