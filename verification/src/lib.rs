//! Verified core of a Milkdrop-style visualizer toolkit: the preset file
//! parser and settings, the preset-shader wrapper, the HLSL-to-WGSL shader
//! translator, the scene/effect data model, the compositor's layer stack,
//! shader-project passes and the audio ring's drain plan.

pub mod text;
pub mod scene;
pub mod web;
pub mod shader;
pub mod preset;
pub mod render;
pub mod effect_chain;
pub mod project;
pub mod audio_ring;
pub mod compositor;
