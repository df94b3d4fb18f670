# projectm_rs

The verified core of a Milkdrop-style music visualizer, written in Verus.

`src/` is the library. Every function in it is proved against its
contract, except three small wrappers around std (`String::push`,
`char::is_alphanumeric` and the `Debug` text of a `char`), whose contracts
are taken on trust and state only what std documents:

- `preset::parser`: the `.milk` preset file format (keys, numbered code
  blocks, leading numbers); `preset::state`: the integer, flag, version and
  code settings of a preset.
- `preset::preset_shader`: wrapping a preset's shader body into an HLSL unit
  and assembling the translated WGSL module with its bindings.
- `shader::*`: the HLSL-to-WGSL translator: preprocessor (comments,
  continuations, `#define` macros), lexer, parser and code generator, each
  stated over a spec model of its output.
- `scene`, `web`, `effect_chain`, `compositor`, `project`: the scene limits,
  effect kinds, reorderable effect chains, the compositor's layer stack and
  the passes of a shader project, with their save/reload laws.
- `render`, `audio_ring`: live-texture accounting and the audio ring's drain
  plan.

Laws of the library are public proof functions named `law_*`.

`tests/` runs the library on concrete values; the translator's output is
checked with naga. `app/` holds the parts that cannot be verified here: the
serializable scene model (serde, `f32`), a preset's fractional settings,
effect parameter values and the glue around the layer stack.
