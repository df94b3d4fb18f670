//! The settings of a preset that are not numbers with a fraction: its
//! integer and flag settings, the shader model versions it declares, and its
//! code blocks, read from a parsed `.milk` file over Milkdrop's defaults.
//! The fractional settings are read by the renderer.

use vstd::prelude::*;
use crate::preset::parser::{code_text, first_gap, leading_int, lookup, PresetFile};
use crate::text::{lower_ascii, nat_text, push_nat, push_str};

verus! {

/// The number of `q` variables a preset passes between its equations.
pub const Q_VAR_COUNT: usize = 32;

/// The number of custom waveforms a preset may define.
pub const CUSTOM_WAVEFORM_COUNT: usize = 4;

/// The number of custom shapes a preset may define.
pub const CUSTOM_SHAPE_COUNT: usize = 4;

/// The integer value of `key` in file `f`, or `default`.
pub open spec fn int_setting(f: Seq<(Seq<char>, Seq<char>)>, key: Seq<char>, default: i32) -> i32 {
    match lookup(f, lower_ascii(key)) {
        Some(v) => match leading_int(v) {
            Some(x) => x,
            None => default,
        },
        None => default,
    }
}

/// Whether the integer value of `key` in file `f` is positive, or `default`.
pub open spec fn flag_setting(f: Seq<(Seq<char>, Seq<char>)>, key: Seq<char>, default: bool) -> bool {
    match lookup(f, lower_ascii(key)) {
        Some(v) => match leading_int(v) {
            Some(x) => x > 0,
            None => default,
        },
        None => default,
    }
}

/// The code block with lines `prefix1`, `prefix2`, … in file `f` (see
/// [`PresetFile::get_code`]).
pub open spec fn code_block(f: Seq<(Seq<char>, Seq<char>)>, prefix: Seq<char>) -> Seq<char> {
    code_text(f, lower_ascii(prefix), first_gap(f, lower_ascii(prefix)))
}

/// The preset version and the warp and composite shader model versions: a
/// preset older than version 200 has no shaders (0), version 200 declares one
/// model for both, later ones one for each (2 if not given).
pub open spec fn shader_versions(f: Seq<(Seq<char>, Seq<char>)>) -> (i32, i32, i32) {
    let pv = int_setting(f, "MILKDROP_PRESET_VERSION"@, 100);
    if pv < 200 {
        (pv, 0, 0)
    } else if pv == 200 {
        (pv, int_setting(f, "PSVERSION"@, 2), int_setting(f, "PSVERSION"@, 2))
    } else {
        (pv, int_setting(f, "PSVERSION_WARP"@, 2), int_setting(f, "PSVERSION_COMP"@, 2))
    }
}

/// The code-block prefix `<base><i><part>`, such as `wave_2_per_frame`.
pub open spec fn numbered_prefix(base: Seq<char>, i: nat, part: Seq<char>) -> Seq<char> {
    base + nat_text(i) + part
}

/// The integer, flag, version and code settings of a preset.
#[derive(Clone, Debug)]
pub struct PresetSettings {
    pub video_echo_orientation: i32,
    pub red_blue_stereo: bool,
    pub brighten: bool,
    pub darken: bool,
    pub solarize: bool,
    pub invert: bool,
    pub wave_mode: i32,
    pub additive_waves: bool,
    pub wave_dots: bool,
    pub wave_thick: bool,
    pub mod_wave_alpha_by_volume: bool,
    pub maximize_wave_color: bool,
    /// Whether the file switches motion vectors on (the renderer's starting
    /// motion-vector opacity, before `mv_a` overrides it).
    pub motion_vectors_on: bool,
    pub tex_wrap: bool,
    pub darken_center: bool,
    pub preset_version: i32,
    pub warp_shader_version: i32,
    pub composite_shader_version: i32,
    pub per_frame_init_code: String,
    pub per_frame_code: String,
    pub per_pixel_code: String,
    /// For each custom waveform, in order.
    pub custom_wave_init_code: Vec<String>,
    pub custom_wave_per_frame_code: Vec<String>,
    pub custom_wave_per_point_code: Vec<String>,
    /// For each custom shape, in order.
    pub custom_shape_init_code: Vec<String>,
    pub custom_shape_per_frame_code: Vec<String>,
    pub warp_shader: String,
    pub composite_shader: String,
}

/// `v` holds, for each of `n` numbered blocks, the code block
/// `<base><i><part>` of file `f`.
pub open spec fn numbered_blocks(
    v: Seq<String>,
    f: Seq<(Seq<char>, Seq<char>)>,
    base: Seq<char>,
    part: Seq<char>,
    n: nat,
) -> bool {
    &&& v.len() == n
    &&& forall|i: int| 0 <= i < n ==> (#[trigger] v[i])@ == code_block(f, numbered_prefix(base, i as nat, part))
}

/// The code blocks `<base><i><part>` of `file` for `i` below `n`.
fn read_numbered(file: &PresetFile, base: &str, part: &str, n: usize) -> (r: Vec<String>)
    ensures
        numbered_blocks(r@, file@, base@, part@, n as nat),
{
    let mut r: Vec<String> = Vec::new();
    for i in 0..n
        invariant
            r@.len() == i,
            forall|k: int| 0 <= k < i ==> (#[trigger] r@[k])@ == code_block(file@, numbered_prefix(base@, k as nat, part@)),
    {
        let mut prefix = String::new();
        push_str(&mut prefix, base);
        push_nat(&mut prefix, i as u64);
        push_str(&mut prefix, part);
        r.push(file.get_code(prefix.as_str()));
    }
    r
}

impl PresetSettings {
    /// Reads the settings from a parsed file; a setting the file does not
    /// give keeps Milkdrop's default.
    pub fn read(file: &PresetFile) -> (r: PresetSettings)
        ensures
            r.video_echo_orientation == int_setting(file@, "nVideoEchoOrientation"@, 0),
            r.red_blue_stereo == flag_setting(file@, "bRedBlueStereo"@, false),
            r.brighten == flag_setting(file@, "bBrighten"@, false),
            r.darken == flag_setting(file@, "bDarken"@, false),
            r.solarize == flag_setting(file@, "bSolarize"@, false),
            r.invert == flag_setting(file@, "bInvert"@, false),
            r.wave_mode == int_setting(file@, "nWaveMode"@, 0),
            r.additive_waves == flag_setting(file@, "bAdditiveWaves"@, false),
            r.wave_dots == flag_setting(file@, "bWaveDots"@, false),
            r.wave_thick == flag_setting(file@, "bWaveThick"@, false),
            r.mod_wave_alpha_by_volume == flag_setting(file@, "bModWaveAlphaByVolume"@, false),
            r.maximize_wave_color == flag_setting(file@, "bMaximizeWaveColor"@, true),
            r.motion_vectors_on == flag_setting(file@, "bMotionVectorsOn"@, false),
            r.tex_wrap == flag_setting(file@, "bTexWrap"@, true),
            r.darken_center == flag_setting(file@, "bDarkenCenter"@, false),
            (r.preset_version, r.warp_shader_version, r.composite_shader_version) == shader_versions(file@),
            r.per_frame_init_code@ == code_block(file@, "per_frame_init_"@),
            r.per_frame_code@ == code_block(file@, "per_frame_"@),
            r.per_pixel_code@ == code_block(file@, "per_pixel_"@),
            numbered_blocks(r.custom_wave_init_code@, file@, "wave_"@, "_init"@, CUSTOM_WAVEFORM_COUNT as nat),
            numbered_blocks(r.custom_wave_per_frame_code@, file@, "wave_"@, "_per_frame"@, CUSTOM_WAVEFORM_COUNT as nat),
            numbered_blocks(r.custom_wave_per_point_code@, file@, "wave_"@, "_per_point"@, CUSTOM_WAVEFORM_COUNT as nat),
            numbered_blocks(r.custom_shape_init_code@, file@, "shape_"@, "_init"@, CUSTOM_SHAPE_COUNT as nat),
            numbered_blocks(r.custom_shape_per_frame_code@, file@, "shape_"@, "_per_frame"@, CUSTOM_SHAPE_COUNT as nat),
            r.warp_shader@ == code_block(file@, "warp_"@),
            r.composite_shader@ == code_block(file@, "comp_"@),
    {
        let preset_version = file.get_int("MILKDROP_PRESET_VERSION", 100);
        let (warp_shader_version, composite_shader_version) = if preset_version < 200 {
            (0, 0)
        } else if preset_version == 200 {
            (file.get_int("PSVERSION", 2), file.get_int("PSVERSION", 2))
        } else {
            (file.get_int("PSVERSION_WARP", 2), file.get_int("PSVERSION_COMP", 2))
        };
        PresetSettings {
            video_echo_orientation: file.get_int("nVideoEchoOrientation", 0),
            red_blue_stereo: file.get_bool("bRedBlueStereo", false),
            brighten: file.get_bool("bBrighten", false),
            darken: file.get_bool("bDarken", false),
            solarize: file.get_bool("bSolarize", false),
            invert: file.get_bool("bInvert", false),
            wave_mode: file.get_int("nWaveMode", 0),
            additive_waves: file.get_bool("bAdditiveWaves", false),
            wave_dots: file.get_bool("bWaveDots", false),
            wave_thick: file.get_bool("bWaveThick", false),
            mod_wave_alpha_by_volume: file.get_bool("bModWaveAlphaByVolume", false),
            maximize_wave_color: file.get_bool("bMaximizeWaveColor", true),
            motion_vectors_on: file.get_bool("bMotionVectorsOn", false),
            tex_wrap: file.get_bool("bTexWrap", true),
            darken_center: file.get_bool("bDarkenCenter", false),
            preset_version,
            warp_shader_version,
            composite_shader_version,
            per_frame_init_code: file.get_code("per_frame_init_"),
            per_frame_code: file.get_code("per_frame_"),
            per_pixel_code: file.get_code("per_pixel_"),
            custom_wave_init_code: read_numbered(file, "wave_", "_init", CUSTOM_WAVEFORM_COUNT),
            custom_wave_per_frame_code: read_numbered(file, "wave_", "_per_frame", CUSTOM_WAVEFORM_COUNT),
            custom_wave_per_point_code: read_numbered(file, "wave_", "_per_point", CUSTOM_WAVEFORM_COUNT),
            custom_shape_init_code: read_numbered(file, "shape_", "_init", CUSTOM_SHAPE_COUNT),
            custom_shape_per_frame_code: read_numbered(file, "shape_", "_per_frame", CUSTOM_SHAPE_COUNT),
            warp_shader: file.get_code("warp_"),
            composite_shader: file.get_code("comp_"),
        }
    }
}

} // verus!
