//! Effect-chain and layer vocabulary of the web compositor, and the JSON
//! string quoting it uses when exporting state.

use vstd::prelude::*;
use crate::text::{str_eq, push_char, push_str, str_chars};
use crate::scene::{MAX_LAYERS, MAX_SHADER_LAYERS, MAX_EFFECTS_PER_LAYER, MAX_GLOBAL_EFFECTS};

verus! {

/// A post-processing effect kind.
#[derive(Clone, Copy, Debug, PartialEq, Eq, Structural)]
pub enum EffectKind {
    Brightness,
    Contrast,
    Saturation,
    Hue,
    Invert,
    Posterize,
    MirrorH,
    MirrorV,
    Kaleidoscope,
    Radial,
    Pixelate,
    Blur,
    Sharpen,
    Edge,
    Vignette,
    Noise,
    Scanlines,
    Chromatic,
    RgbSplit,
    Glitch,
    Feedback,
    Bloom,
}

/// The stable serialized name of an effect kind.
pub open spec fn effect_type_name(k: EffectKind) -> Seq<char> {
    match k {
        EffectKind::Brightness => "brightness"@,
        EffectKind::Contrast => "contrast"@,
        EffectKind::Saturation => "saturation"@,
        EffectKind::Hue => "hue"@,
        EffectKind::Invert => "invert"@,
        EffectKind::Posterize => "posterize"@,
        EffectKind::MirrorH => "mirrorh"@,
        EffectKind::MirrorV => "mirrorv"@,
        EffectKind::Kaleidoscope => "kaleidoscope"@,
        EffectKind::Radial => "radial"@,
        EffectKind::Pixelate => "pixelate"@,
        EffectKind::Blur => "blur"@,
        EffectKind::Sharpen => "sharpen"@,
        EffectKind::Edge => "edge"@,
        EffectKind::Vignette => "vignette"@,
        EffectKind::Noise => "noise"@,
        EffectKind::Scanlines => "scanlines"@,
        EffectKind::Chromatic => "chromatic"@,
        EffectKind::RgbSplit => "rgbsplit"@,
        EffectKind::Glitch => "glitch"@,
        EffectKind::Feedback => "feedback"@,
        EffectKind::Bloom => "bloom"@,
    }
}

/// The effect kind a serialized name denotes.
pub open spec fn effect_of_name(s: Seq<char>) -> Option<EffectKind> {
    if s == "brightness"@ {
        Some(EffectKind::Brightness)
    } else if s == "contrast"@ {
        Some(EffectKind::Contrast)
    } else if s == "saturation"@ {
        Some(EffectKind::Saturation)
    } else if s == "hue"@ {
        Some(EffectKind::Hue)
    } else if s == "invert"@ {
        Some(EffectKind::Invert)
    } else if s == "posterize"@ {
        Some(EffectKind::Posterize)
    } else if s == "mirrorh"@ {
        Some(EffectKind::MirrorH)
    } else if s == "mirrorv"@ {
        Some(EffectKind::MirrorV)
    } else if s == "kaleidoscope"@ {
        Some(EffectKind::Kaleidoscope)
    } else if s == "radial"@ {
        Some(EffectKind::Radial)
    } else if s == "pixelate"@ {
        Some(EffectKind::Pixelate)
    } else if s == "blur"@ {
        Some(EffectKind::Blur)
    } else if s == "sharpen"@ {
        Some(EffectKind::Sharpen)
    } else if s == "edge"@ {
        Some(EffectKind::Edge)
    } else if s == "vignette"@ {
        Some(EffectKind::Vignette)
    } else if s == "noise"@ {
        Some(EffectKind::Noise)
    } else if s == "scanlines"@ {
        Some(EffectKind::Scanlines)
    } else if s == "chromatic"@ {
        Some(EffectKind::Chromatic)
    } else if s == "rgbsplit"@ {
        Some(EffectKind::RgbSplit)
    } else if s == "glitch"@ {
        Some(EffectKind::Glitch)
    } else if s == "feedback"@ {
        Some(EffectKind::Feedback)
    } else if s == "bloom"@ {
        Some(EffectKind::Bloom)
    } else {
        None
    }
}

/// The display name of an effect kind.
pub open spec fn effect_display_name(k: EffectKind) -> Seq<char> {
    match k {
        EffectKind::Brightness => "Brightness"@,
        EffectKind::Contrast => "Contrast"@,
        EffectKind::Saturation => "Saturation"@,
        EffectKind::Hue => "Hue rotate"@,
        EffectKind::Invert => "Invert"@,
        EffectKind::Posterize => "Posterize"@,
        EffectKind::MirrorH => "Mirror H"@,
        EffectKind::MirrorV => "Mirror V"@,
        EffectKind::Kaleidoscope => "Kaleidoscope"@,
        EffectKind::Radial => "Radial symmetry"@,
        EffectKind::Pixelate => "Pixelate"@,
        EffectKind::Blur => "Blur"@,
        EffectKind::Sharpen => "Sharpen"@,
        EffectKind::Edge => "Edge detect"@,
        EffectKind::Vignette => "Vignette"@,
        EffectKind::Noise => "Noise"@,
        EffectKind::Scanlines => "Scanlines"@,
        EffectKind::Chromatic => "Chromatic aberration"@,
        EffectKind::RgbSplit => "RGB split"@,
        EffectKind::Glitch => "Glitch"@,
        EffectKind::Feedback => "Feedback"@,
        EffectKind::Bloom => "Bloom"@,
    }
}

/// The shader mode number selecting an effect in the shared effect shader.
pub open spec fn effect_mode(k: EffectKind) -> u32 {
    match k {
        EffectKind::Brightness => 0,
        EffectKind::Contrast => 1,
        EffectKind::Saturation => 2,
        EffectKind::Hue => 3,
        EffectKind::Invert => 4,
        EffectKind::Posterize => 5,
        EffectKind::MirrorH => 6,
        EffectKind::MirrorV => 7,
        EffectKind::Kaleidoscope => 8,
        EffectKind::Radial => 9,
        EffectKind::Pixelate => 10,
        EffectKind::Blur => 11,
        EffectKind::Sharpen => 12,
        EffectKind::Edge => 13,
        EffectKind::Vignette => 14,
        EffectKind::Noise => 15,
        EffectKind::Scanlines => 16,
        EffectKind::Chromatic => 17,
        EffectKind::RgbSplit => 18,
        EffectKind::Glitch => 19,
        EffectKind::Feedback => 20,
        EffectKind::Bloom => 21,
    }
}

impl EffectKind {
    pub fn type_str(self) -> (r: &'static str)
        ensures
            r@ == effect_type_name(self),
    {
        match self {
            EffectKind::Brightness => "brightness",
            EffectKind::Contrast => "contrast",
            EffectKind::Saturation => "saturation",
            EffectKind::Hue => "hue",
            EffectKind::Invert => "invert",
            EffectKind::Posterize => "posterize",
            EffectKind::MirrorH => "mirrorh",
            EffectKind::MirrorV => "mirrorv",
            EffectKind::Kaleidoscope => "kaleidoscope",
            EffectKind::Radial => "radial",
            EffectKind::Pixelate => "pixelate",
            EffectKind::Blur => "blur",
            EffectKind::Sharpen => "sharpen",
            EffectKind::Edge => "edge",
            EffectKind::Vignette => "vignette",
            EffectKind::Noise => "noise",
            EffectKind::Scanlines => "scanlines",
            EffectKind::Chromatic => "chromatic",
            EffectKind::RgbSplit => "rgbsplit",
            EffectKind::Glitch => "glitch",
            EffectKind::Feedback => "feedback",
            EffectKind::Bloom => "bloom",
        }
    }

    pub fn from_str(s: &str) -> (r: Option<EffectKind>)
        ensures
            r == effect_of_name(s@),
    {
        if str_eq(s, "brightness") {
            Some(EffectKind::Brightness)
        } else if str_eq(s, "contrast") {
            Some(EffectKind::Contrast)
        } else if str_eq(s, "saturation") {
            Some(EffectKind::Saturation)
        } else if str_eq(s, "hue") {
            Some(EffectKind::Hue)
        } else if str_eq(s, "invert") {
            Some(EffectKind::Invert)
        } else if str_eq(s, "posterize") {
            Some(EffectKind::Posterize)
        } else if str_eq(s, "mirrorh") {
            Some(EffectKind::MirrorH)
        } else if str_eq(s, "mirrorv") {
            Some(EffectKind::MirrorV)
        } else if str_eq(s, "kaleidoscope") {
            Some(EffectKind::Kaleidoscope)
        } else if str_eq(s, "radial") {
            Some(EffectKind::Radial)
        } else if str_eq(s, "pixelate") {
            Some(EffectKind::Pixelate)
        } else if str_eq(s, "blur") {
            Some(EffectKind::Blur)
        } else if str_eq(s, "sharpen") {
            Some(EffectKind::Sharpen)
        } else if str_eq(s, "edge") {
            Some(EffectKind::Edge)
        } else if str_eq(s, "vignette") {
            Some(EffectKind::Vignette)
        } else if str_eq(s, "noise") {
            Some(EffectKind::Noise)
        } else if str_eq(s, "scanlines") {
            Some(EffectKind::Scanlines)
        } else if str_eq(s, "chromatic") {
            Some(EffectKind::Chromatic)
        } else if str_eq(s, "rgbsplit") {
            Some(EffectKind::RgbSplit)
        } else if str_eq(s, "glitch") {
            Some(EffectKind::Glitch)
        } else if str_eq(s, "feedback") {
            Some(EffectKind::Feedback)
        } else if str_eq(s, "bloom") {
            Some(EffectKind::Bloom)
        } else {
            None
        }
    }

    pub fn name(self) -> (r: &'static str)
        ensures
            r@ == effect_display_name(self),
    {
        match self {
            EffectKind::Brightness => "Brightness",
            EffectKind::Contrast => "Contrast",
            EffectKind::Saturation => "Saturation",
            EffectKind::Hue => "Hue rotate",
            EffectKind::Invert => "Invert",
            EffectKind::Posterize => "Posterize",
            EffectKind::MirrorH => "Mirror H",
            EffectKind::MirrorV => "Mirror V",
            EffectKind::Kaleidoscope => "Kaleidoscope",
            EffectKind::Radial => "Radial symmetry",
            EffectKind::Pixelate => "Pixelate",
            EffectKind::Blur => "Blur",
            EffectKind::Sharpen => "Sharpen",
            EffectKind::Edge => "Edge detect",
            EffectKind::Vignette => "Vignette",
            EffectKind::Noise => "Noise",
            EffectKind::Scanlines => "Scanlines",
            EffectKind::Chromatic => "Chromatic aberration",
            EffectKind::RgbSplit => "RGB split",
            EffectKind::Glitch => "Glitch",
            EffectKind::Feedback => "Feedback",
            EffectKind::Bloom => "Bloom",
        }
    }

    /// The mode number of this effect in the shared effect shader; bloom is
    /// its bright-pass mode.
    pub fn mode(self) -> (r: u32)
        ensures
            r == effect_mode(self),
    {
        match self {
            EffectKind::Brightness => 0,
            EffectKind::Contrast => 1,
            EffectKind::Saturation => 2,
            EffectKind::Hue => 3,
            EffectKind::Invert => 4,
            EffectKind::Posterize => 5,
            EffectKind::MirrorH => 6,
            EffectKind::MirrorV => 7,
            EffectKind::Kaleidoscope => 8,
            EffectKind::Radial => 9,
            EffectKind::Pixelate => 10,
            EffectKind::Blur => 11,
            EffectKind::Sharpen => 12,
            EffectKind::Edge => 13,
            EffectKind::Vignette => 14,
            EffectKind::Noise => 15,
            EffectKind::Scanlines => 16,
            EffectKind::Chromatic => 17,
            EffectKind::RgbSplit => 18,
            EffectKind::Glitch => 19,
            EffectKind::Feedback => 20,
            EffectKind::Bloom => 21,
        }
    }
}

proof fn effect_names_distinct()
    ensures
        "brightness"@ != "contrast"@,
        "brightness"@ != "saturation"@,
        "brightness"@ != "hue"@,
        "brightness"@ != "invert"@,
        "brightness"@ != "posterize"@,
        "brightness"@ != "mirrorh"@,
        "brightness"@ != "mirrorv"@,
        "brightness"@ != "kaleidoscope"@,
        "brightness"@ != "radial"@,
        "brightness"@ != "pixelate"@,
        "brightness"@ != "blur"@,
        "brightness"@ != "sharpen"@,
        "brightness"@ != "edge"@,
        "brightness"@ != "vignette"@,
        "brightness"@ != "noise"@,
        "brightness"@ != "scanlines"@,
        "brightness"@ != "chromatic"@,
        "brightness"@ != "rgbsplit"@,
        "brightness"@ != "glitch"@,
        "brightness"@ != "feedback"@,
        "brightness"@ != "bloom"@,
        "contrast"@ != "saturation"@,
        "contrast"@ != "hue"@,
        "contrast"@ != "invert"@,
        "contrast"@ != "posterize"@,
        "contrast"@ != "mirrorh"@,
        "contrast"@ != "mirrorv"@,
        "contrast"@ != "kaleidoscope"@,
        "contrast"@ != "radial"@,
        "contrast"@ != "pixelate"@,
        "contrast"@ != "blur"@,
        "contrast"@ != "sharpen"@,
        "contrast"@ != "edge"@,
        "contrast"@ != "vignette"@,
        "contrast"@ != "noise"@,
        "contrast"@ != "scanlines"@,
        "contrast"@ != "chromatic"@,
        "contrast"@ != "rgbsplit"@,
        "contrast"@ != "glitch"@,
        "contrast"@ != "feedback"@,
        "contrast"@ != "bloom"@,
        "saturation"@ != "hue"@,
        "saturation"@ != "invert"@,
        "saturation"@ != "posterize"@,
        "saturation"@ != "mirrorh"@,
        "saturation"@ != "mirrorv"@,
        "saturation"@ != "kaleidoscope"@,
        "saturation"@ != "radial"@,
        "saturation"@ != "pixelate"@,
        "saturation"@ != "blur"@,
        "saturation"@ != "sharpen"@,
        "saturation"@ != "edge"@,
        "saturation"@ != "vignette"@,
        "saturation"@ != "noise"@,
        "saturation"@ != "scanlines"@,
        "saturation"@ != "chromatic"@,
        "saturation"@ != "rgbsplit"@,
        "saturation"@ != "glitch"@,
        "saturation"@ != "feedback"@,
        "saturation"@ != "bloom"@,
        "hue"@ != "invert"@,
        "hue"@ != "posterize"@,
        "hue"@ != "mirrorh"@,
        "hue"@ != "mirrorv"@,
        "hue"@ != "kaleidoscope"@,
        "hue"@ != "radial"@,
        "hue"@ != "pixelate"@,
        "hue"@ != "blur"@,
        "hue"@ != "sharpen"@,
        "hue"@ != "edge"@,
        "hue"@ != "vignette"@,
        "hue"@ != "noise"@,
        "hue"@ != "scanlines"@,
        "hue"@ != "chromatic"@,
        "hue"@ != "rgbsplit"@,
        "hue"@ != "glitch"@,
        "hue"@ != "feedback"@,
        "hue"@ != "bloom"@,
        "invert"@ != "posterize"@,
        "invert"@ != "mirrorh"@,
        "invert"@ != "mirrorv"@,
        "invert"@ != "kaleidoscope"@,
        "invert"@ != "radial"@,
        "invert"@ != "pixelate"@,
        "invert"@ != "blur"@,
        "invert"@ != "sharpen"@,
        "invert"@ != "edge"@,
        "invert"@ != "vignette"@,
        "invert"@ != "noise"@,
        "invert"@ != "scanlines"@,
        "invert"@ != "chromatic"@,
        "invert"@ != "rgbsplit"@,
        "invert"@ != "glitch"@,
        "invert"@ != "feedback"@,
        "invert"@ != "bloom"@,
        "posterize"@ != "mirrorh"@,
        "posterize"@ != "mirrorv"@,
        "posterize"@ != "kaleidoscope"@,
        "posterize"@ != "radial"@,
        "posterize"@ != "pixelate"@,
        "posterize"@ != "blur"@,
        "posterize"@ != "sharpen"@,
        "posterize"@ != "edge"@,
        "posterize"@ != "vignette"@,
        "posterize"@ != "noise"@,
        "posterize"@ != "scanlines"@,
        "posterize"@ != "chromatic"@,
        "posterize"@ != "rgbsplit"@,
        "posterize"@ != "glitch"@,
        "posterize"@ != "feedback"@,
        "posterize"@ != "bloom"@,
        "mirrorh"@ != "mirrorv"@,
        "mirrorh"@ != "kaleidoscope"@,
        "mirrorh"@ != "radial"@,
        "mirrorh"@ != "pixelate"@,
        "mirrorh"@ != "blur"@,
        "mirrorh"@ != "sharpen"@,
        "mirrorh"@ != "edge"@,
        "mirrorh"@ != "vignette"@,
        "mirrorh"@ != "noise"@,
        "mirrorh"@ != "scanlines"@,
        "mirrorh"@ != "chromatic"@,
        "mirrorh"@ != "rgbsplit"@,
        "mirrorh"@ != "glitch"@,
        "mirrorh"@ != "feedback"@,
        "mirrorh"@ != "bloom"@,
        "mirrorv"@ != "kaleidoscope"@,
        "mirrorv"@ != "radial"@,
        "mirrorv"@ != "pixelate"@,
        "mirrorv"@ != "blur"@,
        "mirrorv"@ != "sharpen"@,
        "mirrorv"@ != "edge"@,
        "mirrorv"@ != "vignette"@,
        "mirrorv"@ != "noise"@,
        "mirrorv"@ != "scanlines"@,
        "mirrorv"@ != "chromatic"@,
        "mirrorv"@ != "rgbsplit"@,
        "mirrorv"@ != "glitch"@,
        "mirrorv"@ != "feedback"@,
        "mirrorv"@ != "bloom"@,
        "kaleidoscope"@ != "radial"@,
        "kaleidoscope"@ != "pixelate"@,
        "kaleidoscope"@ != "blur"@,
        "kaleidoscope"@ != "sharpen"@,
        "kaleidoscope"@ != "edge"@,
        "kaleidoscope"@ != "vignette"@,
        "kaleidoscope"@ != "noise"@,
        "kaleidoscope"@ != "scanlines"@,
        "kaleidoscope"@ != "chromatic"@,
        "kaleidoscope"@ != "rgbsplit"@,
        "kaleidoscope"@ != "glitch"@,
        "kaleidoscope"@ != "feedback"@,
        "kaleidoscope"@ != "bloom"@,
        "radial"@ != "pixelate"@,
        "radial"@ != "blur"@,
        "radial"@ != "sharpen"@,
        "radial"@ != "edge"@,
        "radial"@ != "vignette"@,
        "radial"@ != "noise"@,
        "radial"@ != "scanlines"@,
        "radial"@ != "chromatic"@,
        "radial"@ != "rgbsplit"@,
        "radial"@ != "glitch"@,
        "radial"@ != "feedback"@,
        "radial"@ != "bloom"@,
        "pixelate"@ != "blur"@,
        "pixelate"@ != "sharpen"@,
        "pixelate"@ != "edge"@,
        "pixelate"@ != "vignette"@,
        "pixelate"@ != "noise"@,
        "pixelate"@ != "scanlines"@,
        "pixelate"@ != "chromatic"@,
        "pixelate"@ != "rgbsplit"@,
        "pixelate"@ != "glitch"@,
        "pixelate"@ != "feedback"@,
        "pixelate"@ != "bloom"@,
        "blur"@ != "sharpen"@,
        "blur"@ != "edge"@,
        "blur"@ != "vignette"@,
        "blur"@ != "noise"@,
        "blur"@ != "scanlines"@,
        "blur"@ != "chromatic"@,
        "blur"@ != "rgbsplit"@,
        "blur"@ != "glitch"@,
        "blur"@ != "feedback"@,
        "blur"@ != "bloom"@,
        "sharpen"@ != "edge"@,
        "sharpen"@ != "vignette"@,
        "sharpen"@ != "noise"@,
        "sharpen"@ != "scanlines"@,
        "sharpen"@ != "chromatic"@,
        "sharpen"@ != "rgbsplit"@,
        "sharpen"@ != "glitch"@,
        "sharpen"@ != "feedback"@,
        "sharpen"@ != "bloom"@,
        "edge"@ != "vignette"@,
        "edge"@ != "noise"@,
        "edge"@ != "scanlines"@,
        "edge"@ != "chromatic"@,
        "edge"@ != "rgbsplit"@,
        "edge"@ != "glitch"@,
        "edge"@ != "feedback"@,
        "edge"@ != "bloom"@,
        "vignette"@ != "noise"@,
        "vignette"@ != "scanlines"@,
        "vignette"@ != "chromatic"@,
        "vignette"@ != "rgbsplit"@,
        "vignette"@ != "glitch"@,
        "vignette"@ != "feedback"@,
        "vignette"@ != "bloom"@,
        "noise"@ != "scanlines"@,
        "noise"@ != "chromatic"@,
        "noise"@ != "rgbsplit"@,
        "noise"@ != "glitch"@,
        "noise"@ != "feedback"@,
        "noise"@ != "bloom"@,
        "scanlines"@ != "chromatic"@,
        "scanlines"@ != "rgbsplit"@,
        "scanlines"@ != "glitch"@,
        "scanlines"@ != "feedback"@,
        "scanlines"@ != "bloom"@,
        "chromatic"@ != "rgbsplit"@,
        "chromatic"@ != "glitch"@,
        "chromatic"@ != "feedback"@,
        "chromatic"@ != "bloom"@,
        "rgbsplit"@ != "glitch"@,
        "rgbsplit"@ != "feedback"@,
        "rgbsplit"@ != "bloom"@,
        "glitch"@ != "feedback"@,
        "glitch"@ != "bloom"@,
        "feedback"@ != "bloom"@,
{
    reveal_strlit("brightness");
    reveal_strlit("contrast");
    reveal_strlit("saturation");
    reveal_strlit("hue");
    reveal_strlit("invert");
    reveal_strlit("posterize");
    reveal_strlit("mirrorh");
    reveal_strlit("mirrorv");
    reveal_strlit("kaleidoscope");
    reveal_strlit("radial");
    reveal_strlit("pixelate");
    reveal_strlit("blur");
    reveal_strlit("sharpen");
    reveal_strlit("edge");
    reveal_strlit("vignette");
    reveal_strlit("noise");
    reveal_strlit("scanlines");
    reveal_strlit("chromatic");
    reveal_strlit("rgbsplit");
    reveal_strlit("glitch");
    reveal_strlit("feedback");
    reveal_strlit("bloom");
    assert("brightness"@.len() != "contrast"@.len());
    assert("brightness"@[0] != "saturation"@[0]);
    assert("brightness"@.len() != "hue"@.len());
    assert("brightness"@.len() != "invert"@.len());
    assert("brightness"@.len() != "posterize"@.len());
    assert("brightness"@.len() != "mirrorh"@.len());
    assert("brightness"@.len() != "mirrorv"@.len());
    assert("brightness"@.len() != "kaleidoscope"@.len());
    assert("brightness"@.len() != "radial"@.len());
    assert("brightness"@.len() != "pixelate"@.len());
    assert("brightness"@.len() != "blur"@.len());
    assert("brightness"@.len() != "sharpen"@.len());
    assert("brightness"@.len() != "edge"@.len());
    assert("brightness"@.len() != "vignette"@.len());
    assert("brightness"@.len() != "noise"@.len());
    assert("brightness"@.len() != "scanlines"@.len());
    assert("brightness"@.len() != "chromatic"@.len());
    assert("brightness"@.len() != "rgbsplit"@.len());
    assert("brightness"@.len() != "glitch"@.len());
    assert("brightness"@.len() != "feedback"@.len());
    assert("brightness"@.len() != "bloom"@.len());
    assert("contrast"@.len() != "saturation"@.len());
    assert("contrast"@.len() != "hue"@.len());
    assert("contrast"@.len() != "invert"@.len());
    assert("contrast"@.len() != "posterize"@.len());
    assert("contrast"@.len() != "mirrorh"@.len());
    assert("contrast"@.len() != "mirrorv"@.len());
    assert("contrast"@.len() != "kaleidoscope"@.len());
    assert("contrast"@.len() != "radial"@.len());
    assert("contrast"@[0] != "pixelate"@[0]);
    assert("contrast"@.len() != "blur"@.len());
    assert("contrast"@.len() != "sharpen"@.len());
    assert("contrast"@.len() != "edge"@.len());
    assert("contrast"@[0] != "vignette"@[0]);
    assert("contrast"@.len() != "noise"@.len());
    assert("contrast"@.len() != "scanlines"@.len());
    assert("contrast"@.len() != "chromatic"@.len());
    assert("contrast"@[0] != "rgbsplit"@[0]);
    assert("contrast"@.len() != "glitch"@.len());
    assert("contrast"@[0] != "feedback"@[0]);
    assert("contrast"@.len() != "bloom"@.len());
    assert("saturation"@.len() != "hue"@.len());
    assert("saturation"@.len() != "invert"@.len());
    assert("saturation"@.len() != "posterize"@.len());
    assert("saturation"@.len() != "mirrorh"@.len());
    assert("saturation"@.len() != "mirrorv"@.len());
    assert("saturation"@.len() != "kaleidoscope"@.len());
    assert("saturation"@.len() != "radial"@.len());
    assert("saturation"@.len() != "pixelate"@.len());
    assert("saturation"@.len() != "blur"@.len());
    assert("saturation"@.len() != "sharpen"@.len());
    assert("saturation"@.len() != "edge"@.len());
    assert("saturation"@.len() != "vignette"@.len());
    assert("saturation"@.len() != "noise"@.len());
    assert("saturation"@.len() != "scanlines"@.len());
    assert("saturation"@.len() != "chromatic"@.len());
    assert("saturation"@.len() != "rgbsplit"@.len());
    assert("saturation"@.len() != "glitch"@.len());
    assert("saturation"@.len() != "feedback"@.len());
    assert("saturation"@.len() != "bloom"@.len());
    assert("hue"@.len() != "invert"@.len());
    assert("hue"@.len() != "posterize"@.len());
    assert("hue"@.len() != "mirrorh"@.len());
    assert("hue"@.len() != "mirrorv"@.len());
    assert("hue"@.len() != "kaleidoscope"@.len());
    assert("hue"@.len() != "radial"@.len());
    assert("hue"@.len() != "pixelate"@.len());
    assert("hue"@.len() != "blur"@.len());
    assert("hue"@.len() != "sharpen"@.len());
    assert("hue"@.len() != "edge"@.len());
    assert("hue"@.len() != "vignette"@.len());
    assert("hue"@.len() != "noise"@.len());
    assert("hue"@.len() != "scanlines"@.len());
    assert("hue"@.len() != "chromatic"@.len());
    assert("hue"@.len() != "rgbsplit"@.len());
    assert("hue"@.len() != "glitch"@.len());
    assert("hue"@.len() != "feedback"@.len());
    assert("hue"@.len() != "bloom"@.len());
    assert("invert"@.len() != "posterize"@.len());
    assert("invert"@.len() != "mirrorh"@.len());
    assert("invert"@.len() != "mirrorv"@.len());
    assert("invert"@.len() != "kaleidoscope"@.len());
    assert("invert"@[0] != "radial"@[0]);
    assert("invert"@.len() != "pixelate"@.len());
    assert("invert"@.len() != "blur"@.len());
    assert("invert"@.len() != "sharpen"@.len());
    assert("invert"@.len() != "edge"@.len());
    assert("invert"@.len() != "vignette"@.len());
    assert("invert"@.len() != "noise"@.len());
    assert("invert"@.len() != "scanlines"@.len());
    assert("invert"@.len() != "chromatic"@.len());
    assert("invert"@.len() != "rgbsplit"@.len());
    assert("invert"@[0] != "glitch"@[0]);
    assert("invert"@.len() != "feedback"@.len());
    assert("invert"@.len() != "bloom"@.len());
    assert("posterize"@.len() != "mirrorh"@.len());
    assert("posterize"@.len() != "mirrorv"@.len());
    assert("posterize"@.len() != "kaleidoscope"@.len());
    assert("posterize"@.len() != "radial"@.len());
    assert("posterize"@.len() != "pixelate"@.len());
    assert("posterize"@.len() != "blur"@.len());
    assert("posterize"@.len() != "sharpen"@.len());
    assert("posterize"@.len() != "edge"@.len());
    assert("posterize"@.len() != "vignette"@.len());
    assert("posterize"@.len() != "noise"@.len());
    assert("posterize"@[0] != "scanlines"@[0]);
    assert("posterize"@[0] != "chromatic"@[0]);
    assert("posterize"@.len() != "rgbsplit"@.len());
    assert("posterize"@.len() != "glitch"@.len());
    assert("posterize"@.len() != "feedback"@.len());
    assert("posterize"@.len() != "bloom"@.len());
    assert("mirrorh"@[6] != "mirrorv"@[6]);
    assert("mirrorh"@.len() != "kaleidoscope"@.len());
    assert("mirrorh"@.len() != "radial"@.len());
    assert("mirrorh"@.len() != "pixelate"@.len());
    assert("mirrorh"@.len() != "blur"@.len());
    assert("mirrorh"@[0] != "sharpen"@[0]);
    assert("mirrorh"@.len() != "edge"@.len());
    assert("mirrorh"@.len() != "vignette"@.len());
    assert("mirrorh"@.len() != "noise"@.len());
    assert("mirrorh"@.len() != "scanlines"@.len());
    assert("mirrorh"@.len() != "chromatic"@.len());
    assert("mirrorh"@.len() != "rgbsplit"@.len());
    assert("mirrorh"@.len() != "glitch"@.len());
    assert("mirrorh"@.len() != "feedback"@.len());
    assert("mirrorh"@.len() != "bloom"@.len());
    assert("mirrorv"@.len() != "kaleidoscope"@.len());
    assert("mirrorv"@.len() != "radial"@.len());
    assert("mirrorv"@.len() != "pixelate"@.len());
    assert("mirrorv"@.len() != "blur"@.len());
    assert("mirrorv"@[0] != "sharpen"@[0]);
    assert("mirrorv"@.len() != "edge"@.len());
    assert("mirrorv"@.len() != "vignette"@.len());
    assert("mirrorv"@.len() != "noise"@.len());
    assert("mirrorv"@.len() != "scanlines"@.len());
    assert("mirrorv"@.len() != "chromatic"@.len());
    assert("mirrorv"@.len() != "rgbsplit"@.len());
    assert("mirrorv"@.len() != "glitch"@.len());
    assert("mirrorv"@.len() != "feedback"@.len());
    assert("mirrorv"@.len() != "bloom"@.len());
    assert("kaleidoscope"@.len() != "radial"@.len());
    assert("kaleidoscope"@.len() != "pixelate"@.len());
    assert("kaleidoscope"@.len() != "blur"@.len());
    assert("kaleidoscope"@.len() != "sharpen"@.len());
    assert("kaleidoscope"@.len() != "edge"@.len());
    assert("kaleidoscope"@.len() != "vignette"@.len());
    assert("kaleidoscope"@.len() != "noise"@.len());
    assert("kaleidoscope"@.len() != "scanlines"@.len());
    assert("kaleidoscope"@.len() != "chromatic"@.len());
    assert("kaleidoscope"@.len() != "rgbsplit"@.len());
    assert("kaleidoscope"@.len() != "glitch"@.len());
    assert("kaleidoscope"@.len() != "feedback"@.len());
    assert("kaleidoscope"@.len() != "bloom"@.len());
    assert("radial"@.len() != "pixelate"@.len());
    assert("radial"@.len() != "blur"@.len());
    assert("radial"@.len() != "sharpen"@.len());
    assert("radial"@.len() != "edge"@.len());
    assert("radial"@.len() != "vignette"@.len());
    assert("radial"@.len() != "noise"@.len());
    assert("radial"@.len() != "scanlines"@.len());
    assert("radial"@.len() != "chromatic"@.len());
    assert("radial"@.len() != "rgbsplit"@.len());
    assert("radial"@[0] != "glitch"@[0]);
    assert("radial"@.len() != "feedback"@.len());
    assert("radial"@.len() != "bloom"@.len());
    assert("pixelate"@.len() != "blur"@.len());
    assert("pixelate"@.len() != "sharpen"@.len());
    assert("pixelate"@.len() != "edge"@.len());
    assert("pixelate"@[0] != "vignette"@[0]);
    assert("pixelate"@.len() != "noise"@.len());
    assert("pixelate"@.len() != "scanlines"@.len());
    assert("pixelate"@.len() != "chromatic"@.len());
    assert("pixelate"@[0] != "rgbsplit"@[0]);
    assert("pixelate"@.len() != "glitch"@.len());
    assert("pixelate"@[0] != "feedback"@[0]);
    assert("pixelate"@.len() != "bloom"@.len());
    assert("blur"@.len() != "sharpen"@.len());
    assert("blur"@[0] != "edge"@[0]);
    assert("blur"@.len() != "vignette"@.len());
    assert("blur"@.len() != "noise"@.len());
    assert("blur"@.len() != "scanlines"@.len());
    assert("blur"@.len() != "chromatic"@.len());
    assert("blur"@.len() != "rgbsplit"@.len());
    assert("blur"@.len() != "glitch"@.len());
    assert("blur"@.len() != "feedback"@.len());
    assert("blur"@.len() != "bloom"@.len());
    assert("sharpen"@.len() != "edge"@.len());
    assert("sharpen"@.len() != "vignette"@.len());
    assert("sharpen"@.len() != "noise"@.len());
    assert("sharpen"@.len() != "scanlines"@.len());
    assert("sharpen"@.len() != "chromatic"@.len());
    assert("sharpen"@.len() != "rgbsplit"@.len());
    assert("sharpen"@.len() != "glitch"@.len());
    assert("sharpen"@.len() != "feedback"@.len());
    assert("sharpen"@.len() != "bloom"@.len());
    assert("edge"@.len() != "vignette"@.len());
    assert("edge"@.len() != "noise"@.len());
    assert("edge"@.len() != "scanlines"@.len());
    assert("edge"@.len() != "chromatic"@.len());
    assert("edge"@.len() != "rgbsplit"@.len());
    assert("edge"@.len() != "glitch"@.len());
    assert("edge"@.len() != "feedback"@.len());
    assert("edge"@.len() != "bloom"@.len());
    assert("vignette"@.len() != "noise"@.len());
    assert("vignette"@.len() != "scanlines"@.len());
    assert("vignette"@.len() != "chromatic"@.len());
    assert("vignette"@[0] != "rgbsplit"@[0]);
    assert("vignette"@.len() != "glitch"@.len());
    assert("vignette"@[0] != "feedback"@[0]);
    assert("vignette"@.len() != "bloom"@.len());
    assert("noise"@.len() != "scanlines"@.len());
    assert("noise"@.len() != "chromatic"@.len());
    assert("noise"@.len() != "rgbsplit"@.len());
    assert("noise"@.len() != "glitch"@.len());
    assert("noise"@.len() != "feedback"@.len());
    assert("noise"@[0] != "bloom"@[0]);
    assert("scanlines"@[0] != "chromatic"@[0]);
    assert("scanlines"@.len() != "rgbsplit"@.len());
    assert("scanlines"@.len() != "glitch"@.len());
    assert("scanlines"@.len() != "feedback"@.len());
    assert("scanlines"@.len() != "bloom"@.len());
    assert("chromatic"@.len() != "rgbsplit"@.len());
    assert("chromatic"@.len() != "glitch"@.len());
    assert("chromatic"@.len() != "feedback"@.len());
    assert("chromatic"@.len() != "bloom"@.len());
    assert("rgbsplit"@.len() != "glitch"@.len());
    assert("rgbsplit"@[0] != "feedback"@[0]);
    assert("rgbsplit"@.len() != "bloom"@.len());
    assert("glitch"@.len() != "feedback"@.len());
    assert("glitch"@.len() != "bloom"@.len());
    assert("feedback"@.len() != "bloom"@.len());
}

/// Parsing the serialized name of an effect kind gives the kind back, and a
/// name that parses is the serialized name of what it parses to.
pub proof fn law_effect_name_round_trip(k: EffectKind, s: Seq<char>)
    ensures
        effect_of_name(effect_type_name(k)) == Some(k),
        effect_of_name(s) matches Some(j) ==> effect_type_name(j) == s,
{
    effect_names_distinct();
}

/// Distinct effect kinds have distinct shader modes.
pub proof fn law_effect_modes_distinct(a: EffectKind, b: EffectKind)
    ensures
        a != b ==> effect_mode(a) != effect_mode(b),
{
}

/// The kind of a compositor layer.
#[derive(Clone, Copy, Debug, PartialEq, Eq, Structural)]
pub enum LayerKind {
    Milkdrop,
    Shader,
    Waveform,
    Spectrum,
}

impl LayerKind {
    /// The name a new layer of this kind gets.
    pub fn default_name(self) -> (r: &'static str)
        ensures
            r@ == match self {
                LayerKind::Milkdrop => "Milkdrop"@,
                LayerKind::Shader => "Shader"@,
                LayerKind::Waveform => "Waveform"@,
                LayerKind::Spectrum => "Spectrum"@,
            },
    {
        match self {
            LayerKind::Milkdrop => "Milkdrop",
            LayerKind::Shader => "Shader",
            LayerKind::Waveform => "Waveform",
            LayerKind::Spectrum => "Spectrum",
        }
    }

    /// The serialized name of a layer's source kind.
    pub fn kind_str(self) -> (r: &'static str)
        ensures
            r@ == match self {
                LayerKind::Milkdrop => "milkdrop"@,
                LayerKind::Shader => "shader"@,
                LayerKind::Waveform => "waveform"@,
                LayerKind::Spectrum => "spectrum"@,
            },
    {
        match self {
            LayerKind::Milkdrop => "milkdrop",
            LayerKind::Shader => "shader",
            LayerKind::Waveform => "waveform",
            LayerKind::Spectrum => "spectrum",
        }
    }
}

pub open spec fn count_kind(kinds: Seq<LayerKind>, k: LayerKind) -> int
    decreases kinds.len(),
{
    if kinds.len() == 0 {
        0
    } else {
        count_kind(kinds.drop_last(), k) + if kinds.last() == k { 1int } else { 0int }
    }
}

/// Whether a layer of `kind` may join layers of kinds `kinds`: there is room
/// for one more layer, a second Milkdrop layer is refused (the engine is
/// single-instance), and so is a shader layer beyond the shader-layer limit.
pub fn can_add_layer(kinds: &[LayerKind], kind: LayerKind) -> (r: bool)
    ensures
        r == (!(kind == LayerKind::Milkdrop && count_kind(kinds@, LayerKind::Milkdrop) > 0) && kinds@.len()
            < MAX_LAYERS && !(kind == LayerKind::Shader && count_kind(kinds@, LayerKind::Shader)
            >= MAX_SHADER_LAYERS)),
{
    let mut milkdrop: usize = 0;
    let mut shader: usize = 0;
    let mut i: usize = 0;
    while i < kinds.len()
        invariant
            i <= kinds.len(),
            milkdrop == count_kind(kinds@.take(i as int), LayerKind::Milkdrop),
            shader == count_kind(kinds@.take(i as int), LayerKind::Shader),
            milkdrop <= i,
            shader <= i,
        decreases kinds.len() - i,
    {
        proof {
            assert(kinds@.take(i + 1).drop_last() =~= kinds@.take(i as int));
        }
        if kinds[i] == LayerKind::Milkdrop {
            milkdrop = milkdrop + 1;
        }
        if kinds[i] == LayerKind::Shader {
            shader = shader + 1;
        }
        i = i + 1;
    }
    proof {
        assert(kinds@.take(i as int) =~= kinds@);
    }
    if kind == LayerKind::Milkdrop && milkdrop > 0 {
        return false;
    }
    if kinds.len() >= MAX_LAYERS {
        return false;
    }
    !(kind == LayerKind::Shader && shader >= MAX_SHADER_LAYERS)
}

/// Whether a chain of `len` effects has room for one more: the global chain
/// (`global`) and each layer's chain have their own limit.
pub fn chain_has_room(len: usize, global: bool) -> (r: bool)
    ensures
        r == (len < if global { MAX_GLOBAL_EFFECTS } else { MAX_EFFECTS_PER_LAYER }),
{
    let limit = if global { MAX_GLOBAL_EFFECTS } else { MAX_EFFECTS_PER_LAYER };
    len < limit
}

/// The effect kinds of a built-in effect-rack preset, in the order they are
/// added; an unknown preset adds nothing.
pub fn effect_rack_preset(preset: &str) -> (r: Vec<EffectKind>)
    ensures
        r@ == (if preset@ == "dreamy"@ {
            seq![EffectKind::Bloom, EffectKind::Chromatic, EffectKind::Vignette]
        } else if preset@ == "vhs"@ {
            seq![EffectKind::RgbSplit, EffectKind::Scanlines, EffectKind::Noise]
        } else if preset@ == "tunnel"@ {
            seq![EffectKind::Feedback, EffectKind::Kaleidoscope]
        } else if preset@ == "acid"@ {
            seq![EffectKind::Hue, EffectKind::Posterize, EffectKind::Feedback]
        } else {
            Seq::<EffectKind>::empty()
        }),
{
    let mut r: Vec<EffectKind> = Vec::new();
    if str_eq(preset, "dreamy") {
        r.push(EffectKind::Bloom);
        r.push(EffectKind::Chromatic);
        r.push(EffectKind::Vignette);
    } else if str_eq(preset, "vhs") {
        r.push(EffectKind::RgbSplit);
        r.push(EffectKind::Scanlines);
        r.push(EffectKind::Noise);
    } else if str_eq(preset, "tunnel") {
        r.push(EffectKind::Feedback);
        r.push(EffectKind::Kaleidoscope);
    } else if str_eq(preset, "acid") {
        r.push(EffectKind::Hue);
        r.push(EffectKind::Posterize);
        r.push(EffectKind::Feedback);
    }
    proof {
        assert(r@ =~= (if preset@ == "dreamy"@ {
            seq![EffectKind::Bloom, EffectKind::Chromatic, EffectKind::Vignette]
        } else if preset@ == "vhs"@ {
            seq![EffectKind::RgbSplit, EffectKind::Scanlines, EffectKind::Noise]
        } else if preset@ == "tunnel"@ {
            seq![EffectKind::Feedback, EffectKind::Kaleidoscope]
        } else if preset@ == "acid"@ {
            seq![EffectKind::Hue, EffectKind::Posterize, EffectKind::Feedback]
        } else {
            Seq::<EffectKind>::empty()
        }));
    }
    r
}

/// Lowercase hexadecimal digit of `d` (0..=15).
pub open spec fn hex_digit(d: int) -> char {
    if d < 10 {
        (48 + d) as char
    } else {
        (87 + d) as char
    }
}

/// `\u` followed by four lowercase hex digits of a code below 0x20.
pub open spec fn unicode_escape(c: char) -> Seq<char> {
    let v = c as int;
    seq!['\\', 'u', '0', '0', hex_digit(v / 16), hex_digit(v % 16)]
}

/// JSON escape of one character. With `named_ws`, carriage return and tab
/// get their short escapes; otherwise every control character other than
/// newline is escaped by code.
pub open spec fn json_char(c: char, named_ws: bool) -> Seq<char> {
    if c == '"' {
        seq!['\\', '"']
    } else if c == '\\' {
        seq!['\\', '\\']
    } else if c == '\n' {
        seq!['\\', 'n']
    } else if named_ws && c == '\r' {
        seq!['\\', 'r']
    } else if named_ws && c == '\t' {
        seq!['\\', 't']
    } else if (c as u32) < 0x20 {
        unicode_escape(c)
    } else {
        seq![c]
    }
}

/// JSON escapes of a character sequence, concatenated.
pub open spec fn json_chars(s: Seq<char>, named_ws: bool) -> Seq<char>
    decreases s.len(),
{
    if s.len() == 0 {
        Seq::empty()
    } else {
        json_chars(s.drop_last(), named_ws) + json_char(s.last(), named_ws)
    }
}

/// A JSON string literal holding `s`.
pub open spec fn json_quoted(s: Seq<char>, named_ws: bool) -> Seq<char> {
    seq!['"'] + json_chars(s, named_ws) + seq!['"']
}

fn push_json_char(out: &mut String, c: char, named_ws: bool)
    ensures
        final(out)@ == old(out)@ + json_char(c, named_ws),
{
    if c == '"' {
        push_char(out, '\\');
        push_char(out, '"');
    } else if c == '\\' {
        push_char(out, '\\');
        push_char(out, '\\');
    } else if c == '\n' {
        push_char(out, '\\');
        push_char(out, 'n');
    } else if named_ws && c == '\r' {
        push_char(out, '\\');
        push_char(out, 'r');
    } else if named_ws && c == '\t' {
        push_char(out, '\\');
        push_char(out, 't');
    } else if (c as u32) < 0x20 {
        let v: u32 = c as u32;
        let hi: u8 = (v / 16) as u8;
        let lo: u8 = (v % 16) as u8;
        push_char(out, '\\');
        push_char(out, 'u');
        push_char(out, '0');
        push_char(out, '0');
        push_char(out, if hi < 10 { (48u8 + hi) as char } else { (87u8 + hi) as char });
        push_char(out, if lo < 10 { (48u8 + lo) as char } else { (87u8 + lo) as char });
        assert(final(out)@ =~= old(out)@ + json_char(c, named_ws));
    } else {
        push_char(out, c);
    }
}

fn json_quote(s: &str, named_ws: bool) -> (r: String)
    ensures
        r@ == json_quoted(s@, named_ws),
{
    let v = str_chars(s);
    let mut out = String::new();
    push_char(&mut out, '"');
    for i in 0..v.len()
        invariant
            v@ == s@,
            out@ == seq!['"'] + json_chars(v@.take(i as int), named_ws),
    {
        push_json_char(&mut out, v[i], named_ws);
        assert(v@.take(i + 1).drop_last() =~= v@.take(i as int));
    }
    assert(v@.take(v@.len() as int) =~= v@);
    push_char(&mut out, '"');
    out
}

/// The compositor's JSON string quoting: quotes, backslashes and newlines get
/// short escapes, other control characters are escaped by code.
pub fn json_str(s: &str) -> (r: String)
    ensures
        r@ == json_quoted(s@, false),
{
    json_quote(s, false)
}

/// The JSON string quoting of the MIDI router and shader projects: like
/// [`json_str`], and carriage returns and tabs get short escapes too.
pub fn json_str_named_ws(s: &str) -> (r: String)
    ensures
        r@ == json_quoted(s@, true),
{
    json_quote(s, true)
}


/// The text after the letter in a new buffer pass's default source.
pub const BUFFER_SOURCE_TAIL: &'static str = ": previous-frame feedback (iChannel0 = Self)\nvoid mainImage(out vec4 fragColor, in vec2 fragCoord) {\n\tvec2 uv = fragCoord / iResolution.xy;\n\tvec4 prev = texture(iChannel0, uv);\n\tfragColor = prev * 0.97 + 0.03 * vec4(uv, 0.5 + 0.5 * sin(iTime), 1.0);\n}\n";

/// The starting source of a new buffer pass: previous-frame feedback.
pub fn default_buffer_source(letter: &str) -> (r: String)
    ensures
        r@ == "// Buffer "@ + letter@ + BUFFER_SOURCE_TAIL@,
{
    let mut s = "// Buffer ".to_owned();
    push_str(&mut s, letter);
    push_str(&mut s, BUFFER_SOURCE_TAIL);
    s
}

} // verus!
