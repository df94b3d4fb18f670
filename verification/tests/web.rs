use projectm_rs::web::{
    can_add_layer, chain_has_room, default_buffer_source, effect_rack_preset, json_str, json_str_named_ws, EffectKind,
    LayerKind,
};

#[test]
fn effect_kind_names_round_trip() {
    for k in [EffectKind::Kaleidoscope, EffectKind::MirrorH, EffectKind::MirrorV] {
        assert_eq!(EffectKind::from_str(k.type_str()), Some(k));
    }
    assert_eq!(EffectKind::from_str("nonsense"), None);
}

#[test]
fn json_strings_are_escaped() {
    assert_eq!(json_str("a\"b\\c\nd"), "\"a\\\"b\\\\c\\nd\"");
    assert_eq!(json_str("\u{1}"), "\"\\u0001\"");
    assert_eq!(json_str_named_ws("\r\t"), "\"\\r\\t\"");
    assert_eq!(json_str("\u{1f}"), "\"\\u001f\"");
}

#[test]
fn default_names() {
    assert_eq!(LayerKind::Milkdrop.default_name(), "Milkdrop");
    assert_eq!(LayerKind::Spectrum.default_name(), "Spectrum");
    assert_eq!(LayerKind::Waveform.kind_str(), "waveform");
    assert_eq!(LayerKind::Milkdrop.kind_str(), "milkdrop");
    assert!(default_buffer_source("A").starts_with("// Buffer A: previous-frame feedback (iChannel0 = Self)\nvoid mainImage("));
}

#[test]
fn layer_admission_rules() {
    assert!(can_add_layer(&[], LayerKind::Milkdrop));
    assert!(!can_add_layer(&[LayerKind::Milkdrop], LayerKind::Milkdrop));
    assert!(can_add_layer(&[LayerKind::Milkdrop], LayerKind::Shader));
    let shaders = vec![LayerKind::Shader; 8];
    assert!(!can_add_layer(&shaders, LayerKind::Shader));
    assert!(can_add_layer(&shaders, LayerKind::Waveform));
    let full = vec![LayerKind::Waveform; 16];
    assert!(!can_add_layer(&full, LayerKind::Spectrum));
}

#[test]
fn effect_rack_presets_and_room() {
    assert_eq!(effect_rack_preset("vhs"), vec![EffectKind::RgbSplit, EffectKind::Scanlines, EffectKind::Noise]);
    assert_eq!(effect_rack_preset("tunnel"), vec![EffectKind::Feedback, EffectKind::Kaleidoscope]);
    assert!(effect_rack_preset("nope").is_empty());
    assert!(chain_has_room(7, true));
    assert!(!chain_has_room(8, false));
}
