use projectm_rs::compositor::{Compositor, SavedLayer};
use projectm_rs::effect_chain::EffectData;
use projectm_rs::scene::BlendMode;
use projectm_rs::web::{EffectKind, LayerKind};

fn ids(c: &Compositor<u32>) -> Vec<u64> {
    c.layers().iter().map(|l| l.id).collect()
}

fn saved(id: u64, kind: LayerKind, name: &str) -> SavedLayer<u32> {
    SavedLayer { id, name: name.to_string(), kind, enabled: true, visible: true, blend: BlendMode::Normal, effects: vec![] }
}

fn effect(id: u64, ty: &str) -> EffectData<u32> {
    EffectData { id, name: ty.to_string(), effect_type: ty.to_string(), enabled: true, params: 7 }
}

#[test]
fn default_scene_is_milkdrop_under_waveform() {
    let mut c: Compositor<u32> = Compositor::new();
    assert_eq!(ids(&c), vec![1, 2]);
    assert_eq!(c.layers()[0].kind, LayerKind::Milkdrop);
    assert_eq!(c.layers()[0].name, "Milkdrop");
    assert_eq!(c.layers()[1].kind, LayerKind::Waveform);
    assert_eq!(c.selected(), Some(1));
    assert!(c.has_milkdrop());
    assert_eq!(c.enabled_count(), 2);
    assert_eq!(c.chain(0).unwrap().len(), 0);
    c.add_layer(LayerKind::Shader);
    c.add_effect(0, EffectKind::Blur, 1);
    c.load_default();
    assert_eq!(ids(&c), vec![1, 2]);
    assert_eq!(c.selected(), Some(1));
    assert_eq!(c.chain(0).unwrap().len(), 0);
}

#[test]
fn second_milkdrop_layer_is_refused() {
    let mut c: Compositor<u32> = Compositor::new();
    assert_eq!(c.add_layer(LayerKind::Milkdrop), None);
    assert_eq!(c.layer_count(), 2);
    assert_eq!(c.add_layer(LayerKind::Shader), Some(3));
    assert_eq!(c.selected(), Some(3));
    assert_eq!(c.layers()[2].name, "Shader");
}

#[test]
fn layer_limits_hold() {
    let mut c: Compositor<u32> = Compositor::new();
    for i in 0..8 {
        assert_eq!(c.add_layer(LayerKind::Shader), Some(i + 3));
    }
    assert_eq!(c.add_layer(LayerKind::Shader), None);
    assert_eq!(c.shader_count(), 8);
    for _ in 0..6 {
        assert!(c.add_layer(LayerKind::Spectrum).is_some());
    }
    assert_eq!(c.layer_count(), 16);
    assert_eq!(c.add_layer(LayerKind::Waveform), None);
}

#[test]
fn removing_the_selected_layer_selects_the_top_one() {
    let mut c: Compositor<u32> = Compositor::new();
    c.add_layer(LayerKind::Shader);
    c.set_selected(2);
    c.remove_layer(2);
    assert_eq!(ids(&c), vec![1, 3]);
    assert_eq!(c.selected(), Some(3));
    c.remove_layer(1);
    assert_eq!(c.selected(), Some(3));
    c.remove_layer(3);
    assert_eq!(c.selected(), None);
    assert_eq!(c.layer_count(), 0);
}

#[test]
fn duplicate_layer_goes_right_above_its_source() {
    let mut c: Compositor<u32> = Compositor::new();
    let s = c.add_layer(LayerKind::Shader).unwrap();
    c.move_layer(s, true);
    assert_eq!(ids(&c), vec![1, 3, 2]);
    c.set_blend(s, 3);
    c.set_visible(s, false);
    let d = c.duplicate_layer(s).unwrap();
    assert_eq!(d, 4);
    assert_eq!(ids(&c), vec![1, 3, 4, 2]);
    let copy = &c.layers()[2];
    assert_eq!(copy.name, "Shader copy");
    assert_eq!(copy.blend, BlendMode::Multiply);
    assert!(!copy.visible);
    assert_eq!(c.selected(), Some(4));
    assert_eq!(c.duplicate_layer(1), None);
    assert_eq!(c.duplicate_layer(99), None);
}

#[test]
fn layer_edits_address_layers_by_id() {
    let mut c: Compositor<u32> = Compositor::new();
    c.rename_layer(2, "Scope".to_string());
    c.set_enabled(1, false);
    c.set_blend(2, 99);
    assert_eq!(c.layers()[1].name, "Scope");
    assert_eq!(c.layers()[1].blend, BlendMode::Normal);
    assert!(!c.layers()[0].enabled);
    assert_eq!(c.enabled_count(), 1);
    c.set_selected(42);
    assert_eq!(c.selected(), Some(1));
    c.move_layer(1, true);
    assert_eq!(ids(&c), vec![1, 2]);
    c.move_layer(1, false);
    assert_eq!(ids(&c), vec![2, 1]);
    c.move_layer(1, true);
    assert_eq!(ids(&c), vec![1, 2]);
}

#[test]
fn effects_are_added_to_the_addressed_chain() {
    let mut c: Compositor<u32> = Compositor::new();
    assert_eq!(c.add_effect(0, EffectKind::Bloom, 5), Some(1));
    assert_eq!(c.add_effect(2, EffectKind::Blur, 6), Some(2));
    assert_eq!(c.add_effect(77, EffectKind::Blur, 6), None);
    assert_eq!(c.chain(0).unwrap().len(), 1);
    let layer_chain = c.chain(2).unwrap();
    assert_eq!(layer_chain.effects()[0].id, 2);
    assert_eq!(layer_chain.effects()[0].kind, EffectKind::Blur);
    assert_eq!(layer_chain.effects()[0].params, 6);
    assert_eq!(c.duplicate_effect(2, 2), Some(3));
    assert_eq!(c.chain(2).unwrap().effects()[1].name, "Blur copy");
    assert_eq!(c.duplicate_effect(2, 9), None);
    c.set_effect_enabled(2, 3, false);
    assert!(!c.chain(2).unwrap().effects()[1].enabled);
    c.set_effect_params(2, 3, 11);
    assert_eq!(c.chain(2).unwrap().effects()[1].params, 11);
    c.move_effect(2, 3, true);
    assert_eq!(c.chain(2).unwrap().effects()[0].id, 3);
    c.select_effect(2, 2);
    assert_eq!(c.chain(2).unwrap().selected(), Some(2));
    c.remove_effect(2, 2);
    assert_eq!(c.chain(2).unwrap().len(), 1);
    assert_eq!(c.chain(2).unwrap().selected(), Some(3));
}

#[test]
fn effect_chains_are_bounded() {
    let mut c: Compositor<u32> = Compositor::new();
    for _ in 0..8 {
        assert!(c.add_effect(1, EffectKind::Noise, 0).is_some());
        assert!(c.add_effect(0, EffectKind::Noise, 0).is_some());
    }
    assert_eq!(c.add_effect(1, EffectKind::Noise, 0), None);
    assert_eq!(c.add_effect(0, EffectKind::Noise, 0), None);
}

#[test]
fn import_keeps_saved_ids_and_one_milkdrop() {
    let mut c: Compositor<u32> = Compositor::new();
    let mut a = saved(7, LayerKind::Shader, "A");
    a.effects = vec![effect(3, "blur"), effect(3, "nope"), effect(9, "bloom")];
    let layers = vec![
        saved(5, LayerKind::Milkdrop, "M"),
        a,
        saved(7, LayerKind::Waveform, "W"),
        saved(0, LayerKind::Milkdrop, "M2"),
        saved(0, LayerKind::Spectrum, "S"),
    ];
    let slots = c.import_scene(layers, vec![effect(4, "hue")]);
    assert_eq!(slots, vec![Some(5), Some(7), Some(1), None, Some(2)]);
    assert_eq!(ids(&c), vec![5, 7, 1, 2]);
    assert_eq!(c.selected(), Some(5));
    assert_eq!(c.layers()[1].name, "A");
    let chain = c.chain(7).unwrap();
    assert_eq!(chain.len(), 2);
    assert_eq!(chain.effects()[0].id, 3);
    assert_eq!(chain.effects()[1].id, 9);
    assert_eq!(c.chain(0).unwrap().effects()[0].id, 4);
    // new ids start past every loaded one
    assert_eq!(c.add_layer(LayerKind::Shader), Some(8));
    assert_eq!(c.add_effect(0, EffectKind::Blur, 0), Some(10));
}

#[test]
fn export_then_import_gives_back_the_stack() {
    let mut c: Compositor<u32> = Compositor::new();
    let s = c.add_layer(LayerKind::Shader).unwrap();
    c.add_effect(s, EffectKind::Kaleidoscope, 3);
    c.add_effect(0, EffectKind::Vignette, 4);
    c.rename_layer(s, "Tunnel".to_string());
    c.set_blend(s, 1);
    c.move_layer(s, true);
    let (layers, global) = c.export_scene();
    let mut d: Compositor<u32> = Compositor::new();
    d.import_scene(layers, global);
    assert_eq!(ids(&d), ids(&c));
    for (x, y) in c.layers().iter().zip(d.layers().iter()) {
        assert_eq!(x.name, y.name);
        assert_eq!(x.kind, y.kind);
        assert_eq!(x.blend, y.blend);
        assert_eq!(x.effects.ids_kinds(), y.effects.ids_kinds());
    }
    assert_eq!(d.chain(0).unwrap().ids_kinds(), c.chain(0).unwrap().ids_kinds());
}

#[test]
fn removing_an_added_layer_restores_the_stack() {
    let mut c: Compositor<u32> = Compositor::new();
    let before = ids(&c);
    let id = c.add_layer(LayerKind::Spectrum).unwrap();
    c.remove_layer(id);
    assert_eq!(ids(&c), before);
    assert!(c.layers().iter().all(|l| l.id != id));
}

#[test]
fn moving_a_layer_down_and_up_restores_the_order() {
    let mut c: Compositor<u32> = Compositor::new();
    c.add_layer(LayerKind::Shader);
    let before = ids(&c);
    c.move_layer(2, false);
    assert_eq!(ids(&c), vec![1, 3, 2]);
    c.move_layer(2, true);
    assert_eq!(ids(&c), before);
}
