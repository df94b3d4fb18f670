use projectm_rs::scene::{
    check_scene_limits, LayerSizes, ShaderSizes, MAX_EFFECTS_PER_LAYER, MAX_LAYERS, MAX_PASSES,
    MAX_SHADER_LAYERS, MAX_SHADER_SOURCE, SCHEMA_VERSION,
};

fn plain(effects: usize) -> LayerSizes {
    LayerSizes { effects, shader: None }
}

fn shader(source: usize, passes: Vec<usize>) -> LayerSizes {
    LayerSizes { effects: 0, shader: Some(ShaderSizes { source, passes }) }
}

#[test]
fn limits_accept_a_small_scene() {
    let layers = vec![plain(1), shader(100, vec![]), plain(0)];
    let k = check_scene_limits(SCHEMA_VERSION, &layers, 1).unwrap();
    assert_eq!(k.layers, 3);
    assert_eq!(k.effects, vec![1, 0, 0]);
    assert_eq!(k.passes, vec![0, 0, 0]);
    assert_eq!(k.global_effects, 1);
}

#[test]
fn limits_reject_unknown_schema() {
    let e = check_scene_limits(999, &[plain(0)], 0).err().unwrap();
    assert_eq!(e, "unsupported scene schema version 999 (expected 1)");
}

#[test]
fn limits_truncate_layer_count() {
    let layers: Vec<LayerSizes> = (0..40).map(|_| plain(1)).collect();
    let k = check_scene_limits(SCHEMA_VERSION, &layers, 1).unwrap();
    assert_eq!(k.layers, MAX_LAYERS);
}

#[test]
fn limits_reject_too_many_shader_layers() {
    let layers: Vec<LayerSizes> = (0..MAX_SHADER_LAYERS + 1).map(|_| shader(10, vec![])).collect();
    let e = check_scene_limits(SCHEMA_VERSION, &layers, 0).err().unwrap();
    assert_eq!(e, "too many shader layers (9 > 8)");
}

#[test]
fn limits_reject_oversize_sources() {
    let e = check_scene_limits(SCHEMA_VERSION, &[shader(MAX_SHADER_SOURCE + 1, vec![])], 0).err().unwrap();
    assert_eq!(e, "shader source exceeds 65536 bytes");
    let e = check_scene_limits(SCHEMA_VERSION, &[shader(1, vec![MAX_SHADER_SOURCE + 1])], 0).err().unwrap();
    assert_eq!(e, "shader pass source exceeds 65536 bytes");
    let e = check_scene_limits(SCHEMA_VERSION, &[shader(65536, vec![65536, 65536, 65536, 1])], 0).err().unwrap();
    assert_eq!(e, "shader project source exceeds 262144 bytes");
    // Exactly at the project budget is accepted.
    assert!(check_scene_limits(SCHEMA_VERSION, &[shader(65536, vec![65536, 65536, 65536])], 0).is_ok());
}

#[test]
fn limits_ignore_passes_beyond_the_fifth() {
    let mut passes = vec![1usize; MAX_PASSES];
    passes.push(MAX_SHADER_SOURCE + 1);
    let k = check_scene_limits(SCHEMA_VERSION, &[shader(1, passes)], 0).unwrap();
    assert_eq!(k.passes, vec![MAX_PASSES]);
}

#[test]
fn limits_truncate_effects_per_layer() {
    let k = check_scene_limits(SCHEMA_VERSION, &[plain(20)], 20).unwrap();
    assert_eq!(k.effects, vec![MAX_EFFECTS_PER_LAYER]);
    assert_eq!(k.global_effects, 8);
}

#[test]
fn limits_reject_too_many_total_effects() {
    let layers: Vec<LayerSizes> = (0..MAX_LAYERS).map(|_| plain(MAX_EFFECTS_PER_LAYER)).collect();
    let e = check_scene_limits(SCHEMA_VERSION, &layers, 1).err().unwrap();
    assert_eq!(e, "too many effects (129 > 64)");
}

#[test]
fn limits_report_the_first_failing_layer() {
    let layers = vec![shader(1, vec![MAX_SHADER_SOURCE + 1]), shader(MAX_SHADER_SOURCE + 1, vec![])];
    let e = check_scene_limits(SCHEMA_VERSION, &layers, 0).err().unwrap();
    assert_eq!(e, "shader pass source exceeds 65536 bytes");
}
