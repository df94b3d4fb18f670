use projectm_rs::scene::{
    buffer_graph_has_cycle, default_channels, default_true, pass_type_index, pass_type_str, shader_project_passes,
    BlendMode, ChannelSource, PassData,
};

#[test]
fn blend_mode_u32_round_trips() {
    for m in [BlendMode::Normal, BlendMode::Add, BlendMode::Screen, BlendMode::Multiply,
              BlendMode::Difference, BlendMode::Lighten, BlendMode::Darken] {
        assert_eq!(BlendMode::from_u32(m.as_u32()), m);
    }
}

#[test]
fn channel_source_round_trips() {
    for s in ["none", "audio", "buffera", "bufferb", "bufferc", "bufferd", "self"] {
        assert_eq!(ChannelSource::parse(s).as_str(), s);
    }
    assert_eq!(ChannelSource::parse("garbage"), ChannelSource::NoSource);
    assert_eq!(pass_type_index("buffera"), Some(0));
    assert_eq!(pass_type_index("image"), Some(4));
    assert_eq!(pass_type_index("bogus"), None);
}

#[test]
fn cycle_detection() {
    // A→B, B→Image (acyclic among buffers): no cycle. deps[i][ch] = Some(buffer_index).
    let acyclic = [
        [None, None, None, None],        // buffer A reads nothing
        [Some(0u8), None, None, None],   // buffer B reads A
    ];
    assert!(!buffer_graph_has_cycle(&acyclic));
    // A→B and B→A: cycle.
    let cyclic = [[Some(1u8), None, None, None], [Some(0u8), None, None, None]];
    assert!(buffer_graph_has_cycle(&cyclic));
    // Self-loop is feedback, not a cycle.
    let self_loop = [[Some(0u8), None, None, None]];
    assert!(!buffer_graph_has_cycle(&self_loop));
}

#[test]
fn blend_mode_codes_are_stable() {
    assert_eq!(BlendMode::Normal.as_u32(), 0);
    assert_eq!(BlendMode::Darken.as_u32(), 6);
    // Unknown codes fall back to Normal.
    assert_eq!(BlendMode::from_u32(99), BlendMode::Normal);
}

#[test]
fn pass_type_names_round_trip() {
    for i in 0..5usize {
        assert_eq!(pass_type_index(pass_type_str(i)), Some(i));
    }
    assert_eq!(pass_type_str(4), "image");
}

#[test]
fn legacy_single_pass_migrates_to_image() {
    let passes = shader_project_passes("void mainImage(out vec4 c, in vec2 f){c=vec4(1.0);}", 0, &[]);
    assert_eq!(passes.len(), 1);
    assert_eq!(passes[0].pass_type, "image");
    assert_eq!(passes[0].channels[0], "audio");
    assert_eq!(passes[0].channels[1], "none");
    assert!(passes[0].enabled);
}

#[test]
fn explicit_passes_are_kept() {
    let p = PassData {
        pass_type: "buffera".to_string(),
        enabled: false,
        source: "x".to_string(),
        mode: 2,
        channels: ["self".to_string(), "audio".to_string(), "none".to_string(), "none".to_string()],
    };
    let passes = shader_project_passes("ignored", 0, &[p]);
    assert_eq!(passes.len(), 1);
    assert_eq!(passes[0].pass_type, "buffera");
    assert_eq!(passes[0].mode, 2);
    assert!(!passes[0].enabled);
    assert_eq!(passes[0].index(), Some(0));
}

#[test]
fn three_buffer_cycle_is_found() {
    let deps = [
        [Some(1u8), None, None, None],
        [None, Some(2u8), None, None],
        [None, None, Some(0u8), None],
    ];
    assert!(buffer_graph_has_cycle(&deps));
    let none: [[Option<u8>; 4]; 0] = [];
    assert!(!buffer_graph_has_cycle(&none));
}

#[test]
fn defaults() {
    assert!(default_true());
    let ch = default_channels();
    assert!(ch.iter().all(|c| c == "none"));
}
