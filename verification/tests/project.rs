use projectm_rs::project::ProjectPasses;
use projectm_rs::scene::ChannelSource;

#[test]
fn new_project_has_only_the_image_pass() {
    let p = ProjectPasses::new();
    assert_eq!(p.active_pass_count(), 1);
    assert_eq!(p.buffer_pass_count(), 0);
    assert_eq!(p.image_source(), ("", 0));
    let saved = p.to_passes();
    assert_eq!(saved.len(), 1);
    assert_eq!(saved[0].pass_type, "image");
    assert_eq!(saved[0].channels[0], "none");
}

#[test]
fn add_and_remove_buffers() {
    let mut p = ProjectPasses::new();
    assert!(p.add_buffer(1));
    assert!(!p.add_buffer(1));
    assert!(!p.add_buffer(4));
    assert_eq!(p.buffer_pass_count(), 1);
    let b = &p.slots()[1];
    assert!(b.source.starts_with("// Buffer B: previous-frame feedback"));
    assert_eq!(b.channels[0], ChannelSource::SelfPrev);
    p.remove_buffer(1);
    assert_eq!(p.buffer_pass_count(), 0);
    assert_eq!(p.slots()[1].source, "");
    p.remove_buffer(4);
    assert_eq!(p.active_pass_count(), 1);
}

#[test]
fn edits_apply_only_to_passes_in_use() {
    let mut p = ProjectPasses::new();
    assert!(!p.set_pass_source(0, false, "x"));
    assert!(p.set_pass_source(4, true, "fn main() {}"));
    assert_eq!(p.image_source(), ("fn main() {}", 1));
    assert!(!p.set_channel(4, 4, ChannelSource::Audio));
    assert!(p.set_channel(4, 2, ChannelSource::Audio));
    assert_eq!(p.slots()[4].channels[2], ChannelSource::Audio);
    p.set_pass_enabled(4, false);
    assert_eq!(p.active_pass_count(), 0);
    p.set_pass_enabled(0, false);
    assert!(p.slots()[0].enabled);
}

#[test]
fn saved_passes_load_back() {
    let mut p = ProjectPasses::new();
    p.add_buffer(0);
    p.add_buffer(2);
    p.set_channel(4, 0, ChannelSource::Buffer(2));
    p.set_pass_enabled(2, false);
    let saved = p.to_passes();
    let types: Vec<&str> = saved.iter().map(|d| d.pass_type.as_str()).collect();
    assert_eq!(types, vec!["buffera", "bufferc", "image"]);
    assert_eq!(saved[2].channels[0], "bufferc");
    let mut q = ProjectPasses::new();
    q.load_passes(&saved);
    assert_eq!(q.to_passes().len(), 3);
    assert!(!q.slots()[2].enabled);
    assert_eq!(q.slots()[4].channels[0], ChannelSource::Buffer(2));
    assert_eq!(q.slots()[0].source, p.slots()[0].source);
}

#[test]
fn loading_without_an_image_pass_still_has_one() {
    let mut p = ProjectPasses::new();
    p.add_buffer(3);
    let mut saved = p.to_passes();
    saved.pop();
    let mut q = ProjectPasses::new();
    q.load_passes(&saved);
    assert!(q.slots()[4].active);
    assert!(q.slots()[3].active);
    assert_eq!(q.active_pass_count(), 2);
}
