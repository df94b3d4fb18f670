use projectm_rs::render::{estimated_bytes, GpuError, TextureLedger};

#[test]
fn estimated_bytes_is_w_h_depth_bpp() {
    // 1920×1080 Rgba8 = ~8.29 MB; a 3-layer volume triples it.
    assert_eq!(1920u64 * 1080 * 1 * 4, 8_294_400);
    assert_eq!(256u64 * 256 * 4 * 4, 1_048_576); // 4-layer noisevol
}

#[test]
fn estimated_bytes_multiplies_dimensions() {
    assert_eq!(estimated_bytes(1920, 1080, 1, 4), 8_294_400);
    assert_eq!(estimated_bytes(256, 256, 4, 4), 1_048_576);
    assert_eq!(estimated_bytes(7, 0, 3, 16), 0);
}

#[test]
fn ledger_counts_live_textures() {
    let mut l = TextureLedger::new();
    l.register(100);
    l.register(50);
    assert_eq!(l.live_texture_count(), 2);
    assert_eq!(l.live_texture_bytes(), 150);
    l.release(100);
    assert_eq!(l.live_texture_count(), 1);
    assert_eq!(l.live_texture_bytes(), 50);
    l.release(50);
    assert_eq!(l.live_texture_count(), 0);
    assert_eq!(l.live_texture_bytes(), 0);
}

#[test]
fn gpu_error_messages() {
    assert_eq!(GpuError::NoAdapter("x".to_string()).message(), "no suitable GPU adapter: x");
    assert_eq!(GpuError::NoDevice("y".to_string()).message(), "failed to create GPU device: y");
}
