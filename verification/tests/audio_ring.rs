use projectm_rs::audio_ring::drain_plan;

#[test]
fn drain_takes_whole_frames_only() {
    // 7 samples available in stereo: 6 are taken, 1 stays.
    let p = drain_plan(17, 10, 2, 64);
    assert_eq!((p.channels, p.samples, p.first, p.new_read), (2, 6, 6, 16));
}

#[test]
fn drain_splits_at_the_wrap() {
    // write behind read: 64 - 60 + 4 = 8 samples, 4 before the end.
    let p = drain_plan(4, 60, 2, 64);
    assert_eq!((p.samples, p.first, p.new_read), (8, 4, 4));
}

#[test]
fn drain_reports_a_dry_ring() {
    let p = drain_plan(10, 10, 2, 64);
    assert_eq!(p.samples, 0);
    // A single sample of a stereo frame is not taken.
    let p = drain_plan(11, 10, 2, 64);
    assert_eq!(p.samples, 0);
}

#[test]
fn drain_treats_missing_channel_count_as_mono() {
    let p = drain_plan(5, 2, 0, 16);
    assert_eq!((p.channels, p.samples, p.new_read), (1, 3, 5));
}
