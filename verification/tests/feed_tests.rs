use s3box_sound::engine::SampleProcessor;
use s3box_sound::feed::FeedController;

#[test]
fn frames_in_window_rounds_down() {
    assert_eq!(FeedController::frames_in_window(0), 0);
    assert_eq!(FeedController::frames_in_window(3), 0);
    assert_eq!(FeedController::frames_in_window(4), 1);
    assert_eq!(FeedController::frames_in_window(14), 3);
    assert_eq!(FeedController::frames_in_window(512), 128);
}

#[test]
fn partial_window_commits_whole_frames_only() {
    // A window with room for 3.5 frames: exactly 3 frames (12 bytes) are
    // committed, the 2 trailing bytes stay untouched, the counter gains 3.
    let mut c = FeedController::new(44100, 440, 1);
    let mut window = vec![0xAAu8; 14];
    let written = c.fill_window(&mut window);
    assert_eq!(written, 12);
    assert_eq!(c.engine.num_processed_samples, 3);
    assert_eq!(&window[12..], &[0xAA, 0xAA]);
}

#[test]
fn tiny_window_commits_nothing_and_keeps_phase() {
    let mut c = FeedController::new(44100, 440, 1);
    for len in 0..4usize {
        let mut window = vec![0x55u8; len];
        let written = c.fill_window(&mut window);
        assert_eq!(written, 0);
        assert_eq!(c.engine.num_processed_samples, 0);
        assert_eq!(window, vec![0x55u8; len]);
    }
}

#[test]
fn commit_is_always_frame_aligned() {
    let mut c = FeedController::new(44100, 440, 1);
    for len in [0usize, 1, 2, 3, 4, 5, 7, 8, 13, 14, 15, 16, 127, 128, 513] {
        let mut window = vec![0u8; len];
        let written = c.fill_window(&mut window);
        assert_eq!(written % 4, 0);
        assert_eq!(written, (len / 4) * 4);
        assert!(written <= len);
    }
}

#[test]
fn counter_equals_total_committed_frames() {
    let mut c = FeedController::new(44100, 440, 1);
    let mut total_frames = 0usize;
    for len in [64usize, 7, 0, 130, 3, 255, 44, 12] {
        let mut window = vec![0u8; len];
        let written = c.fill_window(&mut window);
        total_frames += written / 4;
        assert_eq!(c.engine.num_processed_samples, total_frames);
    }
    assert_eq!(total_frames, 126);
}

#[test]
fn window_bytes_are_little_endian_frames() {
    // Filling windows must serialize exactly the engine's samples, frame by
    // frame, little-endian, left channel first.
    let mut reference = SampleProcessor::new(44100, 440, 1);
    let mut samples = vec![0i16; 2 * 96];
    reference.process_samples(&mut samples, 2);

    let mut c = FeedController::new(44100, 440, 1);
    let mut window = vec![0u8; 4 * 96];
    let written = c.fill_window(&mut window);
    assert_eq!(written, 4 * 96);

    let mut expected = Vec::new();
    for s in samples {
        expected.extend_from_slice(&s.to_le_bytes());
    }
    assert_eq!(window, expected);
}

#[test]
fn chunked_windows_equal_one_large_window() {
    // Phase continuity through the controller: many ragged windows produce
    // the same committed byte stream as one large window.
    let mut c_whole = FeedController::new(44100, 440, 1);
    let mut big = vec![0u8; 400];
    let written = c_whole.fill_window(&mut big);
    assert_eq!(written, 400);

    let mut c_chunked = FeedController::new(44100, 440, 1);
    let mut stream = Vec::new();
    for len in [15usize, 4, 9, 32, 140, 100, 100] {
        let mut window = vec![0u8; len];
        let written = c_chunked.fill_window(&mut window);
        stream.extend_from_slice(&window[..written]);
    }
    assert_eq!(stream.len(), 396);
    assert_eq!(stream, big[..396]);
}
