use s3box_sound::engine::SampleProcessor;

fn generate(p: &mut SampleProcessor, frames: usize) -> Vec<i16> {
    let mut buf = vec![0i16; frames * 2];
    p.process_samples(&mut buf, 2);
    buf
}

#[test]
fn phase_continuity_chunked_equals_single() {
    let mut whole = SampleProcessor::new(44100, 440, 1);
    let one_call = generate(&mut whole, 1000);

    let mut chunked = SampleProcessor::new(44100, 440, 1);
    let mut concatenated: Vec<i16> = Vec::new();
    let mut remaining = 1000usize;
    while remaining > 0 {
        let step = remaining.min(7);
        concatenated.extend(generate(&mut chunked, step));
        remaining -= step;
    }
    assert_eq!(one_call, concatenated);
    assert_eq!(whole.num_processed_samples, chunked.num_processed_samples);
}

#[test]
fn determinism_same_parameters_same_output() {
    let mut a = SampleProcessor::new(44100, 440, 1);
    let mut b = SampleProcessor::new(44100, 440, 1);
    assert_eq!(generate(&mut a, 500), generate(&mut b, 500));
    // ... and again from the advanced counter.
    assert_eq!(generate(&mut a, 500), generate(&mut b, 500));
}

#[test]
fn sample_range_never_exceeded() {
    let mut p = SampleProcessor::new(44100, 12345, 97);
    let buf = generate(&mut p, 5000);
    for s in buf {
        assert!((-32767..=32767).contains(&(s as i32)));
    }
}

#[test]
fn left_channel_reaches_full_amplitude() {
    // A quarter period of 440 Hz at 44.1 kHz lies near frame 25; the carrier
    // must come close to the positive peak there and must never pass it.
    let mut p = SampleProcessor::new(44100, 440, 1);
    let buf = generate(&mut p, 120);
    let peak = (0..120).map(|j| buf[2 * j] as i32).max().unwrap();
    assert!(peak > 32000);
    assert!(peak <= 32767);
}

#[test]
fn modulation_right_never_louder_than_left() {
    let mut p = SampleProcessor::new(44100, 440, 3);
    let buf = generate(&mut p, 4000);
    for j in 0..4000 {
        let left = buf[2 * j] as i32;
        let right = buf[2 * j + 1] as i32;
        assert!(right.abs() <= left.abs());
        // The envelope is non-negative: the right channel never flips sign.
        assert!(left.signum() == right.signum() || right == 0);
    }
}

#[test]
fn counter_advances_by_frames_generated() {
    let mut p = SampleProcessor::new(48000, 1000, 2);
    assert_eq!(p.num_processed_samples, 0);
    generate(&mut p, 17);
    assert_eq!(p.num_processed_samples, 17);
    generate(&mut p, 0);
    assert_eq!(p.num_processed_samples, 17);
    generate(&mut p, 983);
    assert_eq!(p.num_processed_samples, 1000);
}

#[test]
fn concrete_scenario_440_hz_sine() {
    // sample_rate = 44100, carrier = 440 Hz: frame 0 is sin(0) = 0, and one
    // carrier period spans about 100.2 frames, crossing zero twice.
    let mut p = SampleProcessor::new(44100, 440, 1);
    let buf = generate(&mut p, 102);
    assert_eq!(buf[0], 0);

    let mut sign_changes = 0;
    let mut previous = 0i32;
    for j in 0..102 {
        let s = buf[2 * j] as i32;
        if s != 0 {
            if previous != 0 && s.signum() != previous.signum() {
                sign_changes += 1;
            }
            previous = s;
        }
    }
    assert_eq!(sign_changes, 2);
}

#[test]
fn new_keeps_parameters() {
    let p = SampleProcessor::new(22050, 330, 5);
    assert_eq!(p.sample_rate, 22050);
    assert_eq!(p.freq, 330);
    assert_eq!(p.mod_freq, 5);
    assert_eq!(p.num_processed_samples, 0);
}
