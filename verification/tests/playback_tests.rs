use remote_mic::audio::{copy_frames, default_params, mono_frames};
use remote_mic::playback::{repeat, Playback};
use remote_mic::types::SampleFormat;

#[test]
fn prebuffer_is_a_fiftieth_of_a_second() {
    let mut p: Playback<f32> = Playback::new(48_000);
    assert!(!p.has_started());
    assert!(p.wants_more(0));
    p.feed(vec![0.5; 959]);
    assert!(p.wants_more(10));
    assert_eq!(p.render(8, 2, 0.0), vec![0.0; 8]);
    assert!(!p.has_started());
    assert_eq!(p.len(), 959);
    assert_eq!(p.underrun_count(), 0);
    p.feed(vec![0.25]);
    assert!(!p.wants_more(10_000));
    let out = p.render(8, 2, 0.0);
    assert!(p.has_started());
    assert_eq!(out, vec![0.5; 8]);
    assert_eq!(p.len(), 956);
}

#[test]
fn samples_are_spread_over_the_channels() {
    let mut p: Playback<f32> = Playback::new(0);
    p.feed(vec![1.0, 2.0, 3.0]);
    assert_eq!(p.render(4, 2, 0.0), vec![1.0, 1.0, 2.0, 2.0]);
    assert_eq!(p.len(), 1);
    assert!(p.wants_more(2));
    assert!(!p.wants_more(1));
    assert_eq!(p.render(9, 3, 0.0), vec![3.0, 3.0, 3.0, 0.0, 0.0, 0.0, 0.0, 0.0, 0.0]);
    assert_eq!(p.underrun_count(), 2);
    assert_eq!(p.len(), 0);
    assert_eq!(p.render(3, 1, -1.0), vec![-1.0; 3]);
    assert_eq!(p.underrun_count(), 5);
}

#[test]
fn odd_buffer_lengths_leave_the_remainder_out() {
    let mut p: Playback<i16> = Playback::new(0);
    p.feed(vec![7, 8]);
    assert_eq!(p.render(5, 2, 0), vec![7, 7, 8, 8]);
    assert_eq!(p.render(0, 1, 0), Vec::<i16>::new());
    assert_eq!(repeat(9u8, 3), vec![9, 9, 9]);
}

#[test]
fn frame_counts() {
    assert_eq!(mono_frames(1, 1, 1920), Some(480));
    assert_eq!(mono_frames(1, 2, 1920), Some(240));
    assert_eq!(mono_frames(2, 2, 1920), Some(480));
    assert_eq!(mono_frames(3, 0, 7), Some(3));
    assert_eq!(mono_frames(1, 3, 16), Some(1));
    assert_eq!(mono_frames(0, 1, 16), None);
    assert_eq!(mono_frames(4, 1, 16), None);
    assert_eq!(copy_frames(10, 16), 4);
    assert_eq!(copy_frames(3, 16), 3);
    assert_eq!(copy_frames(3, 3), 0);
    let p = default_params();
    assert_eq!((p.sample_rate, p.channels, p.sample_format), (48_000, 2, SampleFormat::F32));
}

#[test]
fn no_channels_count_as_one() {
    let mut p: Playback<i16> = Playback::new(50);
    p.feed(vec![4, 5, 6]);
    assert_eq!(p.render(2, 0, 0), vec![4, 5]);
    assert_eq!(p.render(3, 0, -1), vec![6, -1, -1]);
    assert_eq!(p.underrun_count(), 2);
    assert_eq!(p.render(0, 0, 0), Vec::<i16>::new());
}
