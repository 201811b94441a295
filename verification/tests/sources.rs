use bms_preview::audio::StereoAudio;
use bms_preview::errors::AudioError;
use bms_preview::load::DecodeEvent;
use bms_preview::probe::{Probe, TimeBase};
use bms_preview::sample::StereoSample;

fn pairs(audio: &StereoAudio) -> Vec<(i64, i64)> {
    audio.buffer.iter().map(|s| (s.left, s.right)).collect()
}

#[test]
fn length_is_the_part_beyond_whole_seconds() {
    let half = Probe::new(Some(2), Some(48_000), Some(24_000), Some(TimeBase { numer: 1, denom: 48_000 }));
    assert_eq!(half.get_length(), Some(500_000_000));
    let longer = Probe::new(Some(2), Some(48_000), Some(72_000), Some(TimeBase { numer: 1, denom: 48_000 }));
    assert_eq!(longer.get_length(), Some(500_000_000));
    let third = Probe::new(Some(1), Some(3), Some(1), Some(TimeBase { numer: 1, denom: 3 }));
    assert_eq!(third.get_length(), Some(333_333_333));
    let scaled = Probe::new(Some(1), Some(3), Some(3), Some(TimeBase { numer: 5, denom: 20 }));
    assert_eq!(scaled.get_length(), Some(750_000_000));
}

#[test]
fn length_needs_frames_and_time_base() {
    let base = Some(TimeBase { numer: 1, denom: 48_000 });
    assert_eq!(Probe::new(Some(2), Some(48_000), None, base).get_length(), None);
    assert_eq!(Probe::new(Some(2), Some(48_000), Some(10), None).get_length(), None);
    let huge = Probe::new(Some(2), Some(1), Some(u64::MAX), Some(TimeBase { numer: u32::MAX, denom: 1 }));
    assert_eq!(huge.get_length(), None);
}

#[test]
fn length_is_frames_over_rate_within_a_frame() {
    for frames in [0u64, 1, 441, 22_050, 44_099] {
        let p = Probe::new(Some(2), Some(44_100), Some(frames), Some(TimeBase { numer: 1, denom: 44_100 }));
        let length = p.get_length().unwrap() as u128;
        assert!(length * 44_100 <= frames as u128 * 1_000_000_000);
        assert!((frames as u128) * 1_000_000_000 < (length + 1) * 44_100);
    }
}

#[test]
fn mono_sounds_on_both_sides() {
    let mut a = StereoAudio::empty(8_000);
    a.append_interleaved(&vec![1, 2, 3], 1);
    assert_eq!(pairs(&a), vec![(1, 1), (2, 2), (3, 3)]);
    assert_eq!(a.sample_rate, 8_000);
}

#[test]
fn of_several_channels_the_first_two_are_taken() {
    let mut a = StereoAudio::empty(8_000);
    a.append_interleaved(&vec![1, 2, 3, 4], 2);
    a.append_interleaved(&vec![10, 20, 30, 11, 21, 31], 3);
    a.append_interleaved(&vec![], 3);
    assert_eq!(pairs(&a), vec![(1, 2), (3, 4), (10, 20), (11, 21)]);
    // a frame that breaks off after its second sample still counts
    let mut b = StereoAudio::empty(8_000);
    b.append_interleaved(&vec![1, 2, 3, 4, 5], 3);
    assert_eq!(pairs(&b), vec![(1, 2), (4, 5)]);
}

#[test]
fn load_takes_decoded_packets_up_to_the_end() {
    let probe = Probe::new(Some(2), Some(44_100), None, None);
    let events = vec![
        DecodeEvent::Samples(vec![1, 2]),
        DecodeEvent::OtherTrack,
        DecodeEvent::DecodeError,
        DecodeEvent::Samples(vec![3, 4, 5, 6]),
        DecodeEvent::End,
        DecodeEvent::Samples(vec![7, 8]),
    ];
    let audio = StereoAudio::load(&probe, &events).unwrap();
    assert_eq!(audio.sample_rate, 44_100);
    assert_eq!(pairs(&audio), vec![(1, 2), (3, 4), (5, 6)]);
    assert_eq!(StereoAudio::load(&probe, &vec![]).unwrap().buffer.len(), 0);
}

#[test]
fn load_needs_channels_and_rate() {
    let events = vec![DecodeEvent::Samples(vec![1, 2])];
    let no_channels = Probe::new(None, Some(44_100), None, None);
    assert_eq!(
        StereoAudio::load(&no_channels, &events).err(),
        Some(AudioError::MissingCodecInfo())
    );
    let no_rate = Probe::new(Some(2), None, None, None);
    assert_eq!(StereoAudio::load(&no_rate, &events).err(), Some(AudioError::MissingCodecInfo()));
}

#[test]
fn channels_come_apart_and_together() {
    let a = StereoAudio {
        buffer: vec![StereoSample { left: 1, right: -1 }, StereoSample { left: 2, right: -2 }],
        sample_rate: 10,
    };
    let (left, right) = a.planar();
    assert_eq!(left, vec![1, 2]);
    assert_eq!(right, vec![-1, -2]);
    let mut b = a.clone();
    assert!(!b.needs_resample(10));
    assert!(b.needs_resample(20));
    b.resample(10, &vec![9, 9, 9], &vec![8, 8, 8]);
    assert_eq!(pairs(&b), vec![(1, -1), (2, -2)]);
    b.resample(20, &vec![5, 6, 7, 8], &vec![-5, -6, -7]);
    assert_eq!(b.sample_rate, 20);
    assert_eq!(pairs(&b), vec![(5, -5), (6, -6), (7, -7)]);
    let mut c = a.clone();
    c.match_sample_rate(&a, &vec![0], &vec![0]);
    assert_eq!(pairs(&c), pairs(&a));
    c.match_sample_rate(&b, &vec![4], &vec![3]);
    assert_eq!(c.sample_rate, 20);
    assert_eq!(pairs(&c), vec![(4, 3)]);
}
