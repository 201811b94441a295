use bms_preview::audio::{required_samples, sample_offset, StereoAudio};
use bms_preview::errors::AudioError;
use bms_preview::sample::{saturating_sum, scale, StereoSample, UNITY};

fn flat(value: i64, len: usize, rate: u32) -> StereoAudio {
    StereoAudio { buffer: vec![StereoSample { left: value, right: value }; len], sample_rate: rate }
}

fn ramp(len: usize, rate: u32) -> StereoAudio {
    StereoAudio {
        buffer: (0..len as i64).map(|i| StereoSample { left: i + 1, right: -(i + 1) }).collect(),
        sample_rate: rate,
    }
}

#[test]
fn new_buffer_is_silent_and_sized() {
    let a = StereoAudio::new(1_000_000_000, 48_000);
    assert_eq!(a.sample_rate, 48_000);
    // twice the length times the rate, and one more
    assert_eq!(a.buffer.len(), 96_001);
    assert!(a.buffer.iter().all(|s| *s == StereoSample { left: 0, right: 0 }));
    assert_eq!(required_samples(1, 48_000), Some(2));
    assert_eq!(required_samples(0, 48_000), Some(1));
    assert_eq!(required_samples(u64::MAX, u32::MAX), None);
}

#[test]
fn sample_offsets_round_down() {
    assert_eq!(sample_offset(500_000_000, 48_000), 24_000);
    assert_eq!(sample_offset(-500_000_000, 48_000), -24_000);
    assert_eq!(sample_offset(1, 48_000), 0);
    assert_eq!(sample_offset(-1, 48_000), -1);
    assert_eq!(sample_offset(20_834, 48_000), 1);
}

#[test]
fn negative_offset_clamp() {
    let mut dst = flat(0, 48_000, 48_000);
    let src = ramp(48_000, 48_000);
    assert_eq!(dst.add(&src, -500_000_000), Ok(()));
    for i in 0..24_000 {
        assert_eq!(dst.buffer[i], src.buffer[24_000 + i]);
    }
    for i in 24_000..48_000 {
        assert_eq!(dst.buffer[i], StereoSample { left: 0, right: 0 });
    }
}

#[test]
fn positive_offset_mixes_into_the_tail() {
    let mut dst = flat(10, 8, 4);
    let src = ramp(8, 4);
    // 1.5 s at 4 Hz: six samples in
    assert_eq!(dst.add(&src, 1_500_000_000), Ok(()));
    for i in 0..6 {
        assert_eq!(dst.buffer[i], StereoSample { left: 10, right: 10 });
    }
    assert_eq!(dst.buffer[6], StereoSample { left: 11, right: 9 });
    assert_eq!(dst.buffer[7], StereoSample { left: 12, right: 8 });
}

#[test]
fn offsets_beyond_either_end_write_nothing() {
    let mut dst = flat(3, 8, 4);
    let src = ramp(8, 4);
    assert_eq!(dst.add(&src, 2_000_000_000), Ok(()));
    assert_eq!(dst.add(&src, -2_000_000_000), Ok(()));
    assert!(dst.buffer.iter().all(|s| *s == StereoSample { left: 3, right: 3 }));
}

#[test]
fn mismatched_rates_are_refused() {
    let mut dst = flat(3, 8, 4);
    let src = ramp(8, 5);
    assert_eq!(dst.add(&src, 0), Err(AudioError::MismatchedSampleRate()));
    assert!(dst.buffer.iter().all(|s| *s == StereoSample { left: 3, right: 3 }));
    assert_eq!(dst.add_samples(&src, 0), Err(AudioError::MismatchedSampleRate()));
}

#[test]
fn adding_twice_adds_the_double() {
    let src = ramp(6, 4);
    let doubled = StereoAudio {
        buffer: src
            .buffer
            .iter()
            .map(|s| StereoSample { left: 2 * s.left, right: 2 * s.right })
            .collect(),
        sample_rate: 4,
    };
    let mut twice = flat(100, 8, 4);
    twice.add(&src, 750_000_000).unwrap();
    twice.add(&src, 750_000_000).unwrap();
    let mut once = flat(100, 8, 4);
    once.add(&doubled, 750_000_000).unwrap();
    assert_eq!(twice.buffer, once.buffer);
}

#[test]
fn sums_saturate() {
    assert_eq!(saturating_sum(i64::MAX, 1), i64::MAX);
    assert_eq!(saturating_sum(i64::MIN, -1), i64::MIN);
    assert_eq!(saturating_sum(-5, 7), 2);
    let a = StereoSample { left: i64::MAX, right: i64::MIN };
    let b = StereoSample { left: 5, right: -5 };
    assert_eq!(a.add(b), StereoSample { left: i64::MAX, right: i64::MIN });
    let mut c = StereoSample { left: 1, right: 2 };
    c.add_assign(StereoSample { left: 10, right: 20 });
    assert_eq!(c, StereoSample { left: 11, right: 22 });
    assert_eq!(StereoSample::silence().add(c), c);
}

#[test]
fn scaling_rounds_toward_zero() {
    assert_eq!(scale(7, 1, 2), 3);
    assert_eq!(scale(-7, 1, 2), -3);
    assert_eq!(scale(i64::MIN, 1, 1), i64::MIN);
    assert_eq!(scale(i64::MAX, 3, 1), i64::MAX);
    assert_eq!(scale(i64::MIN, 3, 1), i64::MIN);
    assert_eq!(scale(UNITY, 500_000, 1_000_000), UNITY / 2);
    let s = StereoSample { left: 9, right: -9 };
    assert_eq!(s.mul(500_000), StereoSample { left: 4, right: -4 });
    assert_eq!(s.scale(2, 3), StereoSample { left: 6, right: -6 });
    let mut m = s;
    m.mul_assign(2_000_000);
    assert_eq!(m, StereoSample { left: 18, right: -18 });
}

#[test]
fn fade_shape() {
    let mut a = flat(UNITY, 480_000, 48_000);
    a.fade(1_000_000_000, 1_000_000_000);
    assert_eq!(a.buffer[0].left, 0);
    assert_eq!(a.buffer[24_000].left, UNITY / 2);
    assert_eq!(a.buffer[48_000].left, UNITY);
    assert_eq!(a.buffer[240_000].left, UNITY);
    // half a second before the end, 23_999 of 48_000 steps remain
    assert_eq!(a.buffer[456_000].left, UNITY * 23_999 / 48_000);
    assert_eq!(a.buffer[479_998].left, UNITY / 48_000);
    assert_eq!(a.buffer[479_999].left, 0);
    assert_eq!(a.buffer[24_000].right, UNITY / 2);
}

#[test]
fn fade_out_goes_by_its_own_length() {
    let mut a = flat(1_000, 20, 10);
    // in over 2 samples, out over 10
    a.fade(200_000_000, 1_000_000_000);
    assert_eq!(a.buffer[0].left, 0);
    assert_eq!(a.buffer[1].left, 500);
    assert_eq!(a.buffer[2].left, 1_000);
    assert_eq!(a.buffer[10].left, 900);
    assert_eq!(a.buffer[15].left, 400);
    assert_eq!(a.buffer[19].left, 0);
}

#[test]
fn fades_longer_than_the_buffer_cover_it() {
    let mut a = flat(1_000, 4, 1);
    a.fade(100_000_000_000, 0);
    assert_eq!(a.fade_length(100_000_000_000), 4);
    let left: Vec<i64> = a.buffer.iter().map(|s| s.left).collect();
    assert_eq!(left, vec![0, 250, 500, 750]);
    let mut b = flat(1_000, 4, 1);
    b.fade(0, 0);
    assert!(b.buffer.iter().all(|s| s.left == 1_000));
    let mut c = flat(1_000, 4, 1);
    c.fade(100_000_000_000, 100_000_000_000);
    let left: Vec<i64> = c.buffer.iter().map(|s| s.left).collect();
    // the two fades overlap: 0 * 3/4, 250 * 2/4, 500 * 1/4, 750 * 0
    assert_eq!(left, vec![0, 125, 125, 0]);
}

#[test]
fn unit_volume_is_the_identity() {
    let mut a = ramp(100, 48_000);
    let before = a.buffer.clone();
    a.attenuate(1_000_000);
    assert_eq!(a.buffer, before);
}

#[test]
fn volume_scales_every_sample() {
    let mut a = flat(UNITY, 5, 48_000);
    a.attenuate(250_000);
    assert!(a.buffer.iter().all(|s| s.left == UNITY / 4 && s.right == UNITY / 4));
    let mut b = ramp(3, 1);
    b.attenuate(3_000_000);
    assert_eq!(b.buffer[2], StereoSample { left: 9, right: -9 });
}

#[test]
fn two_volumes_compose_within_rounding() {
    let mut twice = flat(UNITY, 4, 48_000);
    twice.attenuate(500_000);
    twice.attenuate(300_000);
    let mut once = flat(UNITY, 4, 48_000);
    once.attenuate(150_000);
    for i in 0..4 {
        assert!((twice.buffer[i].left - once.buffer[i].left).abs() <= 1);
    }
}

#[test]
fn length_of_a_buffer() {
    assert_eq!(flat(0, 48_000, 48_000).get_length(), Some(1_000_000_000));
    assert_eq!(flat(0, 1, 3).get_length(), Some(333_333_333));
    assert_eq!(flat(0, 10, 0).get_length(), None);
}
