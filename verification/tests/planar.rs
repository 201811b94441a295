use bms_preview::errors::{AudioGenError, AudioIOError};
use bms_preview::load::DecodeEvent;
use bms_preview::planar::{
    add_audio, add_audio_sch, ceil_n, count_samples, encode_vorbis, fade_audio, fade_audio_sch,
    get_length_from_codec, read_wav, scale_audio,
};
use bms_preview::probe::{Probe, TimeBase};

#[test]
fn scaling_by_percent() {
    let mut a = vec![1_000, -1_000, 7];
    scale_audio(&mut a, 50_000_000);
    assert_eq!(a, vec![500, -500, 3]);
    scale_audio(&mut a, 100_000_000);
    assert_eq!(a, vec![500, -500, 3]);
    scale_audio(&mut a, 200_000_000);
    assert_eq!(a, vec![1_000, -1_000, 6]);
}

#[test]
fn one_channel_is_added_to_another() {
    // two channels of four samples each
    let mut dst = vec![0, 0, 0, 0, 10, 10, 10, 10];
    let src = vec![1, 2, 3, 4, 5, 6, 7, 8];
    assert_eq!(add_audio_sch(&mut dst, &src, 1, 0, 2, 2, 1, 2), Ok(()));
    assert_eq!(dst, vec![0, 0, 0, 0, 10, 13, 14, 10]);
    assert_eq!(add_audio_sch(&mut dst, &src, 0, 1, 2, 2, 0, 0), Ok(()));
    assert_eq!(dst, vec![5, 6, 7, 8, 10, 13, 14, 10]);
}

#[test]
fn offsets_beyond_a_channel_write_nothing() {
    let mut dst = vec![0, 0, 0, 0];
    let src = vec![1, 2, 3, 4];
    assert_eq!(add_audio_sch(&mut dst, &src, 0, 0, 2, 2, 2, 0), Ok(()));
    assert_eq!(add_audio_sch(&mut dst, &src, 0, 0, 2, 2, 0, 2), Ok(()));
    assert_eq!(dst, vec![0, 0, 0, 0]);
}

#[test]
fn channels_beyond_a_buffer_are_out_of_bounds() {
    let mut dst = vec![0, 0, 0, 0];
    let src = vec![1, 2, 3, 4];
    assert_eq!(
        add_audio_sch(&mut dst, &src, 2, 0, 2, 2, 0, 1),
        Err(AudioGenError::InvalidBounds("invalid destination bounds".to_string(), 1, 2, 4))
    );
    assert_eq!(
        add_audio_sch(&mut dst, &src, 0, 2, 2, 2, 0, 1),
        Err(AudioGenError::InvalidBounds("invalid source bounds".to_string(), 5, 6, 4))
    );
    assert_eq!(dst, vec![0, 0, 0, 0]);
}

#[test]
fn stereo_into_stereo() {
    let mut dst = vec![0; 8];
    let src = vec![1, 2, 3, 4, -1, -2, -3, -4];
    // one second at 2 Hz: two samples in
    assert_eq!(add_audio(&mut dst, &src, 2, 2, 2, 1_000_000_000, false), Ok(()));
    assert_eq!(dst, vec![0, 0, 1, 2, 0, 0, -1, -2]);
    let mut cut = vec![0; 8];
    assert_eq!(add_audio(&mut cut, &src, 2, 2, 2, -500_000_000, false), Ok(()));
    assert_eq!(cut, vec![2, 3, 4, 0, -2, -3, -4, 0]);
    let mut gone = vec![0; 8];
    assert_eq!(add_audio(&mut gone, &src, 2, 2, 2, -2_000_000_000, false), Ok(()));
    assert_eq!(gone, vec![0; 8]);
}

#[test]
fn mono_into_stereo_and_stereo_into_mono() {
    let mut dst = vec![0; 4];
    assert_eq!(add_audio(&mut dst, &vec![7, 8], 1, 2, 1, 0, false), Ok(()));
    assert_eq!(dst, vec![7, 8, 7, 8]);
    let src = vec![1_000, 2_000, 3_000, 4_000];
    let mut lazy = vec![0; 2];
    assert_eq!(add_audio(&mut lazy, &src, 1, 1, 2, 0, true), Ok(()));
    assert_eq!(lazy, vec![1_000, 2_000]);
    let mut both = vec![0; 2];
    assert_eq!(add_audio(&mut both, &src, 1, 1, 2, 0, false), Ok(()));
    // both channels summed, then scaled to half a percent
    assert_eq!(both, vec![20, 30]);
}

#[test]
fn channel_counts_are_checked() {
    let mut dst = vec![0; 4];
    let src = vec![1; 4];
    for (d, s) in [(0, 1), (3, 1), (1, 0)] {
        assert_eq!(
            add_audio(&mut dst, &src, 1, d, s, 0, false),
            Err(AudioGenError::InvalidChannelCount())
        );
    }
    assert_eq!(dst, vec![0; 4]);
}

#[test]
fn fades_by_channel() {
    let mut a = vec![100; 12];
    // two channels of six; half a second at 8 Hz covers four samples
    fade_audio_sch(&mut a, 8, 1, 2, 500_000_000, false);
    assert_eq!(a, vec![100, 100, 100, 100, 100, 100, 0, 25, 50, 75, 100, 100]);
    fade_audio_sch(&mut a, 8, 0, 2, 500_000_000, true);
    assert_eq!(a, vec![100, 100, 75, 50, 25, 0, 0, 25, 50, 75, 100, 100]);
    let mut b = vec![100; 13];
    fade_audio(&mut b, 8, 2, 250_000_000, false);
    assert_eq!(b, vec![0, 50, 100, 100, 100, 100, 0, 50, 100, 100, 100, 100, 100]);
    fade_audio(&mut b, 8, 2, 250_000_000, true);
    assert_eq!(b, vec![0, 50, 100, 100, 50, 0, 0, 50, 100, 100, 50, 0, 100]);
}

#[test]
fn rounding_up_to_a_multiple() {
    assert_eq!(ceil_n(1_000, 1_024), 1_024);
    assert_eq!(ceil_n(1_025, 1_024), 2_048);
    // a multiple goes up to the next one
    assert_eq!(ceil_n(2_048, 1_024), 3_072);
    assert_eq!(ceil_n(u64::MAX, u64::MAX), 2 * (u64::MAX as u128));
    assert_eq!(count_samples(1_500_000_000, 48_000), 72_000);
    assert_eq!(count_samples(u64::MAX, u32::MAX), usize::MAX);
}

#[test]
fn length_from_codec() {
    let p = Probe::new(Some(2), Some(8_000), Some(2_000), Some(TimeBase { numer: 1, denom: 8_000 }));
    assert_eq!(get_length_from_codec(&p), Some(250_000_000));
    assert_eq!(get_length_from_codec(&Probe::new(Some(2), Some(8_000), None, None)), None);
}

#[test]
fn a_file_is_read_channel_after_channel() {
    let p = Probe::new(Some(2), Some(8_000), None, None);
    let events = vec![
        DecodeEvent::Samples(vec![1, 2, 3, -1, -2, -3]),
        DecodeEvent::DecodeError,
        DecodeEvent::OtherTrack,
        DecodeEvent::Samples(vec![4, -4]),
        DecodeEvent::End,
        DecodeEvent::Samples(vec![5, -5]),
    ];
    let file = read_wav(&p, &events).unwrap();
    assert_eq!(file.channels, 2);
    assert_eq!(file.sample_rate, 8_000);
    assert_eq!(file.buffer, vec![1, 2, 3, 4, -1, -2, -3, -4]);
}

#[test]
fn a_file_has_to_tell_channels_and_rate() {
    let events = vec![DecodeEvent::Samples(vec![1, 2])];
    assert_eq!(
        read_wav(&Probe::new(None, None, None, None), &events).err(),
        Some(AudioIOError::MissingInfo("channel info".to_string()))
    );
    assert_eq!(
        read_wav(&Probe::new(Some(1), None, None, None), &events).err(),
        Some(AudioIOError::MissingInfo("sample rate".to_string()))
    );
}

#[test]
fn whole_blocks_of_each_channel_are_encoded() {
    // two channels of five samples, in steps of two
    let raw = vec![1, 2, 3, 4, 5, -1, -2, -3, -4, -5, 99];
    let plan = encode_vorbis(&raw, 2, 44_100, 2);
    assert_eq!(plan.sample_rate, 44_100);
    assert_eq!(plan.channels, 2);
    assert_eq!(plan.blocks, vec![vec![vec![1, 2], vec![-1, -2]], vec![vec![3, 4], vec![-3, -4]]]);
    assert_eq!(encode_vorbis(&raw, 3, 8_000, 4).blocks.len(), 0);
    assert_eq!(encode_vorbis(&raw, 1, 8_000, 11).blocks, vec![vec![raw.clone()]]);
}
