use bms_preview::audio::StereoAudio;
use bms_preview::encode::{mean, ENCODING_CHUNK_SIZE};
use bms_preview::errors::AudioError;
use bms_preview::sample::{StereoSample, UNITY};

fn sided(left: i64, right: i64, len: usize, rate: u32) -> StereoAudio {
    StereoAudio { buffer: vec![StereoSample { left, right }; len], sample_rate: rate }
}

#[test]
fn mono_down_mix() {
    let a = sided(UNITY, -UNITY, 3_000, 48_000);
    let plan = a.encode(true).unwrap();
    assert_eq!(plan.channels, 1);
    assert_eq!(plan.sample_rate, 48_000);
    assert_eq!(plan.blocks.len(), 3);
    for block in &plan.blocks {
        assert_eq!(block.len(), 1);
        assert_eq!(block[0].len(), ENCODING_CHUNK_SIZE);
        assert!(block[0].iter().all(|v| *v == 0));
    }
}

#[test]
fn stereo_blocks_keep_both_sides_and_pad_with_silence() {
    let a = sided(7, -9, 1_030, 44_100);
    let plan = a.encode(false).unwrap();
    assert_eq!(plan.channels, 2);
    assert_eq!(plan.sample_rate, 44_100);
    assert_eq!(plan.blocks.len(), 2);
    assert!(plan.blocks[0][0].iter().all(|v| *v == 7));
    assert!(plan.blocks[0][1].iter().all(|v| *v == -9));
    assert_eq!(plan.blocks[1][0].len(), 1_024);
    assert_eq!(plan.blocks[1][0][5], 7);
    assert_eq!(plan.blocks[1][1][5], -9);
    assert_eq!(plan.blocks[1][0][6], 0);
    assert_eq!(plan.blocks[1][1][1_023], 0);
}

#[test]
fn whole_blocks_need_no_padding() {
    let a = sided(1, 1, 2_048, 8_000);
    assert_eq!(a.block_total(), 2);
    assert_eq!(sided(1, 1, 0, 8_000).block_total(), 0);
    assert_eq!(sided(1, 1, 1, 8_000).block_total(), 1);
    let block = a.encode_block(1, false);
    assert_eq!(block.len(), 2);
    assert!(block[0].iter().all(|v| *v == 1));
}

#[test]
fn a_buffer_without_rate_is_not_encoded() {
    let a = sided(1, 1, 10, 0);
    assert_eq!(a.encode(false).err(), Some(AudioError::InvalidCodecInfo()));
    assert_eq!(a.encode(true).err(), Some(AudioError::InvalidCodecInfo()));
}

#[test]
fn mean_rounds_toward_zero() {
    assert_eq!(mean(3, 4), 3);
    assert_eq!(mean(-3, -4), -3);
    assert_eq!(mean(i64::MAX, i64::MAX), i64::MAX);
    assert_eq!(mean(i64::MIN, i64::MIN), i64::MIN);
    assert_eq!(mean(i64::MIN, i64::MAX), 0);
    assert_eq!(mean(10, -4), 3);
}
