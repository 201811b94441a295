//! Cutting a buffer into the blocks that an encoder takes.

use crate::audio::StereoAudio;
use crate::errors::AudioError;
use crate::sample::{scaled, StereoSample};
use vstd::prelude::*;

verus! {

/// The number of samples that an encoder takes at a time.
pub const ENCODING_CHUNK_SIZE: usize = 1024;

/// What an encoder is to be given: its settings, and the sound in blocks
/// of `ENCODING_CHUNK_SIZE` samples for each channel.
#[derive(Clone, Debug)]
pub struct EncodePlan {
    pub sample_rate: u32,
    pub channels: u8,
    pub blocks: Vec<Vec<Vec<i64>>>,
}

/// Sample `i` of `buf`, or silence beyond its end.
pub open spec fn padded_at(buf: Seq<StereoSample>, i: int) -> StereoSample {
    if 0 <= i < buf.len() {
        buf[i]
    } else {
        StereoSample::zero()
    }
}

/// The blocks that `len` samples fill, the last one padded.
pub open spec fn block_count(len: nat) -> nat {
    (len + ENCODING_CHUNK_SIZE - 1) as nat / (ENCODING_CHUNK_SIZE as nat)
}

/// One channel in mono, two in stereo.
pub open spec fn channel_total(mono: bool) -> nat {
    if mono {
        1
    } else {
        2
    }
}

/// What channel `c` carries of sample `s`: in mono the mean of both
/// sides, rounded toward zero; in stereo the left side first.
pub open spec fn channel_value(s: StereoSample, mono: bool, c: int) -> i64 {
    if mono {
        scaled(s.left + s.right, 1, 2) as i64
    } else if c == 0 {
        s.left
    } else {
        s.right
    }
}

/// `block` is block `index` of `buf`: every channel holds its share of
/// `ENCODING_CHUNK_SIZE` samples from `index * ENCODING_CHUNK_SIZE` on.
pub open spec fn is_block(
    block: Seq<Vec<i64>>,
    buf: Seq<StereoSample>,
    index: int,
    mono: bool,
) -> bool {
    &&& block.len() == channel_total(mono)
    &&& forall|c: int|
        0 <= c < block.len() ==> (#[trigger] block[c])@.len() == ENCODING_CHUNK_SIZE
    &&& forall|c: int, i: int|
        0 <= c < block.len() && 0 <= i < ENCODING_CHUNK_SIZE ==> (#[trigger] block[c]@[i])
            == channel_value(padded_at(buf, index * ENCODING_CHUNK_SIZE + i), mono, c)
}

impl EncodePlan {
    /// The plan hands `buf` to an encoder at `rate`: the rate and the
    /// channel count are set, and the blocks are those of `buf` in order.
    pub open spec fn describes(self, buf: Seq<StereoSample>, rate: u32, mono: bool) -> bool {
        &&& self.sample_rate == rate
        &&& self.channels == channel_total(mono)
        &&& self.blocks@.len() == block_count(buf.len())
        &&& forall|b: int|
            0 <= b < self.blocks@.len() ==> is_block((#[trigger] self.blocks@[b])@, buf, b, mono)
    }
}

/// The mean of two sample values, rounded toward zero.
pub fn mean(left: i64, right: i64) -> (r: i64)
    ensures
        r == scaled(left + right, 1, 2),
{
    let sum: i128 = left as i128 + right as i128;
    if sum >= 0 {
        (sum / 2) as i64
    } else {
        (-((-sum) / 2)) as i64
    }
}

impl StereoAudio {
    /// The number of blocks that this buffer fills.
    pub fn block_total(&self) -> (r: usize)
        ensures
            r == block_count(self.buffer@.len()),
    {
        let len = self.buffer.len();
        if len % ENCODING_CHUNK_SIZE == 0 {
            len / ENCODING_CHUNK_SIZE
        } else {
            len / ENCODING_CHUNK_SIZE + 1
        }
    }

    /// One channel of block `index`.
    fn encode_channel(&self, index: usize, mono: bool, c: usize) -> (r: Vec<i64>)
        requires
            index < block_count(self.buffer@.len()),
            c < 2,
        ensures
            r@.len() == ENCODING_CHUNK_SIZE,
            forall|i: int|
                0 <= i < ENCODING_CHUNK_SIZE ==> #[trigger] r@[i] == channel_value(
                    padded_at(self.buffer@, index * ENCODING_CHUNK_SIZE + i),
                    mono,
                    c as int,
                ),
    {
        let len = self.buffer.len();
        let base = index * ENCODING_CHUNK_SIZE;
        let mut out: Vec<i64> = Vec::new();
        let mut i: usize = 0;
        while i < ENCODING_CHUNK_SIZE
            invariant
                i <= ENCODING_CHUNK_SIZE,
                len == self.buffer@.len(),
                base == index * ENCODING_CHUNK_SIZE,
                base < len,
                c < 2,
                out@.len() == i,
                forall|j: int|
                    0 <= j < i ==> #[trigger] out@[j] == channel_value(
                        padded_at(self.buffer@, base + j),
                        mono,
                        c as int,
                    ),
            decreases ENCODING_CHUNK_SIZE - i,
        {
            let s = if i < len - base {
                self.buffer[base + i]
            } else {
                StereoSample::silence()
            };
            let v = if mono {
                mean(s.left, s.right)
            } else if c == 0 {
                s.left
            } else {
                s.right
            };
            out.push(v);
            i += 1;
        }
        out
    }

    /// Block `index` of this buffer, channel by channel.
    pub fn encode_block(&self, index: usize, mono: bool) -> (r: Vec<Vec<i64>>)
        requires
            index < block_count(self.buffer@.len()),
        ensures
            is_block(r@, self.buffer@, index as int, mono),
    {
        let mut block: Vec<Vec<i64>> = Vec::new();
        block.push(self.encode_channel(index, mono, 0));
        if !mono {
            block.push(self.encode_channel(index, mono, 1));
        }
        block
    }

    /// Prepares this buffer for an encoder: one channel if `mono`, else
    /// two; the sample rate of the buffer, which must not be zero; the sound
    /// padded with silence to whole blocks. In mono a sample is the mean
    /// of its two sides.
    pub fn encode(&self, mono: bool) -> (r: Result<EncodePlan, AudioError>)
        ensures
            self.sample_rate == 0 ==> r == Err::<EncodePlan, AudioError>(
                AudioError::InvalidCodecInfo(),
            ),
            self.sample_rate != 0 ==> r.is_ok(),
            r matches Ok(plan) ==> plan.describes(self.buffer@, self.sample_rate, mono),
    {
        if self.sample_rate == 0 {
            return Err(AudioError::InvalidCodecInfo());
        }
        let total = self.block_total();
        let mut blocks: Vec<Vec<Vec<i64>>> = Vec::new();
        let mut b: usize = 0;
        while b < total
            invariant
                b <= total,
                total == block_count(self.buffer@.len()),
                blocks@.len() == b,
                forall|k: int|
                    0 <= k < b ==> is_block((#[trigger] blocks@[k])@, self.buffer@, k, mono),
            decreases total - b,
        {
            blocks.push(self.encode_block(b, mono));
            b += 1;
        }
        Ok(
            EncodePlan {
                sample_rate: self.sample_rate,
                channels: if mono {
                    1
                } else {
                    2
                },
                blocks,
            },
        )
    }
}

} // verus!
