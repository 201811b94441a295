//! Sound held channel after channel in one flat buffer: mixing, fading
//! and scaling by channel.

use crate::audio::NANOS;
use crate::encode::EncodePlan;
use crate::errors::{AudioGenError, AudioIOError};
use crate::load::{ended, DecodeEvent};
use crate::probe::Probe;
use crate::sample::{clamp, saturating_sum, scale, scaled};
use crate::window::WHOLE;
use vstd::prelude::*;

verus! {

/// Sound of several channels: all samples of the first channel, then all
/// of the second, and so on.
#[derive(Clone, Debug)]
pub struct AudioFile {
    pub buffer: Vec<i64>,
    pub channels: usize,
    pub sample_rate: u32,
}

/// The samples of one channel in a buffer of `len` samples.
pub open spec fn channel_size(len: nat, channels: nat) -> int {
    len as int / channels as int
}

/// Where a channel's share of a mix begins: `offset` samples into
/// channel `ch`.
pub open spec fn mix_base(len: nat, ch: nat, ch_max: nat, offset: nat) -> int {
    offset + ch * channel_size(len, ch_max)
}

/// Where channel `ch` ends.
pub open spec fn mix_end(len: nat, ch: nat, ch_max: nat) -> int {
    (ch + 1) * channel_size(len, ch_max)
}

/// `dst` with the samples of `src` from `src_base` up to `src_end` added
/// to those from `dst_base` up to `dst_end`, as far as both reach.
pub open spec fn channel_mixed(
    dst: Seq<i64>,
    src: Seq<i64>,
    dst_base: int,
    dst_end: int,
    src_base: int,
    src_end: int,
) -> Seq<i64> {
    Seq::new(
        dst.len(),
        |i: int|
            if dst_base <= i < dst_end && src_base + (i - dst_base) < src_end {
                clamp(dst[i] + src[src_base + (i - dst_base)]) as i64
            } else {
                dst[i]
            },
    )
}

/// `audio` with every sample multiplied by `percent` millionths of a percent.
pub open spec fn scaled_audio(audio: Seq<i64>, percent: u64) -> Seq<i64> {
    Seq::new(audio.len(), |i: int| clamp(scaled(audio[i] as int, percent as int, WHOLE as int)) as i64)
}

/// Scales every sample by `scale_by_percent` millionths of a percent.
pub fn scale_audio(audio: &mut Vec<i64>, scale_by_percent: u64)
    ensures
        final(audio)@ == scaled_audio(old(audio)@, scale_by_percent),
{
    let len = audio.len();
    let mut i: usize = 0;
    while i < len
        invariant
            i <= len,
            len == audio@.len(),
            len == old(audio)@.len(),
            forall|j: int|
                0 <= j < len ==> #[trigger] audio@[j] == (if j < i {
                    clamp(scaled(old(audio)@[j] as int, scale_by_percent as int, WHOLE as int)) as i64
                } else {
                    old(audio)@[j]
                }),
        decreases len - i,
    {
        let v = scale(audio[i], scale_by_percent, WHOLE);
        audio[i] = v;
        i += 1;
    }
    assert(audio@ =~= scaled_audio(old(audio)@, scale_by_percent));
}

/// The product of two sizes, exactly.
pub fn size_product(a: usize, b: usize) -> (r: u128)
    ensures
        r == a * b,
{
    assert(0 <= a * b <= 0xffff_ffff_ffff_ffff * 0xffff_ffff_ffff_ffff) by (nonlinear_arith)
        requires
            0 <= a <= 0xffff_ffff_ffff_ffff,
            0 <= b <= 0xffff_ffff_ffff_ffff,
    ;
    (a as u128) * (b as u128)
}

/// What `add_audio_sch` does with its arguments.
pub enum SchCase {
    /// An offset lies beyond its channel: nothing is written.
    Skip,
    /// The destination range does not lie within the destination.
    BadDestination,
    /// The source range does not lie within the source.
    BadSource,
    /// The ranges are mixed.
    Mix,
}

/// Which case the arguments of `add_audio_sch` fall under.
pub open spec fn sch_case(
    dst_len: nat,
    src_len: nat,
    dst_ch: nat,
    src_ch: nat,
    dst_ch_max: nat,
    src_ch_max: nat,
    dst_offset: nat,
    src_offset: nat,
) -> SchCase {
    let dst_base = mix_base(dst_len, dst_ch, dst_ch_max, dst_offset);
    let dst_end = mix_end(dst_len, dst_ch, dst_ch_max);
    let src_base = mix_base(src_len, src_ch, src_ch_max, src_offset);
    let src_end = mix_end(src_len, src_ch, src_ch_max);
    if dst_offset >= channel_size(dst_len, dst_ch_max) || src_offset >= channel_size(
        src_len,
        src_ch_max,
    ) {
        SchCase::Skip
    } else if dst_base > dst_len || dst_end > dst_len {
        SchCase::BadDestination
    } else if src_end < src_base || src_base > src_len || src_end > src_len {
        SchCase::BadSource
    } else {
        SchCase::Mix
    }
}

/// Adds channel `src_ch` of `src`, from `src_offset` on, to channel
/// `dst_ch` of `dst`, from `dst_offset` on. An offset beyond its channel
/// writes nothing; a channel beyond its buffer is an error.
pub fn add_audio_sch(
    dst: &mut Vec<i64>,
    src: &Vec<i64>,
    dst_ch: usize,
    src_ch: usize,
    dst_ch_max: usize,
    src_ch_max: usize,
    dst_offset: usize,
    src_offset: usize,
) -> (r: Result<(), AudioGenError>)
    requires
        dst_ch_max > 0,
        src_ch_max > 0,
        mix_end(old(dst)@.len(), dst_ch as nat, dst_ch_max as nat) <= usize::MAX,
        mix_end(src@.len(), src_ch as nat, src_ch_max as nat) <= usize::MAX,
    ensures
        match sch_case(
            old(dst)@.len(),
            src@.len(),
            dst_ch as nat,
            src_ch as nat,
            dst_ch_max as nat,
            src_ch_max as nat,
            dst_offset as nat,
            src_offset as nat,
        ) {
            SchCase::Skip => r.is_ok() && final(dst)@ == old(dst)@,
            SchCase::BadDestination => final(dst)@ == old(dst)@ && (r matches Err(
                AudioGenError::InvalidBounds(what, base, end, len),
            ) && what@ == "invalid destination bounds"@ && base == mix_base(
                src@.len(),
                src_ch as nat,
                src_ch_max as nat,
                src_offset as nat,
            ) && end == mix_end(src@.len(), src_ch as nat, src_ch_max as nat) && len
                == src@.len()),
            SchCase::BadSource => final(dst)@ == old(dst)@ && (r matches Err(
                AudioGenError::InvalidBounds(what, base, end, len),
            ) && what@ == "invalid source bounds"@ && base == mix_base(
                src@.len(),
                src_ch as nat,
                src_ch_max as nat,
                src_offset as nat,
            ) && end == mix_end(src@.len(), src_ch as nat, src_ch_max as nat) && len
                == src@.len()),
            SchCase::Mix => r.is_ok() && final(dst)@ == channel_mixed(
                old(dst)@,
                src@,
                mix_base(old(dst)@.len(), dst_ch as nat, dst_ch_max as nat, dst_offset as nat),
                mix_end(old(dst)@.len(), dst_ch as nat, dst_ch_max as nat),
                mix_base(src@.len(), src_ch as nat, src_ch_max as nat, src_offset as nat),
                mix_end(src@.len(), src_ch as nat, src_ch_max as nat),
            ),
        },
{
    let dst_channel_size: usize = dst.len() / dst_ch_max;
    let src_channel_size: usize = src.len() / src_ch_max;
    let ghost dst_over = dst_ch * dst_channel_size;
    let ghost src_over = src_ch * src_channel_size;
    assert(0 <= dst_over && (dst_ch + 1) * dst_channel_size == dst_over + dst_channel_size)
        by (nonlinear_arith)
        requires
            dst_over == dst_ch * dst_channel_size,
            0 <= dst_ch,
            0 <= dst_channel_size,
    ;
    assert(0 <= src_over && (src_ch + 1) * src_channel_size == src_over + src_channel_size)
        by (nonlinear_arith)
        requires
            src_over == src_ch * src_channel_size,
            0 <= src_ch,
            0 <= src_channel_size,
    ;
    if dst_offset >= dst_channel_size {
        return Ok(());
    }
    if src_offset >= src_channel_size {
        return Ok(());
    }
    let dst_start: usize = size_product(dst_ch, dst_channel_size) as usize;
    let src_start: usize = size_product(src_ch, src_channel_size) as usize;
    let dst_base: usize = dst_offset + dst_start;
    let dst_end: usize = dst_start + dst_channel_size;
    let src_base: usize = src_offset + src_start;
    let src_end: usize = src_start + src_channel_size;
    if dst_base > dst.len() || dst_end > dst.len() {
        return Err(
            AudioGenError::InvalidBounds(
                "invalid destination bounds".to_owned(),
                src_base,
                src_end,
                src.len(),
            ),
        );
    }
    if src_end < src_base || src_base > src.len() || src_end > src.len() {
        return Err(
            AudioGenError::InvalidBounds(
                "invalid source bounds".to_owned(),
                src_base,
                src_end,
                src.len(),
            ),
        );
    }
    let room = dst_end - dst_base;
    let supply = src_end - src_base;
    let count = if room < supply {
        room
    } else {
        supply
    };
    let len = dst.len();
    let mut i: usize = 0;
    while i < count
        invariant
            i <= count,
            dst_base + count <= dst_end <= len,
            src_base + count <= src_end <= src@.len(),
            count == dst_end - dst_base || count == src_end - src_base,
            len == dst@.len(),
            len == old(dst)@.len(),
            forall|j: int|
                0 <= j < len ==> #[trigger] dst@[j] == (if dst_base <= j < dst_base + i {
                    clamp(old(dst)@[j] + src@[src_base + (j - dst_base)]) as i64
                } else {
                    old(dst)@[j]
                }),
        decreases count - i,
    {
        let v = saturating_sum(dst[dst_base + i], src[src_base + i]);
        dst[dst_base + i] = v;
        i += 1;
    }
    assert(dst@ =~= channel_mixed(
        old(dst)@,
        src@,
        dst_base as int,
        dst_end as int,
        src_base as int,
        src_end as int,
    ));
    Ok(())
}

/// Half a percent, in millionths of a percent.
pub const HALF_PERCENT: u64 = 500_000;

/// What `add_audio_sch` leaves in `dst`: the mix where it mixes, else
/// `dst` as it was.
pub open spec fn sch_result(
    dst: Seq<i64>,
    src: Seq<i64>,
    dst_ch: nat,
    src_ch: nat,
    dst_ch_max: nat,
    src_ch_max: nat,
    dst_offset: nat,
    src_offset: nat,
) -> Seq<i64> {
    match sch_case(
        dst.len(),
        src.len(),
        dst_ch,
        src_ch,
        dst_ch_max,
        src_ch_max,
        dst_offset,
        src_offset,
    ) {
        SchCase::Mix => channel_mixed(
            dst,
            src,
            mix_base(dst.len(), dst_ch, dst_ch_max, dst_offset),
            mix_end(dst.len(), dst_ch, dst_ch_max),
            mix_base(src.len(), src_ch, src_ch_max, src_offset),
            mix_end(src.len(), src_ch, src_ch_max),
        ),
        _ => dst,
    }
}

/// Where in the destination a mix at `offset` nanoseconds begins.
pub open spec fn dst_offset_of(offset: i64, rate: u32) -> nat {
    if offset < 0 {
        0
    } else {
        samples_in(offset as int, rate) as nat
    }
}

/// Where in the source a mix at `offset` nanoseconds begins.
pub open spec fn src_offset_of(offset: i64, rate: u32) -> nat {
    if offset < 0 {
        samples_in(-offset, rate) as nat
    } else {
        0
    }
}

/// What `add_audio` leaves in `dst` where the channel counts are valid.
pub open spec fn audio_added(
    dst: Seq<i64>,
    src: Seq<i64>,
    rate: u32,
    dst_channels: nat,
    src_channels: nat,
    offset: i64,
    lazy_mono: bool,
) -> Seq<i64> {
    let d = dst_offset_of(offset, rate);
    let s = src_offset_of(offset, rate);
    if offset < 0 && s >= channel_size(src.len(), src_channels) {
        dst
    } else {
        let first = sch_result(dst, src, 0, 0, dst_channels, src_channels, d, s);
        if dst_channels == 1 && src_channels >= 2 && !lazy_mono {
            scaled_audio(
                sch_result(first, src, 0, 1, dst_channels, src_channels, d, s),
                HALF_PERCENT,
            )
        } else if dst_channels == 2 && src_channels >= 2 {
            sch_result(first, src, 1, 1, dst_channels, src_channels, d, s)
        } else if dst_channels == 2 && src_channels == 1 {
            sch_result(first, src, 1, 0, dst_channels, src_channels, d, s)
        } else {
            first
        }
    }
}

/// A channel that the buffer has ends within the buffer, so a mix into
/// it is never out of bounds.
pub proof fn lemma_channel_within(len: nat, ch: nat, ch_max: nat, offset: nat)
    requires
        ch < ch_max,
    ensures
        0 <= mix_end(len, ch, ch_max) <= len,
        offset < channel_size(len, ch_max) ==> mix_base(len, ch, ch_max, offset) < mix_end(
            len,
            ch,
            ch_max,
        ),
{
    let size = channel_size(len, ch_max);
    assert(0 <= size && size * ch_max <= len) by (nonlinear_arith)
        requires
            size == len as int / ch_max as int,
            ch_max > 0,
    ;
    assert(0 <= (ch + 1) * size <= size * ch_max) by (nonlinear_arith)
        requires
            0 <= size,
            ch + 1 <= ch_max,
    ;
    assert((ch + 1) * size == ch * size + size) by (nonlinear_arith);
}

/// Mixes `src` into `dst` at `offset_sec` nanoseconds, both held channel
/// after channel. A negative offset cuts off the start of `src`. A
/// destination of one channel takes the first channel of the source,
/// and the second too unless `lazy_mono`, the sum then scaled to half a
/// percent; one of two channels takes the first two of the source, or
/// its only one twice.
pub fn add_audio(
    dst: &mut Vec<i64>,
    src: &Vec<i64>,
    sample_rate: u32,
    dst_channels: usize,
    src_channels: usize,
    offset_sec: i64,
    lazy_mono: bool,
) -> (r: Result<(), AudioGenError>)
    ensures
        dst_channels == 0 || dst_channels > 2 || src_channels == 0 ==> (r matches Err(
            AudioGenError::InvalidChannelCount(),
        )) && final(dst)@ == old(dst)@,
        !(dst_channels == 0 || dst_channels > 2 || src_channels == 0) ==> r.is_ok() && final(dst)@
            == audio_added(
            old(dst)@,
            src@,
            sample_rate,
            dst_channels as nat,
            src_channels as nat,
            offset_sec,
            lazy_mono,
        ),
{
    if dst_channels == 0 || dst_channels > 2 || src_channels == 0 {
        return Err(AudioGenError::InvalidChannelCount());
    }
    let mut dst_offset: usize = 0;
    let mut src_offset: usize = 0;
    if offset_sec < 0 {
        let back: u64 = if offset_sec == i64::MIN {
            0x8000_0000_0000_0000
        } else {
            (-offset_sec) as u64
        };
        src_offset = count_samples(back, sample_rate);
        if src_offset >= src.len() / src_channels {
            return Ok(());
        }
    } else {
        dst_offset = count_samples(offset_sec as u64, sample_rate);
    }
    let ghost d0 = dst@;
    let dst_len = dst.len();
    let src_len = src.len();
    proof {
        lemma_channel_within(dst@.len(), 0, dst_channels as nat, dst_offset as nat);
        lemma_channel_within(src@.len(), 0, src_channels as nat, src_offset as nat);
        if dst_channels == 2 {
            lemma_channel_within(dst@.len(), 1, dst_channels as nat, dst_offset as nat);
        }
        if src_channels >= 2 {
            lemma_channel_within(src@.len(), 1, src_channels as nat, src_offset as nat);
        }
    }
    let first = add_audio_sch(dst, src, 0, 0, dst_channels, src_channels, dst_offset, src_offset);
    if first.is_err() {
        return first;
    }
    assert(dst@ == sch_result(
        d0,
        src@,
        0,
        0,
        dst_channels as nat,
        src_channels as nat,
        dst_offset as nat,
        src_offset as nat,
    ));
    if dst_channels == 1 && src_channels >= 2 && !lazy_mono {
        let second = add_audio_sch(
            dst,
            src,
            0,
            1,
            dst_channels,
            src_channels,
            dst_offset,
            src_offset,
        );
        if second.is_err() {
            return second;
        }
        scale_audio(dst, HALF_PERCENT);
    } else if dst_channels == 2 && src_channels >= 2 {
        let second = add_audio_sch(
            dst,
            src,
            1,
            1,
            dst_channels,
            src_channels,
            dst_offset,
            src_offset,
        );
        if second.is_err() {
            return second;
        }
    } else if dst_channels == 2 && src_channels == 1 {
        let second = add_audio_sch(
            dst,
            src,
            1,
            0,
            dst_channels,
            src_channels,
            dst_offset,
            src_offset,
        );
        if second.is_err() {
            return second;
        }
    }
    Ok(())
}

/// Rounds `number` up to the multiple of `ceiling` above it.
pub fn ceil_n(number: u64, ceiling: u64) -> (r: u128)
    requires
        ceiling > 0,
    ensures
        r == number + ceiling - number % ceiling,
{
    let remainder = number % ceiling;
    number as u128 + ceiling as u128 - remainder as u128
}

/// The length of a sound from what its file tells of it.
pub fn get_length_from_codec(codec: &Probe) -> (r: Option<u64>)
    requires
        codec.wf(),
    ensures
        r == codec.length(),
{
    codec.get_length()
}

/// The number of samples that `time` nanoseconds take at `rate`, rounded
/// down and held to the range of a size.
pub open spec fn samples_in(time: int, rate: u32) -> int {
    let n = time * rate / (NANOS as int);
    if n > usize::MAX {
        usize::MAX as int
    } else {
        n
    }
}

/// The number of samples that `time` nanoseconds take at `rate`.
pub fn count_samples(time: u64, rate: u32) -> (r: usize)
    ensures
        r == samples_in(time as int, rate),
{
    assert(0 <= time * rate <= 0xffff_ffff_ffff_ffff * 0xffff_ffff) by (nonlinear_arith)
        requires
            0 <= time <= 0xffff_ffff_ffff_ffff,
            0 <= rate <= 0xffff_ffff,
    ;
    let n: u128 = (time as u128) * (rate as u128) / (NANOS as u128);
    if n > usize::MAX as u128 {
        usize::MAX
    } else {
        n as usize
    }
}

/// The samples that a fade of `fade_length` nanoseconds covers in a
/// channel of `size` samples.
pub open spec fn fade_count(fade_length: u64, rate: u32, size: int) -> int {
    let n = samples_in(fade_length as int, rate);
    if n < size {
        n
    } else {
        size
    }
}

/// Sample `x` at place `p` of a channel of `size` samples after a fade
/// over `n` samples: at the start the first `n` samples rise from
/// silence; at the end the last `n + 1` fall to it.
pub open spec fn faded_value(x: i64, p: int, size: int, n: int, fade_end: bool) -> i64 {
    if fade_end {
        if size - 1 - p <= n {
            clamp(scaled(x as int, size - 1 - p, n)) as i64
        } else {
            x
        }
    } else {
        if p < n {
            clamp(scaled(x as int, p, n)) as i64
        } else {
            x
        }
    }
}

/// The channel that begins at `start` is faded in `after`.
pub open spec fn channel_faded(
    before: Seq<i64>,
    after: Seq<i64>,
    start: int,
    size: int,
    n: int,
    fade_end: bool,
) -> bool {
    forall|p: int|
        0 <= p < size ==> #[trigger] after[start + p] == faded_value(
            before[start + p],
            p,
            size,
            n,
            fade_end,
        )
}

/// A fade can be applied: there are channels, and a fade at the end is
/// neither empty nor as long as a channel.
pub open spec fn fadeable(len: nat, rate: u32, n_channels: nat, fade_length: u64, fade_end: bool) -> bool {
    &&& n_channels > 0
    &&& fade_end ==> 0 < fade_count(fade_length, rate, channel_size(len, n_channels))
        < channel_size(len, n_channels)
}

/// Channels lie one after the other within the buffer.
pub proof fn lemma_channel_span(len: nat, ch: nat, n_channels: nat)
    requires
        ch < n_channels,
    ensures
        0 <= ch * channel_size(len, n_channels),
        ch * channel_size(len, n_channels) + channel_size(len, n_channels) <= len,
        forall|c: nat|
            c < ch ==> #[trigger] (c * channel_size(len, n_channels)) + channel_size(
                len,
                n_channels,
            ) <= ch * channel_size(len, n_channels),
{
    let size = channel_size(len, n_channels);
    lemma_channel_within(len, ch, n_channels, 0);
    assert((ch + 1) * size == ch * size + size) by (nonlinear_arith);
    assert(0 <= size && 0 <= ch * size) by (nonlinear_arith)
        requires
            size == len as int / n_channels as int,
            n_channels > 0,
            0 <= ch,
    ;
    assert forall|c: nat| c < ch implies #[trigger] (c * size) + size <= ch * size by {
        assert(c * size + size <= ch * size) by (nonlinear_arith)
            requires
                c + 1 <= ch,
                0 <= size,
        ;
    }
}

/// Fades one channel of a buffer held channel after channel: in from
/// its start, or out to its end.
pub fn fade_audio_sch(
    audio: &mut Vec<i64>,
    sample_rate: u32,
    channel: usize,
    n_channels: usize,
    fade_length: u64,
    fade_end: bool,
)
    requires
        channel < n_channels,
        fadeable(old(audio)@.len(), sample_rate, n_channels as nat, fade_length, fade_end),
    ensures
        final(audio)@.len() == old(audio)@.len(),
        ({
            let size = channel_size(old(audio)@.len(), n_channels as nat);
            let n = fade_count(fade_length, sample_rate, size);
            &&& channel_faded(old(audio)@, final(audio)@, channel * size, size, n, fade_end)
            &&& forall|j: int|
                0 <= j < old(audio)@.len() && !(channel * size <= j < channel * size + size)
                    ==> #[trigger] final(audio)@[j] == old(audio)@[j]
        }),
{
    let len = audio.len();
    let channel_size: usize = len / n_channels;
    let wanted = count_samples(fade_length, sample_rate);
    let fade_n_samples: usize = if wanted < channel_size {
        wanted
    } else {
        channel_size
    };
    proof {
        lemma_channel_span(len as nat, channel as nat, n_channels as nat);
    }
    let start: usize = size_product(channel, channel_size) as usize;
    let steps: usize = if fade_end {
        fade_n_samples + 1
    } else {
        fade_n_samples
    };
    let mut i: usize = 0;
    while i < steps
        invariant
            i <= steps <= channel_size,
            start + channel_size <= len,
            len == audio@.len(),
            len == old(audio)@.len(),
            fade_end ==> steps == fade_n_samples + 1 && fade_n_samples > 0,
            !fade_end ==> steps == fade_n_samples,
            forall|p: int|
                0 <= p < channel_size ==> #[trigger] audio@[start + p] == (if (if fade_end {
                    channel_size - 1 - p < i
                } else {
                    p < i
                }) {
                    faded_value(
                        old(audio)@[start + p],
                        p,
                        channel_size as int,
                        fade_n_samples as int,
                        fade_end,
                    )
                } else {
                    old(audio)@[start + p]
                }),
            forall|j: int|
                0 <= j < len && !(start <= j < start + channel_size) ==> #[trigger] audio@[j]
                    == old(audio)@[j],
        decreases steps - i,
    {
        let at: usize = if fade_end {
            start + (channel_size - 1 - i)
        } else {
            start + i
        };
        let ghost p = at - start;
        assert(audio@[start + p] == old(audio)@[start + p]);
        let v = scale(audio[at], i as u64, fade_n_samples as u64);
        let ghost prev = audio@;
        audio[at] = v;
        proof {
            assert forall|q: int| 0 <= q < channel_size implies #[trigger] audio@[start + q] == (if (
            if fade_end {
                channel_size - 1 - q < i + 1
            } else {
                q < i + 1
            }) {
                faded_value(
                    old(audio)@[start + q],
                    q,
                    channel_size as int,
                    fade_n_samples as int,
                    fade_end,
                )
            } else {
                old(audio)@[start + q]
            }) by {
                if q != p {
                    assert(audio@[start + q] == prev[start + q]);
                }
            }
        }
        i += 1;
    }
}

/// Fades every channel of a buffer held channel after channel: in from
/// the start, or out to the end.
pub fn fade_audio(
    audio: &mut Vec<i64>,
    sample_rate: u32,
    n_channels: usize,
    fade_length: u64,
    fade_end: bool,
)
    requires
        fadeable(old(audio)@.len(), sample_rate, n_channels as nat, fade_length, fade_end),
    ensures
        final(audio)@.len() == old(audio)@.len(),
        ({
            let size = channel_size(old(audio)@.len(), n_channels as nat);
            let n = fade_count(fade_length, sample_rate, size);
            &&& forall|c: nat|
                c < n_channels ==> channel_faded(
                    old(audio)@,
                    final(audio)@,
                    #[trigger] (c * size),
                    size,
                    n,
                    fade_end,
                )
            &&& forall|j: int|
                n_channels * size <= j < old(audio)@.len() ==> #[trigger] final(audio)@[j] == old(audio)@[j]
        }),
{
    let ghost size = channel_size(audio@.len(), n_channels as nat);
    let ghost n = fade_count(fade_length, sample_rate, size);
    let mut ch: usize = 0;
    while ch < n_channels
        invariant
            ch <= n_channels,
            audio@.len() == old(audio)@.len(),
            size == channel_size(old(audio)@.len(), n_channels as nat),
            n == fade_count(fade_length, sample_rate, size),
            fadeable(old(audio)@.len(), sample_rate, n_channels as nat, fade_length, fade_end),
            forall|c: nat|
                c < ch ==> channel_faded(
                    old(audio)@,
                    audio@,
                    #[trigger] (c * size),
                    size,
                    n,
                    fade_end,
                ),
            forall|j: int|
                ch * size <= j < old(audio)@.len() ==> #[trigger] audio@[j] == old(audio)@[j],
        decreases n_channels - ch,
    {
        let ghost prev = audio@;
        proof {
            lemma_channel_span(audio@.len(), ch as nat, n_channels as nat);
        }
        fade_audio_sch(audio, sample_rate, ch, n_channels, fade_length, fade_end);
        proof {
            assert forall|c: nat| c < ch + 1 implies channel_faded(
                old(audio)@,
                audio@,
                #[trigger] (c * size),
                size,
                n,
                fade_end,
            ) by {
                if c < ch {
                    assert(channel_faded(old(audio)@, prev, c * size, size, n, fade_end));
                    assert(c * size + size <= ch * size);
                    assert forall|p: int| 0 <= p < size implies #[trigger] audio@[c * size + p]
                        == faded_value(old(audio)@[c * size + p], p, size, n, fade_end) by {
                        assert(audio@[c * size + p] == prev[c * size + p]);
                    }
                } else {
                    assert forall|p: int| 0 <= p < size implies #[trigger] audio@[ch * size + p]
                        == faded_value(old(audio)@[ch * size + p], p, size, n, fade_end) by {
                        assert(prev[ch * size + p] == old(audio)@[ch * size + p]);
                    }
                }
            }
            assert((ch + 1) * size == ch * size + size) by (nonlinear_arith);
        }
        ch += 1;
    }
}

/// The samples of channel `ch` in a packet held channel after channel.
pub open spec fn channel_part(samples: Seq<i64>, channels: nat, ch: nat) -> Seq<i64> {
    let size = channel_size(samples.len(), channels);
    samples.subrange(ch * size, ch * size + size)
}

/// Channel `ch` of the first `k` events: its part of every decoded
/// packet before the stream's end, one after the other.
pub open spec fn channel_gathered(
    events: Seq<DecodeEvent>,
    channels: nat,
    ch: nat,
    k: nat,
) -> Seq<i64>
    decreases k,
{
    if k == 0 {
        Seq::empty()
    } else {
        let before = channel_gathered(events, channels, ch, (k - 1) as nat);
        if ended(events, (k - 1) as nat) {
            before
        } else {
            match events[k - 1] {
                DecodeEvent::Samples(v) => before + channel_part(v@, channels, ch),
                _ => before,
            }
        }
    }
}

/// The first `c` channels of a file, each whole, one after the other.
pub open spec fn channels_joined(events: Seq<DecodeEvent>, channels: nat, c: nat) -> Seq<i64>
    decreases c,
{
    if c == 0 {
        Seq::empty()
    } else {
        channels_joined(events, channels, (c - 1) as nat) + channel_gathered(
            events,
            channels,
            (c - 1) as nat,
            events.len(),
        )
    }
}

/// Appends channel `ch` of a packet held channel after channel.
pub fn append_part(out: &mut Vec<i64>, samples: &Vec<i64>, channels: usize, ch: usize)
    requires
        ch < channels,
    ensures
        final(out)@ == old(out)@ + channel_part(samples@, channels as nat, ch as nat),
{
    let len = samples.len();
    let size: usize = len / channels;
    proof {
        lemma_channel_span(len as nat, ch as nat, channels as nat);
    }
    let start: usize = size_product(ch, size) as usize;
    let mut i: usize = 0;
    while i < size
        invariant
            i <= size,
            start + size <= len,
            len == samples@.len(),
            out@ == old(out)@ + samples@.subrange(start as int, start + i),
        decreases size - i,
    {
        let ghost before = out@;
        out.push(samples[start + i]);
        assert(out@ =~= old(out)@ + samples@.subrange(start as int, start + i + 1));
        i += 1;
    }
}

/// Reads the sound of a file, channel after channel, from what became
/// of its packets, each packet held channel after channel: decoded
/// packets are taken, others passed over, and nothing is read past the
/// end of the stream. The file has to tell its channel count and its
/// sample rate.
pub fn read_wav(codec: &Probe, events: &Vec<DecodeEvent>) -> (r: Result<AudioFile, AudioIOError>)
    requires
        codec.wf(),
    ensures
        codec.channels.is_none() ==> (r matches Err(AudioIOError::MissingInfo(what)) && what@
            == "channel info"@),
        codec.channels.is_some() && codec.sample_rate.is_none() ==> (r matches Err(
            AudioIOError::MissingInfo(what),
        ) && what@ == "sample rate"@),
        codec.channels.is_some() && codec.sample_rate.is_some() ==> (r matches Ok(file)
            && file.channels == codec.channels.unwrap() && file.sample_rate
            == codec.sample_rate.unwrap() && file.buffer@ == channels_joined(
            events@,
            file.channels as nat,
            file.channels as nat,
        )),
{
    let channels = match codec.channels {
        Some(c) => c as usize,
        None => {
            return Err(AudioIOError::MissingInfo("channel info".to_owned()));
        },
    };
    let n = events.len();
    let mut buffer: Vec<i64> = Vec::new();
    let mut ch: usize = 0;
    while ch < channels
        invariant
            ch <= channels,
            n == events@.len(),
            buffer@ == channels_joined(events@, channels as nat, ch as nat),
        decreases channels - ch,
    {
        let ghost joined = buffer@;
        let mut over = false;
        let mut k: usize = 0;
        while k < n
            invariant
                k <= n,
                ch < channels,
                n == events@.len(),
                over == ended(events@, k as nat),
                buffer@ == joined + channel_gathered(events@, channels as nat, ch as nat, k as nat),
            decreases n - k,
        {
            if !over {
                match &events[k] {
                    DecodeEvent::Samples(v) => {
                        let ghost before = buffer@;
                        append_part(&mut buffer, v, channels, ch);
                        assert(buffer@ =~= joined + channel_gathered(
                            events@,
                            channels as nat,
                            ch as nat,
                            (k + 1) as nat,
                        ));
                    },
                    DecodeEvent::End => {
                        over = true;
                    },
                    _ => {},
                }
            }
            k += 1;
        }
        ch += 1;
    }
    let sample_rate = match codec.sample_rate {
        Some(rate) => rate,
        None => {
            return Err(AudioIOError::MissingInfo("sample rate".to_owned()));
        },
    };
    Ok(AudioFile { buffer, channels, sample_rate })
}

/// Block `b` of a buffer held channel after channel: for each channel
/// its `step` samples from `b * step` on.
pub open spec fn is_planar_block(
    block: Seq<Vec<i64>>,
    raw: Seq<i64>,
    channels: nat,
    step: nat,
    b: int,
) -> bool {
    &&& block.len() == channels
    &&& forall|c: int| 0 <= c < block.len() ==> (#[trigger] block[c])@.len() == step
    &&& forall|c: int, i: int|
        0 <= c < block.len() && 0 <= i < step ==> (#[trigger] block[c]@[i]) == raw[c
            * channel_size(raw.len(), channels) + b * step + i]
}

/// A block of `step` samples ends within a channel that holds `blocks`
/// whole blocks and more.
pub proof fn lemma_block_within(size: int, step: int, b: int)
    requires
        step > 0,
        0 <= b < size / step,
    ensures
        0 <= b * step,
        b * step + step <= size,
{
    assert(0 <= b * step && b * step + step <= size) by (nonlinear_arith)
        requires
            step > 0,
            0 <= b,
            b + 1 <= size / step,
    ;
}

/// Prepares a buffer held channel after channel for an encoder that
/// takes `encoding_step_size` samples of each channel at a time: the
/// whole blocks in order; what is left over at the end is not encoded.
pub fn encode_vorbis(
    raw_buffer: &Vec<i64>,
    channels: usize,
    sample_rate: u32,
    encoding_step_size: usize,
) -> (r: EncodePlan)
    requires
        1 <= channels <= u8::MAX,
        sample_rate > 0,
        encoding_step_size > 0,
    ensures
        r.sample_rate == sample_rate,
        r.channels == channels,
        r.blocks@.len() == channel_size(raw_buffer@.len(), channels as nat) / (
        encoding_step_size as int),
        forall|b: int|
            0 <= b < r.blocks@.len() ==> is_planar_block(
                (#[trigger] r.blocks@[b])@,
                raw_buffer@,
                channels as nat,
                encoding_step_size as nat,
                b,
            ),
{
    let len = raw_buffer.len();
    let size: usize = len / channels;
    let total: usize = size / encoding_step_size;
    let mut blocks: Vec<Vec<Vec<i64>>> = Vec::new();
    let mut b: usize = 0;
    while b < total
        invariant
            b <= total,
            1 <= channels,
            encoding_step_size > 0,
            len == raw_buffer@.len(),
            size == channel_size(len as nat, channels as nat),
            total == size as int / encoding_step_size as int,
            blocks@.len() == b,
            forall|k: int|
                0 <= k < b ==> is_planar_block(
                    (#[trigger] blocks@[k])@,
                    raw_buffer@,
                    channels as nat,
                    encoding_step_size as nat,
                    k,
                ),
        decreases total - b,
    {
        proof {
            lemma_block_within(size as int, encoding_step_size as int, b as int);
        }
        let offset: usize = size_product(b, encoding_step_size) as usize;
        let mut block: Vec<Vec<i64>> = Vec::new();
        let mut c: usize = 0;
        while c < channels
            invariant
                c <= channels,
                encoding_step_size > 0,
                len == raw_buffer@.len(),
                size == channel_size(len as nat, channels as nat),
                offset == b * encoding_step_size,
                offset + encoding_step_size <= size,
                block@.len() == c,
                forall|d: int| 0 <= d < c ==> (#[trigger] block@[d])@.len() == encoding_step_size,
                forall|d: int, i: int|
                    0 <= d < c && 0 <= i < encoding_step_size ==> (#[trigger] block@[d]@[i])
                        == raw_buffer@[d * size + offset + i],
            decreases channels - c,
        {
            proof {
                lemma_channel_span(len as nat, c as nat, channels as nat);
            }
            let start: usize = size_product(c, size) as usize + offset;
            let mut part: Vec<i64> = Vec::new();
            let mut i: usize = 0;
            while i < encoding_step_size
                invariant
                    i <= encoding_step_size,
                    len == raw_buffer@.len(),
                    start + encoding_step_size <= len,
                    part@.len() == i,
                    forall|j: int| 0 <= j < i ==> part@[j] == raw_buffer@[start + j],
                decreases encoding_step_size - i,
            {
                part.push(raw_buffer[start + i]);
                i += 1;
            }
            let ghost before = block@;
            block.push(part);
            assert forall|d: int, i: int|
                0 <= d < c + 1 && 0 <= i < encoding_step_size implies (#[trigger] block@[d]@[i])
                == raw_buffer@[d * size + offset + i] by {
                if d < c {
                    assert(block@[d] == before[d]);
                }
            }
            assert forall|d: int| 0 <= d < c + 1 implies (#[trigger] block@[d])@.len()
                == encoding_step_size by {
                if d < c {
                    assert(block@[d] == before[d]);
                }
            }
            c += 1;
        }
        blocks.push(block);
        b += 1;
    }
    EncodePlan { sample_rate, channels: channels as u8, blocks }
}

} // verus!
