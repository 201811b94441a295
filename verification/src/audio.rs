//! The stereo buffer: allocation, mixing at an offset, fades and gain.

use crate::chart::MILLION;
use crate::errors::AudioError;
use crate::sample::{
    lemma_sample_twice, lemma_sample_unity, lemma_volumes_compose, scaled, size_of, StereoSample,
};
use vstd::prelude::*;

verus! {

/// Nanoseconds in a second.
pub const NANOS: u64 = 1_000_000_000;

/// A buffer of stereo sound at a sample rate in hertz.
#[derive(Clone, Debug)]
pub struct StereoAudio {
    pub buffer: Vec<StereoSample>,
    pub sample_rate: u32,
}

/// The samples of a new buffer of `length` nanoseconds: twice the length
/// times the rate, rounded up, and one more.
pub open spec fn sample_count(length: u64, rate: u32) -> int {
    (length * 2 * rate + (NANOS - 1)) / (NANOS as int) + 1
}

/// The sample at which `time` nanoseconds fall, rounded down.
pub open spec fn time_to_samples(time: int, rate: u32) -> int {
    time * rate / (NANOS as int)
}

/// `dst` with `gain` times `src` added from sample `raw` of `dst` on. A
/// negative `raw` cuts off the start of `src`; what lies beyond either end
/// is left out.
pub open spec fn mixed(
    dst: Seq<StereoSample>,
    src: Seq<StereoSample>,
    raw: int,
    gain: int,
) -> Seq<StereoSample> {
    Seq::new(
        dst.len(),
        |i: int|
            if 0 <= i - raw < src.len() {
                dst[i].plus(src[i - raw], gain)
            } else {
                dst[i]
            },
    )
}

/// The samples that a fade of `time` nanoseconds covers in a buffer of
/// `len` samples: never more than the buffer holds.
pub open spec fn fade_samples(time: u64, rate: u32, len: nat) -> nat {
    let n = time * rate / (NANOS as int);
    if n < len {
        n as nat
    } else {
        len
    }
}

/// `buf` with its first `n` samples rising linearly from silence.
pub open spec fn faded_in(buf: Seq<StereoSample>, n: int) -> Seq<StereoSample> {
    Seq::new(
        buf.len(),
        |i: int|
            if i < n {
                buf[i].times(i, n)
            } else {
                buf[i]
            },
    )
}

/// `buf` with its last `n` samples falling linearly to silence.
pub open spec fn faded_out(buf: Seq<StereoSample>, n: int) -> Seq<StereoSample> {
    Seq::new(
        buf.len(),
        |i: int|
            if buf.len() - 1 - i < n {
                buf[i].times(buf.len() - 1 - i, n)
            } else {
                buf[i]
            },
    )
}

/// `buf` with every sample multiplied by `gain` millionths.
pub open spec fn attenuated(buf: Seq<StereoSample>, gain: u64) -> Seq<StereoSample> {
    Seq::new(buf.len(), |i: int| buf[i].times(gain as int, MILLION as int))
}

/// The number of samples of a new buffer, where memory can address it.
pub fn required_samples(length: u64, sample_rate: u32) -> (r: Option<usize>)
    ensures
        match r {
            Some(n) => n == sample_count(length, sample_rate),
            None => sample_count(length, sample_rate) > usize::MAX,
        },
{
    assert(length * 2 * sample_rate <= 0xffff_ffff_ffff_ffff * 2 * 0xffff_ffff) by (nonlinear_arith)
        requires
            0 <= length <= 0xffff_ffff_ffff_ffff,
            0 <= sample_rate <= 0xffff_ffff,
    ;
    assert(0 <= length * 2 * sample_rate) by (nonlinear_arith)
        requires
            0 <= length,
            0 <= sample_rate,
    ;
    let product: u128 = (length as u128) * 2 * (sample_rate as u128);
    let count: u128 = (product + (NANOS as u128 - 1)) / (NANOS as u128) + 1;
    if count > usize::MAX as u128 {
        None
    } else {
        Some(count as usize)
    }
}

/// The largest size of a time that `sample_offset` takes: 2 to the 90th.
pub const TIME_LIMIT: i128 = 0x400_0000_0000_0000_0000_0000;

/// The sample at which `time` nanoseconds fall at `rate`, rounded down.
pub fn sample_offset(time: i128, rate: u32) -> (r: i128)
    requires
        -TIME_LIMIT <= time <= TIME_LIMIT,
    ensures
        r == time_to_samples(time as int, rate),
{
    assert(-0x400_0000_0000_0000_0000_0000 * 0xffff_ffff <= time * rate
        <= 0x400_0000_0000_0000_0000_0000 * 0xffff_ffff) by (nonlinear_arith)
        requires
            -0x400_0000_0000_0000_0000_0000 <= time <= 0x400_0000_0000_0000_0000_0000,
            0 <= rate <= 0xffff_ffff,
    ;
    let product: i128 = time * (rate as i128);
    if product >= 0 {
        product / (NANOS as i128)
    } else {
        let up: i128 = (-product + (NANOS as i128 - 1)) / (NANOS as i128);
        -up
    }
}

impl StereoAudio {
    /// A silent buffer of `length` nanoseconds.
    pub fn new(length: u64, sample_rate: u32) -> (r: StereoAudio)
        requires
            sample_count(length, sample_rate) <= usize::MAX,
        ensures
            r.sample_rate == sample_rate,
            r.buffer@ == Seq::new(
                sample_count(length, sample_rate) as nat,
                |i: int| StereoSample::zero(),
            ),
    {
        let n = match required_samples(length, sample_rate) {
            Some(n) => n,
            None => 0,
        };
        let mut buffer: Vec<StereoSample> = Vec::new();
        let mut i: usize = 0;
        while i < n
            invariant
                i <= n,
                buffer@.len() == i,
                forall|j: int| 0 <= j < i ==> buffer@[j] == StereoSample::zero(),
            decreases n - i,
        {
            buffer.push(StereoSample::silence());
            i += 1;
        }
        assert(buffer@ =~= Seq::new(n as nat, |i: int| StereoSample::zero()));
        StereoAudio { buffer, sample_rate }
    }

    /// Mixes `rhs` into this buffer from `offset` nanoseconds on. A negative
    /// offset cuts off the start of `rhs`. Buffers of different sample rates
    /// are not mixed.
    pub fn add(&mut self, rhs: &StereoAudio, offset: i64) -> (r: Result<(), AudioError>)
        ensures
            final(self).sample_rate == old(self).sample_rate,
            old(self).sample_rate != rhs.sample_rate ==> r == Err::<(), AudioError>(
                AudioError::MismatchedSampleRate(),
            ) && final(self).buffer@ == old(self).buffer@,
            old(self).sample_rate == rhs.sample_rate ==> r.is_ok() && final(self).buffer@ == mixed(
                old(self).buffer@,
                rhs.buffer@,
                time_to_samples(offset as int, rhs.sample_rate),
                1,
            ),
    {
        let raw = sample_offset(offset as i128, self.sample_rate);
        self.add_samples(rhs, raw)
    }

    /// Mixes `rhs` into this buffer from sample `raw` on. A negative
    /// `raw` cuts off the start of `rhs`. Buffers of different sample rates
    /// are not mixed.
    pub fn add_samples(&mut self, rhs: &StereoAudio, raw: i128) -> (r: Result<(), AudioError>)
        ensures
            final(self).sample_rate == old(self).sample_rate,
            old(self).sample_rate != rhs.sample_rate ==> r == Err::<(), AudioError>(
                AudioError::MismatchedSampleRate(),
            ) && final(self).buffer@ == old(self).buffer@,
            old(self).sample_rate == rhs.sample_rate ==> r.is_ok() && final(self).buffer@ == mixed(
                old(self).buffer@,
                rhs.buffer@,
                raw as int,
                1,
            ),
    {
        if self.sample_rate != rhs.sample_rate {
            return Err(AudioError::MismatchedSampleRate());
        }
        let dst_len = self.buffer.len();
        let src_len = rhs.buffer.len();
        if !(raw >= 0 && raw < dst_len as i128) && !(raw < 0 && raw > -(src_len as i128)) {
            assert(self.buffer@ =~= mixed(self.buffer@, rhs.buffer@, raw as int, 1));
            return Ok(());
        }
        let dst_offset: usize = if raw >= 0 {
            raw as usize
        } else {
            0
        };
        let src_offset: usize = if raw >= 0 {
            0
        } else {
            (-raw) as usize
        };
        let room = dst_len - dst_offset;
        let supply = src_len - src_offset;
        let count = if room < supply {
            room
        } else {
            supply
        };
        let mut i: usize = 0;
        while i < count
            invariant
                i <= count,
                dst_offset + count <= dst_len,
                src_offset + count <= src_len,
                dst_len == self.buffer@.len(),
                dst_len == old(self).buffer@.len(),
                src_len == rhs.buffer@.len(),
                self.sample_rate == old(self).sample_rate,
                forall|j: int|
                    0 <= j < dst_len ==> #[trigger] self.buffer@[j] == (if dst_offset <= j
                        < dst_offset + i {
                        old(self).buffer@[j].plus(rhs.buffer@[j - dst_offset + src_offset], 1)
                    } else {
                        old(self).buffer@[j]
                    }),
            decreases count - i,
        {
            let sum = self.buffer[dst_offset + i].add(rhs.buffer[src_offset + i]);
            self.buffer[dst_offset + i] = sum;
            i += 1;
        }
        assert(self.buffer@ =~= mixed(old(self).buffer@, rhs.buffer@, raw as int, 1));
        Ok(())
    }

    /// Fades the start of the buffer in over `fade_in` nanoseconds and its
    /// end out over `fade_out`, both linearly; a fade longer than the buffer
    /// covers all of it.
    pub fn fade(&mut self, fade_in: u64, fade_out: u64)
        ensures
            final(self).sample_rate == old(self).sample_rate,
            final(self).buffer@ == faded_out(
                faded_in(
                    old(self).buffer@,
                    fade_samples(fade_in, old(self).sample_rate, old(self).buffer@.len()) as int,
                ),
                fade_samples(fade_out, old(self).sample_rate, old(self).buffer@.len()) as int,
            ),
    {
        let len = self.buffer.len();
        let n_in = self.fade_length(fade_in);
        let n_out = self.fade_length(fade_out);
        let mut i: usize = 0;
        while i < n_in
            invariant
                i <= n_in <= len,
                len == self.buffer@.len(),
                len == old(self).buffer@.len(),
                self.sample_rate == old(self).sample_rate,
                forall|j: int|
                    0 <= j < len ==> #[trigger] self.buffer@[j] == (if j < i {
                        old(self).buffer@[j].times(j, n_in as int)
                    } else {
                        old(self).buffer@[j]
                    }),
            decreases n_in - i,
        {
            let v = self.buffer[i].scale(i as u64, n_in as u64);
            self.buffer[i] = v;
            i += 1;
        }
        let ghost risen = self.buffer@;
        assert(risen =~= faded_in(old(self).buffer@, n_in as int));
        let mut k: usize = 0;
        while k < n_out
            invariant
                k <= n_out <= len,
                len == self.buffer@.len(),
                len == risen.len(),
                self.sample_rate == old(self).sample_rate,
                forall|j: int|
                    0 <= j < len ==> #[trigger] self.buffer@[j] == (if len - 1 - j < k {
                        risen[j].times(len - 1 - j, n_out as int)
                    } else {
                        risen[j]
                    }),
            decreases n_out - k,
        {
            let at = len - 1 - k;
            let v = self.buffer[at].scale(k as u64, n_out as u64);
            self.buffer[at] = v;
            k += 1;
        }
        assert(self.buffer@ =~= faded_out(risen, n_out as int));
    }

    /// The samples that a fade of `time` nanoseconds covers here.
    pub fn fade_length(&self, time: u64) -> (r: usize)
        ensures
            r == fade_samples(time, self.sample_rate, self.buffer@.len()),
    {
        assert(0 <= time * self.sample_rate <= 0xffff_ffff_ffff_ffff * 0xffff_ffff)
            by (nonlinear_arith)
            requires
                0 <= time <= 0xffff_ffff_ffff_ffff,
                0 <= self.sample_rate <= 0xffff_ffff,
        ;
        let n: u128 = (time as u128) * (self.sample_rate as u128) / (NANOS as u128);
        let len = self.buffer.len();
        if n < len as u128 {
            n as usize
        } else {
            len
        }
    }

    /// Multiplies every sample by `volume` millionths; a volume of one
    /// million changes nothing.
    pub fn attenuate(&mut self, volume: u64)
        ensures
            final(self).sample_rate == old(self).sample_rate,
            final(self).buffer@ == attenuated(old(self).buffer@, volume),
            volume == MILLION ==> final(self).buffer@ == old(self).buffer@,
    {
        if volume == MILLION {
            proof {
                lemma_attenuate_unity(self.buffer@);
            }
            return ;
        }
        let len = self.buffer.len();
        let mut i: usize = 0;
        while i < len
            invariant
                i <= len,
                len == self.buffer@.len(),
                len == old(self).buffer@.len(),
                self.sample_rate == old(self).sample_rate,
                forall|j: int|
                    0 <= j < len ==> #[trigger] self.buffer@[j] == (if j < i {
                        old(self).buffer@[j].times(volume as int, MILLION as int)
                    } else {
                        old(self).buffer@[j]
                    }),
            decreases len - i,
        {
            let v = self.buffer[i].mul(volume);
            self.buffer[i] = v;
            i += 1;
        }
        assert(self.buffer@ =~= attenuated(old(self).buffer@, volume));
    }

    /// The length of the buffer in nanoseconds, rounded down; a buffer
    /// without a sample rate has none.
    pub fn get_length(&self) -> (r: Option<u128>)
        ensures
            self.sample_rate == 0 ==> r.is_none(),
            self.sample_rate != 0 ==> r == Some(
                (self.buffer@.len() * NANOS / (self.sample_rate as int)) as u128,
            ),
    {
        if self.sample_rate == 0 {
            return None;
        }
        let len = self.buffer.len();
        assert(0 <= len * NANOS <= 0xffff_ffff_ffff_ffff * 1_000_000_000) by (nonlinear_arith)
            requires
                0 <= len <= 0xffff_ffff_ffff_ffff,
                NANOS == 1_000_000_000,
        ;
        Some((len as u128) * (NANOS as u128) / (self.sample_rate as u128))
    }
}

/// Mixing a source in twice at one offset is mixing in its double once.
pub proof fn lemma_add_twice(dst: Seq<StereoSample>, src: Seq<StereoSample>, raw: int)
    ensures
        mixed(mixed(dst, src, raw, 1), src, raw, 1) == mixed(dst, src, raw, 2),
{
    let once = mixed(dst, src, raw, 1);
    assert forall|i: int| 0 <= i < dst.len() implies #[trigger] mixed(once, src, raw, 1)[i]
        == mixed(dst, src, raw, 2)[i] by {
        if 0 <= i - raw < src.len() {
            lemma_sample_twice(dst[i], src[i - raw]);
        }
    }
    assert(mixed(once, src, raw, 1) =~= mixed(dst, src, raw, 2));
}

/// A volume of one million is the identity.
pub proof fn lemma_attenuate_unity(buf: Seq<StereoSample>)
    ensures
        attenuated(buf, MILLION) == buf,
{
    assert forall|i: int| 0 <= i < buf.len() implies #[trigger] attenuated(buf, MILLION)[i]
        == buf[i] by {
        lemma_sample_unity(buf[i]);
    }
    assert(attenuated(buf, MILLION) =~= buf);
}

/// The volume `b` does not drive any sample of `buf` out of range.
pub open spec fn stays_in_range(buf: Seq<StereoSample>, b: u64) -> bool {
    forall|i: int|
        0 <= i < buf.len() ==> i64::MIN <= scaled(
            (#[trigger] buf[i]).left as int,
            b as int,
            MILLION as int,
        ) <= i64::MAX && i64::MIN <= scaled(buf[i].right as int, b as int, MILLION as int)
            <= i64::MAX
}

/// Two volumes in a row are their product, within rounding: where the
/// first volume `b` drives no sample out of range, the volume `a` after
/// it leaves every sample within the millionth part of the sample and of
/// `a`, and one more, of what the volume `a * b` leaves at once.
pub proof fn lemma_attenuate_twice(buf: Seq<StereoSample>, a: u64, b: u64)
    requires
        a * b / (MILLION as int) <= u64::MAX,
        stays_in_range(buf, b),
    ensures
        forall|i: int|
            0 <= i < buf.len() ==> size_of(
                #[trigger] attenuated(attenuated(buf, b), a)[i].left - attenuated(
                    buf,
                    (a * b / (MILLION as int)) as u64,
                )[i].left,
            ) <= size_of(buf[i].left as int) / (MILLION as int) + (a as int) / (MILLION as int) + 1
                && size_of(
                attenuated(attenuated(buf, b), a)[i].right - attenuated(
                    buf,
                    (a * b / (MILLION as int)) as u64,
                )[i].right,
            ) <= size_of(buf[i].right as int) / (MILLION as int) + (a as int) / (MILLION as int)
                + 1,
{
    assert forall|i: int| 0 <= i < buf.len() implies size_of(
        #[trigger] attenuated(attenuated(buf, b), a)[i].left - attenuated(
            buf,
            (a * b / (MILLION as int)) as u64,
        )[i].left,
    ) <= size_of(buf[i].left as int) / (MILLION as int) + (a as int) / (MILLION as int) + 1
        && size_of(
        attenuated(attenuated(buf, b), a)[i].right - attenuated(
            buf,
            (a * b / (MILLION as int)) as u64,
        )[i].right,
    ) <= size_of(buf[i].right as int) / (MILLION as int) + (a as int) / (MILLION as int) + 1 by {
        assert(i64::MIN <= scaled(buf[i].left as int, b as int, MILLION as int) <= i64::MAX);
        lemma_volumes_compose(buf[i].left, a, b);
        lemma_volumes_compose(buf[i].right, a, b);
        assert(attenuated(buf, b)[i] == buf[i].times(b as int, MILLION as int));
    }
}

} // verus!
