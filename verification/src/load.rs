//! Filling a buffer from decoded packets, and taking it apart into
//! channels and back.

use crate::audio::StereoAudio;
use crate::errors::AudioError;
use crate::probe::Probe;
use crate::sample::StereoSample;
use vstd::prelude::*;

verus! {

/// What became of one packet of a sound file.
#[derive(Clone, Debug)]
pub enum DecodeEvent {
    /// The packet was decoded to these samples, frame by frame with the
    /// channels of a frame side by side.
    Samples(Vec<i64>),
    /// The packet belongs to another track.
    OtherTrack,
    /// The packet could not be decoded; the next one may be.
    DecodeError,
    /// The stream has ended or failed.
    End,
}

/// The frames in `len` interleaved samples of `channels` channels,
/// a started frame counted.
pub open spec fn frame_count(len: nat, channels: nat) -> nat {
    ((len + channels - 1) as int / (channels as int)) as nat
}

/// Frame `f` of interleaved samples: a single channel sounds on both
/// sides, of several the first two are taken.
pub open spec fn frame_at(samples: Seq<i64>, channels: nat, f: int) -> StereoSample {
    StereoSample {
        left: samples[f * channels],
        right: if channels == 1 {
            samples[f * channels]
        } else {
            samples[f * channels + 1]
        },
    }
}

/// Interleaved samples as stereo frames.
pub open spec fn frames(samples: Seq<i64>, channels: nat) -> Seq<StereoSample> {
    Seq::new(frame_count(samples.len(), channels), |f: int| frame_at(samples, channels, f))
}

/// Samples can be read as frames of `channels` channels: there are
/// channels, and no frame of several channels breaks off after its first.
pub open spec fn framed(samples: Seq<i64>, channels: nat) -> bool {
    channels >= 1 && (channels == 1 || (samples.len() as int) % (channels as int) != 1)
}

/// The stream ends among the first `k` events.
pub open spec fn ended(events: Seq<DecodeEvent>, k: nat) -> bool
    decreases k,
{
    k > 0 && (ended(events, (k - 1) as nat) || events[k - 1] is End)
}

/// The sound of the first `k` events: the frames of every decoded
/// packet before the stream's end, one after the other.
pub open spec fn loaded(events: Seq<DecodeEvent>, channels: nat, k: nat) -> Seq<StereoSample>
    decreases k,
{
    if k == 0 {
        Seq::empty()
    } else {
        let before = loaded(events, channels, (k - 1) as nat);
        if ended(events, (k - 1) as nat) {
            before
        } else {
            match events[k - 1] {
                DecodeEvent::Samples(v) => before + frames(v@, channels),
                _ => before,
            }
        }
    }
}

/// Every decoded packet can be read as frames of `channels` channels.
pub open spec fn all_framed(events: Seq<DecodeEvent>, channels: nat) -> bool {
    forall|i: int|
        0 <= i < events.len() ==> ((#[trigger] events[i]) matches DecodeEvent::Samples(v)
            ==> framed(v@, channels))
}

/// The two sides of a buffer as two sequences.
pub open spec fn left_of(buf: Seq<StereoSample>) -> Seq<i64> {
    Seq::new(buf.len(), |i: int| buf[i].left)
}

/// The right side of a buffer.
pub open spec fn right_of(buf: Seq<StereoSample>) -> Seq<i64> {
    Seq::new(buf.len(), |i: int| buf[i].right)
}

/// Two channels put together again, as far as both reach.
pub open spec fn zipped(left: Seq<i64>, right: Seq<i64>) -> Seq<StereoSample> {
    Seq::new(
        if left.len() < right.len() {
            left.len()
        } else {
            right.len()
        },
        |i: int| StereoSample { left: left[i], right: right[i] },
    )
}

impl StereoAudio {
    /// A buffer without sound.
    pub fn empty(sample_rate: u32) -> (r: StereoAudio)
        ensures
            r.sample_rate == sample_rate,
            r.buffer@.len() == 0,
    {
        StereoAudio { buffer: Vec::new(), sample_rate }
    }

    /// Appends interleaved samples of `channels` channels as stereo frames.
    pub fn append_interleaved(&mut self, samples: &Vec<i64>, channels: usize)
        requires
            framed(samples@, channels as nat),
        ensures
            final(self).sample_rate == old(self).sample_rate,
            final(self).buffer@ == old(self).buffer@ + frames(samples@, channels as nat),
    {
        let len = samples.len();
        let mut pos: usize = 0;
        let mut done = false;
        let ghost mut f: int = 0;
        let ghost total = frame_count(len as nat, channels as nat) as int;
        proof {
            if len == 0 {
                assert((channels - 1) / (channels as int) == 0) by (nonlinear_arith)
                    requires
                        channels >= 1,
                ;
            }
        }
        while !done && pos < len
            invariant
                len == samples@.len(),
                framed(samples@, channels as nat),
                total == frame_count(len as nat, channels as nat),
                self.sample_rate == old(self).sample_rate,
                0 <= f,
                !done ==> pos == f * channels,
                done || pos >= len ==> f == total,
                self.buffer@.len() == old(self).buffer@.len() + f,
                forall|j: int|
                    0 <= j < old(self).buffer@.len() ==> self.buffer@[j] == old(self).buffer@[j],
                forall|g: int|
                    0 <= g < f ==> #[trigger] self.buffer@[old(self).buffer@.len() + g]
                        == frame_at(samples@, channels as nat, g),
            decreases
                    (if done {
                        0int
                    } else {
                        1int
                    }),
                    len - pos,
        {
            let left = samples[pos];
            proof {
                if channels >= 2 {
                    lemma_second_in_frame(len as int, channels as int, f);
                }
            }
            let right = if channels == 1 {
                left
            } else {
                samples[pos + 1]
            };
            self.buffer.push(StereoSample { left, right });
            proof {
                lemma_frames_so_far(len as int, channels as int, f);
                assert((f + 1) * channels == f * channels + channels) by (nonlinear_arith);
            }
            if channels > len - pos {
                done = true;
            } else {
                pos += channels;
            }
            proof {
                f = f + 1;
            }
        }
        proof {
            let base = old(self).buffer@.len() as int;
            let joined = old(self).buffer@ + frames(samples@, channels as nat);
            assert(self.buffer@.len() == joined.len());
            assert forall|j: int| 0 <= j < joined.len() implies self.buffer@[j] == joined[j] by {
                if j >= base {
                    assert(self.buffer@[base + (j - base)] == frame_at(
                        samples@,
                        channels as nat,
                        j - base,
                    ));
                }
            }
            assert(self.buffer@ =~= joined);
        }
    }

    /// Reads the sound of a file from what became of its packets, in
    /// order: decoded packets are appended, packets of other tracks and
    /// packets that fail to decode are passed over, and nothing is read
    /// past the end of the stream. A file whose channel count or sample
    /// rate is unknown is not read.
    pub fn load(probe: &Probe, events: &Vec<DecodeEvent>) -> (r: Result<StereoAudio, AudioError>)
        requires
            probe.wf(),
            probe.channels matches Some(c) ==> all_framed(events@, c as nat),
        ensures
            probe.channels.is_none() || probe.sample_rate.is_none() ==> r == Err::<
                StereoAudio,
                AudioError,
            >(AudioError::MissingCodecInfo()),
            probe.channels.is_some() && probe.sample_rate.is_some() ==> r.is_ok(),
            r matches Ok(audio) ==> Some(audio.sample_rate) == probe.sample_rate && audio.buffer@
                == loaded(events@, probe.channels.unwrap() as nat, events@.len()),
    {
        let channels = match probe.channels {
            Some(c) => c as usize,
            None => {
                return Err(AudioError::MissingCodecInfo());
            },
        };
        let sample_rate = match probe.sample_rate {
            Some(rate) => rate,
            None => {
                return Err(AudioError::MissingCodecInfo());
            },
        };
        let mut audio = StereoAudio::empty(sample_rate);
        let n = events.len();
        let mut k: usize = 0;
        let mut over = false;
        while k < n
            invariant
                k <= n,
                n == events@.len(),
                channels >= 1,
                all_framed(events@, channels as nat),
                over == ended(events@, k as nat),
                audio.sample_rate == sample_rate,
                audio.buffer@ == loaded(events@, channels as nat, k as nat),
            decreases n - k,
        {
            if !over {
                match &events[k] {
                    DecodeEvent::Samples(v) => {
                        audio.append_interleaved(v, channels);
                    },
                    DecodeEvent::End => {
                        over = true;
                    },
                    _ => {},
                }
            }
            k += 1;
        }
        Ok(audio)
    }

    /// The left and the right channel, each as a sequence of its own.
    pub fn planar(&self) -> (r: (Vec<i64>, Vec<i64>))
        ensures
            r.0@ == left_of(self.buffer@),
            r.1@ == right_of(self.buffer@),
    {
        let len = self.buffer.len();
        let mut left: Vec<i64> = Vec::new();
        let mut right: Vec<i64> = Vec::new();
        let mut i: usize = 0;
        while i < len
            invariant
                i <= len,
                len == self.buffer@.len(),
                left@.len() == i,
                right@.len() == i,
                forall|j: int| 0 <= j < i ==> left@[j] == self.buffer@[j].left,
                forall|j: int| 0 <= j < i ==> right@[j] == self.buffer@[j].right,
            decreases len - i,
        {
            left.push(self.buffer[i].left);
            right.push(self.buffer[i].right);
            i += 1;
        }
        assert(left@ =~= left_of(self.buffer@));
        assert(right@ =~= right_of(self.buffer@));
        (left, right)
    }

    /// Whether the buffer has to be resampled to reach `desired_rate`.
    pub fn needs_resample(&self, desired_rate: u32) -> (r: bool)
        ensures
            r == (self.sample_rate != desired_rate),
    {
        self.sample_rate != desired_rate
    }

    /// Takes up the channels `left` and `right` that a resampler made of
    /// this buffer for `desired_rate`. A buffer that is at that rate
    /// already stays as it is.
    pub fn resample(&mut self, desired_rate: u32, left: &Vec<i64>, right: &Vec<i64>)
        ensures
            final(self).sample_rate == desired_rate,
            old(self).sample_rate == desired_rate ==> final(self).buffer@ == old(self).buffer@,
            old(self).sample_rate != desired_rate ==> final(self).buffer@ == zipped(
                left@,
                right@,
            ),
    {
        if self.sample_rate == desired_rate {
            return ;
        }
        let len = if left.len() < right.len() {
            left.len()
        } else {
            right.len()
        };
        let mut buffer: Vec<StereoSample> = Vec::new();
        let mut i: usize = 0;
        while i < len
            invariant
                i <= len,
                len <= left@.len(),
                len <= right@.len(),
                buffer@.len() == i,
                forall|j: int|
                    0 <= j < i ==> buffer@[j] == (StereoSample { left: left@[j], right: right@[j] }),
            decreases len - i,
        {
            buffer.push(StereoSample { left: left[i], right: right[i] });
            i += 1;
        }
        assert(buffer@ =~= zipped(left@, right@));
        self.buffer = buffer;
        self.sample_rate = desired_rate;
    }

    /// Brings this buffer to the sample rate of `rhs`, given what a
    /// resampler made of it for that rate.
    pub fn match_sample_rate(&mut self, rhs: &StereoAudio, left: &Vec<i64>, right: &Vec<i64>)
        ensures
            final(self).sample_rate == rhs.sample_rate,
            old(self).sample_rate == rhs.sample_rate ==> final(self).buffer@ == old(self).buffer@,
            old(self).sample_rate != rhs.sample_rate ==> final(self).buffer@ == zipped(
                left@,
                right@,
            ),
    {
        if self.sample_rate != rhs.sample_rate {
            self.resample(rhs.sample_rate, left, right);
        }
    }
}

/// In a frame of several channels that has begun, the second sample is
/// there too.
pub proof fn lemma_second_in_frame(len: int, channels: int, f: int)
    requires
        channels >= 2,
        0 <= f,
        f * channels < len,
        len % channels != 1,
    ensures
        f * channels + 1 < len,
{
    if f * channels + 1 == len {
        assert((f * channels + 1) % channels == 1) by (nonlinear_arith)
            requires
                channels >= 2,
                0 <= f,
        ;
    }
}

/// Frame `f` begins within the samples, so more than `f` frames are
/// counted; and the frame that reaches the end is the last.
pub proof fn lemma_frames_so_far(len: int, channels: int, f: int)
    requires
        channels >= 1,
        0 <= f,
        f * channels < len,
    ensures
        f + 1 <= (len + channels - 1) / channels,
        (f + 1) * channels >= len ==> f + 1 == (len + channels - 1) / channels,
{
    assert(f + 1 <= (len + channels - 1) / channels) by (nonlinear_arith)
        requires
            channels >= 1,
            0 <= f,
            f * channels < len,
    ;
    if (f + 1) * channels >= len {
        assert(f + 1 == (len + channels - 1) / channels) by (nonlinear_arith)
            requires
                channels >= 1,
                0 <= f,
                f * channels < len,
                (f + 1) * channels >= len,
        ;
    }
}

} // verus!
