//! What is known of a sound file before it is decoded.

use crate::audio::NANOS;
use vstd::prelude::*;

verus! {

/// The length in seconds of one tick of a track: `numer / denom`.
#[derive(Clone, Copy, Debug, PartialEq, Eq, Structural)]
pub struct TimeBase {
    pub numer: u32,
    pub denom: u32,
}

/// The metadata of the default track of a sound file.
#[derive(Clone, Copy, Debug, PartialEq, Eq, Structural)]
pub struct Probe {
    /// The number of channels, at least one where known.
    pub channels: Option<u32>,
    /// The sample rate in hertz.
    pub sample_rate: Option<u32>,
    /// The number of frames of the whole track.
    pub n_frames: Option<u64>,
    /// The length of one tick.
    pub time_base: Option<TimeBase>,
}

/// `frames` ticks of `numer / denom` seconds each, in nanoseconds,
/// rounded down.
pub open spec fn total_nanos(numer: u32, denom: u32, frames: u64) -> int {
    frames * numer * NANOS / (denom as int)
}

/// A duration as whole seconds and the nanoseconds beyond them; none
/// where the seconds exceed 63 bits.
pub open spec fn duration_parts(numer: u32, denom: u32, frames: u64) -> Option<(i64, u32)> {
    let total = total_nanos(numer, denom, frames);
    if total / (NANOS as int) > i64::MAX {
        None
    } else {
        Some(((total / (NANOS as int)) as i64, (total % (NANOS as int)) as u32))
    }
}

/// `symphonia::core::units::TimeBase::calc_duration`, whose result is
/// taken apart by `Time::parts`: the time that `frames` ticks of
/// `numer / denom` seconds take, to the nanosecond, rounded down, as
/// seconds and nanoseconds; `None` where the seconds overflow.
#[verifier::external_body]
fn calc_duration(numer: u32, denom: u32, frames: u64) -> (r: Option<(i64, u32)>)
    requires
        numer > 0,
        denom > 0,
    ensures
        r == duration_parts(numer, denom, frames),
{
    let base = symphonia::core::units::TimeBase::try_new(numer, denom)?;
    base.calc_duration(symphonia::core::units::Duration::new(frames)).map(|t| t.parts())
}

impl Probe {
    /// Known channel counts are positive and time bases are proper
    /// fractions of integers.
    pub open spec fn wf(self) -> bool {
        &&& self.channels matches Some(c) ==> c >= 1
        &&& self.time_base matches Some(b) ==> b.numer > 0 && b.denom > 0
    }

    /// The length that `get_length` reports: the part of the track's
    /// duration beyond its whole seconds, in nanoseconds.
    pub open spec fn length(self) -> Option<u64> {
        match (self.n_frames, self.time_base) {
            (Some(frames), Some(base)) => match duration_parts(base.numer, base.denom, frames) {
                Some((_, nanos)) => Some(nanos as u64),
                None => None,
            },
            _ => None,
        }
    }

    /// The metadata of a track.
    pub fn new(
        channels: Option<u32>,
        sample_rate: Option<u32>,
        n_frames: Option<u64>,
        time_base: Option<TimeBase>,
    ) -> (r: Probe)
        ensures
            r == (Probe { channels, sample_rate, n_frames, time_base }),
    {
        Probe { channels, sample_rate, n_frames, time_base }
    }

    /// The length of the sound, known only where both the number of
    /// frames and the time base are.
    pub fn get_length(&self) -> (r: Option<u64>)
        requires
            self.wf(),
        ensures
            r == self.length(),
    {
        let frames = match self.n_frames {
            Some(frames) => frames,
            None => {
                return None;
            },
        };
        let base = match self.time_base {
            Some(base) => base,
            None => {
                return None;
            },
        };
        match calc_duration(base.numer, base.denom, frames) {
            Some((_, nanos)) => Some(nanos as u64),
            None => None,
        }
    }
}

/// For a sound shorter than a second whose ticks are its frames, the
/// length reported is the number of frames over the sample rate, to the
/// nanosecond below.
pub proof fn lemma_length_matches_frames(p: Probe, frames: u64, rate: u32)
    requires
        p.wf(),
        rate > 0,
        p.n_frames == Some(frames),
        p.time_base == Some(TimeBase { numer: 1, denom: rate }),
        frames < rate,
    ensures
        p.length().is_some(),
        p.length().unwrap() * rate <= frames * NANOS < (p.length().unwrap() + 1) * rate,
{
    let total = total_nanos(1, rate, frames);
    let n = frames * NANOS;
    let d = rate as int;
    assert(frames * 1 * NANOS == n);
    assert(total == n / d);
    assert(0 <= n / d && (n / d) * d <= n && n < (n / d + 1) * d && n / d < NANOS)
        by (nonlinear_arith)
        requires
            d > 0,
            0 <= n,
            n < d * NANOS,
            NANOS == 1_000_000_000,
    ;
    assert(n < d * NANOS) by (nonlinear_arith)
        requires
            n == frames * NANOS,
            frames < d,
            NANOS == 1_000_000_000,
    ;
    assert(total / (NANOS as int) == 0);
    assert(total % (NANOS as int) == total);
}

} // verus!
