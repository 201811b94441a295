//! Sizing a preview: how long the song is, at what rate it is rendered,
//! which stretch of it is kept, and which notes fall into that stretch.

use crate::audio::StereoAudio;
use crate::probe::Probe;
use vstd::prelude::*;

verus! {

/// The sample rate of a preview where neither the configuration nor a
/// sound file gives one.
pub const DEFAULT_SAMPLE_RATE: u32 = 48_000;

/// One hundred percent, in millionths of a percent.
pub const WHOLE: u64 = 100_000_000;

/// How a preview is to be made.
#[derive(Clone, Debug)]
pub struct Args {
    /// The directory of songs to process in a batch.
    pub songs_folder: Option<String>,
    /// Where the preview starts, in nanoseconds.
    pub start: i64,
    /// Where the preview ends, in nanoseconds.
    pub end: i64,
    /// Where the preview starts, in millionths of a percent of the song.
    pub start_p: Option<u32>,
    /// Where the preview ends, in millionths of a percent of the song.
    pub end_p: Option<u32>,
    /// The length of the fade-in, in nanoseconds.
    pub fade_in: u64,
    /// The length of the fade-out, in nanoseconds.
    pub fade_out: u64,
    /// The file name of the preview.
    pub preview_file: String,
    /// Whether the preview has one channel instead of two.
    pub mono_audio: bool,
    /// The sample rate of the preview; that of the song where absent.
    pub sample_rate: Option<u32>,
    /// The volume, in millionths of a percent.
    pub volume: u64,
    /// Whether a preview that exists is written anew.
    pub overwrite: bool,
    /// Whether the time spent on each chart is shown.
    pub show_process_time: bool,
    /// Whether charts are processed side by side.
    pub parallel: bool,
}

impl Default for Args {
    /// A preview of the stretch from 20 s to 40 s, with fades of 2 s, in
    /// stereo at full volume, written over one that exists.
    fn default() -> (r: Args)
        ensures
            r.songs_folder.is_none(),
            r.start == 20_000_000_000,
            r.end == 40_000_000_000,
            r.start_p.is_none(),
            r.end_p.is_none(),
            r.fade_in == 2_000_000_000,
            r.fade_out == 2_000_000_000,
            r.preview_file@ == "preview_auto_generated.ogg"@,
            !r.mono_audio,
            r.sample_rate.is_none(),
            r.volume == WHOLE,
            r.overwrite,
            !r.show_process_time,
            r.parallel,
    {
        Args {
            songs_folder: None,
            start: 20_000_000_000,
            end: 40_000_000_000,
            start_p: None,
            end_p: None,
            fade_in: 2_000_000_000,
            fade_out: 2_000_000_000,
            preview_file: "preview_auto_generated.ogg".to_owned(),
            mono_audio: false,
            sample_rate: None,
            volume: WHOLE,
            overwrite: true,
            show_process_time: false,
            parallel: true,
        }
    }
}

/// One sound file of a chart: when it sounds, what is known of it, and
/// its sound where it was decoded.
#[derive(Clone, Debug)]
pub struct Source {
    /// The onsets of its notes, in nanoseconds.
    pub times: Vec<u64>,
    /// Its metadata, unless the file could not be opened.
    pub probe: Option<Probe>,
    /// Its sound, unless the file was not or could not be decoded.
    pub audio: Option<StereoAudio>,
}

impl Source {
    /// What is known of the source is well formed.
    pub open spec fn wf(self) -> bool {
        self.probe matches Some(p) ==> p.wf()
    }

    /// The length of the sound, where the file was opened and tells it.
    pub open spec fn length(self) -> Option<u64> {
        match self.probe {
            Some(p) => p.length(),
            None => None,
        }
    }

    /// The sample rate of the file, where it takes part and tells it.
    pub open spec fn rate(self) -> Option<u32> {
        if self.length().is_some() {
            self.probe.unwrap().sample_rate
        } else {
            None
        }
    }
}

/// The latest end among the first `k` onsets of a sound of `length`.
pub open spec fn latest_end(times: Seq<u64>, length: u64, k: nat) -> int
    decreases k,
{
    if k == 0 {
        0
    } else {
        let before = latest_end(times, length, (k - 1) as nat);
        let end = times[k - 1] + length;
        if end > before {
            end
        } else {
            before
        }
    }
}

/// The length of the song as far as the first `k` sources tell: the
/// latest end of any sound whose length is known.
pub open spec fn song_length(sources: Seq<Source>, k: nat) -> int
    decreases k,
{
    if k == 0 {
        0
    } else {
        let before = song_length(sources, (k - 1) as nat);
        let s = sources[k - 1];
        match s.length() {
            Some(length) => {
                let end = latest_end(s.times@, length, s.times@.len());
                if end > before {
                    end
                } else {
                    before
                }
            },
            None => before,
        }
    }
}

/// The sample rate of the first source from index `i` on that takes part
/// and tells its rate.
pub open spec fn first_rate(sources: Seq<Source>, i: nat) -> Option<u32>
    decreases sources.len() - i,
{
    if i >= sources.len() {
        None
    } else if sources[i as int].rate().is_some() {
        sources[i as int].rate()
    } else {
        first_rate(sources, i + 1)
    }
}

/// The sample rate of the preview: the configured one, else that of the
/// first source that tells one, else 48000.
pub open spec fn effective_rate(configured: Option<u32>, sources: Seq<Source>) -> u32 {
    match configured {
        Some(rate) => rate,
        None => match first_rate(sources, 0) {
            Some(rate) => rate,
            None => DEFAULT_SAMPLE_RATE,
        },
    }
}

/// The stretch of the song that the preview keeps, in nanoseconds: by
/// percent of the song's length where both percentages are given, else
/// by the times given; in ascending order either way.
pub open spec fn preview_window(args: Args, length: int) -> (int, int) {
    let (start, end) = match (args.start_p, args.end_p) {
        (Some(s), Some(e)) => (s * length / (WHOLE as int), e * length / (WHOLE as int)),
        _ => (args.start as int, args.end as int),
    };
    if start > end {
        (end, start)
    } else {
        (start, end)
    }
}

/// A sound of `length` that begins at `time` is heard between `start`
/// and `end`.
pub open spec fn overlaps(time: u64, length: u64, start: int, end: int) -> bool {
    time < end && time + length > start
}

/// Those of the first `k` onsets at which the sound is heard in the window.
pub open spec fn overlapping(times: Seq<u64>, length: u64, start: int, end: int, k: nat) -> Seq<
    u64,
>
    decreases k,
{
    if k == 0 {
        Seq::empty()
    } else {
        let before = overlapping(times, length, start, end, (k - 1) as nat);
        if overlaps(times[k - 1], length, start, end) {
            before.push(times[k - 1])
        } else {
            before
        }
    }
}

/// The length of the song: the latest end of any sound whose length is known.
pub fn measure_song(sources: &Vec<Source>) -> (r: u128)
    requires
        forall|i: int| 0 <= i < sources@.len() ==> (#[trigger] sources@[i]).wf(),
    ensures
        r == song_length(sources@, sources@.len()),
        r <= 2 * u64::MAX,
{
    let n = sources.len();
    let mut longest: u128 = 0;
    let mut i: usize = 0;
    while i < n
        invariant
            i <= n,
            n == sources@.len(),
            forall|j: int| 0 <= j < sources@.len() ==> (#[trigger] sources@[j]).wf(),
            longest == song_length(sources@, i as nat),
            longest <= 2 * u64::MAX,
        decreases n - i,
    {
        let source = &sources[i];
        let known = match source.probe {
            Some(p) => p.get_length(),
            None => None,
        };
        match known {
            Some(length) => {
                let m = source.times.len();
                let mut end: u128 = 0;
                let mut k: usize = 0;
                while k < m
                    invariant
                        k <= m,
                        m == source.times@.len(),
                        end == latest_end(source.times@, length, k as nat),
                        end <= 2 * u64::MAX,
                    decreases m - k,
                {
                    let here: u128 = source.times[k] as u128 + length as u128;
                    if here > end {
                        end = here;
                    }
                    k += 1;
                }
                if end > longest {
                    longest = end;
                }
            },
            None => {},
        }
        i += 1;
    }
    longest
}

/// The sample rate at which the preview is rendered.
pub fn choose_rate(configured: Option<u32>, sources: &Vec<Source>) -> (r: u32)
    requires
        forall|i: int| 0 <= i < sources@.len() ==> (#[trigger] sources@[i]).wf(),
    ensures
        r == effective_rate(configured, sources@),
{
    if let Some(rate) = configured {
        return rate;
    }
    let n = sources.len();
    let mut i: usize = 0;
    while i < n
        invariant
            i <= n,
            n == sources@.len(),
            forall|j: int| 0 <= j < sources@.len() ==> (#[trigger] sources@[j]).wf(),
            configured.is_none(),
            first_rate(sources@, 0) == first_rate(sources@, i as nat),
        decreases n - i,
    {
        if let Some(p) = sources[i].probe {
            if p.get_length().is_some() {
                if let Some(rate) = p.sample_rate {
                    assert(sources@[i as int].length().is_some());
                    assert(sources@[i as int].rate() == Some(rate));
                    assert(first_rate(sources@, i as nat) == Some(rate));
                    return rate;
                }
            }
        }
        i += 1;
    }
    DEFAULT_SAMPLE_RATE
}

/// The stretch of a song of `length` nanoseconds that the preview keeps.
pub fn resolve_window(args: &Args, length: u128) -> (r: (i128, i128))
    requires
        length <= 2 * u64::MAX,
    ensures
        (r.0 as int, r.1 as int) == preview_window(*args, length as int),
        r.0 <= r.1,
        -0x8000_0000_0000_0000 <= r.0,
        r.1 <= 0x1_0000_0000_0000_0000_0000,
{
    let (start, end): (i128, i128) = match (args.start_p, args.end_p) {
        (Some(s), Some(e)) => {
            assert(0 <= s * length <= 0xffff_ffff * (2 * 0xffff_ffff_ffff_ffff))
                by (nonlinear_arith)
                requires
                    0 <= s <= 0xffff_ffff,
                    0 <= length <= 2 * 0xffff_ffff_ffff_ffff,
            ;
            assert(0 <= e * length <= 0xffff_ffff * (2 * 0xffff_ffff_ffff_ffff))
                by (nonlinear_arith)
                requires
                    0 <= e <= 0xffff_ffff,
                    0 <= length <= 2 * 0xffff_ffff_ffff_ffff,
            ;
            (
                ((s as u128) * length / (WHOLE as u128)) as i128,
                ((e as u128) * length / (WHOLE as u128)) as i128,
            )
        },
        _ => (args.start as i128, args.end as i128),
    };
    if start > end {
        (end, start)
    } else {
        (start, end)
    }
}

/// Whether a sound of `length` that begins at `time` is heard between
/// `start` and `end`.
pub fn is_heard(time: u64, length: u64, start: i128, end: i128) -> (r: bool)
    ensures
        r == overlaps(time, length, start as int, end as int),
{
    (time as i128) < end && (time as i128) + (length as i128) > start
}

/// Keeps the onsets at which a sound of `length` is heard between
/// `start` and `end`, in their order.
pub fn filter_times(times: &Vec<u64>, length: u64, start: i128, end: i128) -> (r: Vec<u64>)
    ensures
        r@ == overlapping(times@, length, start as int, end as int, times@.len()),
{
    let n = times.len();
    let mut kept: Vec<u64> = Vec::new();
    let mut k: usize = 0;
    while k < n
        invariant
            k <= n,
            n == times@.len(),
            kept@ == overlapping(times@, length, start as int, end as int, k as nat),
        decreases n - k,
    {
        if is_heard(times[k], length, start, end) {
            kept.push(times[k]);
        }
        k += 1;
    }
    kept
}

} // verus!
