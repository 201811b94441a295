//! The preview renderer: from a chart and its decoded sounds to the
//! blocks that an encoder takes.

use crate::audio::{
    attenuated, fade_samples, faded_in, faded_out, mixed, sample_count, sample_offset,
    time_to_samples, required_samples, StereoAudio,
};
use crate::chart::Chart;
use crate::encode::EncodePlan;
use crate::errors::AudioError;
use crate::sample::StereoSample;
use crate::timing::{get_wav_timings, TimingMap};
use crate::order::stable_sorted;
use crate::paths::{file_exists, join, path_joined};
use crate::tempo::walk;
use crate::window::{
    choose_rate, effective_rate, is_heard, measure_song, overlaps, preview_window, resolve_window,
    song_length, Args, Source,
};
use vstd::prelude::*;

verus! {

/// A chart and the directory it lies in.
#[derive(Clone, Debug)]
pub struct Renderer {
    pub chart: Chart,
    pub base_path: String,
}

/// `dst` with `src` mixed in at each of the first `k` onsets at which it
/// is heard between `start` and `end`; sample 0 of `dst` is at `start`.
pub open spec fn mixed_times(
    dst: Seq<StereoSample>,
    src: Seq<StereoSample>,
    rate: u32,
    times: Seq<u64>,
    length: u64,
    start: int,
    end: int,
    k: nat,
) -> Seq<StereoSample>
    decreases k,
{
    if k == 0 {
        dst
    } else {
        let before = mixed_times(dst, src, rate, times, length, start, end, (k - 1) as nat);
        if overlaps(times[k - 1], length, start, end) {
            mixed(before, src, time_to_samples(times[k - 1] - start, rate), 1)
        } else {
            before
        }
    }
}

/// `dst` with the first `k` sources mixed in: each that tells its length,
/// was decoded and is at the rate of `dst`.
pub open spec fn mixed_sources(
    dst: Seq<StereoSample>,
    sources: Seq<Source>,
    rate: u32,
    start: int,
    end: int,
    k: nat,
) -> Seq<StereoSample>
    decreases k,
{
    if k == 0 {
        dst
    } else {
        let before = mixed_sources(dst, sources, rate, start, end, (k - 1) as nat);
        let s = sources[k - 1];
        match (s.length(), s.audio) {
            (Some(length), Some(audio)) => if audio.sample_rate == rate {
                mixed_times(
                    before,
                    audio.buffer@,
                    rate,
                    s.times@,
                    length,
                    start,
                    end,
                    s.times@.len(),
                )
            } else {
                before
            },
            _ => before,
        }
    }
}

/// The window is short enough for a buffer that memory can address.
pub open spec fn window_fits(args: Args, sources: Seq<Source>) -> bool {
    let (start, end) = preview_window(args, song_length(sources, sources.len()));
    let rate = effective_rate(args.sample_rate, sources);
    end - start <= u64::MAX && sample_count((end - start) as u64, rate) <= usize::MAX
}

/// The sound of the preview: silence of the window's length, the sources
/// mixed in, faded in and out, and brought to the volume.
pub open spec fn rendered(args: Args, sources: Seq<Source>) -> Seq<StereoSample> {
    let (start, end) = preview_window(args, song_length(sources, sources.len()));
    let rate = effective_rate(args.sample_rate, sources);
    let silent = Seq::new(
        sample_count((end - start) as u64, rate) as nat,
        |i: int| StereoSample::zero(),
    );
    let mix = mixed_sources(silent, sources, rate, start, end, sources.len());
    let risen = faded_in(mix, fade_samples(args.fade_in, rate, mix.len()) as int);
    let fallen = faded_out(risen, fade_samples(args.fade_out, rate, mix.len()) as int);
    attenuated(fallen, (args.volume / 100) as u64)
}

/// Mixes `audio` into `buf` at each onset at which it is heard between
/// `start` and `end`, where sample 0 of `buf` is at `start`. Sound at
/// another sample rate is left out.
pub fn mix_source(
    buf: &mut StereoAudio,
    audio: &StereoAudio,
    times: &Vec<u64>,
    length: u64,
    start: i128,
    end: i128,
)
    requires
        -0x8000_0000_0000_0000 <= start <= 0x1_0000_0000_0000_0000_0000,
    ensures
        final(buf).sample_rate == old(buf).sample_rate,
        audio.sample_rate != old(buf).sample_rate ==> final(buf).buffer@ == old(buf).buffer@,
        audio.sample_rate == old(buf).sample_rate ==> final(buf).buffer@ == mixed_times(
            old(buf).buffer@,
            audio.buffer@,
            audio.sample_rate,
            times@,
            length,
            start as int,
            end as int,
            times@.len(),
        ),
{
    if audio.sample_rate != buf.sample_rate {
        return ;
    }
    let rate = buf.sample_rate;
    let n = times.len();
    let mut k: usize = 0;
    while k < n
        invariant
            k <= n,
            n == times@.len(),
            -0x8000_0000_0000_0000 <= start <= 0x1_0000_0000_0000_0000_0000,
            rate == audio.sample_rate,
            buf.sample_rate == rate,
            buf.buffer@ == mixed_times(
                old(buf).buffer@,
                audio.buffer@,
                rate,
                times@,
                length,
                start as int,
                end as int,
                k as nat,
            ),
        decreases n - k,
    {
        let time = times[k];
        if is_heard(time, length, start, end) {
            let raw = sample_offset(time as i128 - start, rate);
            let _ = buf.add_samples(audio, raw);
        }
        k += 1;
    }
}

impl Renderer {
    /// A renderer for `chart`, which lies in `base_path`.
    pub fn new(chart: Chart, base_path: String) -> (r: Renderer)
        ensures
            r.chart == chart,
            r.base_path == base_path,
    {
        Renderer { chart, base_path }
    }

    /// When each sound file of the chart sounds.
    pub fn get_wav_timings(&self) -> (r: Option<TimingMap>)
        requires
            self.chart.wf(),
        ensures
            ({
                let notes = stable_sorted(self.chart.background_notes@);
                match r {
                    Some(m) => walk(self.chart, notes, notes.len()).is_some() && m.wf()
                        && m.records(self.chart, notes, notes.len()),
                    None => walk(self.chart, notes, notes.len()).is_none(),
                }
            }),
    {
        get_wav_timings(&self.chart)
    }

    /// Where the preview of the chart is written: next to the chart.
    pub fn preview_path(&self, args: &Args) -> (r: String)
        ensures
            r@ == path_joined(self.base_path@, args.preview_file@),
    {
        join(&self.base_path, &args.preview_file)
    }

    /// Where the sound file lies that the chart names `name`.
    pub fn sound_path(&self, name: &String) -> (r: String)
        ensures
            r@ == path_joined(self.base_path@, name@),
    {
        join(&self.base_path, name)
    }

    /// Whether a preview is there already. Nothing is claimed of the answer.
    pub fn preview_exists(&self, args: &Args) -> (r: bool) {
        let path = self.preview_path(args);
        file_exists(&path)
    }

    /// Nothing is rendered for a chart that names a preview of its own,
    /// nor over a preview that exists unless it may be overwritten.
    pub open spec fn skips(self, args: Args, preview_exists: bool) -> bool {
        self.chart.declared_preview.is_some() || (!args.overwrite && preview_exists)
    }

    /// Decides `skips`.
    pub fn should_skip(&self, args: &Args, preview_exists: bool) -> (r: bool)
        ensures
            r == self.skips(*args, preview_exists),
    {
        self.chart.declared_preview.is_some() || (!args.overwrite && preview_exists)
    }

    /// Renders the preview of the chart from its sources, one for each
    /// sound file of the timing map: the sounds are mixed into a silent
    /// buffer of the window's length, which is then faded, brought to
    /// the volume and cut into blocks for the encoder. `Ok(None)` where
    /// nothing is to be rendered.
    pub fn process_bms_file(&self, args: &Args, preview_exists: bool, sources: &Vec<Source>) -> (r:
        Result<Option<EncodePlan>, AudioError>)
        requires
            forall|i: int| 0 <= i < sources@.len() ==> (#[trigger] sources@[i]).wf(),
        ensures
            self.skips(*args, preview_exists) ==> r matches Ok(None),
            !self.skips(*args, preview_exists) && !window_fits(*args, sources@) ==> r matches Err(
                AudioError::InvalidAudioSize(),
            ),
            !self.skips(*args, preview_exists) && window_fits(*args, sources@) && effective_rate(
                args.sample_rate,
                sources@,
            ) == 0 ==> r matches Err(AudioError::InvalidCodecInfo()),
            !self.skips(*args, preview_exists) && window_fits(*args, sources@) && effective_rate(
                args.sample_rate,
                sources@,
            ) != 0 ==> (r matches Ok(Some(plan)) && plan.describes(
                rendered(*args, sources@),
                effective_rate(args.sample_rate, sources@),
                args.mono_audio,
            )),
    {
        if self.should_skip(args, preview_exists) {
            return Ok(None);
        }
        let length = measure_song(sources);
        let rate = choose_rate(args.sample_rate, sources);
        let (start, end) = resolve_window(args, length);
        let span: i128 = end - start;
        if span > u64::MAX as i128 {
            return Err(AudioError::InvalidAudioSize());
        }
        if required_samples(span as u64, rate).is_none() {
            return Err(AudioError::InvalidAudioSize());
        }
        let mut render = StereoAudio::new(span as u64, rate);
        let ghost silent = render.buffer@;
        let n = sources.len();
        let mut i: usize = 0;
        while i < n
            invariant
                i <= n,
                n == sources@.len(),
                forall|j: int| 0 <= j < sources@.len() ==> (#[trigger] sources@[j]).wf(),
                -0x8000_0000_0000_0000 <= start <= 0x1_0000_0000_0000_0000_0000,
                render.sample_rate == rate,
                render.buffer@ == mixed_sources(
                    silent,
                    sources@,
                    rate,
                    start as int,
                    end as int,
                    i as nat,
                ),
            decreases n - i,
        {
            let source = &sources[i];
            let known = match source.probe {
                Some(p) => p.get_length(),
                None => None,
            };
            if let Some(length) = known {
                if let Some(audio) = &source.audio {
                    mix_source(&mut render, audio, &source.times, length, start, end);
                }
            }
            i += 1;
        }
        render.fade(args.fade_in, args.fade_out);
        render.attenuate(args.volume / 100);
        assert(render.buffer@ == rendered(*args, sources@));
        match render.encode(args.mono_audio) {
            Ok(plan) => Ok(Some(plan)),
            Err(e) => Err(e),
        }
    }
}

} // verus!
