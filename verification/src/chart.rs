//! The part of a parsed chart that preview rendering reads.

use crate::time::ObjTime;
use vstd::prelude::*;

verus! {

/// One section is four beats; sixty seconds make a minute; times are
/// nanoseconds and tempi are millionths of a beat per minute.
pub const SECTION_FACTOR: u64 = 240_000_000_000;

/// The unit of every fixed-point fraction: one million.
pub const MILLION: u64 = 1_000_000;

/// The tempo of a chart that declares none: 130 beats per minute.
pub const DEFAULT_BPM: u64 = 130_000_000;

/// A tempo change. `bpm` is in millionths of a beat per minute, and is
/// `None` where the chart's value could not be read as a positive number.
#[derive(Clone, Copy, Debug, PartialEq, Eq, Structural)]
pub struct BpmChange {
    pub time: ObjTime,
    pub bpm: Option<u64>,
}

/// The length of one track, in millionths of the usual four beats.
#[derive(Clone, Copy, Debug, PartialEq, Eq, Structural)]
pub struct SectionLength {
    pub track: u64,
    pub length: u64,
}

/// A background sample scheduled at a position.
#[derive(Clone, Copy, Debug, PartialEq, Eq, Structural)]
pub struct BackgroundNote {
    pub offset: ObjTime,
    pub wav_id: u64,
}

/// A sample definition: an id and the file it names.
#[derive(Clone, Debug)]
pub struct WavFile {
    pub id: u64,
    pub path: String,
}

/// A chart as the renderer sees it.
#[derive(Clone, Debug)]
pub struct Chart {
    /// Opening tempo in millionths of a beat per minute, if declared.
    pub initial_bpm: Option<u64>,
    /// Tempo changes in strictly ascending order of position.
    pub bpm_changes: Vec<BpmChange>,
    /// Section lengths in strictly ascending order of track.
    pub section_lengths: Vec<SectionLength>,
    /// Background samples, in no particular order.
    pub background_notes: Vec<BackgroundNote>,
    /// Sample definitions, each id at most once.
    pub wav_files: Vec<WavFile>,
    /// The preview that the chart itself names, if any.
    pub declared_preview: Option<String>,
}

/// A tempo, where present, is positive.
pub open spec fn bpm_ok(bpm: Option<u64>) -> bool {
    bpm matches Some(v) ==> v > 0
}

/// Tempo changes are well formed, readable ones are positive, and
/// positions strictly ascend.
pub open spec fn changes_ok(changes: Seq<BpmChange>) -> bool {
    &&& forall|i: int| 0 <= i < changes.len() ==> (#[trigger] changes[i]).time.wf() && bpm_ok(changes[i].bpm)
    &&& forall|i: int|
        0 < i < changes.len() ==> changes[i - 1].time.precedes((#[trigger] changes[i]).time)
}

/// Section lengths strictly ascend by track.
pub open spec fn lengths_ok(lengths: Seq<SectionLength>) -> bool {
    forall|i: int| 0 < i < lengths.len() ==> lengths[i - 1].track < (#[trigger] lengths[i]).track
}

/// Every note has a well-formed position.
pub open spec fn notes_ok(notes: Seq<BackgroundNote>) -> bool {
    forall|i: int| 0 <= i < notes.len() ==> (#[trigger] notes[i]).offset.wf()
}

/// No two sample definitions share an id.
pub open spec fn wavs_ok(files: Seq<WavFile>) -> bool {
    forall|i: int, j: int|
        0 <= i < j < files.len() ==> (#[trigger] files[i]).id != (#[trigger] files[j]).id
}

/// The first tempo change from index `i` on that does not precede `t`.
pub open spec fn upcoming_from(changes: Seq<BpmChange>, t: ObjTime, i: nat) -> Option<BpmChange>
    decreases changes.len() - i,
{
    if i >= changes.len() {
        None
    } else if !changes[i as int].time.precedes(t) {
        Some(changes[i as int])
    } else {
        upcoming_from(changes, t, i + 1)
    }
}

/// The first tempo change at or after `t`.
pub open spec fn upcoming_change(changes: Seq<BpmChange>, t: ObjTime) -> Option<BpmChange> {
    upcoming_from(changes, t, 0)
}

/// The length of `track` among the entries from index `i` on; one million
/// where none names the track.
pub open spec fn length_from(lengths: Seq<SectionLength>, track: u64, i: nat) -> u64
    decreases lengths.len() - i,
{
    if i >= lengths.len() {
        MILLION
    } else if lengths[i as int].track == track {
        lengths[i as int].length
    } else {
        length_from(lengths, track, i + 1)
    }
}

/// The length of `track`, in millionths of four beats.
pub open spec fn section_length(lengths: Seq<SectionLength>, track: u64) -> u64 {
    length_from(lengths, track, 0)
}

/// The file of sample `id` among the definitions from index `i` on.
pub open spec fn wav_from(files: Seq<WavFile>, id: u64, i: nat) -> Option<Seq<char>>
    decreases files.len() - i,
{
    if i >= files.len() {
        None
    } else if files[i as int].id == id {
        Some(files[i as int].path@)
    } else {
        wav_from(files, id, i + 1)
    }
}

/// The file that sample `id` names, if the chart defines it.
pub open spec fn wav_path(files: Seq<WavFile>, id: u64) -> Option<Seq<char>> {
    wav_from(files, id, 0)
}

impl Chart {
    /// The validity of a chart: what an ordered map and a keyed table give
    /// for free, and that tempi are positive.
    pub open spec fn wf(self) -> bool {
        &&& bpm_ok(self.initial_bpm)
        &&& changes_ok(self.bpm_changes@)
        &&& lengths_ok(self.section_lengths@)
        &&& notes_ok(self.background_notes@)
        &&& wavs_ok(self.wav_files@)
    }

    /// Decides `wf`.
    pub fn check(&self) -> (r: bool)
        ensures
            r == self.wf(),
    {
        if let Some(v) = self.initial_bpm {
            if v == 0 {
                return false;
            }
        }
        let n = self.bpm_changes.len();
        let mut i: usize = 0;
        while i < n
            invariant
                i <= n,
                n == self.bpm_changes@.len(),
                forall|j: int|
                    0 <= j < i ==> (#[trigger] self.bpm_changes@[j]).time.wf() && bpm_ok(
                        self.bpm_changes@[j].bpm,
                    ),
                forall|j: int|
                    0 < j < i ==> self.bpm_changes@[j - 1].time.precedes(
                        (#[trigger] self.bpm_changes@[j]).time,
                    ),
            decreases n - i,
        {
            let c = self.bpm_changes[i];
            let positive = match c.bpm {
                Some(v) => v > 0,
                None => true,
            };
            if c.time.denominator == 0 || !positive {
                assert(!(self.bpm_changes@[i as int].time.wf() && bpm_ok(
                    self.bpm_changes@[i as int].bpm,
                )));
                return false;
            }
            if i > 0 && !self.bpm_changes[i - 1].time.is_before(&c.time) {
                assert(!self.bpm_changes@[i as int - 1].time.precedes(
                    self.bpm_changes@[i as int].time,
                ));
                return false;
            }
            i += 1;
        }
        let n = self.section_lengths.len();
        let mut i: usize = 1;
        while i < n
            invariant
                1 <= i,
                n == self.section_lengths@.len(),
                forall|j: int|
                    0 < j < i && j < n ==> self.section_lengths@[j - 1].track < (
                    #[trigger] self.section_lengths@[j]).track,
            decreases n - i,
        {
            if self.section_lengths[i - 1].track >= self.section_lengths[i].track {
                assert(!(self.section_lengths@[i as int - 1].track
                    < self.section_lengths@[i as int].track));
                return false;
            }
            i += 1;
        }
        let n = self.background_notes.len();
        let mut i: usize = 0;
        while i < n
            invariant
                i <= n,
                n == self.background_notes@.len(),
                forall|j: int| 0 <= j < i ==> (#[trigger] self.background_notes@[j]).offset.wf(),
            decreases n - i,
        {
            if self.background_notes[i].offset.denominator == 0 {
                assert(!self.background_notes@[i as int].offset.wf());
                return false;
            }
            i += 1;
        }
        let n = self.wav_files.len();
        let mut i: usize = 0;
        while i < n
            invariant
                i <= n,
                n == self.wav_files@.len(),
                forall|a: int, b: int|
                    0 <= a < b < i ==> (#[trigger] self.wav_files@[a]).id != (
                    #[trigger] self.wav_files@[b]).id,
            decreases n - i,
        {
            let mut k: usize = 0;
            while k < i
                invariant
                    k <= i < n,
                    n == self.wav_files@.len(),
                    forall|a: int|
                        0 <= a < k ==> (#[trigger] self.wav_files@[a]).id
                            != self.wav_files@[i as int].id,
                decreases i - k,
            {
                if self.wav_files[k].id == self.wav_files[i].id {
                    assert(self.wav_files@[k as int].id == self.wav_files@[i as int].id);
                    return false;
                }
                k += 1;
            }
            i += 1;
        }
        true
    }

    /// The first tempo change at or after `t`.
    pub fn find_upcoming_change(&self, t: &ObjTime) -> (r: Option<BpmChange>)
        ensures
            r == upcoming_change(self.bpm_changes@, *t),
    {
        let n = self.bpm_changes.len();
        let mut i: usize = 0;
        while i < n
            invariant
                n == self.bpm_changes@.len(),
                i <= n,
                upcoming_change(self.bpm_changes@, *t) == upcoming_from(
                    self.bpm_changes@,
                    *t,
                    i as nat,
                ),
            decreases n - i,
        {
            let c = self.bpm_changes[i];
            if !c.time.is_before(t) {
                return Some(c);
            }
            i += 1;
        }
        None
    }

    /// The length of `track`, in millionths of four beats.
    pub fn find_section_length(&self, track: u64) -> (r: u64)
        ensures
            r == section_length(self.section_lengths@, track),
    {
        let n = self.section_lengths.len();
        let mut i: usize = 0;
        while i < n
            invariant
                n == self.section_lengths@.len(),
                i <= n,
                section_length(self.section_lengths@, track) == length_from(
                    self.section_lengths@,
                    track,
                    i as nat,
                ),
            decreases n - i,
        {
            let s = self.section_lengths[i];
            if s.track == track {
                return s.length;
            }
            i += 1;
        }
        MILLION
    }

    /// The index of the definition of sample `id`, if the chart has one.
    pub fn find_wav(&self, id: u64) -> (r: Option<usize>)
        ensures
            match r {
                Some(i) => i < self.wav_files@.len() && self.wav_files@[i as int].id == id
                    && wav_path(self.wav_files@, id) == Some(self.wav_files@[i as int].path@),
                None => wav_path(self.wav_files@, id).is_none(),
            },
    {
        let n = self.wav_files.len();
        let mut i: usize = 0;
        while i < n
            invariant
                n == self.wav_files@.len(),
                i <= n,
                wav_path(self.wav_files@, id) == wav_from(self.wav_files@, id, i as nat),
            decreases n - i,
        {
            if self.wav_files[i].id == id {
                return Some(i);
            }
            i += 1;
        }
        None
    }
}

} // verus!
