//! The tempo interpreter: from musical positions to nanoseconds.

use crate::chart::{
    length_from, notes_ok, section_length, upcoming_change, BackgroundNote, Chart, SectionLength,
    DEFAULT_BPM, MILLION, SECTION_FACTOR,
};
use crate::time::{lemma_product_fits, ObjTime};
use vstd::prelude::*;

verus! {

/// What the interpreter remembers between two notes.
#[derive(Clone, Copy, Debug, PartialEq, Eq, Structural)]
pub struct WalkState {
    /// The tempo in force, in millionths of a beat per minute.
    pub bpm: u64,
    /// When the section of the last note began, in nanoseconds.
    pub section_start: u64,
    /// When the section after it begins.
    pub next_section_start: u64,
    /// The track of the last note.
    pub section: u64,
}

/// Tempo changes before this position set the opening tempo.
pub open spec fn seed_bound() -> ObjTime {
    ObjTime { track: 2, numerator: 0, denominator: 4 }
}

/// A tempo as read, or the fallback where it could not be read.
pub open spec fn bpm_or(bpm: Option<u64>, fallback: u64) -> u64 {
    match bpm {
        Some(v) => v,
        None => fallback,
    }
}

/// The opening tempo: that of the earliest tempo change if it lies before
/// the third track, else the declared one, else 130.
pub open spec fn seed_bpm(chart: Chart) -> u64 {
    let changes = chart.bpm_changes@;
    if changes.len() > 0 && changes[0].time.precedes(seed_bound()) {
        bpm_or(changes[0].bpm, DEFAULT_BPM)
    } else {
        bpm_or(chart.initial_bpm, DEFAULT_BPM)
    }
}

/// The state before the first note.
pub open spec fn seed(chart: Chart) -> WalkState {
    WalkState { bpm: seed_bpm(chart), section_start: 0, next_section_start: 0, section: 0 }
}

/// The length in nanoseconds of a section of `length` millionths of four
/// beats at `bpm` millionths of a beat per minute, rounded down.
pub open spec fn section_nanos(length: u64, bpm: u64) -> int {
    SECTION_FACTOR * length / (bpm as int)
}

/// When the section of `note` begins: a later track than the last one
/// opens the next section.
pub open spec fn section_start_for(st: WalkState, note: BackgroundNote) -> u64 {
    if st.section < note.offset.track {
        st.next_section_start
    } else {
        st.section_start
    }
}

/// The onset of `note`, in nanoseconds from the chart's origin.
pub open spec fn note_start(chart: Chart, st: WalkState, note: BackgroundNote) -> int {
    section_start_for(st, note) + section_nanos(
        section_length(chart.section_lengths@, note.offset.track),
        st.bpm,
    ) * note.offset.numerator / (note.offset.denominator as int)
}

/// When the section after that of `note` begins.
pub open spec fn note_section_end(chart: Chart, st: WalkState, note: BackgroundNote) -> int {
    section_start_for(st, note) + section_nanos(
        section_length(chart.section_lengths@, note.offset.track),
        st.bpm,
    )
}

/// The tempo after `note`: that of the first tempo change at or after it,
/// if there is one and it can be read.
pub open spec fn tempo_after(chart: Chart, st: WalkState, note: BackgroundNote) -> u64 {
    match upcoming_change(chart.bpm_changes@, note.offset) {
        Some(c) => bpm_or(c.bpm, st.bpm),
        None => st.bpm,
    }
}

/// The state after `note`, or `None` where a time exceeds 64 bits.
pub open spec fn step(chart: Chart, st: WalkState, note: BackgroundNote) -> Option<WalkState> {
    if note_start(chart, st, note) > u64::MAX || note_section_end(chart, st, note) > u64::MAX {
        None
    } else {
        Some(
            WalkState {
                bpm: tempo_after(chart, st, note),
                section_start: section_start_for(st, note),
                next_section_start: note_section_end(chart, st, note) as u64,
                section: if st.section < note.offset.track {
                    note.offset.track
                } else {
                    st.section
                },
            },
        )
    }
}

/// The state after the first `k` of `notes`.
pub open spec fn walk(chart: Chart, notes: Seq<BackgroundNote>, k: nat) -> Option<WalkState>
    decreases k,
{
    if k == 0 {
        Some(seed(chart))
    } else {
        match walk(chart, notes, (k - 1) as nat) {
            Some(st) => step(chart, st, notes[k - 1]),
            None => None,
        }
    }
}

/// The onset of note `k` of `notes`, where the walk reaches it.
pub open spec fn start_at(chart: Chart, notes: Seq<BackgroundNote>, k: nat) -> u64 {
    match walk(chart, notes, k) {
        Some(st) => note_start(chart, st, notes[k as int]) as u64,
        None => 0,
    }
}

impl WalkState {
    /// The state before the first note of `chart`.
    pub fn start(chart: &Chart) -> (r: WalkState)
        requires
            chart.wf(),
        ensures
            r == seed(*chart),
            r.bpm > 0,
    {
        let bound = ObjTime { track: 2, numerator: 0, denominator: 4 };
        let declared = if chart.bpm_changes.len() > 0 && chart.bpm_changes[0].time.is_before(
            &bound,
        ) {
            chart.bpm_changes[0].bpm
        } else {
            chart.initial_bpm
        };
        let bpm = match declared {
            Some(v) => v,
            None => DEFAULT_BPM,
        };
        WalkState { bpm, section_start: 0, next_section_start: 0, section: 0 }
    }

    /// Takes one note: its onset and the state after it, or `None` where a
    /// time exceeds 64 bits of nanoseconds.
    pub fn advance(&self, chart: &Chart, note: &BackgroundNote) -> (r: Option<(WalkState, u64)>)
        requires
            chart.wf(),
            self.bpm > 0,
            note.offset.wf(),
        ensures
            match r {
                Some((next, start)) => step(*chart, *self, *note) == Some(next) && start
                    == note_start(*chart, *self, *note) && next.bpm > 0,
                None => step(*chart, *self, *note).is_none(),
            },
    {
        let track = note.offset.track;
        let length = chart.find_section_length(track);
        let ghost sec = section_nanos(length, self.bpm);
        let scaled: u128 = (SECTION_FACTOR as u128) * (length as u128);
        let section: u128 = scaled / (self.bpm as u128);
        assert(section == sec);
        let current = if self.section < track {
            self.next_section_start
        } else {
            self.section_start
        };
        assert(sec >= 0);
        if section > u64::MAX as u128 {
            return None;
        }
        proof {
            lemma_product_fits(section as u64, note.offset.numerator);
        }
        let within: u128 = section * (note.offset.numerator as u128) / (
        note.offset.denominator as u128);
        assert(within == sec * note.offset.numerator / (note.offset.denominator as int));
        if within > u64::MAX as u128 {
            return None;
        }
        let start: u128 = current as u128 + within;
        let end: u128 = current as u128 + section;
        if start > u64::MAX as u128 || end > u64::MAX as u128 {
            return None;
        }
        let bpm = match chart.find_upcoming_change(&note.offset) {
            Some(c) => match c.bpm {
                Some(v) => v,
                None => self.bpm,
            },
            None => self.bpm,
        };
        proof {
            lemma_upcoming_is_member(chart.bpm_changes@, note.offset, 0);
        }
        let next = WalkState {
            bpm,
            section_start: current,
            next_section_start: end as u64,
            section: if self.section < track {
                track
            } else {
                self.section
            },
        };
        Some((next, start as u64))
    }
}

/// The tempo change that a search finds is one of the chart's.
pub proof fn lemma_upcoming_is_member(changes: Seq<crate::chart::BpmChange>, t: ObjTime, i: nat)
    ensures
        crate::chart::upcoming_from(changes, t, i) matches Some(c) ==> exists|j: int|
            0 <= j < changes.len() && changes[j] == c,
    decreases changes.len() - i,
{
    if i < changes.len() && changes[i as int].time.precedes(t) {
        lemma_upcoming_is_member(changes, t, i + 1);
    }
}

/// Where every entry has the usual length, so has every track.
pub proof fn lemma_usual_length(lengths: Seq<SectionLength>, track: u64, i: nat)
    requires
        forall|j: int| 0 <= j < lengths.len() ==> (#[trigger] lengths[j]).length == MILLION,
    ensures
        length_from(lengths, track, i) == MILLION,
    decreases lengths.len() - i,
{
    if i < lengths.len() && lengths[i as int].track != track {
        lemma_usual_length(lengths, track, i + 1);
    }
}

/// The notes come in ascending order of position.
pub open spec fn ascending(notes: Seq<BackgroundNote>) -> bool {
    forall|i: int, j: int|
        0 <= i < j < notes.len() ==> !(#[trigger] notes[j]).offset.precedes(
            (#[trigger] notes[i]).offset,
        )
}

/// No track is left out: the notes begin in track 0, and each is in the
/// track of the note before it or in the next one.
pub open spec fn gapless(notes: Seq<BackgroundNote>) -> bool {
    &&& notes.len() > 0 ==> notes[0].offset.track == 0
    &&& forall|i: int|
        0 < i < notes.len() ==> (#[trigger] notes[i]).offset.track <= notes[i - 1].offset.track + 1
}

/// The chart has the one tempo `b` and sections of the usual length.
pub open spec fn steady(chart: Chart, b: u64) -> bool {
    &&& b > 0
    &&& seed_bpm(chart) == b
    &&& forall|i: int|
        0 <= i < chart.bpm_changes@.len() ==> bpm_or(
            (#[trigger] chart.bpm_changes@[i]).bpm,
            b,
        ) == b
    &&& forall|i: int|
        0 <= i < chart.section_lengths@.len() ==> (#[trigger] chart.section_lengths@[i]).length
            == MILLION
}

/// Under one tempo, with sections of the usual length and no track left
/// out, the walk has after `k` notes the tempo it began with, and its
/// sections begin at whole multiples of the section length.
pub proof fn lemma_steady_walk(chart: Chart, notes: Seq<BackgroundNote>, b: u64, k: nat)
    requires
        chart.wf(),
        notes_ok(notes),
        ascending(notes),
        gapless(notes),
        steady(chart, b),
        k <= notes.len(),
        walk(chart, notes, k).is_some(),
    ensures
        ({
            let st = walk(chart, notes, k).unwrap();
            let s = section_nanos(MILLION, b);
            &&& st.bpm == b
            &&& k == 0 ==> st == seed(chart)
            &&& k > 0 ==> st.section == notes[k - 1].offset.track && st.section_start == s
                * st.section && st.next_section_start == s * (st.section + 1)
        }),
    decreases k,
{
    if k > 0 {
        let j = (k - 1) as nat;
        lemma_steady_walk(chart, notes, b, j);
        let before = walk(chart, notes, j).unwrap();
        let note = notes[j as int];
        let st = walk(chart, notes, k).unwrap();
        let s = section_nanos(MILLION, b);
        let t = note.offset.track;
        assert(step(chart, before, note) == Some(st));
        lemma_usual_length(chart.section_lengths@, t, 0);
        lemma_upcoming_is_member(chart.bpm_changes@, note.offset, 0);
        assert(st.bpm == b);
        if j == 0 {
            assert(t == 0);
            assert(st.section_start == 0);
        } else {
            let last = notes[j - 1];
            assert(!notes[j as int].offset.precedes(notes[j - 1].offset));
            assert(last.offset.track <= t <= last.offset.track + 1);
        }
        assert(st.section == t);
        assert(st.section_start == s * t) by (nonlinear_arith)
            requires
                j == 0 ==> st.section_start == 0 && t == 0,
                j > 0 ==> (st.section_start == s * before.section && t == before.section) || (
                st.section_start == s * (before.section + 1) && t == before.section + 1),
        ;
        assert(st.next_section_start == s * (t + 1)) by (nonlinear_arith)
            requires
                st.next_section_start == st.section_start + s,
                st.section_start == s * t,
        ;
    }
}

/// With one tempo `b` throughout, every section of the usual length and no
/// track left out, a note sounds at the section length times its track,
/// plus its fraction of one section.
pub proof fn lemma_constant_tempo(chart: Chart, notes: Seq<BackgroundNote>, b: u64, k: nat)
    requires
        chart.wf(),
        notes_ok(notes),
        ascending(notes),
        gapless(notes),
        steady(chart, b),
        k < notes.len(),
        walk(chart, notes, k + 1).is_some(),
    ensures
        start_at(chart, notes, k) == section_nanos(MILLION, b) * notes[k as int].offset.track
            + section_nanos(MILLION, b) * notes[k as int].offset.numerator / (
        notes[k as int].offset.denominator as int),
{
    let s = section_nanos(MILLION, b);
    let note = notes[k as int];
    let t = note.offset.track;
    assert(walk(chart, notes, k).is_some());
    lemma_steady_walk(chart, notes, b, k);
    lemma_steady_walk(chart, notes, b, k + 1);
    let before = walk(chart, notes, k).unwrap();
    let after = walk(chart, notes, k + 1).unwrap();
    assert(step(chart, before, note) == Some(after));
    lemma_usual_length(chart.section_lengths@, t, 0);
    assert(after.section_start == section_start_for(before, note));
    assert(after.section == t);
    assert(section_start_for(before, note) == s * t);
}

} // verus!
