//! The timing map: for each sample file, when it sounds.

use crate::chart::{wav_path, BackgroundNote, Chart};
use crate::order::{lemma_sorted_members, lemma_sorted_notes_ok, sort_by_offset, stable_sorted};
use crate::tempo::{start_at, walk, WalkState};
use vstd::prelude::*;

verus! {

/// One sample file and the onsets of its notes, in nanoseconds.
#[derive(Clone, Debug)]
pub struct TimingEntry {
    pub path: String,
    pub times: Vec<u64>,
}

/// The onsets of a chart's background samples, file by file.
#[derive(Clone, Debug)]
pub struct TimingMap {
    pub entries: Vec<TimingEntry>,
}

/// The onsets, in order, of those of the first `k` notes that play `path`.
pub open spec fn times_for(
    chart: Chart,
    notes: Seq<BackgroundNote>,
    path: Seq<char>,
    k: nat,
) -> Seq<u64>
    decreases k,
{
    if k == 0 {
        Seq::empty()
    } else {
        let before = times_for(chart, notes, path, (k - 1) as nat);
        if wav_path(chart.wav_files@, notes[k - 1].wav_id) == Some(path) {
            before.push(start_at(chart, notes, (k - 1) as nat))
        } else {
            before
        }
    }
}

impl TimingMap {
    /// The map has an entry for `path`.
    pub open spec fn has(self, path: Seq<char>) -> bool {
        exists|i: int| 0 <= i < self.entries@.len() && (#[trigger] self.entries@[i]).path@ == path
    }

    /// No file has two entries, and no entry is empty.
    pub open spec fn wf(self) -> bool {
        &&& forall|i: int, j: int|
            0 <= i < j < self.entries@.len() ==> (#[trigger] self.entries@[i]).path@ != (
            #[trigger] self.entries@[j]).path@
        &&& forall|i: int|
            0 <= i < self.entries@.len() ==> (#[trigger] self.entries@[i]).times@.len() > 0
    }

    /// The map holds exactly the onsets of the first `k` notes: each entry
    /// lists those of its file, and every file that sounds has an entry.
    pub open spec fn records(self, chart: Chart, notes: Seq<BackgroundNote>, k: nat) -> bool {
        &&& forall|i: int|
            0 <= i < self.entries@.len() ==> (#[trigger] self.entries@[i]).times@ == times_for(
                chart,
                notes,
                self.entries@[i].path@,
                k,
            )
        &&& forall|p: Seq<char>| #[trigger] times_for(chart, notes, p, k).len() > 0 ==> self.has(p)
    }

    /// A map without entries.
    pub fn new() -> (r: TimingMap)
        ensures
            r.entries@.len() == 0,
            r.wf(),
    {
        TimingMap { entries: Vec::new() }
    }

    /// The index of the entry for `path`.
    pub fn find(&self, path: &String) -> (r: Option<usize>)
        ensures
            match r {
                Some(i) => i < self.entries@.len() && self.entries@[i as int].path@ == path@,
                None => !self.has(path@),
            },
    {
        let n = self.entries.len();
        let mut i: usize = 0;
        while i < n
            invariant
                n == self.entries@.len(),
                i <= n,
                forall|j: int| 0 <= j < i ==> (#[trigger] self.entries@[j]).path@ != path@,
            decreases n - i,
        {
            if self.entries[i].path == *path {
                return Some(i);
            }
            i += 1;
        }
        None
    }

    /// `after` is `self` with one more onset for `path`, behind those
    /// already there; a file not yet in the map gets a new last entry.
    pub open spec fn with_onset(self, after: TimingMap, path: Seq<char>, time: u64) -> bool {
        &&& after.entries@.len() == self.entries@.len() + (if self.has(path) {
            0int
        } else {
            1int
        })
        &&& forall|i: int|
            0 <= i < self.entries@.len() ==> (#[trigger] after.entries@[i]).path@
                == self.entries@[i].path@ && after.entries@[i].times@ == (if self.entries@[i].path@
                == path {
                self.entries@[i].times@.push(time)
            } else {
                self.entries@[i].times@
            })
        &&& !self.has(path) ==> after.entries@.last().path@ == path
            && after.entries@.last().times@ == seq![time]
    }

    /// Adds one onset for `path`, behind those already there.
    pub fn record(&mut self, path: &String, time: u64)
        requires
            old(self).wf(),
        ensures
            final(self).wf(),
            old(self).with_onset(*final(self), path@, time),
    {
        match self.find(path) {
            Some(i) => {
                self.entries[i].times.push(time);
            },
            None => {
                let mut times: Vec<u64> = Vec::new();
                times.push(time);
                self.entries.push(TimingEntry { path: path.clone(), times });
            },
        }
    }
}

/// Once a time has exceeded 64 bits, the walk has no later state.
pub proof fn lemma_walk_stays_failed(chart: Chart, notes: Seq<BackgroundNote>, k: nat, m: nat)
    requires
        walk(chart, notes, k).is_none(),
        k <= m,
    ensures
        walk(chart, notes, m).is_none(),
    decreases m,
{
    if k < m {
        lemma_walk_stays_failed(chart, notes, k, (m - 1) as nat);
    }
}

/// Interprets the tempo map of `chart`: the onset of every background note
/// whose sample is defined, grouped by sample file. Notes are taken by
/// ascending position. `None` where a time exceeds 64 bits of nanoseconds.
pub fn get_wav_timings(chart: &Chart) -> (r: Option<TimingMap>)
    requires
        chart.wf(),
    ensures
        ({
            let notes = stable_sorted(chart.background_notes@);
            match r {
                Some(m) => walk(*chart, notes, notes.len()).is_some() && m.wf() && m.records(
                    *chart,
                    notes,
                    notes.len(),
                ),
                None => walk(*chart, notes, notes.len()).is_none(),
            }
        }),
{
    let notes = sort_by_offset(&chart.background_notes);
    proof {
        lemma_sorted_notes_ok(chart.background_notes@);
    }
    let mut map = TimingMap::new();
    let mut st = WalkState::start(chart);
    let n = notes.len();
    let mut k: usize = 0;
    while k < n
        invariant
            chart.wf(),
            n == notes@.len(),
            k <= n,
            crate::chart::notes_ok(notes@),
            notes@ == stable_sorted(chart.background_notes@),
            walk(*chart, notes@, k as nat) == Some(st),
            st.bpm > 0,
            map.wf(),
            map.records(*chart, notes@, k as nat),
        decreases n - k,
    {
        let note = notes[k];
        match st.advance(chart, &note) {
            None => {
                proof {
                    assert(walk(*chart, notes@, (k + 1) as nat).is_none());
                    lemma_walk_stays_failed(*chart, notes@, (k + 1) as nat, n as nat);
                }
                return None;
            },
            Some((next, start)) => {
                assert(walk(*chart, notes@, (k + 1) as nat) == Some(next));
                assert(start == start_at(*chart, notes@, k as nat));
                let ghost before = map;
                let ghost found = wav_path(chart.wav_files@, note.wav_id);
                match chart.find_wav(note.wav_id) {
                    Some(w) => {
                        map.record(&chart.wav_files[w].path, start);
                    },
                    None => {},
                }
                proof {
                    let k1 = (k + 1) as nat;
                    assert forall|p: Seq<char>| #[trigger]
                        times_for(*chart, notes@, p, k1).len() > 0 implies map.has(p) by {
                        if found == Some(p) {
                            if before.has(p) {
                                let i = choose|i: int|
                                    0 <= i < before.entries@.len() && (
                                    #[trigger] before.entries@[i]).path@ == p;
                                assert(map.entries@[i].path@ == p);
                            } else {
                                assert(map.entries@[map.entries@.len() - 1].path@ == p);
                            }
                        } else {
                            assert(times_for(*chart, notes@, p, k as nat).len() > 0);
                            assert(before.has(p));
                            let i = choose|i: int|
                                0 <= i < before.entries@.len() && (
                                #[trigger] before.entries@[i]).path@ == p;
                            assert(map.entries@[i].path@ == p);
                        }
                    }
                    assert forall|i: int| 0 <= i < map.entries@.len() implies (
                    #[trigger] map.entries@[i]).times@ == times_for(
                        *chart,
                        notes@,
                        map.entries@[i].path@,
                        k1,
                    ) by {
                        let p = map.entries@[i].path@;
                        if i < before.entries@.len() {
                            assert(before.entries@[i].times@ == times_for(
                                *chart,
                                notes@,
                                before.entries@[i].path@,
                                k as nat,
                            ));
                        } else {
                            assert(found == Some(p));
                            assert(!before.has(p));
                            assert(times_for(*chart, notes@, p, k as nat).len() == 0);
                            assert(times_for(*chart, notes@, p, k1) =~= seq![start]);
                        }
                    }
                }
                st = next;
            },
        }
        k += 1;
    }
    Some(map)
}

/// The onset of a note that plays `path` is among the onsets for `path`.
pub proof fn lemma_onset_listed(
    chart: Chart,
    notes: Seq<BackgroundNote>,
    path: Seq<char>,
    k: nat,
    j: nat,
)
    requires
        j < k <= notes.len(),
        wav_path(chart.wav_files@, notes[j as int].wav_id) == Some(path),
    ensures
        times_for(chart, notes, path, k).contains(start_at(chart, notes, j)),
    decreases k,
{
    let now = times_for(chart, notes, path, k);
    let before = times_for(chart, notes, path, (k - 1) as nat);
    if j == k - 1 {
        assert(now[now.len() - 1] == start_at(chart, notes, j));
    } else {
        lemma_onset_listed(chart, notes, path, (k - 1) as nat, j);
        let i = choose|i: int| 0 <= i < before.len() && before[i] == start_at(chart, notes, j);
        assert(now[i] == start_at(chart, notes, j));
    }
}

/// The timing map leaves out no note whose sample is defined: note `i` of
/// the chart stands at some place `j` among the sorted notes, and its onset
/// there is listed under the file of its sample. Onsets are unsigned, so
/// none is negative.
pub proof fn lemma_timings_total(chart: Chart, map: TimingMap, i: int)
    requires
        chart.wf(),
        map.records(
            chart,
            stable_sorted(chart.background_notes@),
            stable_sorted(chart.background_notes@).len(),
        ),
        0 <= i < chart.background_notes@.len(),
        wav_path(chart.wav_files@, chart.background_notes@[i].wav_id).is_some(),
    ensures
        ({
            let notes = stable_sorted(chart.background_notes@);
            let path = wav_path(chart.wav_files@, chart.background_notes@[i].wav_id).unwrap();
            exists|j: int, e: int|
                0 <= j < notes.len() && notes[j] == chart.background_notes@[i] && 0 <= e
                    < map.entries@.len() && (#[trigger] map.entries@[e]).path@ == path
                    && map.entries@[e].times@.contains(#[trigger] start_at(chart, notes, j as nat))
                    && start_at(chart, notes, j as nat) >= 0
        }),
{
    let given = chart.background_notes@;
    let notes = stable_sorted(given);
    let note = given[i];
    let path = wav_path(chart.wav_files@, note.wav_id).unwrap();
    lemma_sorted_members(given);
    assert(given.contains(note));
    assert(notes.contains(note));
    let j = choose|j: int| 0 <= j < notes.len() && notes[j] == note;
    lemma_onset_listed(chart, notes, path, notes.len(), j as nat);
    let all = times_for(chart, notes, path, notes.len());
    assert(all.len() > 0);
    assert(map.has(path));
    let e = choose|e: int| 0 <= e < map.entries@.len() && (#[trigger] map.entries@[e]).path@ == path;
    assert(map.entries@[e].times@ == all);
    assert(map.entries@[e].times@.contains(start_at(chart, notes, j as nat)));
}

} // verus!
