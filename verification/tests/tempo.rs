use bms_preview::chart::{BackgroundNote, BpmChange, Chart, SectionLength, WavFile};
use bms_preview::time::ObjTime;
use bms_preview::timing::{get_wav_timings, TimingMap};

fn at(track: u64, numerator: u64, denominator: u64) -> ObjTime {
    ObjTime::new(track, numerator, denominator).unwrap()
}

fn chart(bpm: Option<u64>, notes: Vec<(ObjTime, u64)>, wavs: Vec<(u64, &str)>) -> Chart {
    Chart {
        initial_bpm: bpm,
        bpm_changes: vec![],
        section_lengths: vec![],
        background_notes: notes
            .into_iter()
            .map(|(offset, wav_id)| BackgroundNote { offset, wav_id })
            .collect(),
        wav_files: wavs
            .into_iter()
            .map(|(id, path)| WavFile { id, path: path.to_string() })
            .collect(),
        declared_preview: None,
    }
}

fn times_of(map: &TimingMap, path: &str) -> Option<Vec<u64>> {
    map.entries.iter().find(|e| e.path == path).map(|e| e.times.clone())
}

#[test]
fn constant_bpm_one_section() {
    let c = chart(Some(120_000_000), vec![(at(0, 0, 4), 1)], vec![(1, "kick.wav")]);
    let map = get_wav_timings(&c).unwrap();
    assert_eq!(map.entries.len(), 1);
    assert_eq!(times_of(&map, "kick.wav"), Some(vec![0]));
}

#[test]
fn two_tempi() {
    let mut c = chart(
        Some(120_000_000),
        vec![(at(1, 0, 4), 1), (at(0, 0, 4), 1)],
        vec![(1, "kick.wav")],
    );
    c.bpm_changes = vec![BpmChange { time: at(1, 0, 4), bpm: Some(240_000_000) }];
    let map = get_wav_timings(&c).unwrap();
    // the change lies before the third track, so it already sets the opening
    // tempo: a section of four beats at 240 beats per minute lasts one second
    assert_eq!(times_of(&map, "kick.wav"), Some(vec![0, 1_000_000_000]));
}

#[test]
fn two_tempi_late_change() {
    let mut c = chart(
        Some(120_000_000),
        vec![(at(1, 0, 4), 1), (at(0, 0, 4), 1), (at(2, 0, 4), 1)],
        vec![(1, "kick.wav")],
    );
    c.bpm_changes = vec![BpmChange { time: at(2, 0, 4), bpm: Some(240_000_000) }];
    let map = get_wav_timings(&c).unwrap();
    // the first section runs at 120 beats per minute and lasts two seconds;
    // the upcoming change applies from the second note on
    assert_eq!(
        times_of(&map, "kick.wav"),
        Some(vec![0, 2_000_000_000, 3_000_000_000])
    );
}

#[test]
fn zero_denominator_is_no_position() {
    assert!(ObjTime::new(3, 1, 0).is_none());
    assert_eq!(
        ObjTime::new(3, 1, 2),
        Some(ObjTime { track: 3, numerator: 1, denominator: 2 })
    );
}

#[test]
fn positions_compare_by_track_then_fraction() {
    assert!(at(0, 3, 4).is_before(&at(1, 0, 4)));
    assert!(at(1, 1, 3).is_before(&at(1, 1, 2)));
    assert!(!at(1, 2, 4).is_before(&at(1, 1, 2)));
    assert!(at(1, 2, 4).is_same_instant(&at(1, 1, 2)));
    assert!(!at(1, 2, 4).is_same_instant(&at(2, 1, 2)));
}

#[test]
fn default_tempo_is_130() {
    let c = chart(None, vec![(at(0, 1, 2), 7)], vec![(7, "a.wav")]);
    let map = get_wav_timings(&c).unwrap();
    // a section lasts 240 / 130 s = 1_846_153_846 ns; half of it, rounded down
    assert_eq!(times_of(&map, "a.wav"), Some(vec![923_076_923]));
}

#[test]
fn unknown_sample_is_skipped() {
    let c = chart(
        Some(120_000_000),
        vec![(at(0, 0, 4), 1), (at(0, 1, 4), 2)],
        vec![(2, "snare.wav")],
    );
    let map = get_wav_timings(&c).unwrap();
    assert_eq!(map.entries.len(), 1);
    assert_eq!(times_of(&map, "snare.wav"), Some(vec![500_000_000]));
}

#[test]
fn section_length_scales_the_section() {
    let mut c = chart(
        Some(120_000_000),
        vec![(at(0, 1, 2), 1), (at(1, 0, 1), 1), (at(2, 0, 1), 1)],
        vec![(1, "k.wav")],
    );
    c.section_lengths = vec![SectionLength { track: 1, length: 500_000 }];
    let map = get_wav_timings(&c).unwrap();
    assert_eq!(
        times_of(&map, "k.wav"),
        Some(vec![1_000_000_000, 2_000_000_000, 3_000_000_000])
    );
}

#[test]
fn sparse_tracks_do_not_accumulate() {
    // tracks 0 and 2 only: the note in track 2 sounds one section in, not two
    let c = chart(
        Some(120_000_000),
        vec![(at(0, 0, 4), 1), (at(2, 0, 4), 1)],
        vec![(1, "k.wav")],
    );
    let map = get_wav_timings(&c).unwrap();
    assert_eq!(times_of(&map, "k.wav"), Some(vec![0, 2_000_000_000]));
}

#[test]
fn early_tempo_change_seeds_the_tempo() {
    let mut c = chart(Some(120_000_000), vec![(at(0, 1, 2), 1)], vec![(1, "k.wav")]);
    c.bpm_changes = vec![BpmChange { time: at(1, 0, 4), bpm: Some(60_000_000) }];
    let map = get_wav_timings(&c).unwrap();
    // seeded from the change before track 2: a section lasts four seconds
    assert_eq!(times_of(&map, "k.wav"), Some(vec![2_000_000_000]));
}

#[test]
fn unreadable_tempo_keeps_the_previous_one() {
    let mut c = chart(
        Some(120_000_000),
        vec![(at(0, 0, 1), 1), (at(3, 0, 1), 1), (at(4, 1, 2), 1)],
        vec![(1, "k.wav")],
    );
    c.bpm_changes = vec![BpmChange { time: at(3, 0, 1), bpm: None }];
    let map = get_wav_timings(&c).unwrap();
    assert_eq!(
        times_of(&map, "k.wav"),
        Some(vec![0, 2_000_000_000, 5_000_000_000])
    );
}

#[test]
fn notes_are_taken_in_ascending_order() {
    let c = chart(
        Some(120_000_000),
        vec![(at(1, 1, 2), 2), (at(0, 1, 4), 1), (at(1, 0, 1), 1), (at(0, 0, 1), 2)],
        vec![(1, "a.wav"), (2, "b.wav")],
    );
    let map = get_wav_timings(&c).unwrap();
    assert_eq!(times_of(&map, "a.wav"), Some(vec![500_000_000, 2_000_000_000]));
    assert_eq!(times_of(&map, "b.wav"), Some(vec![0, 3_000_000_000]));
}

#[test]
fn overlong_time_is_refused() {
    let mut c = chart(Some(1), vec![(at(0, 0, 1), 1)], vec![(1, "k.wav")]);
    c.section_lengths = vec![SectionLength { track: 0, length: u64::MAX }];
    assert!(get_wav_timings(&c).is_none());
}

#[test]
fn constant_tempo_closed_form() {
    // 150 beats per minute: a section lasts 240 / 150 s = 1.6 s
    let section: u64 = 1_600_000_000;
    let places = [(0, 0, 1), (0, 1, 3), (0, 7, 8), (1, 1, 2), (2, 0, 4), (2, 3, 4), (3, 5, 6)];
    let notes = places.iter().map(|(t, n, d)| (at(*t, *n, *d), 1)).collect();
    let c = chart(Some(150_000_000), notes, vec![(1, "a.wav")]);
    let map = get_wav_timings(&c).unwrap();
    let expected: Vec<u64> =
        places.iter().map(|(t, n, d)| section * t + section * n / d).collect();
    assert_eq!(times_of(&map, "a.wav"), Some(expected));
}

#[test]
fn every_defined_note_is_timed() {
    let c = chart(
        Some(120_000_000),
        vec![(at(2, 0, 1), 3), (at(0, 0, 1), 1), (at(1, 0, 1), 2), (at(1, 1, 2), 9), (at(0, 1, 2), 1)],
        vec![(1, "a.wav"), (2, "b.wav"), (3, "a.wav")],
    );
    let map = get_wav_timings(&c).unwrap();
    let total: usize = map.entries.iter().map(|e| e.times.len()).sum();
    assert_eq!(total, 4);
    assert_eq!(map.entries.len(), 2);
    // two samples that name one file share its entry
    assert_eq!(times_of(&map, "a.wav"), Some(vec![0, 1_000_000_000, 4_000_000_000]));
    assert_eq!(times_of(&map, "b.wav"), Some(vec![2_000_000_000]));
}
