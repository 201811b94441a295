use bms_preview::audio::StereoAudio;
use bms_preview::chart::{BackgroundNote, Chart, WavFile};
use bms_preview::errors::AudioError;
use bms_preview::probe::{Probe, TimeBase};
use bms_preview::renderer::{mix_source, Renderer};
use bms_preview::sample::{StereoSample, UNITY};
use bms_preview::time::ObjTime;
use bms_preview::window::{
    choose_rate, filter_times, is_heard, measure_song, resolve_window, Args, Source,
};

fn probe(frames: u64, rate: u32) -> Probe {
    Probe::new(Some(2), Some(rate), Some(frames), Some(TimeBase { numer: 1, denom: rate }))
}

fn flat(value: i64, len: usize, rate: u32) -> StereoAudio {
    StereoAudio { buffer: vec![StereoSample { left: value, right: value }; len], sample_rate: rate }
}

fn kick_chart() -> Chart {
    Chart {
        initial_bpm: Some(120_000_000),
        bpm_changes: vec![],
        section_lengths: vec![],
        background_notes: vec![BackgroundNote {
            offset: ObjTime { track: 0, numerator: 0, denominator: 4 },
            wav_id: 1,
        }],
        wav_files: vec![WavFile { id: 1, path: "kick.wav".to_string() }],
        declared_preview: None,
    }
}

#[test]
fn overlap_filter() {
    // a window from 10 s to 15 s and a sound of one second
    let times = vec![5_000_000_000, 9_500_000_000, 12_000_000_000, 20_000_000_000];
    let kept = filter_times(&times, 1_000_000_000, 10_000_000_000, 15_000_000_000);
    assert_eq!(kept, vec![9_500_000_000, 12_000_000_000]);
}

#[test]
fn overlap_bounds_are_strict() {
    assert!(!is_heard(9, 1, 10, 15));
    assert!(is_heard(9, 2, 10, 15));
    assert!(is_heard(14, 1, 10, 15));
    assert!(!is_heard(15, 1, 10, 15));
    assert!(is_heard(0, 1, -5, 1));
}

#[test]
fn defaults_of_the_configuration() {
    let args = Args::default();
    assert_eq!(args.songs_folder, None);
    assert_eq!(args.start, 20_000_000_000);
    assert_eq!(args.end, 40_000_000_000);
    assert_eq!(args.start_p, None);
    assert_eq!(args.end_p, None);
    assert_eq!(args.fade_in, 2_000_000_000);
    assert_eq!(args.fade_out, 2_000_000_000);
    assert_eq!(args.preview_file, "preview_auto_generated.ogg");
    assert!(!args.mono_audio);
    assert_eq!(args.sample_rate, None);
    assert_eq!(args.volume, 100_000_000);
    assert!(args.overwrite);
    assert!(!args.show_process_time);
    assert!(args.parallel);
}

#[test]
fn window_by_times_and_by_percent() {
    let mut args = Args::default();
    assert_eq!(resolve_window(&args, 0), (20_000_000_000, 40_000_000_000));
    args.start = 50_000_000_000;
    assert_eq!(resolve_window(&args, 0), (40_000_000_000, 50_000_000_000));
    // only one percentage: the times stand
    args.start_p = Some(25_000_000);
    assert_eq!(resolve_window(&args, 200), (40_000_000_000, 50_000_000_000));
    args.end_p = Some(10_000_000);
    assert_eq!(resolve_window(&args, 200_000_000_000), (20_000_000_000, 50_000_000_000));
    // zero is a percentage like any other
    args.start_p = Some(0);
    args.end_p = Some(0);
    assert_eq!(resolve_window(&args, 200_000_000_000), (0, 0));
}

#[test]
fn song_length_is_the_latest_end() {
    let sources = vec![
        Source { times: vec![0, 3_000_000_000], probe: Some(probe(24_000, 48_000)), audio: None },
        Source { times: vec![9_000_000_000], probe: None, audio: None },
        Source {
            times: vec![7_000_000_000],
            probe: Some(Probe::new(Some(2), Some(44_100), None, None)),
            audio: None,
        },
        Source { times: vec![1_000_000_000], probe: Some(probe(100, 1_000)), audio: None },
    ];
    // the first sound lasts half a second and begins last at 3 s
    assert_eq!(measure_song(&sources), 3_500_000_000);
    assert_eq!(measure_song(&vec![]), 0);
}

#[test]
fn rate_is_configured_or_taken_from_the_first_source() {
    let sources = vec![
        Source { times: vec![0], probe: None, audio: None },
        Source {
            times: vec![0],
            probe: Some(Probe::new(Some(2), Some(22_050), None, None)),
            audio: None,
        },
        Source {
            times: vec![0],
            probe: Some(Probe::new(Some(2), None, Some(10), Some(TimeBase { numer: 1, denom: 100 }))),
            audio: None,
        },
        Source { times: vec![0], probe: Some(probe(100, 44_100)), audio: None },
        Source { times: vec![0], probe: Some(probe(100, 32_000)), audio: None },
    ];
    assert_eq!(choose_rate(None, &sources), 44_100);
    assert_eq!(choose_rate(Some(8_000), &sources), 8_000);
    assert_eq!(choose_rate(None, &vec![]), 48_000);
}

#[test]
fn a_source_is_mixed_at_each_onset_in_the_window() {
    let mut buf = flat(0, 10, 1);
    let audio = flat(5, 2, 1);
    // window from 2 s on at 1 Hz; a sound of two seconds
    let times = vec![0, 1_000_000_000, 4_000_000_000, 11_000_000_000, 30_000_000_000];
    mix_source(&mut buf, &audio, &times, 2_000_000_000, 2_000_000_000, 12_000_000_000);
    let left: Vec<i64> = buf.buffer.iter().map(|s| s.left).collect();
    assert_eq!(left, vec![5, 0, 5, 5, 0, 0, 0, 0, 0, 5]);
    let other = flat(5, 2, 3);
    mix_source(&mut buf, &other, &times, 2_000_000_000, 2_000_000_000, 12_000_000_000);
    let again: Vec<i64> = buf.buffer.iter().map(|s| s.left).collect();
    assert_eq!(again, left);
}

#[test]
fn constant_bpm_one_section_preview() {
    let renderer = Renderer::new(kick_chart(), "songs/a".to_string());
    let map = renderer.get_wav_timings().unwrap();
    assert_eq!(map.entries.len(), 1);
    assert_eq!(map.entries[0].path, "kick.wav");
    assert_eq!(map.entries[0].times, vec![0]);
    let mut args = Args::default();
    args.start = 0;
    args.end = 2_000_000_000;
    let sources = vec![Source {
        times: map.entries[0].times.clone(),
        probe: Some(probe(48_000, 48_000)),
        audio: Some(flat(0, 48_000, 48_000)),
    }];
    let plan = renderer.process_bms_file(&args, false, &sources).unwrap().unwrap();
    assert_eq!(plan.sample_rate, 48_000);
    assert_eq!(plan.channels, 2);
    // 2 s * 2 * 48000 Hz and one sample more, in blocks of 1024
    assert_eq!(plan.blocks.len(), 188);
    for block in &plan.blocks {
        assert_eq!(block.len(), 2);
        assert!(block[0].iter().all(|v| *v == 0));
        assert!(block[1].iter().all(|v| *v == 0));
    }
}

#[test]
fn a_preview_is_mixed_faded_and_scaled() {
    let renderer = Renderer::new(kick_chart(), "songs/a".to_string());
    let mut args = Args::default();
    args.start = 0;
    args.end = 5_000_000_000;
    args.fade_in = 2_000_000_000;
    args.fade_out = 0;
    args.volume = 50_000_000;
    args.mono_audio = true;
    args.sample_rate = Some(1);
    let sources = vec![Source {
        times: vec![0, 1_000_000_000],
        probe: Some(Probe::new(Some(1), Some(1), Some(1), Some(TimeBase { numer: 1, denom: 2 }))),
        audio: Some(flat(UNITY, 4, 1)),
    }];
    let plan = renderer.process_bms_file(&args, true, &sources).unwrap().unwrap();
    assert_eq!(plan.channels, 1);
    assert_eq!(plan.sample_rate, 1);
    assert_eq!(plan.blocks.len(), 1);
    // 11 samples: the sound at 0 and at 1, the first two samples fading in, at half volume
    let expect = [0, UNITY / 2, UNITY, UNITY, UNITY / 2, 0, 0, 0, 0, 0, 0, 0];
    assert_eq!(&plan.blocks[0][0][..12], &expect[..]);
}

#[test]
fn a_declared_or_existing_preview_is_left_alone() {
    let mut chart = kick_chart();
    chart.declared_preview = Some("preview.ogg".to_string());
    let declared = Renderer::new(chart, "songs/a".to_string());
    let mut args = Args::default();
    assert!(matches!(declared.process_bms_file(&args, false, &vec![]), Ok(None)));
    let plain = Renderer::new(kick_chart(), "songs/a".to_string());
    args.overwrite = false;
    assert!(matches!(plain.process_bms_file(&args, true, &vec![]), Ok(None)));
    assert!(matches!(plain.process_bms_file(&args, false, &vec![]), Ok(Some(_))));
    args.overwrite = true;
    args.end = args.start;
    assert!(matches!(plain.process_bms_file(&args, true, &vec![]), Ok(Some(_))));
}

#[test]
fn a_window_too_long_or_a_rate_of_zero_is_an_error() {
    let renderer = Renderer::new(kick_chart(), "songs/a".to_string());
    let mut args = Args::default();
    args.start = i64::MIN;
    args.end = i64::MAX;
    args.sample_rate = Some(u32::MAX);
    assert_eq!(
        renderer.process_bms_file(&args, false, &vec![]).err(),
        Some(AudioError::InvalidAudioSize())
    );
    args.start = 0;
    args.end = 1_000;
    args.sample_rate = Some(0);
    assert_eq!(
        renderer.process_bms_file(&args, false, &vec![]).err(),
        Some(AudioError::InvalidCodecInfo())
    );
}

#[test]
fn files_lie_next_to_the_chart() {
    let renderer = Renderer::new(kick_chart(), "/".to_string());
    let args = Args::default();
    assert_eq!(renderer.preview_path(&args), "/preview_auto_generated.ogg");
    assert_eq!(renderer.sound_path(&"drums/kick.wav".to_string()), "/drums/kick.wav");
    assert_eq!(renderer.sound_path(&"/abs/kick.wav".to_string()), "/abs/kick.wav");
    assert!(!renderer.preview_exists(&args));
    let mut root = Args::default();
    root.preview_file = ".".to_string();
    assert!(renderer.preview_exists(&root));
    assert!(renderer.should_skip(&Args { overwrite: false, ..root.clone() }, true));
    assert!(!renderer.should_skip(&root, true));
}
