use transcode_monitor::orchestrator::{
    audio_mode, exit_outcome, flac_source, plan_merge, AudioMode, JoinEvent, MergeError, MergeJoin,
    SourceTrack,
};
use transcode_monitor::probe::{parse_stream_info, stream_info_from_groups, ProbeError};
use transcode_monitor::tailer::{JobIdentity, LogTailer, ProgressEvent, TailPhase, TaskKind};
use transcode_monitor::telemetry::{decode, DecodeError, Field};
use transcode_monitor::text::{is_decimal_text, parse_u64, split_field, trim_bounds};
use transcode_monitor::window::{FieldWindow, FIELD_COUNT};

fn snapshot(frame: u64, progress: &str) -> String {
    format!(
        "frame={}\nfps=29.97\nstream_0_0_q=-1.0\nbitrate=N/A\ntotal_size=1024\n\
         out_time_us=5000000\nout_time_ms=5000000\nout_time=00:00:05.000000\n\
         dup_frames=0\ndrop_frames=0\nspeed=1.5x\nprogress={}\n",
        frame, progress
    )
}

fn job() -> JobIdentity {
    JobIdentity { job_id: "job-1".to_string(), group_id: "g-7".to_string(), task_kind: TaskKind::Merge }
}

fn started_tailer(total: u64) -> LogTailer {
    let mut t = LogTailer::new(job(), total);
    assert!(t.on_file_check(true).is_some());
    t
}

fn track(kind: TaskKind, path: Option<&str>, gid: Option<&str>) -> SourceTrack {
    SourceTrack { kind, path: path.map(|p| p.to_string()), group_id: gid.map(|g| g.to_string()) }
}

#[test]
fn parses_unsigned_integers() {
    assert_eq!(parse_u64(b"240"), Some(240));
    assert_eq!(parse_u64(b"+7"), Some(7));
    assert_eq!(parse_u64(b"18446744073709551615"), Some(u64::MAX));
    assert_eq!(parse_u64(b"18446744073709551616"), None);
    assert_eq!(parse_u64(b"-1"), None);
    assert_eq!(parse_u64(b"+"), None);
    assert_eq!(parse_u64(b""), None);
    assert_eq!(parse_u64(b"12a"), None);
}

#[test]
fn recognises_decimal_numbers() {
    for s in ["29.97", ".5", "5.", "-1.0", "1e5", "2.5E-3", "+3"] {
        assert!(is_decimal_text(s.as_bytes()), "{}", s);
    }
    for s in ["N/A", "inf", ".", "", "1.5x", "1e", "e5", "00:00:05.000000"] {
        assert!(!is_decimal_text(s.as_bytes()), "{}", s);
    }
}

#[test]
fn trims_and_splits_fields() {
    assert_eq!(trim_bounds(b"  ab \r", 0, 6), (2, 4));
    assert_eq!(trim_bounds(b"   ", 0, 3).0, trim_bounds(b"   ", 0, 3).1);
    assert_eq!(split_field(b" frame = 12 \r"), Some((b"frame".to_vec(), b"12".to_vec())));
    assert_eq!(split_field(b"a=b=c"), Some((b"a".to_vec(), b"b=c".to_vec())));
    assert_eq!(split_field(b"no separator"), None);
    assert_eq!(split_field(b""), None);
}

#[test]
fn window_evicts_oldest_key_first() {
    let mut w = FieldWindow::new();
    for i in 0..=FIELD_COUNT {
        w.insert(format!("key{}", i).into_bytes(), b"v".to_vec());
        assert!(w.len() <= FIELD_COUNT);
    }
    assert_eq!(w.len(), FIELD_COUNT);
    assert!(w.get(b"key0").is_none());
    assert_eq!(w.get(b"key1"), Some(&b"v".to_vec()));
    assert_eq!(w.get(format!("key{}", FIELD_COUNT).as_bytes()), Some(&b"v".to_vec()));
}

#[test]
fn absorbed_lines_roll_through_window() {
    let mut w = FieldWindow::new();
    let mut log = String::new();
    for i in 0..=FIELD_COUNT {
        log.push_str(&format!("k{}=v{}\n", i, i));
    }
    assert_eq!(w.absorb(log.as_bytes()), log.len());
    assert_eq!(w.len(), FIELD_COUNT);
    assert!(w.get(b"k0").is_none());
    assert_eq!(w.get(b"k12"), Some(&b"v12".to_vec()));
}

#[test]
fn window_keeps_latest_value_of_repeated_key() {
    let mut w = FieldWindow::new();
    w.insert(b"frame".to_vec(), b"1".to_vec());
    w.insert(b"frame".to_vec(), b"2".to_vec());
    assert_eq!(w.get(b"frame"), Some(&b"2".to_vec()));
}

#[test]
fn absorb_leaves_partial_line_unread() {
    let mut w = FieldWindow::new();
    let consumed = w.absorb(b"frame=1\nmalformed\nfps=2");
    assert_eq!(consumed, 18);
    assert_eq!(w.len(), 1);
    assert_eq!(w.get(b"frame"), Some(&b"1".to_vec()));
    assert!(w.get(b"fps").is_none());
    assert_eq!(w.absorb(b""), 0);
}

#[test]
fn decodes_full_snapshot() {
    let mut w = FieldWindow::new();
    w.absorb(snapshot(120, "continue").as_bytes());
    let rec = decode(&w).unwrap();
    assert_eq!(rec.frame, 120);
    assert_eq!(rec.fps, b"29.97".to_vec());
    assert_eq!(rec.stream_quality, b"-1.0".to_vec());
    assert_eq!(rec.bitrate, b"N/A".to_vec());
    assert_eq!(rec.total_size, 1024);
    assert_eq!(rec.out_time_us, 5000000);
    assert_eq!(rec.out_time_ms, 5000000);
    assert_eq!(rec.out_time, b"00:00:05.000000".to_vec());
    assert_eq!(rec.dup_frames, 0);
    assert_eq!(rec.drop_frames, 0);
    assert_eq!(rec.speed, b"1.5x".to_vec());
    assert_eq!(rec.progress, b"continue".to_vec());
}

#[test]
fn decode_reports_missing_and_malformed_fields() {
    let mut w = FieldWindow::new();
    w.absorb(b"fps=1\n");
    assert_eq!(decode(&w).err(), Some(DecodeError::MissingField(Field::Frame)));

    let mut w = FieldWindow::new();
    w.absorb(snapshot(5, "continue").replace("frame=5", "frame=five").as_bytes());
    assert_eq!(decode(&w).err(), Some(DecodeError::MalformedField(Field::Frame)));

    let mut w = FieldWindow::new();
    w.absorb(snapshot(5, "continue").replace("dup_frames=0", "dup_frames=4294967296").as_bytes());
    assert_eq!(decode(&w).err(), Some(DecodeError::MalformedField(Field::DupFrames)));

    let mut w = FieldWindow::new();
    w.absorb(snapshot(5, "continue").replace("bitrate=N/A", "bitrate=100").as_bytes());
    assert_eq!(decode(&w).err(), Some(DecodeError::MalformedField(Field::Bitrate)));
}

#[test]
fn started_comes_once_when_file_appears() {
    let mut t = LogTailer::new(job(), 240);
    assert_eq!(t.get_phase(), TailPhase::AwaitingFile);
    assert!(t.on_file_check(false).is_none());
    assert_eq!(t.get_phase(), TailPhase::AwaitingFile);
    match t.on_file_check(true) {
        Some(ProgressEvent::Started { job_id, group_id, task_kind }) => {
            assert_eq!(job_id, "job-1");
            assert_eq!(group_id, "g-7");
            assert_eq!(task_kind, TaskKind::Merge);
        }
        other => panic!("unexpected {:?}", other),
    }
    assert!(t.on_file_check(true).is_none());
    assert_eq!(t.get_phase(), TailPhase::Tailing);
}

#[test]
fn file_wait_gives_up_after_its_limit() {
    let mut t = LogTailer::with_file_check_limit(job(), 10, 2);
    assert!(t.on_file_check(false).is_none());
    assert_eq!(t.get_phase(), TailPhase::AwaitingFile);
    assert!(t.on_file_check(false).is_none());
    assert_eq!(t.get_phase(), TailPhase::TimedOut);
    assert!(t.on_file_check(true).is_none());
    assert_eq!(t.get_phase(), TailPhase::TimedOut);
    let t0 = LogTailer::with_file_check_limit(job(), 10, 0);
    assert_eq!(t0.get_phase(), TailPhase::TimedOut);
    let mut t1 = LogTailer::with_file_check_limit(job(), 10, 1);
    assert!(t1.on_file_check(true).is_some());
    assert_eq!(t1.get_phase(), TailPhase::Tailing);
}

#[test]
fn continue_then_end_gives_progress_then_finished() {
    let mut t = started_tailer(240);
    let mut events = Vec::new();
    for chunk in [snapshot(120, "continue"), snapshot(240, "end")] {
        if let Some(ev) = t.on_log_data(chunk.as_bytes()).unwrap() {
            events.push(ev);
        }
    }
    assert_eq!(events.len(), 2);
    match &events[0] {
        ProgressEvent::Progress { job_id, group_id, current_units, total_units } => {
            assert_eq!(job_id, "job-1");
            assert_eq!(group_id, "g-7");
            assert_eq!((*current_units, *total_units), (120, 240));
        }
        other => panic!("unexpected {:?}", other),
    }
    assert!(matches!(&events[1], ProgressEvent::Finished { job_id, .. } if job_id == "job-1"));
    assert_eq!(t.get_phase(), TailPhase::Finished);
}

#[test]
fn progress_carries_exact_frame_and_total() {
    for (f, total) in [(0u64, 240u64), (77, 240), (240, 240), (1, u64::MAX)] {
        let mut t = started_tailer(total);
        match t.on_log_data(snapshot(f, "continue").as_bytes()).unwrap() {
            Some(ProgressEvent::Progress { current_units, total_units, .. }) => {
                assert_eq!((current_units, total_units), (f, total));
            }
            other => panic!("unexpected {:?}", other),
        }
    }
}

#[test]
fn cursor_advances_past_complete_lines_only() {
    let mut t = started_tailer(10);
    let first = snapshot(3, "continue");
    t.on_log_data(first.as_bytes()).unwrap();
    assert_eq!(t.get_cursor(), first.len() as u64);
    let second = snapshot(4, "end");
    let part = &second.as_bytes()[..20];
    let complete = "frame=4\nfps=29.97\n".len() as u64;
    match t.on_log_data(part).unwrap() {
        Some(ProgressEvent::Progress { current_units, .. }) => assert_eq!(current_units, 4),
        other => panic!("unexpected {:?}", other),
    }
    assert_eq!(t.get_cursor(), first.len() as u64 + complete);
    let rest = &second.as_bytes()[complete as usize..];
    assert!(matches!(t.on_log_data(rest).unwrap(), Some(ProgressEvent::Finished { .. })));
    assert_eq!(t.get_cursor(), (first.len() + second.len()) as u64);
}

#[test]
fn empty_log_emits_nothing() {
    let mut t = started_tailer(10);
    assert_eq!(t.on_log_data(b"").unwrap().is_none(), true);
    assert_eq!(t.on_log_data(b"partial").unwrap().is_none(), true);
    assert_eq!(t.get_cursor(), 0);
    assert_eq!(t.get_phase(), TailPhase::Tailing);
}

#[test]
fn unknown_progress_value_is_ignored() {
    let mut t = started_tailer(10);
    assert!(t.on_log_data(snapshot(3, "paused").as_bytes()).unwrap().is_none());
    assert_eq!(t.get_phase(), TailPhase::Tailing);
}

#[test]
fn undecodable_window_fails_the_tailer() {
    let mut t = started_tailer(10);
    let r = t.on_log_data(b"frame=1\nprogress=continue\n");
    assert_eq!(r.err(), Some(DecodeError::MissingField(Field::Fps)));
    assert_eq!(t.get_phase(), TailPhase::Failed);
}

#[test]
fn probe_takes_largest_frame_count_and_first_codec() {
    let text = "Input #1\n  Stream #1:0: Audio: aac (LC), 44100 Hz\n\
                frame=  120 fps=0.0 q=-1.0\nframe=  240 fps=0.0 q=-1.0\n\
                Stream #0:1: Audio: opus, 48000 Hz\nframe=   60\n";
    let info = parse_stream_info(text).unwrap();
    assert_eq!(info.total_frames, 240);
    assert_eq!(info.audio_codec, b"aac (LC)".to_vec());
}

#[test]
fn probe_reports_missing_values() {
    assert_eq!(parse_stream_info("Audio: aac, 44100 Hz").err(), Some(ProbeError::NoFrameCount));
    assert_eq!(parse_stream_info("frame=240\n").err(), Some(ProbeError::NoAudioCodec));
    let frames = vec![Some(b"99999999999999999999".to_vec()), None, Some(b" 12 ".to_vec())];
    let codecs = vec![None, Some(b" mp3 ".to_vec())];
    let info = stream_info_from_groups(&frames, &codecs).unwrap();
    assert_eq!(info.total_frames, 12);
    assert_eq!(info.audio_codec, b"mp3".to_vec());
    let none: Vec<Option<Vec<u8>>> = vec![Some(b"x".to_vec())];
    assert_eq!(stream_info_from_groups(&none, &codecs).err(), Some(ProbeError::NoFrameCount));
}

#[test]
fn mp4_with_aac_passes_audio_through() {
    let probe = "Duration: 00:00:10.00\n  Stream #1:0: Audio: aac, 44100 Hz, stereo\n\
                 frame=  240 fps=0.0 q=-1.0 size=N/A time=00:00:10.00\n";
    let info = parse_stream_info(probe).unwrap();
    assert_eq!(info.total_frames, 240);
    assert_eq!(info.audio_codec, b"aac".to_vec());
    assert_eq!(audio_mode(b"mp4", &info.audio_codec), AudioMode::PassThrough);
    assert_eq!(audio_mode(b"mp4", b"aac"), AudioMode::PassThrough);
    assert_eq!(audio_mode(b"flv", b"mp3"), AudioMode::PassThrough);
}

#[test]
fn mp4_with_opus_reencodes_audio() {
    let probe = "Duration: 00:00:10.00\n  Stream #1:0: Audio: opus, 48000 Hz, stereo\n\
                 frame=  240 fps=0.0 q=-1.0 size=N/A time=00:00:10.00\n";
    let info = parse_stream_info(probe).unwrap();
    assert_eq!(info.total_frames, 240);
    assert_eq!(audio_mode(b"mp4", &info.audio_codec), AudioMode::Reencode);
    assert_eq!(audio_mode(b"mp4", b"opus"), AudioMode::Reencode);
    assert_eq!(audio_mode(b"flv", b"aac (LC)"), AudioMode::Reencode);
    assert_eq!(audio_mode(b"mkv", b"opus"), AudioMode::PassThrough);
    assert_eq!(audio_mode(b"", b"opus"), AudioMode::PassThrough);
}

#[test]
fn fewer_than_two_tracks_fail_at_once() {
    assert_eq!(plan_merge(&vec![]).err(), Some(MergeError::TooFewInputs(0)));
    let one = vec![track(TaskKind::Video, Some("v.m4s"), None)];
    assert_eq!(plan_merge(&one).err(), Some(MergeError::TooFewInputs(1)));
}

#[test]
fn plan_merge_picks_tracks() {
    let tracks = vec![
        track(TaskKind::Audio, Some("a.m4s"), Some("ga")),
        track(TaskKind::Video, Some("v.m4s"), Some("gv")),
    ];
    let m = plan_merge(&tracks).unwrap();
    assert_eq!(m.first, "a.m4s");
    assert_eq!(m.second, "v.m4s");
    assert_eq!(m.video, "v.m4s");
    assert_eq!(m.audio, "a.m4s");
    assert_eq!(m.group_id, "gv");

    let no_gid = vec![
        track(TaskKind::Video, Some("v"), None),
        track(TaskKind::Audio, Some("a"), None),
    ];
    assert_eq!(plan_merge(&no_gid).unwrap().group_id, "");
}

#[test]
fn plan_merge_reports_missing_tracks_and_paths() {
    let two_video = vec![track(TaskKind::Video, Some("v"), None), track(TaskKind::Video, Some("w"), None)];
    assert_eq!(plan_merge(&two_video).err(), Some(MergeError::MissingAudioTrack));
    let two_audio = vec![track(TaskKind::Audio, Some("a"), None), track(TaskKind::Audio, Some("b"), None)];
    assert_eq!(plan_merge(&two_audio).err(), Some(MergeError::MissingVideoTrack));
    let no_path = vec![track(TaskKind::Video, None, None), track(TaskKind::Audio, Some("a"), None)];
    assert_eq!(plan_merge(&no_path).err(), Some(MergeError::MissingPath));
}

#[test]
fn flac_source_uses_first_audio_track() {
    let tracks = vec![track(TaskKind::Video, Some("v"), None), track(TaskKind::Audio, Some("a"), None)];
    assert_eq!(flac_source(&tracks).unwrap(), "a");
    let video_only = vec![track(TaskKind::Video, Some("v"), None)];
    assert_eq!(flac_source(&video_only).err(), Some(MergeError::MissingAudioTrack));
    let no_path = vec![track(TaskKind::Audio, None, None)];
    assert_eq!(flac_source(&no_path).err(), Some(MergeError::MissingPath));
}

#[test]
fn exit_status_maps_to_outcome() {
    assert_eq!(exit_outcome(true, Some(0)), Ok(()));
    assert_eq!(exit_outcome(false, Some(2)), Err(MergeError::ProcessFailed(2)));
    assert_eq!(exit_outcome(false, None), Err(MergeError::ProcessFailed(-1)));
}

#[test]
fn process_failure_while_tailing_fails_merge() {
    let mut j = MergeJoin::new();
    let r = j.on_event(JoinEvent::ProcessExited { success: false, code: Some(1) });
    assert_eq!(r, Some(Err(MergeError::ProcessFailed(1))));
    assert!(!j.monitor_done);
    assert_eq!(j.on_event(JoinEvent::MonitorFinished), Some(Err(MergeError::ProcessFailed(1))));
    let mut j = MergeJoin::new();
    assert_eq!(
        j.on_event(JoinEvent::ProcessExited { success: false, code: None }),
        Some(Err(MergeError::ProcessFailed(-1)))
    );
}

#[test]
fn join_succeeds_only_when_both_succeed() {
    let mut j = MergeJoin::new();
    assert_eq!(j.on_event(JoinEvent::MonitorFinished), None);
    assert_eq!(j.on_event(JoinEvent::ProcessExited { success: true, code: Some(0) }), Some(Ok(())));
    let mut j = MergeJoin::new();
    assert_eq!(j.on_event(JoinEvent::ProcessExited { success: true, code: Some(0) }), None);
    assert_eq!(j.on_event(JoinEvent::MonitorFinished), Some(Ok(())));
    let mut j = MergeJoin::new();
    let e = DecodeError::MissingField(Field::Speed);
    assert_eq!(j.on_event(JoinEvent::MonitorFailed(e)), Some(Err(MergeError::Monitor(e))));
    assert_eq!(
        j.on_event(JoinEvent::ProcessExited { success: true, code: Some(0) }),
        Some(Err(MergeError::Monitor(e)))
    );
}
