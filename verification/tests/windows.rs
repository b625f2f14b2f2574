use serde_json::Value;
use transcribe_offline::anonymise::kind::AnonymiseEntityKind;
use transcribe_offline::board::{
    banner_text, current_stage_text, file_settings, job_counts_text, jobs_line, stage_text, transcribe_progress,
    DownloadKind, JobBoard,
};
use transcribe_offline::devices::BridgeDevice;
use transcribe_offline::engine::run_chat;
use transcribe_offline::json::can_show;
use transcribe_offline::library::{
    add_media_files, ensure_output_entry, remove_selected, select_all, selected_media_files,
    AddedMedia, FileEntry,
};
use transcribe_offline::models::AppPaths;
use transcribe_offline::pages::AppPage;
use transcribe_offline::paths::{file_path_of, FilePath, Platform};
use transcribe_offline::runtime::RuntimeProbe;
use transcribe_offline::session::chat::{build_chat_prompt, chat_log_block};
use transcribe_offline::session::messages::{FileDone, FollowUp, UiMessage};
use transcribe_offline::session::playing::PlayStep;
use transcribe_offline::session::review::FoundTranscript;
use transcribe_offline::session::runtime_panel::{
    runtime_setup_issues, ModelPlace, ModelReport, RuntimeReport,
};
use transcribe_offline::session::setup::{setup_step_title, shown_status};
use transcribe_offline::session::startup::{complete_settings, StartDefaults};
use transcribe_offline::session::{Clock, Session};
use transcribe_offline::settings::AppSettings;
use transcribe_offline::worker::{JobRun, WorkerAction, WorkerEvent};

fn path(text: &str) -> FilePath {
    file_path_of(Platform::Linux, text).unwrap()
}

fn clock(now_ms: u64) -> Clock {
    Clock {
        now_ms,
        hms: "10:00:00".to_string(),
    }
}

fn probe() -> RuntimeProbe {
    RuntimeProbe {
        dir_exists: true,
        bridge_exists: true,
        capture_exists: true,
        ffmpeg_dir_exists: true,
        ffmpeg_files: [
            "libavcodec.so",
            "libavformat.so",
            "libavutil.so",
            "libswresample.so",
            "libswscale.so",
        ]
        .iter()
        .map(|t| t.to_string())
        .collect(),
        cuda_dirs: vec![],
    }
}

fn models(complete: bool) -> ModelReport {
    ModelReport {
        whisper_configured_exists: complete,
        live_configured_exists: complete,
        chat_configured_exists: complete,
        whisper: vec![ModelPlace {
            path: "/m/w.bin".to_string(),
            installed: complete,
        }],
        live: vec![],
        chat: vec![],
        chat_store: vec![],
        diarization_exists: complete,
        default_diarization_dir: "/m/d".to_string(),
        default_diarization_exists: complete,
    }
}

fn report(complete: bool) -> RuntimeReport {
    let mut found = probe();
    found.dir_exists = complete;
    RuntimeReport {
        runtime_dir: "/rt".to_string(),
        probe: found,
        available_backends: None,
        models: models(complete),
    }
}

fn session(complete: bool) -> Session {
    let mut settings = AppSettings::default();
    settings.whisper_model = "/m/w.bin".to_string();
    settings.chat_model = "/m/c.gguf".to_string();
    Session::new(
        Platform::Linux,
        settings,
        &report(complete),
        None,
        &clock(1_000),
    )
}

fn done(text: &str) -> FileDone {
    FileDone {
        job_id: 1,
        index: 1,
        total: 1,
        audio_path: path("/a/talk.wav"),
        output_path: path("/a/talk.md"),
        output_text: text.to_string(),
        preprocess_note: "note".to_string(),
        mode: "transcript".to_string(),
        custom_value: "default".to_string(),
        whisper_model: "/m/w.bin".to_string(),
        diarization_enabled: true,
        audio_bytes_len: 7,
        timing_prepare_ms: 1,
        timing_read_audio_ms: 2,
        timing_bridge_ms: 3,
        timing_read_output_ms: 4,
        timing_total_ms: 10,
        seconds: "0.01".to_string(),
        response: Value::Null,
        reset_error: None,
    }
}

#[test]
fn the_window_opens_idle() {
    let s = session(true);
    assert_eq!(s.status, "Ready.");
    assert_eq!(s.setup_wizard_step, 2);
    assert!(s.page == AppPage::Home);
    assert!(!s.is_transcribing && !s.chat.is_chatting && !s.live.capturing);
    assert_eq!(s.anonymise.selected_kinds.len(), 8);
    let s = session(false);
    assert_eq!(s.status, "Runtime missing or incomplete. Install/Repair runtime.");
    assert_eq!(s.setup_wizard_step, 0);
    assert!(s.runtime.show_missing_window);
    assert_eq!(setup_step_title(0), "Runtime");
    assert_eq!(runtime_setup_issues(&models(false)).len(), 2);
}

#[test]
fn settings_are_completed_with_defaults() {
    let mut settings = AppSettings::default();
    settings.mode = "song".to_string();
    let defaults = StartDefaults {
        whisper_model: "/m/w.bin".to_string(),
        live_model: "/m/l.bin".to_string(),
        diarization_dir: "/m/d".to_string(),
        runtime_dir: "/rt".to_string(),
        chat_configured_exists: false,
        chat_store: vec![],
    };
    assert!(complete_settings(Platform::Linux, &mut settings, &defaults));
    assert_eq!(settings.mode, "transcript");
    assert_eq!(settings.whisper_model, "/m/w.bin");
    assert_eq!(settings.runtime_dir, "/rt");
    assert!(!complete_settings(Platform::Linux, &mut settings, &defaults));
}

#[test]
fn the_log_keeps_its_newest_lines() {
    let mut s = session(true);
    for i in 0..3_000 {
        s.push_log_only(&clock(1), &format!("line {i}"));
    }
    let kept = s.status_log.len();
    s.push_status(&clock(1), "last");
    assert_eq!(s.status_log.len(), kept);
    assert_eq!(s.status_log.last().unwrap(), "[10:00:00] last");
    assert_eq!(s.status, "last");
    s.clear_log(&clock(1));
    assert_eq!(s.status_log, vec!["[10:00:00] Log cleared."]);
}

#[test]
fn settings_are_saved_after_a_pause() {
    let mut s = session(true);
    s.queue_save(&clock(5_000));
    assert!(!s.save_due(&clock(5_000)));
    assert!(s.save_due(&clock(60_000)));
    s.settings_saved(&clock(60_000), Err("disk".to_string()), Ok(()));
    assert!(s.settings_dirty);
    assert_eq!(s.status, "Failed to save settings: disk");
    s.settings_saved(&clock(60_000), Ok(()), Ok(()));
    assert!(!s.settings_dirty);
}

#[test]
fn jobs_run_in_the_order_in_which_they_were_queued() {
    let mut s = session(true);
    let mut b = JobBoard::new();
    assert!(b.is_idle());
    assert!(!s.enqueue_job(&mut b, &clock(1), &report(true), vec![]));
    assert!(b.job_queue.is_empty());
    assert!(s.enqueue_job(&mut b, &clock(1), &report(true), vec![path("/a/1.wav")]));
    assert!(s.enqueue_job(&mut b, &clock(1), &report(true), vec![path("/a/2.wav")]));
    assert!(s.is_transcribing);
    assert_eq!(b.job_queue.len(), 2);
    assert!(b.start_worker());
    assert!(!b.start_worker());
    let first = b.take_job().unwrap();
    let second = b.take_job().unwrap();
    assert!(first.id < second.id);
    assert_eq!(first.files[0].text(), "/a/1.wav");
    assert_eq!(
        file_settings(&second, &second.files[0]).audio_file,
        "/a/2.wav"
    );
    assert!(b.take_job().is_none());
    b.job_ends();
    b.job_ends();
    assert_eq!(b.completed_jobs, 2);
    assert!(b.is_idle());
}

fn told(messages: &[UiMessage]) -> Vec<String> {
    messages
        .iter()
        .map(|m| match m {
            UiMessage::Log(t) => format!("log {}", t.chars().take(40).collect::<String>()),
            UiMessage::Status(t) => format!("status {t}"),
            UiMessage::Refresh => "refresh".to_string(),
            UiMessage::JobFileOk(d) => {
                format!("ok {} {}/{} {}", d.job_id, d.index, d.total, d.audio_path.text())
            }
            UiMessage::JobFileErr { job_id, index, total, audio_path, error } => {
                format!("err {job_id} {index}/{total} {} {error}", audio_path.text())
            }
            UiMessage::JobDone(id) => format!("done {id}"),
            _ => "other".to_string(),
        })
        .collect()
}

#[test]
fn every_file_of_a_job_has_its_turn() {
    let mut s = session(true);
    let mut b = JobBoard::new();
    let files = vec![path("/a/1.wav"), path("/a/2.wav"), path("/a/3.wav")];
    assert!(s.enqueue_job(&mut b, &clock(1), &report(true), files));
    assert!(b.start_worker());
    let mut run = JobRun::new(b.take_job().unwrap());
    let (action, messages) = run.next_step(&mut b, WorkerEvent::Taken);
    assert!(matches!(&action, WorkerAction::Transcribe { file, settings }
        if file.text() == "/a/1.wav" && settings.audio_file == "/a/1.wav"));
    assert_eq!(
        told(&messages),
        vec![
            "refresh",
            "log Running job #1 with 3 file(s)...",
            "log Job #1 file 1/3 config: mode='transcript",
            "status Job #1 file 1/3: preparing /a/1.wav",
        ]
    );
    assert_eq!(b.active_stage, "job #1 file 1/3: preparing");

    let (action, messages) = run.next_step(&mut b, WorkerEvent::Stage("reading".to_string()));
    assert!(matches!(action, WorkerAction::GoOn));
    assert_eq!(
        told(&messages),
        vec!["status Job #1 file 1/3: reading", "log Job #1 file 1/3 stage detail: reading"]
    );
    assert_eq!(b.active_stage, "job #1 file 1/3: reading");

    let (action, messages) = run.next_step(&mut b, WorkerEvent::Failed("broken".to_string()));
    assert!(matches!(&action, WorkerAction::Transcribe { file, .. } if file.text() == "/a/2.wav"));
    assert_eq!(told(&messages)[..2], ["err 1 1/3 /a/1.wav broken", "refresh"]);
    assert_eq!(b.active_job.unwrap().done_files, 1);

    let (action, messages) = run.next_step(&mut b, WorkerEvent::Transcribed(done("text")));
    assert!(matches!(&action, WorkerAction::Transcribe { file, .. } if file.text() == "/a/3.wav"));
    assert_eq!(told(&messages)[..2], ["ok 1 2/3 /a/2.wav", "refresh"]);
    assert!(matches!(&messages[0], UiMessage::JobFileOk(d) if d.output_text == "text"));
    assert_eq!((b.running_jobs, b.completed_jobs), (1, 0));

    assert!(run.can_happen(&WorkerEvent::Failed(String::new())));
    assert!(!run.can_happen(&WorkerEvent::Taken));
    let (action, messages) = run.next_step(&mut b, WorkerEvent::Failed("no".to_string()));
    assert!(matches!(action, WorkerAction::TakeNext));
    assert_eq!(told(&messages), vec!["err 1 3/3 /a/3.wav no", "refresh", "done 1", "refresh"]);
    assert_eq!((b.running_jobs, b.completed_jobs), (0, 1));
    assert!(b.active_job.is_none() && b.active_stage.is_empty());
    assert!(!run.can_happen(&WorkerEvent::Failed(String::new())));
}

#[test]
fn editing_needs_a_transcript_that_is_there() {
    let mut s = session(true);
    assert!(!s.review.can_edit(false, false));
    assert!(s.review.can_edit(true, false));
    assert!(s.review.can_edit(false, true));
    s.review.editing_enabled = true;
    assert!(s.review.can_edit(false, false));
}

#[test]
fn a_job_is_refused_while_the_runtime_lacks_something() {
    let mut s = session(false);
    let mut b = JobBoard::new();
    assert!(!s.enqueue_job(&mut b, &clock(1), &report(false), vec![path("/a/1.wav")]));
    assert!(b.job_queue.is_empty());
    assert!(!s.is_transcribing);
    assert!(s.runtime.show_missing_window);
}

#[test]
fn the_runtime_blocks_while_it_is_installed() {
    let mut s = session(true);
    let mut b = JobBoard::new();
    assert!(s.start_runtime_install(&mut b, &clock(1), "/rt").is_some());
    assert!(s.runtime_busy());
    assert!(s.start_runtime_install(&mut b, &clock(1), "/rt").is_none());
    assert!(!s.ensure_runtime_ready(&clock(1), "Playback", &report(true)));
    s.process_message(
        &mut b,
        &clock(2),
        UiMessage::RuntimeInstalled {
            report: report(true),
            devices: Some(vec![BridgeDevice {
                index: 0,
                backend: "Vulkan".to_string(),
                name: "GPU".to_string(),
                description: String::new(),
                memory_free: 0,
                memory_total: 0,
            }]),
        },
    );
    assert!(!s.runtime_busy());
    assert!(s.ensure_runtime_ready(&clock(3), "Playback", &report(true)));
}

#[test]
fn a_new_transcript_resets_the_edited_copy() {
    let mut s = session(true);
    let mut b = JobBoard::new();
    let text = "[00:00:01 - 00:00:02] hello";
    let next = s.process_message(&mut b, &clock(9), UiMessage::JobFileOk(done(text)));
    assert!(matches!(next, FollowUp::ChooseChatSource));
    assert_eq!(s.review.transcription_text, text);
    assert_eq!(s.review.edited_text, text);
    assert_eq!(s.review.cues.len(), 1);
    assert_eq!(s.review.cues, s.review.edited_cues);
    assert!(b.output_entries.iter().any(|e| e.path.text() == "/a/talk.md"));
    assert!(s
        .status_log
        .iter()
        .any(|l| l.contains("Job #1 file 1/1 complete in 0.01s")));
}

#[test]
fn a_failed_file_is_told() {
    let mut s = session(true);
    let mut b = JobBoard::new();
    s.process_message(
        &mut b,
        &clock(9),
        UiMessage::JobFileErr {
            job_id: 4,
            index: 1,
            total: 2,
            audio_path: path("/a/talk.wav"),
            error: "no model".to_string(),
        },
    );
    assert!(s.status_log.iter().any(|l| l.contains("no model")));
}

#[test]
fn stale_live_messages_do_nothing() {
    let mut s = session(true);
    let mut b = JobBoard::new();
    s.live_started(
        &clock(1),
        7,
        "Mic".to_string(),
        path("/l/r.wav"),
        path("/l/t.md"),
    );
    assert!(s.live.capturing);
    s.process_message(
        &mut b,
        &clock(2),
        UiMessage::LiveTextAppend { session_id: 7, chunk: "Hello".to_string() },
    );
    s.process_message(
        &mut b,
        &clock(2),
        UiMessage::LiveTextAppend { session_id: 6, chunk: "stale".to_string() },
    );
    assert_eq!(s.live.text, "Hello");
    s.process_message(
        &mut b,
        &clock(3),
        UiMessage::LiveSessionFailed { session_id: 7, error: "gone".to_string() },
    );
    assert!(!s.live.capturing);
    s.process_message(
        &mut b,
        &clock(4),
        UiMessage::LiveTextSet { session_id: 7, text: "late".to_string() },
    );
    assert_eq!(s.live.text, "Hello");
}

#[test]
fn downloads_are_told_and_forgotten() {
    let mut s = session(true);
    let mut b = JobBoard::new();
    s.process_message(
        &mut b,
        &clock(1),
        UiMessage::DownloadStatus {
            kind: DownloadKind::Chat,
            status: Some("Downloading Q: 1 B at 1 B/s".to_string()),
        },
    );
    assert_eq!(
        b.download_status.as_deref(),
        Some("Downloading Q: 1 B at 1 B/s")
    );
    assert_eq!(
        shown_status("Downloading Q: 1 B at 1 B/s", &b.download_status),
        ""
    );
    s.process_message(
        &mut b,
        &clock(1),
        UiMessage::DownloadStatus { kind: DownloadKind::Chat, status: None },
    );
    assert_eq!(b.download_status, None);
    assert_eq!(b.download_statuses.status(DownloadKind::Chat), None);
}

#[test]
fn what_was_saved_is_read_back() {
    let mut s = session(true);
    let mut b = JobBoard::new();
    s.process_message(&mut b, &clock(9), UiMessage::JobFileOk(done("first")));
    s.review.set_edited("second".to_string());
    let plan = s.review.plan_save(&b, true, false).unwrap();
    assert_eq!(plan.output.text(), "/a/talk.edited.md");
    s.review.save_begins(&plan);
    let found = FoundTranscript {
        exists: true,
        text: Ok("first".to_string()),
        edited_exists: true,
        edited_text: Some("second".to_string()),
        known_original: None,
        folder: vec![path("/a/talk.wav")],
    };
    s.open_output_transcript(&mut b, &path("/a/talk.md"), &found)
        .unwrap();
    assert_eq!(s.review.transcription_text, "first");
    assert_eq!(s.review.edited_text, "second");
    s.review.set_edited("  ".to_string());
    assert_eq!(
        s.review.plan_save(&b, true, false).err().unwrap(),
        "edited text is empty"
    );
}

#[test]
fn an_answer_is_applied_to_the_transcript() {
    let mut s = session(true);
    let mut b = JobBoard::new();
    s.process_message(
        &mut b,
        &clock(9),
        UiMessage::JobFileOk(done("Anastasia called from Kabul.")),
    );
    let next = s.process_message(
        &mut b,
        &clock(10),
        UiMessage::AnonymiseDone {
            answer: "{name: Anastasia; location: Kabul;}".to_string(),
            source_text: "Anastasia called from Kabul.".to_string(),
            original_exists: true,
            selected_exists: true,
        },
    );
    assert_eq!(
        s.review.edited_text,
        "[name omitted] called from [location omitted]."
    );
    match next {
        FollowUp::SaveAnonymised(save) => {
            assert_eq!(save.counts.exact_replacements, 2);
            assert_eq!(save.counts.fuzzy_replacements, 0);
            assert_eq!(save.plan.output.text(), "/a/talk.edited.md");
        }
        _ => panic!("nothing to save"),
    }
}

#[test]
fn kinds_are_selected_in_their_order() {
    let mut s = session(true);
    s.select_kind(AnonymiseEntityKind::Name, false);
    s.select_kind(AnonymiseEntityKind::Name, true);
    let kinds = s.anonymise_selected_in_order();
    assert_eq!(kinds[0], AnonymiseEntityKind::Name);
    assert_eq!(kinds.len(), 8);
}

#[test]
fn a_line_that_is_clicked_is_waited_for() {
    let mut s = session(true);
    let mut b = JobBoard::new();
    s.process_message(
        &mut b,
        &clock(9),
        UiMessage::JobFileOk(done("[00:00:10 - 00:00:12] hello")),
    );
    assert_eq!(s.seek_to_line(&clock(1_000), 0), Some(10_000_000));
    assert_eq!(
        s.playback
            .playback_time_for_transcript_sync(&clock(1_100), 0),
        10_000_000
    );
    assert_eq!(
        s.playback
            .playback_time_for_transcript_sync(&clock(1_200), 9_900_000),
        9_900_000
    );
    assert_eq!(
        s.playback
            .playback_time_for_transcript_sync(&clock(1_300), 0),
        0
    );
}

#[test]
fn requests_to_play_wait_for_the_decoder() {
    let mut s = session(true);
    let talk = path("/a/talk.wav");
    assert!(matches!(
        s.request_playback_start(&clock(1), &talk, 5, true),
        PlayStep::Start
    ));
    assert!(matches!(
        s.request_playback_start(&clock(1), &talk, 5, false),
        PlayStep::Decode
    ));
    assert!(s.decode_begins(&clock(1), "play", "0.00", Ok(())));
    assert!(matches!(
        s.request_playback_start(&clock(1), &talk, 5, false),
        PlayStep::Queued
    ));
    let waiting = s
        .playback_decoded(&clock(2), &talk, Ok("0.00".to_string()))
        .unwrap();
    assert_eq!((waiting.start_us, waiting.decoded), (5, true));
    assert!(!s.playback.decode_in_progress);
    assert!(!s.decode_begins(&clock(3), "play", "0.00", Err("no device".to_string())));
    assert_eq!(s.status, "Playback stream init failed: no device");
}

#[test]
fn a_request_is_asked_for_again_where_decoding_failed() {
    let talk = path("/a/talk.wav");
    for other in ["/a/talk.wav", "/a/other.wav"] {
        let mut s = session(true);
        s.request_playback_start(&clock(1), &talk, 5, false);
        assert!(s.decode_begins(&clock(1), "play", "0.00", Ok(())));
        s.request_playback_start(&clock(1), &path(other), 7, false);
        let waiting = s.playback_decode_failed(&clock(2), &talk, "no codec").unwrap();
        assert_eq!((waiting.start_us, waiting.decoded), (7, false));
        assert_eq!(waiting.path.text(), other);
        assert_eq!(s.status, "Playback decode failed (/a/talk.wav): no codec");
        assert!(!s.playback.decode_in_progress);
        assert!(s.playback_decode_failed(&clock(2), &talk, "no codec").is_none());
    }
}

#[test]
fn the_setup_stays_until_it_was_drawn_complete() {
    let mut s = session(false);
    s.runtime.show_missing_window = true;
    s.setup_window_drawn(true, false, true);
    assert!(s.runtime.show_missing_window);
    s.setup_window_drawn(true, true, true);
    assert!(!s.runtime.show_missing_window);
    s.runtime.install_in_progress = true;
    s.setup_window_drawn(false, true, true);
    assert!(!s.runtime.show_missing_window);
    s.setup_window_drawn(false, true, false);
    assert!(s.runtime.show_missing_window);
}

#[test]
fn editing_always_shows_both_texts() {
    let mut s = session(true);
    s.settings.split_view = false;
    s.settings_dirty = false;
    s.editing_settings_saved(&clock(9));
    assert!(s.settings.split_view);
    assert!(s.settings_dirty);
}

#[test]
fn renamed_speakers_are_told() {
    let mut s = session(true);
    s.renames_applied(&clock(1), Ok(None));
    assert_eq!(
        s.status,
        "Speaker rename: no replacements made (empty names or no matches)."
    );
    s.renames_applied(&clock(1), Ok(Some((3, path("/a/talk.edited.md")))));
    assert_eq!(
        s.status,
        "Speaker rename applied: 3 replacements. Saved: /a/talk.edited.md"
    );
    s.renames_applied(&clock(1), Err("no file".to_string()));
    assert_eq!(s.status, "Speaker rename failed: no file");
}

#[test]
fn lists_hold_each_file_once() {
    let mut list: Vec<FileEntry> = vec![];
    ensure_output_entry(&mut list, path("/a/1.md"), true);
    ensure_output_entry(&mut list, path("/a//1.md"), true);
    ensure_output_entry(&mut list, path("/a/2.md"), false);
    assert_eq!(list.len(), 2);
    remove_selected(&mut list);
    assert_eq!(list.len(), 1);
    assert_eq!(list[0].path.text(), "/a/2.md");
    select_all(&mut list, true);
    assert_eq!(selected_media_files(&list).len(), 1);
    remove_selected(&mut list);
    assert!(list.is_empty());

    let mut media = vec![];
    let mut outputs = vec![];
    let added = vec![AddedMedia {
        path: path("/a/talk.wav"),
        original_is_file: true,
        edited_is_file: true,
    }];
    assert!(add_media_files(&mut media, &mut outputs, &added));
    assert_eq!(media.len(), 1);
    assert_eq!(outputs.len(), 2);
}

#[test]
fn the_board_is_told_in_words() {
    let mut b = JobBoard::new();
    assert_eq!(
        jobs_line(&b),
        "Jobs: running=0 queued=0 complete=0 stage=<idle>"
    );
    assert_eq!(
        job_counts_text(&b),
        "0 running | 0 queued | 0 complete"
    );
    assert_eq!(stage_text("  "), None);
    assert_eq!(stage_text("decode").as_deref(), Some("Stage: decode"));
    assert_eq!(current_stage_text(" "), None);
    assert_eq!(current_stage_text("decode").as_deref(), Some("Current stage: decode"));
    assert!(transcribe_progress(&b).done.is_none());
    b.enqueue(AppSettings::default(), vec![path("/a/1.wav")]);
    b.take_job();
    b.set_stage(1, 1, 1, "decode");
    assert!(banner_text(&b).contains('1'));
}

#[test]
fn a_question_names_its_context() {
    let prompt = build_chat_prompt("the text", "Why?");
    assert!(prompt.contains("the text") && prompt.contains("Why?"));
    let block = chat_log_block("stamp", "Why?", "Because.");
    assert!(block.contains("stamp") && block.contains("Why?") && block.contains("Because."));
}

#[test]
fn both_texts_follow_the_playback() {
    let mut s = session(true);
    let mut b = JobBoard::new();
    let text = "[00:00:00 - 00:00:05] one\nmore\n[00:00:05 - 00:00:09] two";
    s.process_message(&mut b, &clock(9), UiMessage::JobFileOk(done(text)));
    let plan = s.review.follow_at(6_000_000);
    assert_eq!((plan.lines, plan.line), (Some((2, 3)), Some(2)));
    assert_eq!((plan.edited_lines, plan.edited_line), (Some((2, 3)), Some(2)));
    s.review.text_edited(&clock(100), "no times".to_string(), 500);
    let plan = s.review.follow_at(1_000_000);
    assert_eq!((plan.lines, plan.line), (Some((0, 2)), Some(0)));
    assert_eq!((plan.edited_lines, plan.edited_line), (None, Some(0)));
}

#[test]
fn a_cursor_that_is_placed_holds_the_transcript() {
    let mut s = session(true);
    s.review.editing_enabled = true;
    s.review.cursor_placed(&clock(100), 500);
    assert_eq!(s.review.edit_pause_until, Some(600));
    assert!(s.follow_paused_for_user_navigation(&clock(599)));
    assert!(!s.follow_paused_for_user_navigation(&clock(601)));
}

#[test]
fn a_runtime_that_is_complete_again_is_told() {
    let mut s = session(false);
    assert!(!s.recheck_runtime(&clock(5), &report(false), true));
    assert!(!s.runtime.missing.is_empty());
    assert!(s.recheck_runtime(&clock(6), &report(true), true));
    assert_eq!(s.status, "Runtime detected.");
    assert!(!s.recheck_runtime(&clock(7), &report(true), false));
}

#[test]
fn a_chat_without_a_transcript_shows_nothing() {
    let mut s = session(true);
    let talk = path("/a/talk.md");
    s.chat
        .load_chat_source_file(&talk, true, Ok("text".to_string()), Some("log".to_string()))
        .unwrap();
    assert_eq!(s.chat.context_text, "text");
    assert_eq!(s.chat.history_text, "log");
    s.chat.clear_source();
    assert!(s.chat.source_path.is_none());
    assert_eq!(s.chat.context_text, "");
    assert_eq!(s.chat.history_text, "");
    assert!(s
        .chat
        .load_chat_source_file(&talk, false, Ok("text".to_string()), None)
        .is_err());
}

#[test]
fn an_answer_that_cannot_be_cut_is_not_told() {
    let mut s = session(true);
    let mut b = JobBoard::new();
    let mut file = done("text");
    file.response = Value::String(format!("{}{}", "x".repeat(15_998), "\u{e4}"));
    assert!(!can_show(&file.response));
    assert!(s
        .try_process_message(&mut b, &clock(9), UiMessage::JobFileOk(file))
        .is_none());
    assert_eq!(s.review.transcription_text, "");
    assert!(b.output_entries.is_empty());
    let mut file = done("text");
    file.response = Value::String("x".repeat(20_000));
    assert!(can_show(&file.response));
    assert!(matches!(
        s.try_process_message(&mut b, &clock(9), UiMessage::JobFileOk(file)),
        Some(FollowUp::ChooseChatSource)
    ));
    assert!(s
        .status_log
        .last()
        .unwrap()
        .ends_with("xxx\n... [truncated]"));
}

#[test]
fn an_anonymisation_never_lets_the_model_think() {
    let mut s = session(true);
    let mut b = JobBoard::new();
    s.settings.chat_allow_thinking = true;
    s.settings.chat_context_file = "/a/talk.md".to_string();
    let settings = s.begin_anonymise(&mut b, &clock(9), "Anastasia called.");
    assert!(!settings.chat_allow_thinking);
    assert_eq!(settings.chat_context_file, "");
    assert!(settings.chat_prompt.contains("Anastasia called."));
    assert!(s.settings.chat_allow_thinking);
    assert!(s.anonymise.running);
    assert_eq!(b.running_jobs, 1);
    let params = run_chat(&settings, &Some("context".to_string()), &None, None).unwrap();
    assert_eq!(params.reasoning, "off");
    assert_eq!(params.prompt, settings.chat_prompt);
}

#[test]
fn a_model_that_is_kept_elsewhere_stays_set() {
    let paths = AppPaths {
        data_dir: "/d".to_string(),
        models_dir: "/d/models".to_string(),
        live_models_dir: "/d/models/live".to_string(),
        chat_models_dir: "/d/models/chat".to_string(),
        diarization_models_dir: "/d/models/diarization".to_string(),
    };
    let mut s = session(true);
    s.settings.chat_model = "/home/own.gguf".to_string();
    s.adopt_chat(&clock(9), &paths, "/d/models/chat/q.gguf", true);
    assert_eq!(s.settings.chat_model, "/home/own.gguf");
    s.settings.chat_model = "/d/models/chat/old.gguf".to_string();
    s.adopt_chat(&clock(9), &paths, "/d/models/chat/q.gguf", false);
    assert_eq!(s.settings.chat_model, "/d/models/chat/old.gguf");
    s.adopt_chat(&clock(9), &paths, "/d/models/chat/q.gguf", true);
    assert_eq!(s.settings.chat_model, "/d/models/chat/q.gguf");
    s.settings.chat_model = String::new();
    s.adopt_chat(&clock(9), &paths, "/d/models/chat/q.gguf", true);
    assert_eq!(s.settings.chat_model, "/d/models/chat/q.gguf");
}
