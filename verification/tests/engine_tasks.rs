use transcribe_offline::board::DownloadKind;
use transcribe_offline::devices::BridgeDevice;
use transcribe_offline::downloads::{
    chat_model_at, download_asked_status, download_begins, download_ends, download_label,
    download_temp_path, live_model_at, progress_due, whisper_model_at,
};
use transcribe_offline::engine::{
    check_chat, check_diarization, check_gpu, check_settings, custom_value, engine_stages,
    is_default_or_positive_float, output_of_transcription, plan_transcription, run_chat, Found,
    MetaValue,
};
use transcribe_offline::models::{whisper_models, SORTFORMER_MODEL_FILE};
use transcribe_offline::paths::{file_path, file_path_of, Platform};
use transcribe_offline::playback::{
    append_stereo, channel_value, handle_hotkeys, playback_label, seek_action, PlaybackKeys,
    Player, SeekAction, SeekRepeat,
};
use transcribe_offline::session::messages::UiMessage;
use transcribe_offline::session::playing::ToggleAction;
use transcribe_offline::settings::AppSettings;
use transcribe_offline::transcription::{
    Looked, Phase, TranscribeAction, TranscribeEvent, Transcription,
};

fn ready_settings() -> AppSettings {
    let mut s = AppSettings::default();
    s.audio_file = "/a/talk.wav".to_string();
    s.whisper_model = "/m/w.bin".to_string();
    s.diarization_models_dir = "/m/d".to_string();
    s
}

fn device(index: i32) -> BridgeDevice {
    BridgeDevice {
        index,
        backend: "CUDA".to_string(),
        name: "GPU A".to_string(),
        description: String::new(),
        memory_free: 0,
        memory_total: 0,
    }
}

fn found() -> Found {
    Found {
        audio_exists: true,
        custom_is_positive: false,
        model_exists: true,
        offset_is_number: true,
        devices: Some(vec![device(2)]),
        default_threads: Some(3),
    }
}

#[test]
fn a_transcription_is_refused_for_the_first_reason() {
    let mut s = AppSettings::default();
    assert_eq!(
        check_settings(&s, true, false).unwrap_err(),
        "audio file is required"
    );
    s.audio_file = "/a/talk.wav".to_string();
    assert_eq!(
        check_settings(&s, true, false).unwrap_err(),
        "whisper model path is required"
    );
    s.whisper_model = "/m/w.bin".to_string();
    assert_eq!(
        check_settings(&s, false, false).unwrap_err(),
        "audio file not found: '/a/talk.wav'"
    );
    assert!(check_settings(&s, true, false).is_ok());
    s.mode = "Subtitle".to_string();
    s.subtitle_custom_mode = "soon".to_string();
    assert_eq!(
        check_settings(&s, true, false).unwrap_err(),
        "subtitle custom must be 'default'/'auto' or a positive number of seconds"
    );
    assert!(check_settings(&s, true, true).is_ok());
    s.mode = "speech".to_string();
    s.speech_custom_mode = "soon".to_string();
    assert_eq!(
        check_settings(&s, true, false).unwrap_err(),
        "speech custom must be 'default'/'auto' or a positive number of seconds"
    );
}

#[test]
fn speakers_need_their_model() {
    let mut s = ready_settings();
    assert!(check_diarization(Platform::Linux, &s, true).is_ok());
    assert_eq!(
        check_diarization(Platform::Linux, &s, false).unwrap_err(),
        format!("diarization model not found: '/m/d/{SORTFORMER_MODEL_FILE}'")
    );
    s.diarization_models_dir = " ".to_string();
    assert_eq!(
        check_diarization(Platform::Linux, &s, true).unwrap_err(),
        "diarization is enabled but diarization models dir is empty"
    );
    s.mode = "speech".to_string();
    assert!(check_diarization(Platform::Linux, &s, false).is_ok());
}

#[test]
fn a_gpu_must_be_reported() {
    let mut s = ready_settings();
    assert!(check_gpu(&s, &None).is_ok());
    s.devices = "2".to_string();
    assert!(check_gpu(&s, &Some(vec![device(2)])).is_ok());
    assert_eq!(
        check_gpu(&s, &Some(vec![device(1)])).unwrap_err(),
        "selected GPU index 2 is not available in runtime device list; choose CPU mode or re-select a valid GPU in Runtime settings"
    );
    assert!(check_gpu(&s, &None).is_err());
}

#[test]
fn lengths_are_default_or_positive() {
    assert!(is_default_or_positive_float(" ", false));
    assert!(is_default_or_positive_float("DEFAULT", false));
    assert!(is_default_or_positive_float("auto", false));
    assert!(is_default_or_positive_float("2.5", true));
    assert!(!is_default_or_positive_float("-1", false));
    let mut s = ready_settings();
    s.custom_mode = " 7 ".to_string();
    s.subtitle_custom_mode = "8".to_string();
    assert_eq!(custom_value(&s), "7");
    s.mode = "SUBTITLE".to_string();
    assert_eq!(custom_value(&s), "8");
    s.subtitle_custom_mode = " ".to_string();
    assert_eq!(custom_value(&s), "7");
}

#[test]
fn the_engine_is_told_of_the_recording() {
    let mut s = ready_settings();
    s.devices = "2".to_string();
    s.custom_mode = String::new();
    let audio = file_path_of(Platform::Linux, "/a/talk.wav").unwrap();
    let plan = plan_transcription(Platform::Linux, &s, &audio, &found()).unwrap();
    let names: Vec<&str> = plan.metadata.iter().map(|e| e.name).collect();
    assert_eq!(
        names,
        vec![
            "mode",
            "custom",
            "output_dir",
            "audio_source_path",
            "whisper_model",
            "diarization_model_path",
            "diarization_backend",
            "diarization_feed_ms",
            "whisper_word_time_offset_sec",
            "transport",
            "gpu",
            "whisper_gpu_device",
            "diarization_device",
        ]
    );
    assert!(matches!(&plan.metadata[1].value, MetaValue::Text(t) if t == "default"));
    assert!(matches!(&plan.metadata[2].value, MetaValue::Text(t) if t == "/a"));
    assert!(matches!(&plan.metadata[8].value, MetaValue::Number(t) if t == "0.73"));
    assert!(matches!(plan.metadata[10].value, MetaValue::Int(2)));
    assert!(matches!(&plan.metadata[12].value, MetaValue::Text(t) if t == "GPU A"));
    assert!(plan.diarization_enabled);
    assert_eq!(plan.audio_format, "wav");
    assert_eq!(plan.shared.n_threads, Some(3));
    assert_eq!(plan.shared.gpu, Some(2));

    s.devices.clear();
    s.mode = "speech".to_string();
    let plan = plan_transcription(Platform::Linux, &s, &audio, &found()).unwrap();
    let last = plan.metadata.last().unwrap();
    assert_eq!(last.name, "whisper_no_gpu");
    assert!(matches!(last.value, MetaValue::Flag(true)));
    assert!(!plan.diarization_enabled);

    let mut missing = found();
    missing.audio_exists = false;
    assert_eq!(
        plan_transcription(Platform::Linux, &s, &audio, &missing).unwrap_err(),
        "audio file not found: '/a/talk.wav'"
    );
    let roots = [
        (Platform::Windows, "C:\\a.wav", "C:\\"),
        (Platform::Windows, "C:\\x\\a.wav", "C:\\x"),
        (Platform::Linux, "/a.wav", "/"),
        (Platform::Linux, "a.wav", ""),
        (Platform::Linux, "/", "."),
    ];
    for (platform, text, folder) in roots {
        let plan = plan_transcription(platform, &s, &file_path(platform, text), &found()).unwrap();
        assert!(matches!(&plan.metadata[2].value, MetaValue::Text(t) if t == folder));
        assert!(matches!(&plan.metadata[3].value, MetaValue::Text(t) if t == text));
    }
    assert_eq!(engine_stages(true).len(), 3);
    assert_eq!(engine_stages(false)[1], "running whisper transcription");
}

fn looked(audio_exists: bool, custom_is_positive: bool) -> TranscribeEvent {
    TranscribeEvent::Looked(Looked {
        audio_exists,
        custom_is_positive,
        offset_is_number: true,
        default_threads: Some(3),
    })
}

fn failure(settings: &AppSettings, events: Vec<TranscribeEvent>) -> (Vec<&'static str>, String) {
    let mut run = Transcription::new(Platform::Linux, settings);
    let (mut told, _) = run.next_step(TranscribeEvent::Begun);
    for event in events {
        assert!(run.waits_for(&event));
        let (stages, action) = run.next_step(event);
        told.extend(stages);
        if let TranscribeAction::Fail(why) = action {
            assert_eq!(run.phase, Phase::Over);
            return (told, why);
        }
    }
    panic!("the transcription went on");
}

#[test]
fn a_transcription_goes_through_its_stages() {
    let mut s = ready_settings();
    s.audio_file = " /a/talk.wav ".to_string();
    let mut run = Transcription::new(Platform::Linux, &s);
    assert_eq!(run.audio.text(), "/a/talk.wav");
    let answer: serde_json::Value =
        serde_json::from_str(r#"{"output":{"path":"/b/out.md"}}"#).unwrap();
    let events = vec![
        TranscribeEvent::Begun,
        looked(true, false),
        TranscribeEvent::FolderMade(true),
        TranscribeEvent::ModelLookedFor(true),
        TranscribeEvent::EngineLoaded(Ok(None)),
        TranscribeEvent::AudioRead(true),
        TranscribeEvent::Answered(Ok(answer)),
        TranscribeEvent::OutputRead(true),
    ];
    let mut told: Vec<&str> = vec![];
    let mut asked: Vec<String> = vec![];
    for event in events {
        assert!(run.waits_for(&event));
        let (stages, action) = run.next_step(event);
        told.extend(stages);
        asked.push(match action {
            TranscribeAction::Look => "look".to_string(),
            TranscribeAction::MakeFolder(dir) => format!("make {dir}"),
            TranscribeAction::LookForModel(path) => format!("find {path}"),
            TranscribeAction::LoadEngine => "load".to_string(),
            TranscribeAction::ReadAudio => "read audio".to_string(),
            TranscribeAction::RunEngine => "run".to_string(),
            TranscribeAction::ReadOutput => "read output".to_string(),
            TranscribeAction::Finish => "finish".to_string(),
            TranscribeAction::Fail(why) => panic!("{why}"),
        });
    }
    assert_eq!(
        told,
        vec![
            "validating input",
            "loading runtime + bridge",
            "reading audio bytes",
            "bridge pipeline stage: whisper transcription (starting)",
            "bridge pipeline stage: native diarization (starting)",
            "running whisper transcription + diarization",
            "bridge pipeline stage: complete",
            "loading generated output text",
        ]
    );
    let find = format!("find /m/d/{SORTFORMER_MODEL_FILE}");
    assert_eq!(
        asked,
        vec!["look", "make /a", &find, "load", "read audio", "run", "read output", "finish"]
    );
    assert_eq!(run.output.unwrap().text(), "/b/out.md");
    assert!(run.plan.unwrap().diarization_enabled);
}

#[test]
fn a_transcription_fails_at_the_first_thing_that_is_wrong() {
    let s = ready_settings();
    let start = || vec![looked(true, false), TranscribeEvent::FolderMade(true)];
    let loaded = || {
        let mut events = start();
        events.push(TranscribeEvent::ModelLookedFor(true));
        events.push(TranscribeEvent::EngineLoaded(Ok(None)));
        events
    };
    let with = |mut events: Vec<TranscribeEvent>, last: TranscribeEvent| {
        events.push(last);
        events
    };
    let (told, why) = failure(&s, vec![looked(false, false)]);
    assert_eq!((told.len(), why.as_str()), (1, "audio file not found: '/a/talk.wav'"));
    let (_, why) = failure(&s, vec![looked(true, false), TranscribeEvent::FolderMade(false)]);
    assert_eq!(why, "failed to create output dir '/a'");
    let mut odd = ready_settings();
    odd.mode = "speech".to_string();
    odd.speech_custom_mode = "x".to_string();
    let (_, why) = failure(&odd, start());
    assert_eq!(why, "speech custom must be 'default'/'auto' or a positive number of seconds");
    let (told, why) = failure(&s, with(start(), TranscribeEvent::ModelLookedFor(false)));
    assert_eq!(why, format!("diarization model not found: '/m/d/{SORTFORMER_MODEL_FILE}'"));
    assert_eq!(told, vec!["validating input"]);
    let model = with(start(), TranscribeEvent::ModelLookedFor(true));
    let (told, why) =
        failure(&s, with(model, TranscribeEvent::EngineLoaded(Err("no bridge".to_string()))));
    assert_eq!((told.len(), why.as_str()), (2, "no bridge"));
    let mut gpu = ready_settings();
    gpu.devices = "7".to_string();
    let (_, why) = failure(&gpu, loaded());
    assert!(why.starts_with("selected GPU index 7 is not available"));
    let (told, why) = failure(&s, with(loaded(), TranscribeEvent::AudioRead(false)));
    assert_eq!((told.len(), why.as_str()), (3, "failed to read audio '/a/talk.wav'"));
    let read = with(loaded(), TranscribeEvent::AudioRead(true));
    let (told, why) = failure(&s, with(read, TranscribeEvent::Answered(Err("down".to_string()))));
    assert_eq!((told.len(), why.as_str()), (6, "down"));
    let read = with(loaded(), TranscribeEvent::AudioRead(true));
    let answered = with(read, TranscribeEvent::Answered(Ok(serde_json::Value::Null)));
    let (told, why) = failure(&s, with(answered, TranscribeEvent::OutputRead(false)));
    assert_eq!((told.len(), why.as_str()), (8, "failed to read output '/a/talk.md'"));
}

#[test]
fn the_output_is_the_one_that_the_answer_names() {
    let audio = file_path_of(Platform::Linux, "/a/talk.wav").unwrap();
    let named: serde_json::Value =
        serde_json::from_str(r#"{"output":{"path":"/b/out.md"}}"#).unwrap();
    assert_eq!(
        output_of_transcription(Platform::Linux, &named, &audio, "speech").text(),
        "/b/out.md"
    );
    let doubled: serde_json::Value =
        serde_json::from_str(r#"{"output":{"path":"/b//out.md"}}"#).unwrap();
    let kept = output_of_transcription(Platform::Linux, &doubled, &audio, "speech");
    assert_eq!((kept.text().as_str(), kept.name.as_str()), ("/b//out.md", "out.md"));
    let silent: serde_json::Value = serde_json::from_str("{}").unwrap();
    assert_eq!(
        output_of_transcription(Platform::Linux, &silent, &audio, "subtitle").text(),
        "/a/talk.srt"
    );
    let root = file_path(Platform::Linux, "/");
    assert_eq!(
        output_of_transcription(Platform::Linux, &silent, &root, "transcript").text(),
        "./output.md"
    );
}

#[test]
fn a_question_is_asked_with_its_context() {
    let mut s = AppSettings::default();
    assert_eq!(
        run_chat(&s, &None, &None, None).unwrap_err(),
        "chat model path is required"
    );
    s.chat_model = "/m/c.gguf".to_string();
    assert_eq!(
        run_chat(&s, &None, &None, None).unwrap_err(),
        "chat prompt is required"
    );
    s.chat_prompt = "Why?".to_string();
    let params = run_chat(&s, &None, &None, Some(2)).unwrap();
    assert_eq!(params.prompt, "Why?");
    assert_eq!(params.n_predict, 10_000);
    assert_eq!(
        (params.reasoning, params.reasoning_budget, params.reasoning_format),
        ("off", None, None)
    );
    assert_eq!(params.shared.n_threads, Some(2));
    s.chat_context_file = "/a/talk.md".to_string();
    s.chat_allow_thinking = true;
    assert_eq!(
        run_chat(&s, &None, &None, None).unwrap_err(),
        "failed to read context file '/a/talk.md'"
    );
    let params = run_chat(&s, &Some("text".to_string()), &None, None).unwrap();
    assert_eq!(params.prompt, "Why?\n\nContext markdown:\n\ntext");
    assert_eq!(
        (params.reasoning, params.reasoning_budget, params.reasoning_format),
        ("on", Some(-1), Some("deepseek"))
    );
}

#[test]
fn a_download_tells_how_it_begins_and_ends() {
    let begins = download_begins(DownloadKind::Whisper, "Tiny", "/m/t.bin");
    assert!(matches!(&begins[0], UiMessage::Log(t)
        if t == "Starting download: Whisper model model 'Tiny' -> /m/t.bin"));
    assert!(matches!(&begins[1], UiMessage::Status(t) if t == "Downloading Tiny..."));
    let ends = download_ends(DownloadKind::Live, "Rt", "/m/r.bin", &None);
    assert_eq!(ends.len(), 4);
    assert!(matches!(&ends[1], UiMessage::LiveModelInstalled(t) if t == "/m/r.bin"));
    assert!(matches!(&ends[2], UiMessage::Status(t) if t == "Installed realtime model Rt"));
    assert!(matches!(&ends[3], UiMessage::Refresh));
    let failed = download_ends(
        DownloadKind::Diarization,
        "x",
        "/m/d",
        &Some("timeout".to_string()),
    );
    assert!(matches!(&failed[1], UiMessage::Log(t)
        if t == "Sortformer diarization model download failed: timeout"));
    assert!(matches!(&failed[2], UiMessage::Status(t) if t == "Diarization download failed."));
    assert_eq!(
        download_label(DownloadKind::Diarization, "x"),
        "Sortformer diarization model"
    );
    assert_eq!(download_asked_status(DownloadKind::Diarization, "x"), None);
    assert_eq!(
        download_asked_status(DownloadKind::Chat, "Q").as_deref(),
        Some("Downloading chat model Q")
    );
}

#[test]
fn a_download_is_written_beside_its_place() {
    let dest = file_path_of(Platform::Linux, "/m/w.tiny.bin").unwrap();
    assert_eq!(download_temp_path(&dest).text(), "/m/w.tiny.download");
    let nowhere = file_path(Platform::Linux, "/m/..");
    assert_eq!(download_temp_path(&nowhere).text(), "/m/..");
    assert!(!progress_due(349));
    assert!(progress_due(350));
    let models = whisper_models();
    assert_eq!(whisper_model_at(1).file_name, models[1].file_name);
    assert_eq!(whisper_model_at(10_000).file_name, models[0].file_name);
    assert_eq!(live_model_at(10_000).label, live_model_at(0).label);
    assert_eq!(chat_model_at(10_000).label, chat_model_at(0).label);
}

#[test]
fn samples_go_to_their_channels() {
    let mut player: Player<i16> = Player::empty();
    assert!(!player.has_audio());
    assert_eq!(player.frame_at(0), None);
    let mut samples = Vec::new();
    append_stereo(&mut samples, &[1, 2, 3, 4], 4, 1, 0);
    assert_eq!(samples, vec![1, 1, 2, 2, 3, 3, 4, 4]);
    let mut wide = Vec::new();
    append_stereo(&mut wide, &[1, 2, 3, 4, 5, 6], 2, 3, 0);
    assert_eq!(wide, vec![1, 2, 4, 5]);
    let mut short = vec![9];
    append_stereo(&mut short, &[1, 2, 3], 2, 2, 0);
    assert_eq!(short, vec![9, 1, 2, 3, 3]);

    player.load(wide, "/a/talk.wav".to_string(), true);
    assert!(player.has_loaded_path(Platform::Linux, "/a/talk.wav"));
    assert!(!player.has_loaded_path(Platform::Linux, "/a/other.wav"));
    assert_eq!(player.frame_at(1), Some((4, 5)));
    assert_eq!(channel_value(2, Some((4, 5)), 0), 4);
    assert_eq!(channel_value(3, Some((4, 5)), 0), 5);
    assert_eq!(channel_value(3, None, 0), 0);
    assert_eq!(player.frame_at(2), None);
    assert!(player.ended && !player.playing);
    player.resume();
    player.toggle();
    assert!(!player.ended && !player.playing);
    assert_eq!(player.frame_at(0), None);
}

#[test]
fn jumps_count_their_repetitions() {
    let mut jumps = SeekRepeat { last_ms: None, count: 0 };
    assert_eq!(jumps.jumped(1_000), 0);
    assert_eq!(jumps.jumped(1_799), 1);
    assert_eq!(jumps.jumped(2_000), 2);
    assert_eq!(jumps.jumped(2_800), 0);
    assert_eq!(seek_action(false, true), SeekAction::NoAudio);
    assert_eq!(seek_action(true, true), SeekAction::Relative);
    assert_eq!(seek_action(true, false), SeekAction::Request);
}

#[test]
fn keys_turn_playback() {
    let keys = PlaybackKeys { modifier: true, space: true, back: true, forward: true };
    let plan = handle_hotkeys(keys, true, true, false, true);
    assert_eq!(plan.toggle, Some(ToggleAction::Toggle));
    assert_eq!(plan.seek, Some((SeekAction::Relative, true)));
    let plan = handle_hotkeys(keys, true, false, false, false);
    assert_eq!(plan.toggle, Some(ToggleAction::Request));
    assert_eq!(plan.seek, None);
    let plan = handle_hotkeys(keys, false, true, false, true);
    assert_eq!((plan.toggle, plan.seek), (None, None));
    let none = PlaybackKeys { modifier: false, ..keys };
    let plan = handle_hotkeys(none, true, true, false, true);
    assert_eq!((plan.toggle, plan.seek), (None, None));
    assert_eq!(playback_label(61, 3_600, true), "00:01:01 / 01:00:00 (ended)");
    assert_eq!(playback_label(0, 1, false), "00:00:00 / 00:00:01");
}

#[test]
fn a_question_is_refused_for_the_first_reason() {
    let mut settings = ready_settings();
    settings.chat_model = " ".to_string();
    settings.chat_prompt = String::new();
    settings.chat_context_file = "/a/talk.md".to_string();
    assert_eq!(
        check_chat(&settings, false).unwrap_err(),
        "chat model path is required"
    );
    settings.chat_model = "/m/c.gguf".to_string();
    assert_eq!(
        check_chat(&settings, false).unwrap_err(),
        "chat prompt is required"
    );
    settings.chat_prompt = "Who speaks?".to_string();
    assert_eq!(
        check_chat(&settings, false).unwrap_err(),
        "failed to read context file '/a/talk.md'"
    );
    assert!(check_chat(&settings, true).is_ok());
}
