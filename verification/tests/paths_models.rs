use transcribe_offline::models::{
    chat_model_combo_label, chat_models, first_installed_whisper_model,
    has_any_installed_whisper_model, is_managed_chat_model_path, live_models,
    missing_diarization_files, resolve_chat_model_path_from_store, select_whisper_model_index,
    sortformer_model_path_from_settings, whisper_combo_label, whisper_label_from_path,
    whisper_model_dest_path, whisper_models, AppPaths, StoreFolder, SORTFORMER_MODEL_FILE,
};
use transcribe_offline::pages::{app_pages, legal_docs, AppPage, LegalTexts};
use transcribe_offline::path_text::{
    join_path, path_folder, path_name, path_parent, paths_equal,
};
use transcribe_offline::paths::{
    chat_log_path_for_output, dedupe_paths, edited_file_path, existing_output_paths_for_media,
    fallback_output_path, file_path, file_path_of, guess_audio_path_for_output, infer_audio_format,
    is_edited_output_path, looks_like_audio_extension, normalize_playback_path,
    original_output_path_for_any, playback_paths_equal, FilePath, Platform,
};
use transcribe_offline::settings::AppSettings;

fn path(text: &str) -> FilePath {
    file_path_of(Platform::Linux, text).unwrap()
}

fn paths() -> AppPaths {
    AppPaths {
        data_dir: "/d".to_string(),
        models_dir: "/d/models".to_string(),
        live_models_dir: "/d/models/live".to_string(),
        chat_models_dir: "/d/models/chat".to_string(),
        diarization_models_dir: "/d/models/diar".to_string(),
    }
}

#[test]
fn an_edited_copy_leads_back_to_its_transcript() {
    let original = path("/a/talk.md");
    let edited = edited_file_path(&original);
    assert_eq!(edited.text(), "/a/talk.edited.md");
    assert!(is_edited_output_path(&edited));
    assert!(!is_edited_output_path(&original));
    assert_eq!(original_output_path_for_any(&edited).text(), "/a/talk.md");
    assert_eq!(original_output_path_for_any(&original).text(), "/a/talk.md");
}

#[test]
fn files_beside_a_recording_are_named_after_it() {
    let audio = path("/a/talk.WAV");
    assert_eq!(infer_audio_format(&audio), "wav");
    assert_eq!(infer_audio_format(&path("/a/talk")), "bin");
    assert_eq!(
        fallback_output_path(&audio, "Subtitle", "/out").text(),
        "/out/talk.srt"
    );
    assert_eq!(
        fallback_output_path(&path("/a/talk.v2.MP3"), "speech", "/out/").text(),
        "/out/talk.v2.md"
    );
    assert_eq!(
        chat_log_path_for_output(&path("/a/talk.md")).text(),
        "/a/talk.log"
    );
    let found = existing_output_paths_for_media(&audio, true, true);
    let names: Vec<String> = found.iter().map(|p| p.text()).collect();
    assert!(names.contains(&"/a/talk.md".to_string()));
    assert!(names.contains(&"/a/talk.edited.md".to_string()));
    assert!(existing_output_paths_for_media(&audio, false, false).is_empty());
}

#[test]
fn a_recording_is_guessed_by_its_name() {
    let files = vec![path("/a/other.wav"), path("/a/talk.txt"), path("/a/talk.mp3")];
    assert_eq!(
        guess_audio_path_for_output(&path("/a/talk.md"), &files).map(|p| p.text()),
        Some("/a/talk.mp3".to_string())
    );
    assert!(guess_audio_path_for_output(&path("/a/none.md"), &files).is_none());
    assert!(looks_like_audio_extension("MP3"));
    assert!(!looks_like_audio_extension("txt"));
}

#[test]
fn paths_are_compared_as_the_system_does() {
    assert!(playback_paths_equal(Platform::Windows, "C:\\A", "c:\\a"));
    assert!(!playback_paths_equal(Platform::Linux, "/A", "/a"));
    assert_eq!(normalize_playback_path("a", Some("/x/a".to_string())), "/x/a");
    assert_eq!(normalize_playback_path("a", None), "a");
    assert_eq!(
        dedupe_paths(vec![
            "/a".to_string(),
            "/A".to_string(),
            String::new(),
            "/b".to_string()
        ]),
        vec!["/a", "/b"]
    );
}

#[test]
fn paths_are_taken_apart_and_put_together() {
    assert_eq!(path_name(Platform::Linux, "/a/b.txt"), "b.txt");
    assert_eq!(path_folder(Platform::Linux, "/a/b.txt"), "/a");
    assert_eq!(path_folder(Platform::Linux, "/b.txt"), "/");
    assert_eq!(path_folder(Platform::Linux, "b.txt"), "");
    assert_eq!(join_path(Platform::Linux, "/a", "b"), "/a/b");
    assert_eq!(join_path(Platform::Linux, "/a/", "b"), "/a/b");
    assert_eq!(join_path(Platform::Windows, "C:\\a", "b"), "C:\\a\\b");
    assert_eq!(path_name(Platform::Linux, &join_path(Platform::Linux, "/x", "y.z")), "y.z");
    assert!(paths_equal(Platform::Linux, "/a//./b/", "/a/b"));
    assert!(!paths_equal(Platform::Linux, "/a/b", "a/b"));
    assert!(file_path_of(Platform::Linux, "/").is_none());
    assert_eq!(path("/a//talk.md").text(), "/a//talk.md");
    assert!(path("/a//talk.md").same(&path("/a/./talk.md/")));
    assert!(!path("/a/talk.md").same(&path("/a/Talk.md")));
}

#[test]
fn paths_are_read_as_the_system_reads_them() {
    let texts = [
        "", "/", "//", ".", "..", "./", "/.", "/..", "a", "a/", "a//", "a/.", "a/./", "./a", ".//a",
        "../a", "a/..", "a/../b", "/a", "//a", "/a/b", "/a//b", "/a/./b", "/a/b/.", "/a/b/./", "a/b.c",
        "a/.b", "/a/b c.d.e/", "./.", "a/./.", "x:/y", "C:\\a", "\\\\s\\h",
    ];
    for text in texts {
        let other = std::path::Path::new(text);
        let own = file_path(Platform::Linux, text);
        assert_eq!(own.text(), text);
        let name = other.file_name().and_then(|n| n.to_str()).unwrap_or("");
        assert_eq!(own.name, name, "{text}");
        let parent = other.parent().and_then(|p| p.to_str());
        assert_eq!(path_parent(Platform::Linux, text).as_deref(), parent, "{text}");
        let joined = other.join("n.x");
        assert_eq!(join_path(Platform::Linux, text, "n.x"), joined.to_str().unwrap());
        let stem = other.file_stem().and_then(|n| n.to_str()).unwrap_or("");
        assert_eq!(own.stem(), stem, "{text}");
        for second in texts {
            let same = other == std::path::Path::new(second);
            assert_eq!(paths_equal(Platform::Linux, text, second), same, "{text} {second}");
            assert_eq!(own.same(&file_path(Platform::Linux, second)), same, "{text} {second}");
        }
    }
}

#[test]
fn a_path_without_a_name_has_names_beside_it() {
    let root = file_path(Platform::Linux, "/");
    assert_eq!(root.name, "");
    assert_eq!(
        fallback_output_path(&root, "transcript", "/out").text(),
        "/out/output.md"
    );
    assert_eq!(edited_file_path(&root).text(), "./output.edited.md");
    assert_eq!(chat_log_path_for_output(&root).text(), "./chat.log");
    let above = file_path(Platform::Linux, "a/..");
    assert_eq!(edited_file_path(&above).text(), "a/output.edited.md");
    assert_eq!(chat_log_path_for_output(&above).text(), "a/chat.log");
    assert!(!is_edited_output_path(&root));
    assert_eq!(original_output_path_for_any(&root).text(), "/");
    assert_eq!(infer_audio_format(&root), "bin");
    assert!(existing_output_paths_for_media(&root, true, true).is_empty());
}

#[test]
fn drives_and_shares_are_roots_of_their_own() {
    let w = Platform::Windows;
    assert_eq!(path_folder(w, "C:\\a.wav"), "C:\\");
    assert_eq!(path_folder(w, "C:\\x\\a.wav"), "C:\\x");
    assert_eq!(path_folder(w, "C:/x//a.wav"), "C:/x");
    assert_eq!(path_parent(w, "C:\\"), None);
    assert_eq!(path_parent(w, "C:"), None);
    assert_eq!(path_parent(w, "C:a.wav").as_deref(), Some("C:"));
    assert_eq!(path_name(w, "C:a.wav"), "a.wav");
    assert_eq!(join_path(w, "C:", "a.wav"), "C:a.wav");
    assert_eq!(join_path(w, "C:\\", "a.wav"), "C:\\a.wav");
    assert_eq!(path_parent(w, "\\\\s\\h\\a.wav").as_deref(), Some("\\\\s\\h\\"));
    assert_eq!(path_parent(w, "\\\\s\\h"), None);
    assert_eq!(path_parent(w, "\\\\?\\C:\\a/b").as_deref(), Some("\\\\?\\C:\\"));
    assert_eq!(path_name(w, "\\\\?\\C:\\a/b"), "a/b");
    assert_eq!(path_parent(w, "\\\\?\\UNC\\s\\h\\x\\y").as_deref(), Some("\\\\?\\UNC\\s\\h\\x"));
    assert_eq!(path_name(w, "\\\\.\\COM42"), "");
    assert!(paths_equal(w, "c:/x/./y", "C:\\x\\y\\"));
    assert!(!paths_equal(w, "C:x", "C:\\x"));
    assert!(!paths_equal(w, "C:\\X", "C:\\x"));
    assert!(paths_equal(w, "\\\\s\\h", "//s/h/"));
    assert!(!paths_equal(w, "\\\\?\\C:\\x\\.", "\\\\?\\C:\\x"));
    assert!(paths_equal(w, "\\\\?\\c:\\x", "\\\\?\\C:\\x"));
    let named = file_path(w, "C:talk.md");
    assert_eq!((named.prefix.as_str(), named.name.as_str()), ("C:", "talk.md"));
    assert_eq!(edited_file_path(&named).text(), "C:talk.edited.md");
    let drive = file_path(w, "C:\\");
    assert_eq!(fallback_output_path(&drive, "", "D:").text(), "D:output.md");
}

#[test]
fn models_are_found_by_their_file_names() {
    let models = whisper_models();
    assert!(!models.is_empty());
    assert!(!live_models().is_empty());
    for (i, spec) in models.iter().enumerate() {
        let place = whisper_model_dest_path(Platform::Linux, "/m", spec.file_name);
        assert_eq!(place, format!("/m/{}", spec.file_name));
        assert_eq!(select_whisper_model_index(Platform::Linux, &place), i);
        assert_eq!(
            whisper_label_from_path(Platform::Linux, &place),
            Some(spec.label)
        );
        let there = whisper_combo_label(spec, true);
        let missing = whisper_combo_label(spec, false);
        assert!(there.contains(spec.label) && missing.contains(spec.label));
        assert_ne!(there, missing);
    }
    assert_eq!(select_whisper_model_index(Platform::Linux, "/m/other.bin"), 0);
    let chat = chat_models();
    assert!(chat_model_combo_label(&chat[0], true).contains(chat[0].label));
}

#[test]
fn the_first_installed_model_is_taken() {
    let models = whisper_models();
    let mut installed = vec![false; models.len()];
    assert!(!has_any_installed_whisper_model(&installed));
    assert!(first_installed_whisper_model(&installed).is_none());
    let last = models.len() - 1;
    installed[last] = true;
    assert!(has_any_installed_whisper_model(&installed));
    assert_eq!(
        first_installed_whisper_model(&installed).unwrap().file_name,
        models[last].file_name
    );
}

#[test]
fn the_diarization_model_lies_in_its_folder() {
    let mut settings = AppSettings::default();
    assert_eq!(
        sortformer_model_path_from_settings(Platform::Linux, "/def", &settings),
        format!("/def/{SORTFORMER_MODEL_FILE}")
    );
    settings.diarization_models_dir = " /own ".to_string();
    assert_eq!(
        sortformer_model_path_from_settings(Platform::Linux, "/def", &settings),
        format!("/own/{SORTFORMER_MODEL_FILE}")
    );
    assert!(missing_diarization_files(true).is_empty());
    assert_eq!(missing_diarization_files(false), vec![SORTFORMER_MODEL_FILE]);
}

#[test]
fn a_language_model_is_looked_for_in_the_store() {
    let spec = chat_models()[0];
    let managed = format!("/d/models/chat/{}", spec.file_name);
    assert!(is_managed_chat_model_path(Platform::Linux, &paths(), &managed));
    assert!(is_managed_chat_model_path(Platform::Linux, &paths(), " /d//models/chat/./x.gguf "));
    assert!(!is_managed_chat_model_path(Platform::Linux, &paths(), "/other/x.gguf"));
    assert!(!is_managed_chat_model_path(Platform::Linux, &paths(), " "));
    let folders = vec![
        StoreFolder { dir: "/s1".to_string(), holds_file: false },
        StoreFolder { dir: "/s2".to_string(), holds_file: true },
    ];
    assert_eq!(
        resolve_chat_model_path_from_store(Platform::Linux, "/old/m.gguf", false, &folders)
            .as_deref(),
        Some("/s2/m.gguf")
    );
    assert_eq!(
        resolve_chat_model_path_from_store(Platform::Linux, "  ", false, &folders),
        None
    );
}

#[test]
fn pages_and_documents_have_their_words() {
    assert_eq!(app_pages().len(), 7);
    assert_eq!(AppPage::Home.label(), "Home");
    let texts = LegalTexts {
        notices: "a\nb".to_string(),
        licenses: "c".to_string(),
        engine_licenses: String::new(),
    };
    let docs = legal_docs();
    assert_eq!(docs.len(), 3);
    assert_eq!(docs[0].document_lines(&texts), vec!["a", "b"]);
    assert_eq!(docs[1].bundled_markdown(&texts), "c");
    assert!(docs[2].document_lines(&texts).is_empty());
}
