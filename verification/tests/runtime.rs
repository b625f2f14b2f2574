use transcribe_offline::paths::Platform;
use transcribe_offline::runtime::{
    bridge_library_file_name, detect_installed_windows_runtime_backend, has_prefixed_file,
    has_prefixed_file_case_insensitive, installed_runtime_error, library_search_folders,
    merged_search_path,
    panic_payload_to_string, resolve_runtime_backend_index, resolve_runtime_dir,
    runtime_backend_options, runtime_dir_candidates, runtime_missing_messages, runtime_variables,
    sort_runtime_backends_for_platform, sync_runtime_backend_from_installed_runtime,
    unblock_command, unblock_outcome, LibraryFolder, PlaceProbe, RuntimeProbe,
};
use transcribe_offline::settings::AppSettings;

fn texts(list: &[&str]) -> Vec<String> {
    list.iter().map(|t| t.to_string()).collect()
}

fn complete_probe() -> RuntimeProbe {
    RuntimeProbe {
        dir_exists: true,
        bridge_exists: true,
        capture_exists: true,
        ffmpeg_dir_exists: true,
        ffmpeg_files: texts(&[
            "libavcodec.so.61",
            "libavformat.so.61",
            "libavutil.so.59",
            "libswresample.so.5",
            "libswscale.so.8",
        ]),
        cuda_dirs: vec![],
    }
}

#[test]
fn resolve_runtime_backend_index_prefers_first_when_missing() {
    let options = vec!["vulkan".to_string(), "cuda".to_string()];
    assert_eq!(resolve_runtime_backend_index(&options, ""), 0);
    assert_eq!(resolve_runtime_backend_index(&options, "unknown"), 0);
}

#[test]
fn resolve_runtime_backend_index_matches_case_insensitive() {
    let options = vec!["vulkan".to_string(), "cuda".to_string()];
    assert_eq!(resolve_runtime_backend_index(&options, "CUDA"), 1);
}

#[test]
fn detects_installed_windows_runtime_backend_cuda_from_dll_markers() {
    let probe = RuntimeProbe {
        dir_exists: true,
        bridge_exists: false,
        capture_exists: false,
        ffmpeg_dir_exists: false,
        ffmpeg_files: vec![],
        cuda_dirs: vec![texts(&["cublas64_13.dll"])],
    };
    let detected = detect_installed_windows_runtime_backend(&probe);
    assert_eq!(detected.as_deref(), Some("cuda"));
}

#[test]
fn detects_installed_windows_runtime_backend_vulkan_without_cuda_dlls() {
    let probe = RuntimeProbe {
        dir_exists: true,
        bridge_exists: true,
        capture_exists: false,
        ffmpeg_dir_exists: false,
        ffmpeg_files: vec![],
        cuda_dirs: vec![
            vec![],
            vec![],
            vec![],
            texts(&[bridge_library_file_name(Platform::Windows)]),
        ],
    };
    let detected = detect_installed_windows_runtime_backend(&probe);
    assert_eq!(detected.as_deref(), Some("vulkan"));
}

#[test]
fn no_backend_is_detected_in_an_empty_folder() {
    let probe = RuntimeProbe {
        dir_exists: true,
        bridge_exists: false,
        capture_exists: false,
        ffmpeg_dir_exists: false,
        ffmpeg_files: vec![],
        cuda_dirs: vec![vec![]],
    };
    assert_eq!(detect_installed_windows_runtime_backend(&probe), None);
}

#[test]
fn a_complete_runtime_lacks_nothing() {
    assert!(runtime_missing_messages(Platform::Linux, "/rt", &complete_probe()).is_empty());
}

#[test]
fn what_is_missing_of_the_runtime_is_named() {
    let mut probe = complete_probe();
    probe.dir_exists = false;
    assert_eq!(
        runtime_missing_messages(Platform::Linux, "/rt", &probe),
        vec!["Runtime directory does not exist: /rt"]
    );
    let mut probe = complete_probe();
    probe.bridge_exists = false;
    probe.ffmpeg_dir_exists = false;
    let missing = runtime_missing_messages(Platform::Linux, "/rt", &probe);
    assert_eq!(missing.len(), 2);
    assert_eq!(
        missing[0],
        format!(
            "Missing bridge library: {}",
            bridge_library_file_name(Platform::Linux)
        )
    );
    assert!(missing[1].starts_with("Missing FFmpeg runtime directory: /rt"));
    let mut probe = complete_probe();
    probe.ffmpeg_files.pop();
    assert_eq!(
        runtime_missing_messages(Platform::Linux, "/rt", &probe).len(),
        1
    );
}

#[test]
fn an_installed_runtime_must_be_complete() {
    let mut probe = complete_probe();
    assert_eq!(installed_runtime_error(Platform::Linux, "/rt", &probe), None);
    probe.dir_exists = false;
    assert_eq!(
        installed_runtime_error(Platform::Linux, "/rt", &probe).as_deref(),
        Some("Installed runtime is incomplete:\nRuntime directory does not exist: /rt")
    );
}

#[test]
fn files_are_told_by_their_beginning_and_end() {
    let names = texts(&["Cublas64_13.dll", "x.dll"]);
    assert!(has_prefixed_file_case_insensitive(&names, "cublas", ".dll"));
    assert!(!has_prefixed_file(&names, "cublas", ".dll"));
    assert!(has_prefixed_file(&names, "Cublas", ".dll"));
}

#[test]
fn backends_are_offered_in_the_order_of_the_system() {
    let offered = runtime_backend_options(Platform::Windows, &None);
    assert!(!offered.is_empty());
    let mut list = texts(&["zeta", "vulkan", "cuda"]);
    sort_runtime_backends_for_platform(Platform::Windows, &mut list);
    assert_eq!(list.len(), 3);
    assert_eq!(list[2], "zeta");
}

#[test]
fn the_installed_backend_becomes_the_one_that_is_set() {
    let mut settings = AppSettings::default();
    let mut backends = texts(&["vulkan", "cuda"]);
    let mut index = 0;
    assert!(sync_runtime_backend_from_installed_runtime(
        Platform::Windows,
        Some("cuda".to_string()),
        &mut settings,
        &mut backends,
        &mut index,
    ));
    assert_eq!(index, 1);
    assert_eq!(settings.runtime_download_backend, "cuda");
    assert!(!sync_runtime_backend_from_installed_runtime(
        Platform::Windows,
        Some("cuda".to_string()),
        &mut settings,
        &mut backends,
        &mut index,
    ));
}

#[test]
fn the_runtime_is_the_first_folder_that_holds_the_bridge() {
    assert_eq!(runtime_dir_candidates("/own", "/def"), vec!["/own", "/def"]);
    assert_eq!(runtime_dir_candidates(" ", "/def"), vec!["/def"]);
    let none = PlaceProbe { dir_exists: false, bridge_exists: false };
    let there = PlaceProbe { dir_exists: true, bridge_exists: false };
    let full = PlaceProbe { dir_exists: true, bridge_exists: true };
    assert_eq!(
        resolve_runtime_dir("/own", "/own", "/def", &vec![there, full]),
        "/def"
    );
    assert_eq!(
        resolve_runtime_dir("/own", "/own", "/def", &vec![there, none]),
        "/own"
    );
    assert_eq!(
        resolve_runtime_dir("", "/own", "/def", &vec![none, none]),
        "/def"
    );
    assert_eq!(
        resolve_runtime_dir("/own", "/own", "/def", &vec![none, none]),
        "/own"
    );
}

#[test]
fn the_search_path_is_extended_once() {
    let folders = library_search_folders(Platform::Linux, "/rt");
    assert_eq!(
        folders,
        vec![
            "/rt",
            "/rt/vendor/ffmpeg/bin",
            "/rt/vendor/ffmpeg",
            "/rt/vendor/pdfium"
        ]
    );
    let merged =
        merged_search_path(&folders, &vec![true, false, true, true], &texts(&["/usr", "/RT"]));
    assert_eq!(
        merged.unwrap(),
        vec!["/rt/vendor/ffmpeg", "/rt/vendor/pdfium", "/usr", "/RT"]
    );
    assert!(merged_search_path(&folders, &vec![false; 4], &texts(&["/usr"])).is_none());
    assert!(library_search_folders(Platform::Linux, "").is_empty());
}

#[test]
fn variables_tell_where_ffmpeg_lies() {
    let folder = |exists_there: bool, has_headers: bool, has_program: bool| LibraryFolder {
        exists_there,
        has_headers,
        has_program,
    };
    let set = |dir: &str, found: Vec<LibraryFolder>| -> Vec<(String, String)> {
        runtime_variables(Platform::Windows, dir, &found)
            .into_iter()
            .map(|v| (v.name.to_string(), v.value))
            .collect()
    };
    let pairs = |list: &[(&str, &str)]| -> Vec<(String, String)> {
        list.iter().map(|(n, v)| (n.to_string(), v.to_string())).collect()
    };
    let none = || folder(false, false, false);
    let bare = set("C:\\rt", vec![none(), none(), folder(true, false, true), none()]);
    assert_eq!(bare, pairs(&[("FFMPEG_DIR", "C:\\rt\\vendor\\ffmpeg")]));
    let whole = set("C:\\rt", vec![none(), none(), folder(true, true, true), none()]);
    assert_eq!(
        whole,
        pairs(&[
            ("FFMPEG_DIR", "C:\\rt\\vendor\\ffmpeg"),
            ("FFMPEG_DIR", "C:\\rt\\vendor\\ffmpeg"),
            ("FFMPEG_DIR_EXE", "C:\\rt\\vendor\\ffmpeg\\bin\\ffmpeg.exe"),
            ("FFMPEG_BINARY", "C:\\rt\\vendor\\ffmpeg\\bin\\ffmpeg.exe"),
            ("FFMPEG_DIR_BIN", "C:\\rt\\vendor\\ffmpeg\\bin"),
            ("PKG_CONFIG_PATH", "C:\\rt\\vendor\\ffmpeg\\lib\\pkgconfig"),
            ("PKG_CONFIG_ALLOW_SYSTEM_LIBS", "1"),
            ("PKG_CONFIG_ALLOW_SYSTEM_CFLAGS", "1"),
        ])
    );
    let own = set("D:\\ffmpeg", vec![folder(true, true, false), none(), none(), none()]);
    assert_eq!(own.len(), 5);
    assert_eq!(own[0], ("FFMPEG_DIR".to_string(), "D:\\ffmpeg".to_string()));
    assert!(set("", vec![]).is_empty());
}

#[test]
fn the_unblock_script_is_run_and_its_outcome_told() {
    assert_eq!(
        unblock_command(Platform::Linux, "/t/s.sh", "/rt"),
        vec!["sh", "/t/s.sh", "/rt"]
    );
    assert_eq!(unblock_command(Platform::Windows, "s.ps1", "rt")[0], "powershell");
    assert_eq!(
        unblock_outcome("/t/s.sh", true, " done \n", "").unwrap(),
        "Unsigned runtime unblock complete. | done"
    );
    assert_eq!(
        unblock_outcome("/t/s.sh", true, "", "").unwrap(),
        "Unsigned runtime unblock complete."
    );
    assert_eq!(
        unblock_outcome("/t/s.sh", false, "out", " bad ").unwrap_err(),
        "embedded unsigned-runtime script failed (/t/s.sh): bad"
    );
}

#[test]
fn a_panic_is_told_in_words() {
    assert_eq!(panic_payload_to_string(Some("a".to_string()), None), "a");
    assert_eq!(panic_payload_to_string(None, Some("b")), "b");
    assert_ne!(panic_payload_to_string(None, None), "");
}
