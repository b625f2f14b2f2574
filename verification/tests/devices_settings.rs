use transcribe_offline::devices::{
    apply_audio_device, bridge_has_device_index, enumerate_audio_device_options,
    is_metal_gpu_option, resolve_audio_device_index, resolve_audio_device_label,
    resolve_bridge_device_name_by_index, AudioDeviceOption, BridgeDevice,
};
use transcribe_offline::paths::Platform;
use transcribe_offline::settings::{
    default_runtime_threads, parse_int, positive_optional, selected_gpu_index_from_settings,
    shared_bridge_params, should_auto_select_gpu_from_settings, AppSettings,
};

fn device(index: i32, backend: &str, name: &str) -> BridgeDevice {
    BridgeDevice {
        index,
        backend: backend.to_string(),
        name: name.to_string(),
        description: String::new(),
        memory_free: 1,
        memory_total: 2,
    }
}

#[test]
fn selected_gpu_index_defaults_to_cpu_when_not_set() {
    let settings = AppSettings::default();
    assert_eq!(selected_gpu_index_from_settings(&settings), None);
}

#[test]
fn selected_gpu_index_uses_explicit_device_value() {
    let mut settings = AppSettings::default();
    settings.devices = "2".to_string();
    assert_eq!(selected_gpu_index_from_settings(&settings), Some(2));
}

#[test]
fn selected_gpu_index_uses_legacy_nonzero_main_gpu() {
    let mut settings = AppSettings::default();
    settings.main_gpu = 1;
    settings.whisper_no_gpu = false;
    settings.devices.clear();
    assert_eq!(selected_gpu_index_from_settings(&settings), Some(1));
}

#[test]
fn shared_bridge_params_forces_cpu_when_no_gpu_selected() {
    let mut settings = AppSettings::default();
    settings.devices.clear();
    settings.main_gpu = 0;
    settings.whisper_no_gpu = false;
    let shared = shared_bridge_params(&settings, None);
    assert_eq!(shared.gpu, None);
    assert_eq!(shared.devices.as_deref(), Some("none"));
    assert_eq!(shared.n_gpu_layers, Some(0));
    assert_eq!(shared.main_gpu, Some(-1));
}

#[test]
fn shared_bridge_params_keeps_selected_gpu() {
    let mut settings = AppSettings::default();
    settings.devices = "2".to_string();
    let shared = shared_bridge_params(&settings, None);
    assert_eq!(shared.gpu, Some(2));
    assert_eq!(shared.devices, None);
    assert_eq!(shared.n_gpu_layers, None);
    assert_eq!(shared.main_gpu, None);
}

#[test]
fn shared_bridge_params_preserves_explicit_thread_settings() {
    let mut settings = AppSettings::default();
    settings.n_threads = 6;
    settings.n_threads_batch = 3;
    let shared = shared_bridge_params(&settings, Some(11));
    assert_eq!(shared.n_threads, Some(6));
    assert_eq!(shared.n_threads_batch, Some(3));
}

#[test]
fn threads_are_those_of_the_machine_where_none_are_set() {
    let settings = AppSettings::default();
    assert_eq!(shared_bridge_params(&settings, Some(11)).n_threads, Some(11));
    assert_eq!(shared_bridge_params(&settings, Some(11)).n_threads_batch, None);
    assert_eq!(default_runtime_threads(Platform::Linux, Some(8)), Some(7));
    assert_eq!(default_runtime_threads(Platform::Linux, Some(1)), Some(1));
    assert_eq!(default_runtime_threads(Platform::Linux, None), None);
    assert_eq!(default_runtime_threads(Platform::Windows, Some(8)), None);
    assert_eq!(positive_optional(0), None);
    assert_eq!(positive_optional(3), Some(3));
}

#[test]
fn resolve_audio_device_index_keeps_cpu_as_default() {
    let devices = vec![
        AudioDeviceOption {
            label: "CPU (no GPU)".to_string(),
            devices_value: "none".to_string(),
            main_gpu: 0,
            is_gpu: false,
            detail_line: "CPU".to_string(),
        },
        AudioDeviceOption {
            label: "GPU #0".to_string(),
            devices_value: "0".to_string(),
            main_gpu: 0,
            is_gpu: true,
            detail_line: "GPU".to_string(),
        },
    ];
    let settings = AppSettings::default();
    assert_eq!(
        resolve_audio_device_index(Platform::MacOs, &devices, &settings),
        1
    );
    assert_eq!(
        resolve_audio_device_index(Platform::Linux, &devices, &settings),
        0
    );
    assert_eq!(
        resolve_audio_device_index(Platform::Windows, &devices, &settings),
        0
    );
}

#[test]
fn numbers_are_read_as_signed_decimals() {
    assert_eq!(parse_int("12"), Some(12));
    assert_eq!(parse_int("-1"), Some(-1));
    assert_eq!(parse_int("+7"), Some(7));
    assert_eq!(parse_int("2147483648"), None);
    assert_eq!(parse_int("-2147483648"), Some(-2147483648));
    assert_eq!(parse_int("x"), None);
    assert_eq!(parse_int(""), None);
}

#[test]
fn a_gpu_is_chosen_for_the_user_only_where_nothing_is_set() {
    assert!(should_auto_select_gpu_from_settings(&AppSettings::default()));
    let mut named = AppSettings::default();
    named.devices = "1".to_string();
    assert!(!should_auto_select_gpu_from_settings(&named));
    let mut without = AppSettings::default();
    without.whisper_no_gpu = true;
    assert!(!should_auto_select_gpu_from_settings(&without));
}

#[test]
fn devices_are_offered_behind_the_processor() {
    let options = enumerate_audio_device_options(Platform::Linux, None);
    assert_eq!(options.len(), 1);
    assert_eq!(options[0].detail_line, "CPU (no GPU)");
    let options = enumerate_audio_device_options(Platform::Linux, Some(vec![]));
    assert_eq!(options.len(), 1);
    assert_eq!(
        options[0].detail_line,
        "CPU (no GPU) - no compatible GPU backend detected, using CPU mode."
    );
    let options = enumerate_audio_device_options(
        Platform::Linux,
        Some(vec![device(3, "CUDA", "NVIDIA A")]),
    );
    assert_eq!(options.len(), 2);
    assert!(!options[0].is_gpu);
    assert!(options[1].is_gpu);
    assert_eq!(options[1].main_gpu, 3);
    assert_eq!(options[1].devices_value, "3");
}

#[test]
fn a_device_that_is_chosen_is_the_one_that_is_selected() {
    let options = enumerate_audio_device_options(
        Platform::Linux,
        Some(vec![device(3, "CUDA", "NVIDIA A")]),
    );
    let mut settings = AppSettings::default();
    assert!(apply_audio_device(&mut settings, &options, 1));
    assert_eq!(selected_gpu_index_from_settings(&settings), Some(3));
    assert_eq!(
        resolve_audio_device_index(Platform::Linux, &options, &settings),
        1
    );
    assert_eq!(
        resolve_audio_device_label(&options, Some(3)),
        options[1].label
    );
    assert!(apply_audio_device(&mut settings, &options, 0));
    assert_eq!(selected_gpu_index_from_settings(&settings), None);
    assert_eq!(resolve_audio_device_label(&options, None), "CPU (no GPU)");
}

#[test]
fn the_engine_knows_the_devices_it_reports() {
    let devices = Some(vec![device(0, "CUDA", "  "), device(1, "Metal", " M1 ")]);
    assert!(bridge_has_device_index(&devices, 1));
    assert!(!bridge_has_device_index(&devices, 2));
    assert!(!bridge_has_device_index(&devices, -1));
    assert!(!bridge_has_device_index(&None, 0));
    assert_eq!(
        resolve_bridge_device_name_by_index(&devices, 1).as_deref(),
        Some("M1")
    );
    assert_eq!(resolve_bridge_device_name_by_index(&devices, 0), None);
    assert_eq!(resolve_bridge_device_name_by_index(&None, 0), None);
}

#[test]
fn a_metal_device_is_told_by_its_words() {
    let mut option = AudioDeviceOption {
        label: "Apple M1 (Metal)".to_string(),
        devices_value: "0".to_string(),
        main_gpu: 0,
        is_gpu: true,
        detail_line: String::new(),
    };
    assert!(is_metal_gpu_option(&option));
    option.label = "Apple M1".to_string();
    assert!(!is_metal_gpu_option(&option));
    option.detail_line = "backend METAL".to_string();
    assert!(is_metal_gpu_option(&option));
}
