//! What the user has set, and what the engine is told of it.
use crate::text::{
    all_digits, chars_of, chars_range, digits_value, eq_ignore_ascii_case, find_char,
    first_pos, is_digit, lemma_first_pos, lemma_trimmed, lowered, parse_digits, stripped, text_of_range,
    trim, CharClass,
};
use vstd::prelude::*;
use vstd::string::*;

verus! {

/// The settings that transcription, chat and live sessions read.
#[derive(Debug, Clone)]
pub struct AppSettings {
    pub audio_file: String,
    pub whisper_model: String,
    pub live_transcription_model: String,
    pub diarization_models_dir: String,
    pub chat_model: String,
    pub mode: String,
    pub custom_mode: String,
    pub subtitle_custom_mode: String,
    pub speech_custom_mode: String,
    pub whisper_word_time_offset_sec: String,
    pub runtime_dir: String,
    pub runtime_download_backend: String,
    pub devices: String,
    pub live_input_device: String,
    pub live_sessions_output_dir: String,
    pub chat_prompt: String,
    pub chat_context_file: String,
    pub whisper_no_gpu: bool,
    pub chat_allow_thinking: bool,
    pub split_view: bool,
    pub live_diarization_enabled: bool,
    pub main_gpu: i32,
    pub n_ctx: i32,
    pub n_batch: i32,
    pub n_ubatch: i32,
    pub n_parallel: i32,
    pub n_threads: i32,
    pub n_threads_batch: i32,
}

/// The contents of the settings.
pub struct SettingsView {
    pub audio_file: Seq<char>,
    pub whisper_model: Seq<char>,
    pub live_transcription_model: Seq<char>,
    pub diarization_models_dir: Seq<char>,
    pub chat_model: Seq<char>,
    pub mode: Seq<char>,
    pub custom_mode: Seq<char>,
    pub subtitle_custom_mode: Seq<char>,
    pub speech_custom_mode: Seq<char>,
    pub whisper_word_time_offset_sec: Seq<char>,
    pub runtime_dir: Seq<char>,
    pub runtime_download_backend: Seq<char>,
    pub devices: Seq<char>,
    pub live_input_device: Seq<char>,
    pub live_sessions_output_dir: Seq<char>,
    pub chat_prompt: Seq<char>,
    pub chat_context_file: Seq<char>,
    pub whisper_no_gpu: bool,
    pub chat_allow_thinking: bool,
    pub split_view: bool,
    pub live_diarization_enabled: bool,
    pub main_gpu: i32,
    pub n_ctx: i32,
    pub n_batch: i32,
    pub n_ubatch: i32,
    pub n_parallel: i32,
    pub n_threads: i32,
    pub n_threads_batch: i32,
}

impl View for AppSettings {
    type V = SettingsView;

    open spec fn view(&self) -> SettingsView {
        SettingsView {
            audio_file: self.audio_file@,
            whisper_model: self.whisper_model@,
            live_transcription_model: self.live_transcription_model@,
            diarization_models_dir: self.diarization_models_dir@,
            chat_model: self.chat_model@,
            mode: self.mode@,
            custom_mode: self.custom_mode@,
            subtitle_custom_mode: self.subtitle_custom_mode@,
            speech_custom_mode: self.speech_custom_mode@,
            whisper_word_time_offset_sec: self.whisper_word_time_offset_sec@,
            runtime_dir: self.runtime_dir@,
            runtime_download_backend: self.runtime_download_backend@,
            devices: self.devices@,
            live_input_device: self.live_input_device@,
            live_sessions_output_dir: self.live_sessions_output_dir@,
            chat_prompt: self.chat_prompt@,
            chat_context_file: self.chat_context_file@,
            whisper_no_gpu: self.whisper_no_gpu,
            chat_allow_thinking: self.chat_allow_thinking,
            split_view: self.split_view,
            live_diarization_enabled: self.live_diarization_enabled,
            main_gpu: self.main_gpu,
            n_ctx: self.n_ctx,
            n_batch: self.n_batch,
            n_ubatch: self.n_ubatch,
            n_parallel: self.n_parallel,
            n_threads: self.n_threads,
            n_threads_batch: self.n_threads_batch,
        }
    }
}

/// The settings before the user has set anything: transcripts with speakers, on the device that the
/// system prefers.
pub open spec fn default_settings() -> SettingsView {
    SettingsView {
        audio_file: Seq::empty(),
        whisper_model: Seq::empty(),
        live_transcription_model: Seq::empty(),
        diarization_models_dir: Seq::empty(),
        chat_model: Seq::empty(),
        mode: "transcript"@,
        custom_mode: "default"@,
        subtitle_custom_mode: "default"@,
        speech_custom_mode: "default"@,
        whisper_word_time_offset_sec: "0.73"@,
        runtime_dir: Seq::empty(),
        runtime_download_backend: Seq::empty(),
        devices: Seq::empty(),
        live_input_device: Seq::empty(),
        live_sessions_output_dir: Seq::empty(),
        chat_prompt: Seq::empty(),
        chat_context_file: Seq::empty(),
        whisper_no_gpu: false,
        chat_allow_thinking: false,
        split_view: true,
        live_diarization_enabled: true,
        main_gpu: 0,
        n_ctx: (-1) as i32,
        n_batch: 2048,
        n_ubatch: 512,
        n_parallel: 1,
        n_threads: 0,
        n_threads_batch: 0,
    }
}

impl Default for AppSettings {
    fn default() -> (r: Self)
        ensures
            r@ == default_settings(),
    {
        let r: AppSettings = AppSettings {
            audio_file: String::new(),
            whisper_model: String::new(),
            live_transcription_model: String::new(),
            diarization_models_dir: String::new(),
            chat_model: String::new(),
            mode: "transcript".to_owned(),
            custom_mode: "default".to_owned(),
            subtitle_custom_mode: "default".to_owned(),
            speech_custom_mode: "default".to_owned(),
            whisper_word_time_offset_sec: "0.73".to_owned(),
            runtime_dir: String::new(),
            runtime_download_backend: String::new(),
            devices: String::new(),
            live_input_device: String::new(),
            live_sessions_output_dir: String::new(),
            chat_prompt: String::new(),
            chat_context_file: String::new(),
            whisper_no_gpu: false,
            chat_allow_thinking: false,
            split_view: true,
            live_diarization_enabled: true,
            main_gpu: 0,
            n_ctx: -1,
            n_batch: 2048,
            n_ubatch: 512,
            n_parallel: 1,
            n_threads: 0,
            n_threads_batch: 0,
        };
        assert(r@ == default_settings()) by {
            assert(r.audio_file@ =~= Seq::empty());
        }
        r
    }
}

impl AppSettings {
    /// The same settings once more.
    pub fn copy(&self) -> (r: AppSettings)
        ensures
            r@ == self@,
    {
        AppSettings {
            audio_file: self.audio_file.clone(),
            whisper_model: self.whisper_model.clone(),
            live_transcription_model: self.live_transcription_model.clone(),
            diarization_models_dir: self.diarization_models_dir.clone(),
            chat_model: self.chat_model.clone(),
            mode: self.mode.clone(),
            custom_mode: self.custom_mode.clone(),
            subtitle_custom_mode: self.subtitle_custom_mode.clone(),
            speech_custom_mode: self.speech_custom_mode.clone(),
            whisper_word_time_offset_sec: self.whisper_word_time_offset_sec.clone(),
            runtime_dir: self.runtime_dir.clone(),
            runtime_download_backend: self.runtime_download_backend.clone(),
            devices: self.devices.clone(),
            live_input_device: self.live_input_device.clone(),
            live_sessions_output_dir: self.live_sessions_output_dir.clone(),
            chat_prompt: self.chat_prompt.clone(),
            chat_context_file: self.chat_context_file.clone(),
            whisper_no_gpu: self.whisper_no_gpu,
            chat_allow_thinking: self.chat_allow_thinking,
            split_view: self.split_view,
            live_diarization_enabled: self.live_diarization_enabled,
            main_gpu: self.main_gpu,
            n_ctx: self.n_ctx,
            n_batch: self.n_batch,
            n_ubatch: self.n_ubatch,
            n_parallel: self.n_parallel,
            n_threads: self.n_threads,
            n_threads_batch: self.n_threads_batch,
        }
    }
}

/// The number that `s` spells, with or without a sign, if it fits into 32 bits.
pub open spec fn int_value(s: Seq<char>) -> Option<int> {
    let signed = s.len() > 0 && (s[0] == '-' || s[0] == '+');
    let digits = if signed {
        s.skip(1)
    } else {
        s
    };
    let value = if s.len() > 0 && s[0] == '-' {
        -(digits_value(digits) as int)
    } else {
        digits_value(digits) as int
    };
    if all_digits(digits) && i32::MIN <= value <= i32::MAX {
        Some(value)
    } else {
        None
    }
}

/// The number that `s` spells, with or without a sign, if it fits into 32 bits.
pub fn parse_int(s: &str) -> (r: Option<i32>)
    ensures
        match r {
            Some(n) => int_value(s@) == Some(n as int),
            None => int_value(s@) is None,
        },
{
    let v: Vec<char> = chars_of(s);
    let negative: bool = v.len() > 0 && v[0] == '-';
    let signed: bool = negative || (v.len() > 0 && v[0] == '+');
    let digits: Vec<char> = if signed {
        chars_range(&v, 1, v.len())
    } else {
        chars_range(&v, 0, v.len())
    };
    proof {
        if signed {
            assert(digits@ =~= v@.skip(1));
        } else {
            assert(digits@ =~= v@);
        }
    }
    match parse_digits(&digits, 0x8000_0000) {
        Some(n) => {
            let value: i64 = if negative {
                -(n as i64)
            } else {
                n as i64
            };
            if value <= 0x7fff_ffff {
                Some(value as i32)
            } else {
                None
            }
        },
        None => None,
    }
}

/// The GPU that older settings name without naming a device.
pub open spec fn legacy_gpu(s: SettingsView) -> Option<i32> {
    if !s.whisper_no_gpu && s.main_gpu > 0 {
        Some(s.main_gpu)
    } else {
        None
    }
}

/// The GPU that the settings select; none where the processor is to be used. The first device of
/// the list counts.
pub open spec fn selected_gpu(s: SettingsView) -> Option<i32> {
    let d = stripped(s.devices);
    if d.len() == 0 || lowered(d) == lowered("none"@) {
        legacy_gpu(s)
    } else {
        match int_value(stripped(d.take(first_pos(d, ',') as int))) {
            Some(n) => Some(
                if n < 0 {
                    0
                } else {
                    n as i32
                },
            ),
            None => legacy_gpu(s),
        }
    }
}

/// The GPU that the settings select; none where the processor is to be used.
pub fn selected_gpu_index_from_settings(settings: &AppSettings) -> (r: Option<i32>)
    ensures
        r == selected_gpu(settings@),
{
    let d: &str = trim(settings.devices.as_str());
    let legacy: Option<i32> = if !settings.whisper_no_gpu && settings.main_gpu > 0 {
        Some(settings.main_gpu)
    } else {
        None
    };
    if d.is_empty() || eq_ignore_ascii_case(d, "none") {
        return legacy;
    }
    let v: Vec<char> = chars_of(d);
    let n: usize = find_char(&v, ',');
    proof {
        lemma_first_pos(v@, ',');
    }
    let first: String = text_of_range(&v, 0, n);
    assert(first@ =~= v@.take(n as int));
    match parse_int(trim(first.as_str())) {
        Some(index) => Some(
            if index < 0 {
                0
            } else {
                index
            },
        ),
        None => legacy,
    }
}

/// Whether a GPU may be chosen for the user: they have neither chosen one nor asked for the
/// processor.
pub fn should_auto_select_gpu_from_settings(settings: &AppSettings) -> (r: bool)
    ensures
        r == (!settings@.whisper_no_gpu && selected_gpu(settings@) is None),
{
    !settings.whisper_no_gpu && selected_gpu_index_from_settings(settings).is_none()
}

/// A number that is set only where it is positive.
pub fn positive_optional(v: i32) -> (r: Option<i32>)
    ensures
        r == (if v > 0 {
            Some(v)
        } else {
            None
        }),
{
    if v > 0 {
        Some(v)
    } else {
        None
    }
}

/// How many threads the engine runs with where nothing is set, given how many the machine can run
/// at once: on Linux all but one, and at least one; elsewhere the engine decides.
pub fn default_runtime_threads(
    platform: crate::paths::Platform,
    cpus: Option<i32>,
) -> (r: Option<i32>)
    ensures
        r == match (platform, cpus) {
            (crate::paths::Platform::Linux, Some(n)) => Some(
                if n <= 1 {
                    1
                } else {
                    (n - 1) as i32
                },
            ),
            _ => None,
        },
{
    match (platform, cpus) {
        (crate::paths::Platform::Linux, Some(n)) => Some(
            if n <= 1 {
                1
            } else {
                n - 1
            },
        ),
        _ => None,
    }
}

/// What the engine is told of the device and of its own parameters.
#[derive(Debug)]
pub struct SharedBridgeParams {
    pub gpu: Option<i32>,
    pub devices: Option<String>,
    pub tensor_split: Option<String>,
    pub split_mode: i32,
    pub n_ctx: i32,
    pub n_batch: i32,
    pub n_ubatch: i32,
    pub n_parallel: i32,
    pub n_threads: Option<i32>,
    pub n_threads_batch: Option<i32>,
    pub n_gpu_layers: Option<i32>,
    pub main_gpu: Option<i32>,
}

/// The contents of what the engine is told.
pub struct SharedView {
    pub gpu: Option<i32>,
    pub devices: Option<Seq<char>>,
    pub tensor_split: Option<Seq<char>>,
    pub split_mode: i32,
    pub n_ctx: i32,
    pub n_batch: i32,
    pub n_ubatch: i32,
    pub n_parallel: i32,
    pub n_threads: Option<i32>,
    pub n_threads_batch: Option<i32>,
    pub n_gpu_layers: Option<i32>,
    pub main_gpu: Option<i32>,
}

impl View for SharedBridgeParams {
    type V = SharedView;

    open spec fn view(&self) -> SharedView {
        SharedView {
            gpu: self.gpu,
            devices: match self.devices {
                Some(t) => Some(t@),
                None => None,
            },
            tensor_split: match self.tensor_split {
                Some(t) => Some(t@),
                None => None,
            },
            split_mode: self.split_mode,
            n_ctx: self.n_ctx,
            n_batch: self.n_batch,
            n_ubatch: self.n_ubatch,
            n_parallel: self.n_parallel,
            n_threads: self.n_threads,
            n_threads_batch: self.n_threads_batch,
            n_gpu_layers: self.n_gpu_layers,
            main_gpu: self.main_gpu,
        }
    }
}

/// What the engine is told: the selected GPU, or that it has to do without one.
pub open spec fn shared_of(s: SettingsView, default_threads: Option<i32>) -> SharedView {
    let cpu = selected_gpu(s) is None;
    SharedView {
        gpu: selected_gpu(s),
        devices: if cpu {
            Some("none"@)
        } else {
            None
        },
        tensor_split: None,
        split_mode: (-1) as i32,
        n_ctx: s.n_ctx,
        n_batch: s.n_batch,
        n_ubatch: s.n_ubatch,
        n_parallel: s.n_parallel,
        n_threads: if s.n_threads > 0 {
            Some(s.n_threads)
        } else {
            default_threads
        },
        n_threads_batch: if s.n_threads_batch > 0 {
            Some(s.n_threads_batch)
        } else {
            None
        },
        n_gpu_layers: if cpu {
            Some(0i32)
        } else {
            None
        },
        main_gpu: if cpu {
            Some((-1) as i32)
        } else {
            None
        },
    }
}

/// What the engine is told: the selected GPU, or that it has to do without one. `default_threads` is
/// what `default_runtime_threads` gives.
pub fn shared_bridge_params(settings: &AppSettings, default_threads: Option<i32>) -> (r:
    SharedBridgeParams)
    ensures
        r@ == shared_of(settings@, default_threads),
{
    let gpu: Option<i32> = selected_gpu_index_from_settings(settings);
    let force_cpu: bool = gpu.is_none();
    let n_threads: Option<i32> = match positive_optional(settings.n_threads) {
        Some(n) => Some(n),
        None => default_threads,
    };
    SharedBridgeParams {
        gpu,
        devices: if force_cpu {
            Some("none".to_owned())
        } else {
            None
        },
        tensor_split: None,
        split_mode: -1,
        n_ctx: settings.n_ctx,
        n_batch: settings.n_batch,
        n_ubatch: settings.n_ubatch,
        n_parallel: settings.n_parallel,
        n_threads,
        n_threads_batch: positive_optional(settings.n_threads_batch),
        n_gpu_layers: if force_cpu {
            Some(0)
        } else {
            None
        },
        main_gpu: if force_cpu {
            Some(-1)
        } else {
            None
        },
    }
}

/// Which GPU is selected: the first number of the list of devices, whatever follows it; where the list
/// is blank, says `none` or begins with no number, the main GPU of the settings if that is above zero
/// and the processor is not asked for.
pub proof fn lemma_selected_gpu(s: SettingsView, digits: Seq<char>, rest: Seq<char>)
    requires
        all_digits(digits),
        digits_value(digits) <= i32::MAX,
    ensures
        s.devices == digits ==> selected_gpu(s) == Some(digits_value(digits) as i32),
        s.devices == digits.push(',') + rest && stripped(s.devices) == s.devices ==> selected_gpu(s)
            == Some(digits_value(digits) as i32),
        stripped(s.devices).len() == 0 || lowered(stripped(s.devices)) == lowered("none"@) ==> {
            &&& s.whisper_no_gpu ==> selected_gpu(s) is None
            &&& s.main_gpu <= 0 ==> selected_gpu(s) is None
            &&& !s.whisper_no_gpu && s.main_gpu > 0 ==> selected_gpu(s) == Some(s.main_gpu)
        },
{
    assert(is_digit(digits[0]));
    assert(is_digit(digits[digits.len() - 1]));
    let none = Seq::<char>::empty();
    assert(none + digits + none =~= digits);
    lemma_trimmed(none, digits, none, CharClass::White);
    reveal_strlit("none");
    assert(lowered("none"@)[0] == 'n');
    assert(lowered(digits)[0] == digits[0]);
    lemma_first_pos(digits, ',');
    let n = first_pos(digits, ',') as int;
    if n < digits.len() {
        assert(is_digit(digits[n]));
    }
    assert(digits.take(digits.len() as int) =~= digits);
    let long = digits.push(',') + rest;
    lemma_first_pos(long, ',');
    let m = first_pos(long, ',') as int;
    assert(long[digits.len() as int] == ',');
    if m < digits.len() {
        assert(is_digit(digits[m]));
        assert(long[m] == digits[m]);
    }
    assert(long.take(m) =~= digits);
    assert(lowered(long)[0] == long[0]);
    assert(long[0] == digits[0]);
}

/// What a text spells: digits their number, with a minus before them the number below zero; a text that
/// is no number, or one that 32 bits do not hold, nothing.
pub proof fn lemma_int_value(digits: Seq<char>)
    requires
        all_digits(digits),
    ensures
        digits_value(digits) <= i32::MAX ==> int_value(digits) == Some(digits_value(digits) as int)
            && int_value(seq!['+'] + digits) == Some(digits_value(digits) as int) && int_value(
            seq!['-'] + digits,
        ) == Some(-(digits_value(digits) as int)),
        digits_value(digits) > i32::MAX ==> int_value(digits) is None,
        int_value(Seq::empty()) is None,
{
    assert(is_digit(digits[0]));
    assert((seq!['+'] + digits).skip(1) =~= digits);
    assert((seq!['-'] + digits).skip(1) =~= digits);
}

/// What the engine is told of its device: the GPU that is selected, and nothing that overrides it; where
/// none is selected, that there is no device, no layer on a GPU and no main GPU.
pub proof fn lemma_shared_device(s: SettingsView, default_threads: Option<i32>)
    ensures
        shared_of(s, default_threads).gpu == selected_gpu(s),
        selected_gpu(s) is Some ==> shared_of(s, default_threads).devices is None && shared_of(
            s,
            default_threads,
        ).n_gpu_layers is None && shared_of(s, default_threads).main_gpu is None,
        selected_gpu(s) is None ==> shared_of(s, default_threads).devices == Some("none"@)
            && shared_of(s, default_threads).n_gpu_layers == Some(0i32) && (shared_of(
            s,
            default_threads,
        ).main_gpu matches Some(g) && g == -1),
        shared_of(s, default_threads).tensor_split is None,
        shared_of(s, default_threads).split_mode == -1,
{
}

/// What the engine is told of its parameters: the sizes as they are set; a number of threads that is set
/// counts, else the one of the machine; a number of threads for batches counts only where it is set.
pub proof fn lemma_shared_sizes(s: SettingsView, default_threads: Option<i32>)
    ensures
        ({
            let told = shared_of(s, default_threads);
            &&& told.n_ctx == s.n_ctx && told.n_batch == s.n_batch && told.n_ubatch == s.n_ubatch
                && told.n_parallel == s.n_parallel
            &&& s.n_threads > 0 ==> told.n_threads == Some(s.n_threads)
            &&& s.n_threads <= 0 ==> told.n_threads == default_threads
            &&& s.n_threads_batch > 0 ==> told.n_threads_batch == Some(s.n_threads_batch)
            &&& s.n_threads_batch <= 0 ==> told.n_threads_batch is None
        }),
{
}

} // verus!
