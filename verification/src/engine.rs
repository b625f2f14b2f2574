//! What the engine is asked to do: transcribing a recording, and answering a question.
use crate::board::text_view;
use crate::devices::{
    bridge_has_device_index, device_name, device_views, reports_index,
    resolve_bridge_device_name_by_index, BridgeDevice,
};
use crate::json::{answered_path, json_view, output_path_from_answer};
use crate::models::SORTFORMER_MODEL_FILE;
use crate::path_text::{folder_of, join_path, joined_path, path_folder};
use crate::paths::{
    extension_of, fallback_output, fallback_output_path, file_path, file_path_at,
    infer_audio_format, FilePath, PathView, Platform,
};
use crate::settings::{
    selected_gpu, selected_gpu_index_from_settings, shared_bridge_params, shared_of, AppSettings,
    SettingsView, SharedBridgeParams, SharedView,
};
use crate::text::{
    cat3, eq_ignore_ascii_case, lowered, same_text, signed_decimal, signed_decimal_text, stripped,
    to_ascii_lowercase, trim,
};
use vstd::prelude::*;
use vstd::string::*;

verus! {

/// A value that is handed to the engine under a name.
#[derive(Debug)]
pub enum MetaValue {
    Text(String),
    Int(i32),
    Flag(bool),
    /// A number as it is written.
    Number(String),
}

/// A value that is handed to the engine.
pub enum MetaView {
    Text(Seq<char>),
    Int(i32),
    Flag(bool),
    Number(Seq<char>),
}

impl View for MetaValue {
    type V = MetaView;

    open spec fn view(&self) -> MetaView {
        match self {
            MetaValue::Text(t) => MetaView::Text(t@),
            MetaValue::Int(i) => MetaView::Int(*i),
            MetaValue::Flag(b) => MetaView::Flag(*b),
            MetaValue::Number(t) => MetaView::Number(t@),
        }
    }
}

/// A name and the value under it.
#[derive(Debug)]
pub struct MetaEntry {
    pub name: &'static str,
    pub value: MetaValue,
}

/// The contents of a list of named values.
pub open spec fn meta_views(entries: Seq<MetaEntry>) -> Seq<(Seq<char>, MetaView)> {
    Seq::new(entries.len(), |i: int| (entries[i].name@, entries[i].value@))
}

/// A stage of a transcription, as it is reported.
pub open spec fn stages(diarization: bool) -> Seq<&'static str> {
    if diarization {
        seq![
            "bridge pipeline stage: whisper transcription (starting)",
            "bridge pipeline stage: native diarization (starting)",
            "running whisper transcription + diarization",
        ]
    } else {
        seq![
            "bridge pipeline stage: whisper transcription (starting)",
            "running whisper transcription",
        ]
    }
}

/// The stages that are reported before the engine runs.
pub fn engine_stages(diarization: bool) -> (r: Vec<&'static str>)
    ensures
        r@ == stages(diarization),
{
    let r: Vec<&'static str> = if diarization {
        vec![
            "bridge pipeline stage: whisper transcription (starting)",
            "bridge pipeline stage: native diarization (starting)",
            "running whisper transcription + diarization",
        ]
    } else {
        vec![
            "bridge pipeline stage: whisper transcription (starting)",
            "running whisper transcription",
        ]
    };
    assert(r@ =~= stages(diarization));
    r
}

/// Whether a text asks for the default, or is a positive number, given whether it is one.
pub open spec fn is_default_or_positive(text: Seq<char>, positive_number: bool) -> bool {
    let t = stripped(text);
    t.len() == 0 || lowered(t) == lowered("default"@) || lowered(t) == lowered("auto"@)
        || positive_number
}

/// Whether a text asks for the default, or is a positive number, given whether it is one.
pub fn is_default_or_positive_float(text: &str, positive_number: bool) -> (r: bool)
    ensures
        r == is_default_or_positive(text@, positive_number),
{
    let t: &str = trim(text);
    t.is_empty() || eq_ignore_ascii_case(t, "default")
        || eq_ignore_ascii_case(t, "auto") || positive_number
}

/// The length of a piece that the settings ask for, as they write it.
pub open spec fn custom_of(s: SettingsView) -> Seq<char> {
    let mode = lowered(stripped(s.mode));
    let own = if mode == "subtitle"@ {
        stripped(s.subtitle_custom_mode)
    } else if mode == "speech"@ {
        stripped(s.speech_custom_mode)
    } else {
        Seq::empty()
    };
    if own.len() > 0 {
        own
    } else {
        stripped(s.custom_mode)
    }
}

/// The length of a piece that the settings ask for, as they write it.
pub fn custom_value(settings: &AppSettings) -> (r: String)
    ensures
        r@ == custom_of(settings@),
{
    let mode: String = to_ascii_lowercase(trim(settings.mode.as_str()));
    if same_text(mode.as_str(), "subtitle") {
        let own: &str = trim(settings.subtitle_custom_mode.as_str());
        if !own.is_empty() {
            return own.to_owned();
        }
    } else if same_text(mode.as_str(), "speech") {
        let own: &str = trim(settings.speech_custom_mode.as_str());
        if !own.is_empty() {
            return own.to_owned();
        }
    }
    trim(settings.custom_mode.as_str()).to_owned()
}

/// Why a transcription cannot begin, as far as the settings tell; none where it can.
pub open spec fn settings_error(
    s: SettingsView,
    audio_exists: bool,
    custom_is_positive: bool,
) -> Option<Seq<char>> {
    let mode = lowered(stripped(s.mode));
    if stripped(s.audio_file).len() == 0 {
        Some("audio file is required"@)
    } else if stripped(s.whisper_model).len() == 0 {
        Some("whisper model path is required"@)
    } else if !audio_exists {
        Some("audio file not found: '"@ + stripped(s.audio_file) + "'"@)
    } else if mode == "subtitle"@ && !is_default_or_positive(custom_of(s), custom_is_positive) {
        Some("subtitle custom must be 'default'/'auto' or a positive number of seconds"@)
    } else if mode == "speech"@ && !is_default_or_positive(custom_of(s), custom_is_positive) {
        Some("speech custom must be 'default'/'auto' or a positive number of seconds"@)
    } else {
        None
    }
}

/// Why speakers cannot be told apart; none where they can or need not be.
pub open spec fn diarization_error(
    platform: Platform,
    s: SettingsView,
    model_exists: bool,
) -> Option<Seq<char>> {
    if lowered(stripped(s.mode)) != "transcript"@ {
        None
    } else if stripped(s.diarization_models_dir).len() == 0 {
        Some("diarization is enabled but diarization models dir is empty"@)
    } else if !model_exists {
        Some(
            "diarization model not found: '"@ + joined_path(
                platform,
                stripped(s.diarization_models_dir),
                SORTFORMER_MODEL_FILE@,
            ) + "'"@,
        )
    } else {
        None
    }
}

/// Why the GPU that is selected cannot be used; none where it can or none is selected.
pub open spec fn gpu_error(
    s: SettingsView,
    devices: Option<Vec<BridgeDevice>>,
) -> Option<Seq<char>> {
    match selected_gpu(s) {
        Some(i) => if i >= 0 && devices is Some && reports_index(devices->0@, i) {
            None
        } else {
            Some(
                "selected GPU index "@ + signed_decimal(i as int)
                    + " is not available in runtime device list; choose CPU mode or re-select a valid GPU in Runtime settings"@,
            )
        },
        None => None,
    }
}

/// Why a transcription cannot begin, as far as the settings tell.
pub fn check_settings(settings: &AppSettings, audio_exists: bool, custom_is_positive: bool) -> (r:
    Result<(), String>)
    ensures
        match settings_error(settings@, audio_exists, custom_is_positive) {
            Some(why) => r matches Err(e) && e@ == why,
            None => r is Ok,
        },
{
    let audio: &str = trim(settings.audio_file.as_str());
    if audio.is_empty() {
        return Err("audio file is required".to_owned());
    }
    if trim(settings.whisper_model.as_str()).is_empty() {
        return Err("whisper model path is required".to_owned());
    }
    if !audio_exists {
        return Err(cat3("audio file not found: '", audio, "'"));
    }
    let mode: String = to_ascii_lowercase(trim(settings.mode.as_str()));
    let custom: String = custom_value(settings);
    let fine: bool = is_default_or_positive_float(custom.as_str(), custom_is_positive);
    if same_text(mode.as_str(), "subtitle") && !fine {
        return Err(
            "subtitle custom must be 'default'/'auto' or a positive number of seconds".to_owned(),
        );
    }
    if same_text(mode.as_str(), "speech") && !fine {
        return Err(
            "speech custom must be 'default'/'auto' or a positive number of seconds".to_owned(),
        );
    }
    Ok(())
}

/// Why speakers cannot be told apart.
pub fn check_diarization(platform: Platform, settings: &AppSettings, model_exists: bool) -> (r:
    Result<(), String>)
    ensures
        match diarization_error(platform, settings@, model_exists) {
            Some(why) => r matches Err(e) && e@ == why,
            None => r is Ok,
        },
{
    let mode: String = to_ascii_lowercase(trim(settings.mode.as_str()));
    if !same_text(mode.as_str(), "transcript") {
        return Ok(());
    }
    let dir: &str = trim(settings.diarization_models_dir.as_str());
    if dir.is_empty() {
        return Err("diarization is enabled but diarization models dir is empty".to_owned());
    }
    if !model_exists {
        let path: String = join_path(platform, dir, SORTFORMER_MODEL_FILE);
        return Err(cat3("diarization model not found: '", path.as_str(), "'"));
    }
    Ok(())
}

/// Why the GPU that is selected cannot be used.
pub fn check_gpu(settings: &AppSettings, devices: &Option<Vec<BridgeDevice>>) -> (r: Result<
    (),
    String,
>)
    ensures
        match gpu_error(settings@, *devices) {
            Some(why) => r matches Err(e) && e@ == why,
            None => r is Ok,
        },
{
    if let Some(i) = selected_gpu_index_from_settings(settings) {
        if !bridge_has_device_index(devices, i) {
            let number: String = signed_decimal_text(i);
            return Err(
                cat3(
                    "selected GPU index ",
                    number.as_str(),
                    " is not available in runtime device list; choose CPU mode or re-select a valid GPU in Runtime settings",
                ),
            );
        }
    }
    Ok(())
}

/// What the engine is told of a recording.
#[derive(Debug)]
pub struct AudioPlan {
    pub custom_value: String,
    pub diarization_enabled: bool,
    pub metadata: Vec<MetaEntry>,
    pub audio_format: String,
    pub shared: SharedBridgeParams,
}

/// What the engine is told of a recording.
pub struct AudioPlanView {
    pub custom_value: Seq<char>,
    pub diarization_enabled: bool,
    pub metadata: Seq<(Seq<char>, MetaView)>,
    pub audio_format: Seq<char>,
    pub shared: SharedView,
}

impl View for AudioPlan {
    type V = AudioPlanView;

    open spec fn view(&self) -> AudioPlanView {
        AudioPlanView {
            custom_value: self.custom_value@,
            diarization_enabled: self.diarization_enabled,
            metadata: meta_views(self.metadata@),
            audio_format: self.audio_format@,
            shared: self.shared@,
        }
    }
}

/// The length of a piece, or the word for the default where none is asked for.
pub open spec fn custom_or_default(s: SettingsView) -> Seq<char> {
    if custom_of(s).len() == 0 {
        "default"@
    } else {
        custom_of(s)
    }
}

/// What every transcription hands to the engine.
pub open spec fn base_metadata(s: SettingsView, audio: Seq<char>, output_dir: Seq<char>) -> Seq<
    (Seq<char>, MetaView),
> {
    seq![
        ("mode"@, MetaView::Text(s.mode)),
        ("custom"@, MetaView::Text(custom_or_default(s))),
        ("output_dir"@, MetaView::Text(output_dir)),
        ("audio_source_path"@, MetaView::Text(audio)),
        ("whisper_model"@, MetaView::Text(s.whisper_model)),
    ]
}

/// What a transcription that tells speakers apart hands to the engine besides.
pub open spec fn diarization_metadata(platform: Platform, s: SettingsView) -> Seq<
    (Seq<char>, MetaView),
> {
    if lowered(stripped(s.mode)) == "transcript"@ {
        seq![
            (
                "diarization_model_path"@,
                MetaView::Text(
                    joined_path(
                        platform,
                        stripped(s.diarization_models_dir),
                        SORTFORMER_MODEL_FILE@,
                    ),
                ),
            ),
            ("diarization_backend"@, MetaView::Text("sortformer"@)),
            ("diarization_feed_ms"@, MetaView::Number("10800001.0"@)),
        ]
    } else {
        Seq::empty()
    }
}

/// The shift of the times that is handed to the engine, where the settings give a number.
pub open spec fn offset_metadata(s: SettingsView, offset_is_number: bool) -> Seq<
    (Seq<char>, MetaView),
> {
    if offset_is_number {
        seq![
            (
                "whisper_word_time_offset_sec"@,
                MetaView::Number(stripped(s.whisper_word_time_offset_sec)),
            ),
        ]
    } else {
        Seq::empty()
    }
}

/// The device that is handed to the engine.
pub open spec fn device_metadata(s: SettingsView, devices: Option<Vec<BridgeDevice>>) -> Seq<
    (Seq<char>, MetaView),
> {
    match selected_gpu(s) {
        Some(i) => {
            let head = seq![
                ("gpu"@, MetaView::Int(i)),
                ("whisper_gpu_device"@, MetaView::Int(i)),
            ];
            let named = match devices {
                Some(list) if i >= 0 => device_name(device_views(list@), i),
                _ => None,
            };
            match named {
                Some(n) if lowered(stripped(s.mode)) == "transcript"@ => head.push(
                    ("diarization_device"@, MetaView::Text(n)),
                ),
                _ => head,
            }
        },
        None => seq![("whisper_no_gpu"@, MetaView::Flag(true))],
    }
}

/// All that a transcription hands to the engine, in the order in which it is put together.
pub open spec fn metadata_of(
    platform: Platform,
    s: SettingsView,
    audio: Seq<char>,
    output_dir: Seq<char>,
    offset_is_number: bool,
    devices: Option<Vec<BridgeDevice>>,
) -> Seq<(Seq<char>, MetaView)> {
    base_metadata(s, audio, output_dir) + diarization_metadata(platform, s) + offset_metadata(
        s,
        offset_is_number,
    ) + seq![("transport"@, MetaView::Text("audio_raw_bytes"@))] + device_metadata(s, devices)
}

/// What every transcription hands to the engine.
fn base_entries(settings: &AppSettings, audio: &str, output_dir: &str) -> (r: Vec<MetaEntry>)
    ensures
        meta_views(r@) == base_metadata(settings@, audio@, output_dir@),
{
    let custom: String = custom_value(settings);
    let shown: String = if custom.as_str().is_empty() {
        "default".to_owned()
    } else {
        custom
    };
    let r: Vec<MetaEntry> = vec![
        MetaEntry { name: "mode", value: MetaValue::Text(settings.mode.clone()) },
        MetaEntry { name: "custom", value: MetaValue::Text(shown) },
        MetaEntry { name: "output_dir", value: MetaValue::Text(output_dir.to_owned()) },
        MetaEntry { name: "audio_source_path", value: MetaValue::Text(audio.to_owned()) },
        MetaEntry { name: "whisper_model", value: MetaValue::Text(settings.whisper_model.clone()) },
    ];
    assert(meta_views(r@) =~= base_metadata(settings@, audio@, output_dir@));
    r
}

/// What a transcription that tells speakers apart hands to the engine besides.
fn diarization_entries(platform: Platform, settings: &AppSettings) -> (r: Vec<MetaEntry>)
    ensures
        meta_views(r@) == diarization_metadata(platform, settings@),
{
    let mode: String = to_ascii_lowercase(trim(settings.mode.as_str()));
    let r: Vec<MetaEntry> = if same_text(mode.as_str(), "transcript") {
        let path: String = join_path(
            platform,
            trim(settings.diarization_models_dir.as_str()),
            SORTFORMER_MODEL_FILE,
        );
        vec![
            MetaEntry { name: "diarization_model_path", value: MetaValue::Text(path) },
            MetaEntry {
                name: "diarization_backend",
                value: MetaValue::Text("sortformer".to_owned()),
            },
            MetaEntry {
                name: "diarization_feed_ms",
                value: MetaValue::Number("10800001.0".to_owned()),
            },
        ]
    } else {
        Vec::new()
    };
    assert(meta_views(r@) =~= diarization_metadata(platform, settings@));
    r
}

/// The shift of the times that is handed to the engine, where the settings give a number.
fn offset_entries(settings: &AppSettings, offset_is_number: bool) -> (r: Vec<MetaEntry>)
    ensures
        meta_views(r@) == offset_metadata(settings@, offset_is_number),
{
    let mut r: Vec<MetaEntry> = Vec::new();
    if offset_is_number {
        r.push(
            MetaEntry {
                name: "whisper_word_time_offset_sec",
                value: MetaValue::Number(
                    trim(settings.whisper_word_time_offset_sec.as_str()).to_owned(),
                ),
            },
        );
    }
    assert(meta_views(r@) =~= offset_metadata(settings@, offset_is_number));
    r
}

/// The device that is handed to the engine.
fn device_entries(
    settings: &AppSettings,
    devices: &Option<Vec<BridgeDevice>>,
) -> (r: Vec<MetaEntry>)
    ensures
        meta_views(r@) == device_metadata(settings@, *devices),
{
    let mut r: Vec<MetaEntry> = Vec::new();
    match selected_gpu_index_from_settings(settings) {
        Some(i) => {
            r.push(MetaEntry { name: "gpu", value: MetaValue::Int(i) });
            r.push(MetaEntry { name: "whisper_gpu_device", value: MetaValue::Int(i) });
            let mode: String = to_ascii_lowercase(trim(settings.mode.as_str()));
            if same_text(mode.as_str(), "transcript") {
                if let Some(n) = resolve_bridge_device_name_by_index(devices, i) {
                    r.push(MetaEntry { name: "diarization_device", value: MetaValue::Text(n) });
                }
            }
        },
        None => {
            r.push(MetaEntry { name: "whisper_no_gpu", value: MetaValue::Flag(true) });
        },
    }
    assert(meta_views(r@) =~= device_metadata(settings@, *devices));
    r
}

/// Puts a list behind another.
fn extend(list: &mut Vec<MetaEntry>, more: Vec<MetaEntry>)
    ensures
        meta_views(final(list)@) == meta_views(old(list)@) + meta_views(more@),
{
    let ghost head = list@;
    let ghost tail = more@;
    let mut rest: Vec<MetaEntry> = more;
    list.append(&mut rest);
    assert(meta_views(list@) =~= meta_views(head) + meta_views(tail));
}

/// What the program found out for a transcription.
#[derive(Debug)]
pub struct Found {
    pub audio_exists: bool,
    /// Whether the length of a piece is a positive number.
    pub custom_is_positive: bool,
    /// Whether the diarization model is there.
    pub model_exists: bool,
    /// Whether the shift of the times is a number.
    pub offset_is_number: bool,
    /// The devices that the engine reports; none where it does not.
    pub devices: Option<Vec<BridgeDevice>>,
    /// The number of threads where the settings give none.
    pub default_threads: Option<i32>,
}

/// Why a transcription cannot run: the first reason there is; none where it can.
pub open spec fn transcription_error(platform: Platform, s: SettingsView, found: Found) -> Option<
    Seq<char>,
> {
    match settings_error(s, found.audio_exists, found.custom_is_positive) {
        Some(why) => Some(why),
        None => match diarization_error(platform, s, found.model_exists) {
            Some(why) => Some(why),
            None => gpu_error(s, found.devices),
        },
    }
}

/// Whether the speakers are told apart in a mode.
pub open spec fn tells_speakers(s: SettingsView) -> bool {
    lowered(stripped(s.mode)) == "transcript"@
}

/// Whether the speakers are told apart in the mode that is set.
pub fn is_transcript_mode(settings: &AppSettings) -> (r: bool)
    ensures
        r == tells_speakers(settings@),
{
    let mode: String = to_ascii_lowercase(trim(settings.mode.as_str()));
    same_text(mode.as_str(), "transcript")
}

/// What the engine is told of a recording.
pub open spec fn plan_of(
    platform: Platform,
    s: SettingsView,
    audio: PathView,
    found: Found,
) -> AudioPlanView {
    AudioPlanView {
        custom_value: custom_or_default(s),
        diarization_enabled: tells_speakers(s),
        metadata: metadata_of(
            platform,
            s,
            audio.text(),
            folder_of(platform, audio.text()),
            found.offset_is_number,
            found.devices,
        ),
        audio_format: match extension_of(audio.name) {
            Some(e) => lowered(e),
            None => "bin"@,
        },
        shared: shared_of(s, found.default_threads),
    }
}

/// What the engine is told of a recording, or why it cannot be asked.
pub fn plan_transcription(
    platform: Platform,
    settings: &AppSettings,
    audio: &FilePath,
    found: &Found,
) -> (r: Result<AudioPlan, String>)
    ensures
        match transcription_error(platform, settings@, *found) {
            Some(why) => r matches Err(e) && e@ == why,
            None => r matches Ok(plan) && plan@ == plan_of(platform, settings@, audio@, *found),
        },
{
    check_settings(settings, found.audio_exists, found.custom_is_positive)?;
    check_diarization(platform, settings, found.model_exists)?;
    check_gpu(settings, &found.devices)?;
    let custom: String = custom_value(settings);
    let shown: String = if custom.as_str().is_empty() {
        "default".to_owned()
    } else {
        custom
    };
    let audio_text: String = audio.text();
    let output_dir: String = path_folder(platform, audio_text.as_str());
    let mut metadata: Vec<MetaEntry> = base_entries(
        settings,
        audio_text.as_str(),
        output_dir.as_str(),
    );
    extend(&mut metadata, diarization_entries(platform, settings));
    extend(&mut metadata, offset_entries(settings, found.offset_is_number));
    let transport: Vec<MetaEntry> = vec![
        MetaEntry { name: "transport", value: MetaValue::Text("audio_raw_bytes".to_owned()) },
    ];
    assert(meta_views(transport@) =~= seq![("transport"@, MetaView::Text("audio_raw_bytes"@))]);
    extend(&mut metadata, transport);
    extend(&mut metadata, device_entries(settings, &found.devices));
    Ok(
        AudioPlan {
            custom_value: shown,
            diarization_enabled: is_transcript_mode(settings),
            metadata,
            audio_format: infer_audio_format(audio),
            shared: shared_bridge_params(settings, found.default_threads),
        },
    )
}

/// The file that a transcription wrote: the one that the answer of the engine names, else the one
/// beside the recording.
pub open spec fn output_of(
    platform: Platform,
    response: serde_json::Value,
    audio: PathView,
    mode: Seq<char>,
) -> PathView {
    match answered_path(json_view(response)) {
        Some(text) => file_path_at(platform, text),
        None => fallback_output(audio, mode, folder_of(platform, audio.text())),
    }
}

/// The file that a transcription wrote.
pub fn output_of_transcription(
    platform: Platform,
    response: &serde_json::Value,
    audio: &FilePath,
    mode: &str,
) -> (r: FilePath)
    ensures
        r@ == output_of(platform, *response, audio@, mode@),
{
    match output_path_from_answer(response) {
        Some(text) => file_path(platform, text.as_str()),
        None => {
            let audio_text: String = audio.text();
            let output_dir: String = path_folder(platform, audio_text.as_str());
            fallback_output_path(audio, mode, output_dir.as_str())
        },
    }
}

/// What is said of how the recording is handed over.
pub const PREPROCESS_NOTE: &'static str = "Sending raw bytes; bridge-side FFmpeg conversion enabled (vendored runtime).";

/// How many tokens the language model may answer with.
pub const CHAT_TOKENS: i32 = 10_000;

/// A question to the language model.
#[derive(Debug)]
pub struct ChatRunParams {
    pub model_path: String,
    pub prompt: String,
    pub n_predict: i32,
    pub reasoning: &'static str,
    /// How much the model may think; `None` where the engine decides.
    pub reasoning_budget: Option<i32>,
    pub reasoning_format: Option<&'static str>,
    pub shared: SharedBridgeParams,
}

/// Why a question cannot be asked, as far as the settings tell; none where it can.
pub open spec fn chat_settings_error(s: SettingsView, context_ok: bool) -> Option<Seq<char>> {
    if stripped(s.chat_model).len() == 0 {
        Some("chat model path is required"@)
    } else if stripped(s.chat_prompt).len() == 0 {
        Some("chat prompt is required"@)
    } else if stripped(s.chat_context_file).len() > 0 && !context_ok {
        Some("failed to read context file '"@ + stripped(s.chat_context_file) + "'"@)
    } else {
        None
    }
}

/// Why a question cannot be asked: the first reason there is; none where it can.
pub open spec fn chat_error(
    s: SettingsView,
    context_ok: bool,
    devices: Option<Vec<BridgeDevice>>,
) -> Option<Seq<char>> {
    match chat_settings_error(s, context_ok) {
        Some(why) => Some(why),
        None => gpu_error(s, devices),
    }
}

/// Why a question cannot be asked, as far as the settings tell.
pub fn check_chat(settings: &AppSettings, context_ok: bool) -> (r: Result<(), String>)
    ensures
        match chat_settings_error(settings@, context_ok) {
            Some(why) => r matches Err(e) && e@ == why,
            None => r is Ok,
        },
{
    if trim(settings.chat_model.as_str()).is_empty() {
        return Err("chat model path is required".to_owned());
    }
    if trim(settings.chat_prompt.as_str()).is_empty() {
        return Err("chat prompt is required".to_owned());
    }
    let file: &str = trim(settings.chat_context_file.as_str());
    if !file.is_empty() && !context_ok {
        return Err(cat3("failed to read context file '", file, "'"));
    }
    Ok(())
}

/// What the language model is asked: the question, and behind it the text of the file that the
/// settings name, if they name one.
pub open spec fn prompt_of(s: SettingsView, context: Option<Seq<char>>) -> Seq<char> {
    match context {
        Some(text) if stripped(s.chat_context_file).len() > 0 => s.chat_prompt
            + "\n\nContext markdown:\n\n"@ + text,
        _ => s.chat_prompt,
    }
}

/// How the language model is told to reason before it answers: whether, how long, and in which form
/// it tells of it.
pub open spec fn reasoning_of(s: SettingsView) -> (Seq<char>, Option<i32>, Option<Seq<char>>) {
    if s.chat_allow_thinking {
        ("on"@, Some((-1) as i32), Some("deepseek"@))
    } else {
        ("off"@, None, None)
    }
}

impl ChatRunParams {
    /// How the language model is told to reason.
    pub open spec fn reasoning_view(self) -> (Seq<char>, Option<i32>, Option<Seq<char>>) {
        (
            self.reasoning@,
            self.reasoning_budget,
            match self.reasoning_format {
                Some(format) => Some(format@),
                None => None,
            },
        )
    }
}

/// What the language model is asked, given the text of the file that the settings name and the
/// devices that the engine reports; or why it cannot be asked.
pub fn run_chat(
    settings: &AppSettings,
    context: &Option<String>,
    devices: &Option<Vec<BridgeDevice>>,
    default_threads: Option<i32>,
) -> (r: Result<ChatRunParams, String>)
    ensures
        match chat_error(settings@, *context is Some, *devices) {
            Some(why) => r matches Err(e) && e@ == why,
            None => r matches Ok(p) && p.model_path@ == settings@.chat_model && p.prompt@
                == prompt_of(settings@, text_view(*context)) && p.n_predict
                == CHAT_TOKENS && p.shared@ == shared_of(settings@, default_threads)
                && p.reasoning_view() == reasoning_of(settings@),
        },
{
    check_chat(settings, context.is_some())?;
    let named: bool = !trim(settings.chat_context_file.as_str()).is_empty();
    let prompt: String = match context {
        Some(text) if named => cat3(
            settings.chat_prompt.as_str(),
            "\n\nContext markdown:\n\n",
            text.as_str(),
        ),
        _ => settings.chat_prompt.clone(),
    };
    check_gpu(settings, devices)?;
    let shared: SharedBridgeParams = shared_bridge_params(settings, default_threads);
    if settings.chat_allow_thinking {
        Ok(
            ChatRunParams {
                model_path: settings.chat_model.clone(),
                prompt,
                n_predict: CHAT_TOKENS,
                reasoning: "on",
                reasoning_budget: Some(-1),
                reasoning_format: Some("deepseek"),
                shared,
            },
        )
    } else {
        Ok(
            ChatRunParams {
                model_path: settings.chat_model.clone(),
                prompt,
                n_predict: CHAT_TOKENS,
                reasoning: "off",
                reasoning_budget: None,
                reasoning_format: None,
                shared,
            },
        )
    }
}

/// What is handed to the engine under a name, in the order in which it is put together.
pub open spec fn values_under(entries: Seq<(Seq<char>, MetaView)>, name: Seq<char>) -> Seq<MetaView>
    decreases entries.len(),
{
    if entries.len() == 0 {
        Seq::empty()
    } else if entries.last().0 == name {
        values_under(entries.drop_last(), name).push(entries.last().1)
    } else {
        values_under(entries.drop_last(), name)
    }
}

/// What two lists hold under a name is what the first holds and then what the second does.
proof fn lemma_values_in_turn(
    first: Seq<(Seq<char>, MetaView)>,
    later: Seq<(Seq<char>, MetaView)>,
    name: Seq<char>,
)
    ensures
        values_under(first + later, name) == values_under(first, name) + values_under(later, name),
    decreases later.len(),
{
    if later.len() == 0 {
        assert(first + later =~= first);
        assert(values_under(first, name) + values_under(later, name) =~= values_under(first, name));
    } else {
        lemma_values_in_turn(first, later.drop_last(), name);
        assert((first + later).drop_last() =~= first + later.drop_last());
        assert((first + later).last() == later.last());
        assert(values_under(first + later, name) =~= values_under(first, name) + values_under(
            later,
            name,
        ));
    }
}

/// A list without an entry of a name holds nothing under it.
proof fn lemma_nothing_under(entries: Seq<(Seq<char>, MetaView)>, name: Seq<char>)
    requires
        forall|i: int| 0 <= i < entries.len() ==> (#[trigger] entries[i]).0 != name,
    ensures
        values_under(entries, name) == Seq::<MetaView>::empty(),
    decreases entries.len(),
{
    if entries.len() > 0 {
        let rest = entries.drop_last();
        assert forall|i: int| 0 <= i < rest.len() implies (#[trigger] rest[i]).0 != name by {
            assert(rest[i] == entries[i]);
        }
        lemma_nothing_under(rest, name);
        assert(entries[entries.len() - 1].0 != name);
    }
}

/// A list in which one entry has a name holds one value under it.
proof fn lemma_one_under(entries: Seq<(Seq<char>, MetaView)>, k: int)
    requires
        0 <= k < entries.len(),
        forall|i: int|
            0 <= i < entries.len() && i != k ==> (#[trigger] entries[i]).0 != entries[k].0,
    ensures
        values_under(entries, entries[k].0) == seq![entries[k].1],
{
    let name = entries[k].0;
    let head = entries.take(k);
    let tail = entries.skip(k + 1);
    let one = seq![entries[k]];
    assert(head + one + tail =~= entries);
    lemma_values_in_turn(head + one, tail, name);
    lemma_values_in_turn(head, one, name);
    assert forall|i: int| 0 <= i < head.len() implies (#[trigger] head[i]).0 != name by {
        assert(head[i] == entries[i]);
    }
    assert forall|i: int| 0 <= i < tail.len() implies (#[trigger] tail[i]).0 != name by {
        assert(tail[i] == entries[i + k + 1]);
    }
    lemma_nothing_under(head, name);
    lemma_nothing_under(tail, name);
    assert(one.drop_last() =~= Seq::empty());
    assert(values_under(one.drop_last(), name) =~= Seq::empty());
    assert(values_under(one, name) =~= seq![entries[k].1]);
    assert(values_under(entries, name) =~= seq![entries[k].1]);
}

/// The names under which something is handed to the engine differ.
proof fn lemma_names_differ()
    ensures
        "mode"@.len() == 4,
        "custom"@.len() == 6,
        "output_dir"@.len() == 10,
        "audio_source_path"@.len() == 17,
        "whisper_model"@.len() == 13,
        "diarization_model_path"@.len() == 22,
        "diarization_backend"@.len() == 19,
        "diarization_feed_ms"@.len() == 19,
        "diarization_backend"@[12] == 'b',
        "diarization_feed_ms"@[12] == 'f',
        "whisper_word_time_offset_sec"@.len() == 28,
        "transport"@.len() == 9,
        "gpu"@.len() == 3,
        "whisper_gpu_device"@.len() == 18,
        "whisper_gpu_device"@[0] == 'w',
        "diarization_device"@.len() == 18,
        "diarization_device"@[0] == 'd',
        "whisper_no_gpu"@.len() == 14,
{
    reveal_strlit("mode");
    reveal_strlit("custom");
    reveal_strlit("output_dir");
    reveal_strlit("audio_source_path");
    reveal_strlit("whisper_model");
    reveal_strlit("diarization_model_path");
    reveal_strlit("diarization_backend");
    reveal_strlit("diarization_feed_ms");
    reveal_strlit("whisper_word_time_offset_sec");
    reveal_strlit("transport");
    reveal_strlit("gpu");
    reveal_strlit("whisper_gpu_device");
    reveal_strlit("diarization_device");
    reveal_strlit("whisper_no_gpu");
}

/// What the plan of a transcription tells the engine, name by name. Each of these names occurs once,
/// with this value: the mode and the whisper model of the settings, whatever else is set; the length
/// of a piece, or the word for the default; the recording, and the folder that it lies in; and how
/// the recording is handed over.
pub proof fn lemma_plan_names_model(
    platform: Platform,
    s: SettingsView,
    audio: PathView,
    found: Found,
)
    ensures
        ({
            let told = plan_of(platform, s, audio, found).metadata;
            &&& values_under(told, "whisper_model"@) == seq![MetaView::Text(s.whisper_model)]
            &&& values_under(told, "mode"@) == seq![MetaView::Text(s.mode)]
            &&& values_under(told, "custom"@) == seq![
                MetaView::Text(plan_of(platform, s, audio, found).custom_value),
            ]
            &&& values_under(told, "output_dir"@) == seq![
                MetaView::Text(folder_of(platform, audio.text())),
            ]
            &&& values_under(told, "audio_source_path"@) == seq![MetaView::Text(audio.text())]
            &&& values_under(told, "transport"@) == seq![MetaView::Text("audio_raw_bytes"@)]
        }),
{
    lemma_names_differ();
    let dir = folder_of(platform, audio.text());
    let told = metadata_of(
        platform,
        s,
        audio.text(),
        dir,
        found.offset_is_number,
        found.devices,
    );
    assert(told == plan_of(platform, s, audio, found).metadata);
    let at = base_metadata(s, audio.text(), dir).len() + diarization_metadata(platform, s).len()
        + offset_metadata(s, found.offset_is_number).len();
    assert(told[0] == ("mode"@, MetaView::Text(s.mode)));
    assert(told[1] == ("custom"@, MetaView::Text(custom_or_default(s))));
    assert(told[2] == ("output_dir"@, MetaView::Text(dir)));
    assert(told[3] == ("audio_source_path"@, MetaView::Text(audio.text())));
    assert(told[4] == ("whisper_model"@, MetaView::Text(s.whisper_model)));
    assert(told[at as int] == ("transport"@, MetaView::Text("audio_raw_bytes"@)));
    lemma_one_under(told, 0);
    lemma_one_under(told, 1);
    lemma_one_under(told, 2);
    lemma_one_under(told, 3);
    lemma_one_under(told, 4);
    lemma_one_under(told, at as int);
}

/// What the plan tells the engine of the speakers. Where they are told apart it names, once each, the
/// model in the folder of the settings, how it is run and how much it is fed at a time; else none of
/// these names occurs.
pub proof fn lemma_plan_names_speakers(
    platform: Platform,
    s: SettingsView,
    audio: PathView,
    found: Found,
)
    ensures
        ({
            let told = plan_of(platform, s, audio, found).metadata;
            if lowered(stripped(s.mode)) == "transcript"@ {
                &&& plan_of(platform, s, audio, found).diarization_enabled
                &&& values_under(told, "diarization_model_path"@) == seq![
                    MetaView::Text(
                        joined_path(
                            platform,
                            stripped(s.diarization_models_dir),
                            SORTFORMER_MODEL_FILE@,
                        ),
                    ),
                ]
                &&& values_under(told, "diarization_backend"@) == seq![MetaView::Text("sortformer"@)]
                &&& values_under(told, "diarization_feed_ms"@) == seq![
                    MetaView::Number("10800001.0"@),
                ]
            } else {
                &&& !plan_of(platform, s, audio, found).diarization_enabled
                &&& values_under(told, "diarization_model_path"@).len() == 0
                &&& values_under(told, "diarization_backend"@).len() == 0
                &&& values_under(told, "diarization_feed_ms"@).len() == 0
                &&& values_under(told, "diarization_device"@).len() == 0
            }
        }),
{
    lemma_names_differ();
    let told = plan_of(platform, s, audio, found).metadata;
    if lowered(stripped(s.mode)) == "transcript"@ {
        let base = base_metadata(s, audio.text(), folder_of(platform, audio.text()));
        assert(base.len() == 5);
        assert(told[5].0 == "diarization_model_path"@);
        assert(told[6].0 == "diarization_backend"@);
        assert(told[7].0 == "diarization_feed_ms"@);
        lemma_one_under(told, 5);
        lemma_one_under(told, 6);
        lemma_one_under(told, 7);
    } else {
        lemma_nothing_under(told, "diarization_model_path"@);
        lemma_nothing_under(told, "diarization_backend"@);
        lemma_nothing_under(told, "diarization_feed_ms"@);
        lemma_nothing_under(told, "diarization_device"@);
    }
}

/// What the plan tells the engine of the device and of the times. A GPU that is selected is named
/// under both names and the engine is not told to do without one; where none is selected it is told
/// so, and neither name occurs. The shift of the times is named where it is a number, as it is
/// written, and else it is not.
pub proof fn lemma_plan_names_device(
    platform: Platform,
    s: SettingsView,
    audio: PathView,
    found: Found,
)
    ensures
        ({
            let told = plan_of(platform, s, audio, found).metadata;
            &&& match selected_gpu(s) {
                Some(i) => {
                    &&& values_under(told, "gpu"@) == seq![MetaView::Int(i)]
                    &&& values_under(told, "whisper_gpu_device"@) == seq![MetaView::Int(i)]
                    &&& values_under(told, "whisper_no_gpu"@).len() == 0
                },
                None => {
                    &&& values_under(told, "gpu"@).len() == 0
                    &&& values_under(told, "whisper_gpu_device"@).len() == 0
                    &&& values_under(told, "diarization_device"@).len() == 0
                    &&& values_under(told, "whisper_no_gpu"@) == seq![MetaView::Flag(true)]
                },
            }
            &&& if found.offset_is_number {
                values_under(told, "whisper_word_time_offset_sec"@) == seq![
                    MetaView::Number(stripped(s.whisper_word_time_offset_sec)),
                ]
            } else {
                values_under(told, "whisper_word_time_offset_sec"@).len() == 0
            }
        }),
{
    lemma_names_differ();
    let dir = folder_of(platform, audio.text());
    let told = plan_of(platform, s, audio, found).metadata;
    let base = base_metadata(s, audio.text(), dir);
    let speakers = diarization_metadata(platform, s);
    let offset = offset_metadata(s, found.offset_is_number);
    let tail = device_metadata(s, found.devices);
    let at = base.len() + speakers.len();
    let last = at + offset.len() + 1;
    assert(told.len() == last + tail.len());
    assert(told[last as int] == tail[0]);
    match selected_gpu(s) {
        Some(i) => {
            assert(told[(last + 1) as int] == tail[1]);
            assert(tail[0].0 == "gpu"@);
            assert(tail[1].0 == "whisper_gpu_device"@);
            lemma_one_under(told, last as int);
            lemma_one_under(told, (last + 1) as int);
            lemma_nothing_under(told, "whisper_no_gpu"@);
        },
        None => {
            assert(tail[0].0 == "whisper_no_gpu"@);
            lemma_one_under(told, last as int);
            lemma_nothing_under(told, "gpu"@);
            lemma_nothing_under(told, "whisper_gpu_device"@);
            lemma_nothing_under(told, "diarization_device"@);
        },
    }
    if found.offset_is_number {
        assert(told[at as int] == offset[0]);
        lemma_one_under(told, at as int);
    } else {
        lemma_nothing_under(told, "whisper_word_time_offset_sec"@);
    }
}

/// What a transcription is told does not depend on what belongs to the chat, to live sessions or to
/// the screen: settings that differ in nothing else give the same plan.
pub proof fn lemma_plan_ignores_chat(
    platform: Platform,
    s: SettingsView,
    other: SettingsView,
    audio: PathView,
    found: Found,
)
    requires
        other == (SettingsView {
            chat_model: other.chat_model,
            chat_prompt: other.chat_prompt,
            chat_context_file: other.chat_context_file,
            chat_allow_thinking: other.chat_allow_thinking,
            live_transcription_model: other.live_transcription_model,
            live_input_device: other.live_input_device,
            live_sessions_output_dir: other.live_sessions_output_dir,
            live_diarization_enabled: other.live_diarization_enabled,
            runtime_dir: other.runtime_dir,
            runtime_download_backend: other.runtime_download_backend,
            split_view: other.split_view,
            ..s
        }),
    ensures
        plan_of(platform, other, audio, found) == plan_of(platform, s, audio, found),
        transcription_error(platform, other, found) == transcription_error(platform, s, found),
{
    assert(selected_gpu(other) == selected_gpu(s));
}

/// The length of a piece that is asked for: that of the mode where subtitles or speech have one of their
/// own, else the general one; any other mode has the general one.
pub proof fn lemma_custom_of(s: SettingsView)
    ensures
        ({
            let mode = lowered(stripped(s.mode));
            &&& mode == "subtitle"@ && stripped(s.subtitle_custom_mode).len() > 0 ==> custom_of(s)
                == stripped(s.subtitle_custom_mode)
            &&& mode == "speech"@ && stripped(s.speech_custom_mode).len() > 0 ==> custom_of(s)
                == stripped(s.speech_custom_mode)
            &&& mode == "subtitle"@ && stripped(s.subtitle_custom_mode).len() == 0 ==> custom_of(s)
                == stripped(s.custom_mode)
            &&& mode == "speech"@ && stripped(s.speech_custom_mode).len() == 0 ==> custom_of(s)
                == stripped(s.custom_mode)
            &&& mode != "subtitle"@ && mode != "speech"@ ==> custom_of(s) == stripped(s.custom_mode)
            &&& custom_of(s).len() > 0 ==> custom_or_default(s) == custom_of(s)
            &&& custom_of(s).len() == 0 ==> custom_or_default(s) == "default"@
        }),
{
    reveal_strlit("subtitle");
    reveal_strlit("speech");
    assert("subtitle"@.len() != "speech"@.len());
}

/// When a transcription can run: a recording and a whisper model are set and the recording is there; the
/// length of a piece is the default or a positive number where the mode asks for one; where speakers are
/// told apart, the folder of the model is set and the model is there; and a GPU that is selected is one
/// that the engine reports.
pub proof fn lemma_transcription_can_run(platform: Platform, s: SettingsView, found: Found)
    ensures
        ({
            let mode = lowered(stripped(s.mode));
            let pieces = mode == "subtitle"@ || mode == "speech"@;
            &&& transcription_error(platform, s, found) is None ==> stripped(s.audio_file).len() > 0
                && stripped(s.whisper_model).len() > 0 && found.audio_exists && (pieces
                ==> is_default_or_positive(custom_of(s), found.custom_is_positive)) && (mode
                == "transcript"@ ==> stripped(s.diarization_models_dir).len() > 0
                && found.model_exists) && (selected_gpu(s) matches Some(i) ==> i >= 0
                && found.devices is Some && reports_index(found.devices->0@, i))
            &&& stripped(s.audio_file).len() > 0 && stripped(s.whisper_model).len() > 0
                && found.audio_exists && (pieces ==> is_default_or_positive(
                custom_of(s),
                found.custom_is_positive,
            )) && (mode == "transcript"@ ==> stripped(s.diarization_models_dir).len() > 0
                && found.model_exists) && selected_gpu(s) is None ==> transcription_error(
                platform,
                s,
                found,
            ) is None
        }),
        is_default_or_positive("default"@, false),
        is_default_or_positive("auto"@, false),
        is_default_or_positive(Seq::empty(), false),
        forall|t: Seq<char>| #[trigger] is_default_or_positive(t, true),
{
    reveal_strlit("default");
    reveal_strlit("auto");
    assert(stripped("default"@) == "default"@);
    assert(stripped("auto"@) == "auto"@);
}

/// What the language model is asked: the question as it is written, and, where the settings name a file,
/// its text behind it. It thinks without a limit where that is allowed, and not at all where it is not.
pub proof fn lemma_what_is_asked(s: SettingsView, text: Seq<char>)
    ensures
        prompt_of(s, None) == s.chat_prompt,
        stripped(s.chat_context_file).len() == 0 ==> prompt_of(s, Some(text)) == s.chat_prompt,
        stripped(s.chat_context_file).len() > 0 ==> prompt_of(s, Some(text)) == s.chat_prompt
            + "\n\nContext markdown:\n\n"@ + text,
        s.chat_allow_thinking ==> reasoning_of(s).0 == "on"@ && (reasoning_of(s).1 matches Some(n)
            && n == -1) && reasoning_of(s).2 == Some("deepseek"@),
        !s.chat_allow_thinking ==> reasoning_of(s).0 == "off"@ && reasoning_of(s).1 is None
            && reasoning_of(s).2 is None,
{
}

/// When a question can be asked: a language model and a question are set, a file that the settings name
/// could be read, and a GPU that is selected is one that the engine reports.
pub proof fn lemma_question_can_be_asked(
    s: SettingsView,
    context_ok: bool,
    devices: Option<Vec<BridgeDevice>>,
)
    ensures
        chat_error(s, context_ok, devices) is None <==> stripped(s.chat_model).len() > 0 && stripped(
            s.chat_prompt,
        ).len() > 0 && (stripped(s.chat_context_file).len() > 0 ==> context_ok) && (selected_gpu(
            s,
        ) matches Some(i) ==> i >= 0 && devices is Some && reports_index(devices->0@, i)),
{
}

/// The file that a transcription wrote: the one that the answer names, whatever the mode; else the one
/// under the name of the recording in its folder.
pub proof fn lemma_output_of(
    platform: Platform,
    response: serde_json::Value,
    audio: PathView,
    mode: Seq<char>,
)
    ensures
        answered_path(json_view(response)) matches Some(text) ==> output_of(
            platform,
            response,
            audio,
            mode,
        ) == file_path_at(platform, text),
        answered_path(json_view(response)) is None ==> output_of(platform, response, audio, mode)
            == fallback_output(audio, mode, folder_of(platform, audio.text())),
{
}

} // verus!
