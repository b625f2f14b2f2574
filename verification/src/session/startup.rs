//! The state with which the window opens.
use super::runtime_panel::{model_index, setup_issues, ModelReport, RuntimeReport};
use super::setup::whisper_ready;
use super::{
    AnonymisePanel, AnonymiseView, ChatPanel, ChatView, Clock, LivePanel, LiveView, PlaybackPanel,
    PlaybackView, Review, ReviewView, RuntimePanel, RuntimeView, Session, SessionView,
};
use crate::anonymise::kind::{anonymise_entity_order, entity_order};
use crate::devices::{auto_selected, BridgeDevice, OptionView};
use crate::models::{
    chat_files, live_files, resolve_chat_model_path_from_store, select_chat_model_index,
    select_live_model_index, select_whisper_model_index, stored_model, whisper_files, StoreFolder,
};
use crate::pages::AppPage;
use crate::paths::Platform;
use crate::runtime::{missing_of, runtime_missing_messages, synced_choice};
use crate::settings::{AppSettings, SettingsView};
use crate::speakers::rename_views;
use crate::text::{
    eq_ignore_ascii_case, lowered, same_text, stripped, to_ascii_lowercase, trim, views, CharClass,
};
use vstd::prelude::*;
use vstd::string::*;

verus! {

/// What the chat shows before it is about a transcript.
pub const NO_CONTEXT: &'static str = "Load or generate transcript output to use as chat context.";

/// What takes the place of settings that are empty.
pub struct StartDefaults {
    pub whisper_model: String,
    pub live_model: String,
    pub diarization_dir: String,
    /// The folder of the runtime that was found.
    pub runtime_dir: String,
    pub chat_configured_exists: bool,
    pub chat_store: Vec<StoreFolder>,
}

/// A text, or another where it is empty.
pub open spec fn or_else(text: Seq<char>, default: Seq<char>) -> Seq<char> {
    if stripped(text).len() == 0 {
        default
    } else {
        text
    }
}

/// Whether a text names a mode of transcription.
pub open spec fn is_mode(text: Seq<char>) -> bool {
    let mode = lowered(stripped(text));
    mode == "transcript"@ || mode == "speech"@ || mode == "subtitle"@
}

/// The settings with which the window opens.
pub open spec fn start_settings(
    platform: Platform,
    s: SettingsView,
    d: StartDefaults,
) -> SettingsView {
    SettingsView {
        whisper_model: or_else(s.whisper_model, d.whisper_model@),
        live_transcription_model: or_else(s.live_transcription_model, d.live_model@),
        diarization_models_dir: or_else(s.diarization_models_dir, d.diarization_dir@),
        chat_model: match stored_model(
            platform,
            stripped(stripped(s.chat_model)),
            d.chat_configured_exists,
            d.chat_store@,
        ) {
            Some(path) => path,
            None => s.chat_model,
        },
        mode: if is_mode(s.mode) {
            s.mode
        } else {
            "transcript"@
        },
        runtime_dir: d.runtime_dir@,
        ..s
    }
}

/// Whatever the settings say, the window opens with a mode of transcription.
pub proof fn lemma_mode_is_valid(platform: Platform, s: SettingsView, d: StartDefaults)
    ensures
        is_mode(start_settings(platform, s, d).mode),
{
    reveal_strlit("transcript");
    let t = "transcript"@;
    assert(!CharClass::White.has(t[0]) && !CharClass::White.has(t[t.len() - 1]));
    assert(stripped(t) == t);
    assert(lowered(t) =~= t);
}

/// A text, or another where it is empty.
fn filled(text: String, default: &String) -> (r: String)
    ensures
        r@ == or_else(text@, default@),
{
    if trim(text.as_str()).is_empty() {
        default.clone()
    } else {
        text
    }
}

/// Whether a text names a mode of transcription.
fn names_mode(text: &str) -> (r: bool)
    ensures
        r == is_mode(text@),
{
    let mode: String = to_ascii_lowercase(trim(text));
    same_text(mode.as_str(), "transcript") || same_text(mode.as_str(), "speech") || same_text(
        mode.as_str(),
        "subtitle",
    )
}

/// Makes the settings those with which the window opens; `true` where they name another folder for
/// the runtime, so that they have to be saved.
pub fn complete_settings(platform: Platform, settings: &mut AppSettings, d: &StartDefaults) -> (r:
    bool)
    ensures
        final(settings)@ == start_settings(platform, old(settings)@, *d),
        r == (lowered(stripped(old(settings)@.runtime_dir)) != lowered(stripped(d.runtime_dir@))),
{
    let moved: bool = !eq_ignore_ascii_case(
        trim(settings.runtime_dir.as_str()),
        trim(d.runtime_dir.as_str()),
    );
    settings.whisper_model = filled(settings.whisper_model.clone(), &d.whisper_model);
    settings.live_transcription_model = filled(
        settings.live_transcription_model.clone(),
        &d.live_model,
    );
    settings.diarization_models_dir = filled(
        settings.diarization_models_dir.clone(),
        &d.diarization_dir,
    );
    let stored: Option<String> = resolve_chat_model_path_from_store(
        platform,
        trim(settings.chat_model.as_str()),
        d.chat_configured_exists,
        &d.chat_store,
    );
    if let Some(path) = stored {
        settings.chat_model = path;
    }
    if !names_mode(settings.mode.as_str()) {
        settings.mode = "transcript".to_owned();
    }
    settings.runtime_dir = d.runtime_dir.clone();
    moved
}

/// What is said when the window opens.
pub open spec fn first_status(missing: Seq<Seq<char>>, models: ModelReport) -> Seq<char> {
    if missing.len() > 0 {
        "Runtime missing or incomplete. Install/Repair runtime."@
    } else if setup_issues(models).len() > 0 {
        "Setup incomplete. Download required Whisper/Sortformer models."@
    } else {
        "Ready."@
    }
}

/// The step at which the setup begins.
pub open spec fn first_step(
    missing: Seq<Seq<char>>,
    s: SettingsView,
    models: ModelReport,
) -> usize {
    if missing.len() > 0 {
        0
    } else if !whisper_ready(s, models) || !models.diarization_exists {
        1
    } else {
        2
    }
}

/// The window before anything was looked at.
pub open spec fn blank(
    platform: Platform,
    settings: SettingsView,
    missing: Seq<Seq<char>>,
    models: ModelReport,
    now_ms: u64,
) -> SessionView {
    SessionView {
        platform,
        settings,
        page: AppPage::Home,
        setup_wizard_step: first_step(missing, settings, models),
        status: first_status(missing, models),
        status_log: seq![first_status(missing, models)],
        active_modal: None,
        settings_dirty: false,
        next_save_ms: now_ms,
        whisper_models: model_index(whisper_files(), platform, settings.whisper_model),
        live_models: model_index(live_files(), platform, settings.live_transcription_model),
        chat_models: model_index(chat_files(), platform, settings.chat_model),
        is_transcribing: false,
        runtime: RuntimeView {
            missing,
            show_missing_window: missing.len() > 0 || setup_issues(models).len() > 0,
            install_in_progress: false,
            unblock_in_progress: false,
            post_install_prompt: false,
            popup_active: false,
            missing_on_popup_open: false,
            backends: Seq::empty(),
            selected_backend: 0,
            audio_devices: Seq::empty(),
            selected_audio_device: 0,
        },
        review: ReviewView {
            transcription_text: Seq::empty(),
            cues: Seq::empty(),
            edited_text: Seq::empty(),
            edited_cues: Seq::empty(),
            editing_enabled: false,
            edit_pause_until: None,
            output_path: None,
            active_audio_path: None,
            preprocess_note: Seq::empty(),
            selected_output_row: None,
            rename_entries: Seq::empty(),
            show_rename_window: false,
        },
        chat: ChatView {
            is_chatting: false,
            source_path: None,
            history_text: Seq::empty(),
            context_text: NO_CONTEXT@,
            input_text: Seq::empty(),
        },
        anonymise: AnonymiseView {
            running: false,
            selected_kinds: entity_order(),
            last_response: Seq::empty(),
        },
        live: LiveView {
            capturing: false,
            session_id: None,
            text: Seq::empty(),
            recording_path: None,
            transcript_path: None,
            input_label: Seq::empty(),
        },
        playback: PlaybackView {
            decode_in_progress: false,
            decode_autoplay: false,
            pending_start: None,
            follow_pause_until: None,
            click_sync_target: None,
        },
    }
}

impl SessionView {
    /// Whether the settings name another backend than the one that is chosen.
    pub open spec fn backend_differs(self) -> bool {
        let i = self.runtime.selected_backend as int;
        i < self.runtime.backends.len() && lowered(
            stripped(self.settings.runtime_download_backend),
        ) != lowered(self.runtime.backends[i])
    }

    /// The state once the settings name the backend that is chosen.
    pub open spec fn backend_named(self) -> SessionView {
        if self.backend_differs() {
            SessionView {
                settings: SettingsView {
                    runtime_download_backend: self.runtime.backends[
                        self.runtime.selected_backend as int
                    ],
                    ..self.settings
                },
                ..self
            }
        } else {
            self
        }
    }

    /// Whether a GPU is chosen for the user.
    pub open spec fn gpu_changes(self) -> bool {
        auto_selected(
            self.settings,
            self.runtime.audio_devices,
            self.runtime.selected_audio_device,
        ) != self.settings
    }
}

/// The window as it opens.
pub open spec fn opening(
    platform: Platform,
    settings: SettingsView,
    report: RuntimeReport,
    devices: Option<Vec<BridgeDevice>>,
    clock: Clock,
) -> SessionView {
    let missing = missing_of(platform, report.runtime_dir@, report.probe);
    let s0 = blank(platform, settings, missing, report.models, clock.now_ms);
    let s1 = s0.with_devices(devices);
    let s2 = s1.with_backends(report.available(), report.probe);
    let s3 = s2.backend_named();
    SessionView {
        settings_dirty: s1.backend_moves(report.available(), report.probe) || s2.backend_differs()
            || s3.gpu_changes(),
        ..s3.gpu_chosen(clock)
    }
}

/// Whatever is found, the window opens idle: nothing runs, nothing is open, and the setup begins at
/// the first step that is not complete.
pub proof fn lemma_opens_idle(
    platform: Platform,
    settings: SettingsView,
    report: RuntimeReport,
    devices: Option<Vec<BridgeDevice>>,
    clock: Clock,
)
    ensures
        ({
            let s = opening(platform, settings, report, devices, clock);
            &&& !s.is_transcribing && !s.chat.is_chatting && !s.anonymise.running
                && !s.live.capturing && !s.runtime.busy()
            &&& s.review.output_path is None
            &&& s.setup_wizard_step <= 2
            &&& forall|step: usize|
                #![trigger s.step_complete(step, report.models)]
                step < s.setup_wizard_step ==> s.step_complete(step, report.models)
            &&& s.setup_wizard_step < 2 ==> !s.step_complete(s.setup_wizard_step, report.models)
        }),
{
    reveal(synced_choice);
}

/// The window before anything was looked at.
fn blank_session(
    platform: Platform,
    settings: AppSettings,
    missing: Vec<String>,
    models: &ModelReport,
    now_ms: u64,
) -> (r: Session)
    ensures
        r@ == blank(platform, settings@, views(missing@), *models, now_ms),
{
    let issues: Vec<String> = super::runtime_panel::runtime_setup_issues(models);
    assert(views(issues@).len() == issues@.len());
    assert(views(missing@).len() == missing@.len());
    let status: &'static str = if missing.len() > 0 {
        "Runtime missing or incomplete. Install/Repair runtime."
    } else if issues.len() > 0 {
        "Setup incomplete. Download required Whisper/Sortformer models."
    } else {
        "Ready."
    };
    let incomplete: bool = missing.len() > 0 || issues.len() > 0;
    let has_missing: bool = missing.len() > 0;
    let whisper_models: usize = select_whisper_model_index(
        platform,
        settings.whisper_model.as_str(),
    );
    let live_models: usize = select_live_model_index(
        platform,
        settings.live_transcription_model.as_str(),
    );
    let chat_models: usize = select_chat_model_index(platform, settings.chat_model.as_str());
    let mut log: Vec<String> = Vec::new();
    log.push(status.to_owned());
    assert(views(log@) =~= seq![status@]);
    let runtime: RuntimePanel = RuntimePanel {
        missing,
        show_missing_window: incomplete,
        install_in_progress: false,
        unblock_in_progress: false,
        post_install_prompt: false,
        popup_active: false,
        missing_on_popup_open: false,
        backends: Vec::new(),
        selected_backend: 0,
        audio_devices: Vec::new(),
        selected_audio_device: 0,
    };
    assert(views(runtime.backends@) =~= Seq::<Seq<char>>::empty());
    assert(runtime@.audio_devices =~= Seq::<OptionView>::empty());
    let review: Review = blank_review();
    let mut s: Session = Session {
        platform,
        settings,
        page: AppPage::Home,
        setup_wizard_step: 0,
        status: status.to_owned(),
        status_log: log,
        active_modal: None,
        settings_dirty: false,
        next_save_ms: now_ms,
        whisper_models,
        live_models,
        chat_models,
        is_transcribing: false,
        runtime,
        review,
        chat: blank_chat(),
        anonymise: blank_anonymise(),
        live: blank_live(),
        playback: PlaybackPanel {
            decode_in_progress: false,
            decode_autoplay: false,
            pending_start: None,
            follow_pause_until: None,
            click_sync_target: None,
        },
    };
    let step: usize = if has_missing {
        0
    } else if !s.whisper_model_ready(models) || !models.diarization_exists {
        1
    } else {
        2
    };
    s.setup_wizard_step = step;
    s
}

/// No transcript.
fn blank_review() -> (r: Review)
    ensures
        r@ == (ReviewView {
            transcription_text: Seq::empty(),
            cues: Seq::empty(),
            edited_text: Seq::empty(),
            edited_cues: Seq::empty(),
            editing_enabled: false,
            edit_pause_until: None,
            output_path: None,
            active_audio_path: None,
            preprocess_note: Seq::empty(),
            selected_output_row: None,
            rename_entries: Seq::empty(),
            show_rename_window: false,
        }),
{
    let r: Review = Review {
        transcription_text: String::new(),
        cues: Vec::new(),
        edited_text: String::new(),
        edited_cues: Vec::new(),
        editing_enabled: false,
        edit_pause_until: None,
        output_path: None,
        active_audio_path: None,
        preprocess_note: String::new(),
        selected_output_row: None,
        rename_entries: Vec::new(),
        show_rename_window: false,
    };
    assert(r.transcription_text@ =~= Seq::<char>::empty());
    assert(r.edited_text@ =~= Seq::<char>::empty());
    assert(r.preprocess_note@ =~= Seq::<char>::empty());
    assert(rename_views(r.rename_entries@) =~= Seq::<(Seq<char>, Seq<char>)>::empty());
    r
}

/// A chat about nothing.
fn blank_chat() -> (r: ChatPanel)
    ensures
        r@ == (ChatView {
            is_chatting: false,
            source_path: None,
            history_text: Seq::empty(),
            context_text: NO_CONTEXT@,
            input_text: Seq::empty(),
        }),
{
    let r: ChatPanel = ChatPanel {
        is_chatting: false,
        source_path: None,
        history_text: String::new(),
        context_text: NO_CONTEXT.to_owned(),
        input_text: String::new(),
    };
    assert(r.history_text@ =~= Seq::<char>::empty());
    assert(r.input_text@ =~= Seq::<char>::empty());
    r
}

/// An anonymisation that looks for every kind.
fn blank_anonymise() -> (r: AnonymisePanel)
    ensures
        r@ == (AnonymiseView {
            running: false,
            selected_kinds: entity_order(),
            last_response: Seq::empty(),
        }),
{
    let r: AnonymisePanel = AnonymisePanel {
        running: false,
        selected_kinds: anonymise_entity_order(),
        last_response: String::new(),
    };
    assert(r.last_response@ =~= Seq::<char>::empty());
    r
}

/// No live session.
fn blank_live() -> (r: LivePanel)
    ensures
        r@ == (LiveView {
            capturing: false,
            session_id: None,
            text: Seq::empty(),
            recording_path: None,
            transcript_path: None,
            input_label: Seq::empty(),
        }),
{
    let r: LivePanel = LivePanel {
        capturing: false,
        session_id: None,
        text: String::new(),
        recording_path: None,
        transcript_path: None,
        input_label: String::new(),
    };
    assert(r.text@ =~= Seq::<char>::empty());
    assert(r.input_label@ =~= Seq::<char>::empty());
    r
}

impl Session {
    /// Makes the settings name the backend that is chosen; `true` where they named another.
    fn name_backend(&mut self) -> (r: bool)
        ensures
            r == old(self)@.backend_differs(),
            final(self)@ == old(self)@.backend_named(),
    {
        let i: usize = self.runtime.selected_backend;
        assert(views(self.runtime.backends@).len() == self.runtime.backends@.len());
        if i >= self.runtime.backends.len() {
            return false;
        }
        assert(views(self.runtime.backends@)[i as int] == self.runtime.backends@[i as int]@);
        if eq_ignore_ascii_case(
            trim(self.settings.runtime_download_backend.as_str()),
            self.runtime.backends[i].as_str(),
        ) {
            return false;
        }
        self.settings.runtime_download_backend = self.runtime.backends[i].clone();
        true
    }

    /// Whether a GPU is chosen for the user.
    fn gpu_would_change(&self) -> (r: bool)
        ensures
            r == self@.gpu_changes(),
    {
        let mut settings: AppSettings = self.settings.copy();
        crate::devices::auto_select_gpu(
            &mut settings,
            self.runtime.audio_devices.as_slice(),
            self.runtime.selected_audio_device,
        )
    }

    /// Opens the window, given the settings and what is found of the runtime.
    pub fn new(
        platform: Platform,
        settings: AppSettings,
        report: &RuntimeReport,
        devices: Option<Vec<BridgeDevice>>,
        clock: &Clock,
    ) -> (r: Session)
        ensures
            r@ == opening(platform, settings@, *report, devices, *clock),
    {
        let missing: Vec<String> = runtime_missing_messages(
            platform,
            report.runtime_dir.as_str(),
            &report.probe,
        );
        let mut s: Session = blank_session(
            platform,
            settings,
            missing,
            &report.models,
            clock.now_ms,
        );
        s.offer_devices(devices);
        let moved: bool = s.update_backends(&report.available_backends, &report.probe);
        let named: bool = s.name_backend();
        let gpu: bool = s.gpu_would_change();
        s.choose_gpu(clock);
        s.settings_dirty = moved || named || gpu;
        s
    }
}

/// What is completed in settings that were read: what is blank of the models and the folder takes the
/// default, what is set stays; a mode that is none becomes the one for transcripts with speakers; the
/// language model is the one that is set, where its file can be found; and nothing else changes but the
/// folder of the runtime.
pub proof fn lemma_start_settings(platform: Platform, s: SettingsView, d: StartDefaults)
    ensures
        ({
            let after = start_settings(platform, s, d);
            &&& stripped(s.whisper_model).len() > 0 ==> after.whisper_model == s.whisper_model
            &&& stripped(s.whisper_model).len() == 0 ==> after.whisper_model == d.whisper_model@
            &&& stripped(s.live_transcription_model).len() > 0 ==> after.live_transcription_model
                == s.live_transcription_model
            &&& stripped(s.live_transcription_model).len() == 0 ==> after.live_transcription_model
                == d.live_model@
            &&& stripped(s.diarization_models_dir).len() > 0 ==> after.diarization_models_dir
                == s.diarization_models_dir
            &&& stripped(s.diarization_models_dir).len() == 0 ==> after.diarization_models_dir
                == d.diarization_dir@
            &&& lowered(stripped(s.mode)) == "transcript"@ || lowered(stripped(s.mode)) == "speech"@
                || lowered(stripped(s.mode)) == "subtitle"@ ==> after.mode == s.mode
            &&& !(lowered(stripped(s.mode)) == "transcript"@ || lowered(stripped(s.mode))
                == "speech"@ || lowered(stripped(s.mode)) == "subtitle"@) ==> after.mode
                == "transcript"@
            &&& after.runtime_dir == d.runtime_dir@
            &&& match stored_model(
                platform,
                stripped(stripped(s.chat_model)),
                d.chat_configured_exists,
                d.chat_store@,
            ) {
                Some(path) => after.chat_model == path,
                None => after.chat_model == s.chat_model,
            }
            &&& after == (SettingsView {
                whisper_model: after.whisper_model,
                live_transcription_model: after.live_transcription_model,
                diarization_models_dir: after.diarization_models_dir,
                chat_model: after.chat_model,
                mode: after.mode,
                runtime_dir: after.runtime_dir,
                ..s
            })
        }),
{
}

/// With what the window greets: with the first thing that is missing, the runtime before the models, and
/// it opens the step of the setup that it belongs to.
pub proof fn lemma_first_words(missing: Seq<Seq<char>>, s: SettingsView, models: ModelReport)
    ensures
        missing.len() > 0 ==> first_step(missing, s, models) == 0 && first_status(missing, models)
            == "Runtime missing or incomplete. Install/Repair runtime."@,
        missing.len() == 0 && setup_issues(models).len() > 0 ==> first_status(missing, models)
            == "Setup incomplete. Download required Whisper/Sortformer models."@,
        missing.len() == 0 && setup_issues(models).len() == 0 ==> first_status(missing, models)
            == "Ready."@,
        missing.len() == 0 && (!whisper_ready(s, models) || !models.diarization_exists)
            ==> first_step(missing, s, models) == 1,
        missing.len() == 0 && whisper_ready(s, models) && models.diarization_exists ==> first_step(
            missing,
            s,
            models,
        ) == 2,
{
}

/// How the window opens: on its first page, with the models that the settings name, with every kind of
/// entity selected, and with what is missing of the runtime.
pub proof fn lemma_opening(
    platform: Platform,
    settings: SettingsView,
    report: RuntimeReport,
    devices: Option<Vec<BridgeDevice>>,
    clock: Clock,
)
    ensures
        ({
            let s = opening(platform, settings, report, devices, clock);
            let missing = missing_of(platform, report.runtime_dir@, report.probe);
            &&& s.platform == platform
            &&& s.page == AppPage::Home
            &&& s.runtime.missing == missing
            &&& s.runtime.show_missing_window <==> missing.len() > 0 || setup_issues(
                report.models,
            ).len() > 0
            &&& s.setup_wizard_step == first_step(missing, settings, report.models)
            &&& s.status == first_status(missing, report.models)
            &&& s.whisper_models == model_index(whisper_files(), platform, settings.whisper_model)
            &&& s.live_models == model_index(
                live_files(),
                platform,
                settings.live_transcription_model,
            )
            &&& s.chat_models == model_index(chat_files(), platform, settings.chat_model)
            &&& s.anonymise.selected_kinds == entity_order()
            &&& s.active_modal is None
            &&& s.settings.whisper_model == settings.whisper_model
            &&& s.settings.chat_model == settings.chat_model
            &&& s.settings.mode == settings.mode
        }),
{
    reveal(crate::runtime::synced_choice);
}

} // verus!
