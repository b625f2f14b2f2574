//! Installing, checking and choosing the runtime, its models and its device.
use super::{Clock, RuntimeView, Session, SessionView};
use crate::board::{text_view, BoardView, JobBoard};
use crate::devices::{apply_audio_device, with_device};
use crate::models::{
    chat_files, live_files, resolve_chat_model_path_from_store, select_chat_model_index,
    select_live_model_index, select_whisper_model_index, selected_model, stored_model,
    whisper_files, StoreFolder, SORTFORMER_MODEL_FILE,
};
use crate::pages::AppPage;
use crate::paths::Platform;
use crate::runtime::{
    backend_pos, detect_installed_windows_runtime_backend, detected_backend, missing_of,
    offered_backends, only_if, resolve_runtime_backend_index, runtime_backend_options,
    runtime_missing_messages, sync_runtime_backend_from_installed_runtime, synced_choice,
    BackendChoice, RuntimeProbe,
};
use crate::settings::SettingsView;
use crate::text::{cat2, cat3, join, joined, lowered, same_text, stripped, trim, views};
use vstd::prelude::*;
use vstd::string::*;

verus! {

/// Where a model is kept, and whether it is there.
pub struct ModelPlace {
    pub path: String,
    pub installed: bool,
}

/// The path of the first model that is there.
pub open spec fn first_place(places: Seq<ModelPlace>) -> Option<Seq<char>>
    decreases places.len(),
{
    if places.len() == 0 {
        None
    } else if places[0].installed {
        Some(places[0].path@)
    } else {
        first_place(places.drop_first())
    }
}

/// The path of the first model that is there.
pub fn first_installed_place(places: &Vec<ModelPlace>) -> (r: Option<String>)
    ensures
        text_view(r) == first_place(places@),
{
    let mut i: usize = 0;
    assert(places@.skip(0) =~= places@);
    while i < places.len()
        invariant
            i <= places@.len(),
            first_place(places@) == first_place(places@.skip(i as int)),
        decreases places@.len() - i,
    {
        assert(places@.skip(i as int)[0] == places@[i as int]);
        assert(places@.skip(i as int).drop_first() =~= places@.skip(i + 1));
        if places[i].installed {
            return Some(places[i].path.clone());
        }
        i += 1;
    }
    None
}

/// What is found of the models.
pub struct ModelReport {
    pub whisper_configured_exists: bool,
    pub live_configured_exists: bool,
    pub chat_configured_exists: bool,
    pub whisper: Vec<ModelPlace>,
    pub live: Vec<ModelPlace>,
    pub chat: Vec<ModelPlace>,
    pub chat_store: Vec<StoreFolder>,
    pub diarization_exists: bool,
    pub default_diarization_dir: String,
    pub default_diarization_exists: bool,
}

/// What is found of the runtime.
pub struct RuntimeReport {
    pub runtime_dir: String,
    pub probe: RuntimeProbe,
    pub available_backends: Option<Vec<String>>,
    pub models: ModelReport,
}

impl RuntimeReport {
    /// The backends that are available, where this is known.
    pub open spec fn available(self) -> Option<Seq<Seq<char>>> {
        match self.available_backends {
            Some(list) => Some(views(list@)),
            None => None,
        }
    }
}

/// What keeps files from being transcribed.
pub open spec fn setup_issues(models: ModelReport) -> Seq<Seq<char>> {
    only_if(
        first_place(models.whisper@) is None,
        "No Whisper model installed. Download at least one Whisper model."@,
    ) + only_if(
        !models.diarization_exists,
        "Sortformer diarization model is missing. Required file: "@ + SORTFORMER_MODEL_FILE@
            + "."@,
    )
}

/// What keeps files from being transcribed.
pub fn runtime_setup_issues(models: &ModelReport) -> (r: Vec<String>)
    ensures
        views(r@) == setup_issues(*models),
{
    let mut issues: Vec<String> = Vec::new();
    if first_installed_place(&models.whisper).is_none() {
        issues.push(
            "No Whisper model installed. Download at least one Whisper model.".to_owned(),
        );
    }
    if !models.diarization_exists {
        issues.push(
            cat3(
                "Sortformer diarization model is missing. Required file: ",
                SORTFORMER_MODEL_FILE,
                ".",
            ),
        );
    }
    assert(views(issues@) =~= setup_issues(*models));
    issues
}

/// Which of the models a path selects.
pub open spec fn model_index(files: Seq<Seq<char>>, platform: Platform, path: Seq<char>) -> usize {
    selected_model(files, platform, path) as usize
}

/// The backends that are offered, the one that the settings name, and the settings.
pub open spec fn backends_before(
    s: SessionView,
    available: Option<Seq<Seq<char>>>,
) -> BackendChoice {
    let backends = offered_backends(s.platform, available);
    BackendChoice {
        backends,
        index: backend_pos(backends, s.settings.runtime_download_backend),
        settings: s.settings,
    }
}

/// What is said when an installation of the runtime begins.
pub open spec fn install_status(backend: Option<Seq<char>>) -> Seq<char> {
    match backend {
        Some(b) => "Starting runtime install/repair (backend: "@ + b + ")..."@,
        None => "Starting runtime install/repair..."@,
    }
}

/// What is said when an installation of the runtime begins.
fn install_text(backend: &Option<String>) -> (r: String)
    ensures
        r@ == install_status(text_view(*backend)),
{
    match backend {
        Some(b) => cat3("Starting runtime install/repair (backend: ", b.as_str(), ")..."),
        None => "Starting runtime install/repair...".to_owned(),
    }
}

impl SessionView {
    /// The backend that an installation asks for.
    pub open spec fn wanted_backend(self) -> Option<Seq<char>> {
        let i = self.runtime.selected_backend as int;
        if i < self.runtime.backends.len() && stripped(self.runtime.backends[i]).len() > 0 {
            Some(self.runtime.backends[i])
        } else {
            None
        }
    }

    /// The state once it is noted that the runtime is being installed.
    pub open spec fn marked_installing(self, runtime_dir: Seq<char>) -> SessionView {
        SessionView {
            settings: SettingsView { runtime_dir, ..self.settings },
            runtime: RuntimeView {
                post_install_prompt: false,
                install_in_progress: true,
                show_missing_window: true,
                ..self.runtime
            },
            ..self
        }
    }

    /// The state after an installation of the runtime was begun.
    pub open spec fn installing(self, clock: Clock, runtime_dir: Seq<char>) -> SessionView {
        self.marked_installing(runtime_dir).said(
            clock,
            install_status(self.wanted_backend()),
        ).saving(clock)
    }

    /// The state after unblocking the runtime was begun.
    pub open spec fn unblocking(self, clock: Clock, runtime_dir: Seq<char>) -> SessionView {
        (SessionView {
            settings: SettingsView { runtime_dir, ..self.settings },
            runtime: RuntimeView {
                unblock_in_progress: true,
                show_missing_window: true,
                ..self.runtime
            },
            ..self
        }).said(clock, "Running unsigned runtime unblock script..."@).saving(clock)
    }

    /// The state once the backends that are available are offered and the one is chosen that the
    /// settings name, or that an installed runtime is for.
    pub open spec fn with_backends(
        self,
        available: Option<Seq<Seq<char>>>,
        probe: RuntimeProbe,
    ) -> SessionView {
        let c = synced_choice(
            self.platform,
            backends_before(self, available),
            detected_backend(probe),
        );
        SessionView {
            settings: c.settings,
            runtime: RuntimeView {
                backends: c.backends,
                selected_backend: c.index as usize,
                ..self.runtime
            },
            ..self
        }
    }

    /// Whether the installed runtime is for another backend than the settings name.
    pub open spec fn backend_moves(
        self,
        available: Option<Seq<Seq<char>>>,
        probe: RuntimeProbe,
    ) -> bool {
        let before = backends_before(self, available);
        match detected_backend(probe) {
            Some(name) if self.platform is Windows && before.backends.len() > 0 => synced_choice(
                self.platform,
                before,
                detected_backend(probe),
            ).index != before.index || lowered(stripped(self.settings.runtime_download_backend))
                != lowered(name),
            _ => false,
        }
    }

    /// The state once the folder of the runtime was looked into.
    pub open spec fn looked_at(self, report: RuntimeReport) -> SessionView {
        let missing = missing_of(self.platform, report.runtime_dir@, report.probe);
        SessionView {
            settings: SettingsView { runtime_dir: report.runtime_dir@, ..self.settings },
            runtime: RuntimeView {
                missing,
                show_missing_window: missing.len() > 0 || setup_issues(report.models).len() > 0,
                ..self.runtime
            },
            ..self
        }
    }

    /// The state after the runtime was looked at.
    pub open spec fn refreshed(self, clock: Clock, report: RuntimeReport) -> SessionView {
        let s = self.looked_at(report);
        let t = s.with_backends(report.available(), report.probe);
        if s.backend_moves(report.available(), report.probe) {
            t.saving(clock)
        } else {
            t
        }
    }

    /// The state after it was asked whether the runtime is ready for an action, and whether it is.
    pub open spec fn runtime_asked(
        self,
        clock: Clock,
        action: Seq<char>,
        report: RuntimeReport,
    ) -> (SessionView, bool) {
        if self.runtime.busy() {
            let s = self.said(clock, action + " blocked: runtime maintenance is in progress."@);
            (
                SessionView {
                    runtime: RuntimeView { show_missing_window: true, ..s.runtime },
                    ..s
                },
                false,
            )
        } else {
            let s = self.refreshed(clock, report);
            if s.runtime.missing.len() == 0 {
                (s, true)
            } else {
                (s.said(clock, action + " blocked: runtime missing or incomplete."@), false)
            }
        }
    }

    /// The state once a transcription model is set.
    pub open spec fn whisper_set(self, path: Seq<char>) -> SessionView {
        SessionView {
            settings: SettingsView { whisper_model: path, ..self.settings },
            whisper_models: model_index(whisper_files(), self.platform, path),
            ..self
        }
    }

    /// The state once a model for live transcription is set.
    pub open spec fn live_set(self, path: Seq<char>) -> SessionView {
        SessionView {
            settings: SettingsView { live_transcription_model: path, ..self.settings },
            live_models: model_index(live_files(), self.platform, path),
            ..self
        }
    }

    /// The state once a language model is set.
    pub open spec fn chat_set(self, path: Seq<char>) -> SessionView {
        SessionView {
            settings: SettingsView { chat_model: path, ..self.settings },
            chat_models: model_index(chat_files(), self.platform, path),
            ..self
        }
    }

    /// The state after a transcription model was looked for, and whether there is one.
    pub open spec fn whisper_for_run(
        self,
        clock: Clock,
        models: ModelReport,
    ) -> (SessionView, bool) {
        if stripped(self.settings.whisper_model).len() > 0 && models.whisper_configured_exists {
            (self, true)
        } else {
            match first_place(models.whisper@) {
                Some(path) => (self.whisper_set(path).saving(clock), true),
                None => (self, false),
            }
        }
    }

    /// The state after a model for live transcription was looked for, and whether there is one.
    pub open spec fn live_for_run(self, clock: Clock, models: ModelReport) -> (SessionView, bool) {
        if stripped(self.settings.live_transcription_model).len() > 0
            && models.live_configured_exists {
            (self, true)
        } else {
            match first_place(models.live@) {
                Some(path) => (self.live_set(path).saving(clock), true),
                None => (self, false),
            }
        }
    }

    /// The state after a language model was looked for, and whether there is one.
    pub open spec fn chat_for_run(self, clock: Clock, models: ModelReport) -> (SessionView, bool) {
        match stored_model(
            self.platform,
            stripped(stripped(self.settings.chat_model)),
            models.chat_configured_exists,
            models.chat_store@,
        ) {
            Some(path) => if self.settings.chat_model == path {
                (self, true)
            } else {
                (self.chat_set(path).saving(clock), true)
            },
            None => match first_place(models.chat@) {
                Some(path) => (self.chat_set(path).saving(clock), true),
                None => (self, false),
            },
        }
    }

    /// The state after it was asked whether files can be transcribed, and whether they can.
    pub open spec fn transcription_asked(self, clock: Clock, models: ModelReport) -> (
        SessionView,
        bool,
    ) {
        let s = self.whisper_for_run(clock, models).0;
        let issues = setup_issues(models);
        if issues.len() == 0 {
            (s, true)
        } else {
            (
                (SessionView {
                    runtime: RuntimeView { show_missing_window: true, ..s.runtime },
                    ..s
                }).said(clock, "Transcription blocked: "@ + joined(issues, " | "@)),
                false,
            )
        }
    }

    /// What keeps a live session from being begun.
    pub open spec fn live_issues(self, clock: Clock, models: ModelReport) -> Seq<Seq<char>> {
        only_if(
            !self.live_for_run(clock, models).1,
            "No realtime Voxtral model installed. Download one in Settings -> Optional models."@,
        ) + only_if(
            self.settings.live_diarization_enabled && !models.diarization_exists,
            "Live diarization requires the Sortformer model: "@ + SORTFORMER_MODEL_FILE@ + "."@,
        )
    }

    /// The state after it was asked whether a live session can be begun, and whether it can.
    pub open spec fn live_asked(self, clock: Clock, models: ModelReport) -> (SessionView, bool) {
        let s = self.live_for_run(clock, models).0;
        let issues = self.live_issues(clock, models);
        if issues.len() == 0 {
            (s, true)
        } else {
            (
                (SessionView { page: AppPage::Settings, ..s }).said(
                    clock,
                    "Live transcription blocked: "@ + joined(issues, " | "@),
                ),
                false,
            )
        }
    }

    /// The state after the paths of the required models were checked.
    pub open spec fn models_rechecked(self, clock: Clock, models: ModelReport) -> SessionView {
        let lost = stripped(self.settings.whisper_model).len() == 0
            || !models.whisper_configured_exists;
        let found = first_place(models.whisper@);
        let s1 = if lost && found is Some {
            self.whisper_set(found.unwrap())
        } else {
            self
        };
        let moved = !models.diarization_exists && models.default_diarization_exists;
        let s2 = if moved {
            SessionView {
                settings: SettingsView {
                    diarization_models_dir: models.default_diarization_dir@,
                    ..s1.settings
                },
                ..s1
            }
        } else {
            s1
        };
        if (lost && found is Some) || moved {
            s2.saving(clock).said(clock, "Setup model paths rechecked and updated."@)
        } else {
            s2.said(clock, "Setup model paths rechecked."@)
        }
    }

    /// The state after a device was chosen.
    pub open spec fn device_chosen(self, clock: Clock, index: usize) -> SessionView {
        let s = SessionView {
            runtime: RuntimeView { selected_audio_device: index, ..self.runtime },
            ..self
        };
        if index == self.runtime.selected_audio_device || index
            >= self.runtime.audio_devices.len() {
            s
        } else {
            (SessionView {
                settings: with_device(self.settings, self.runtime.audio_devices[index as int]),
                ..s
            }).saving(clock)
        }
    }

    /// The state after a backend was chosen.
    pub open spec fn backend_chosen(self, clock: Clock, index: usize) -> SessionView {
        let s = SessionView {
            runtime: RuntimeView { selected_backend: index, ..self.runtime },
            ..self
        };
        if index == self.runtime.selected_backend || index >= self.runtime.backends.len() {
            s
        } else {
            (SessionView {
                settings: SettingsView {
                    runtime_download_backend: self.runtime.backends[index as int],
                    ..self.settings
                },
                ..s
            }).saving(clock)
        }
    }
}

/// While the runtime is installed or unblocked, no action that needs it goes ahead, and asking
/// changes nothing but what is shown: not the settings, the board's files or what is known of the
/// runtime.
pub proof fn lemma_busy_blocks(
    s: SessionView,
    clock: Clock,
    action: Seq<char>,
    report: RuntimeReport,
)
    requires
        s.runtime.busy(),
    ensures
        !s.runtime_asked(clock, action, report).1,
        s.runtime_asked(clock, action, report).0.settings == s.settings,
        s.runtime_asked(clock, action, report).0.runtime.missing == s.runtime.missing,
        s.runtime_asked(clock, action, report).0.review == s.review,
        s.runtime_asked(clock, action, report).0.status == action
            + " blocked: runtime maintenance is in progress."@,
{
}

/// An action goes ahead exactly where the runtime is neither being worked on nor lacks anything.
pub proof fn lemma_ready_iff_complete(
    s: SessionView,
    clock: Clock,
    action: Seq<char>,
    report: RuntimeReport,
)
    ensures
        s.runtime_asked(clock, action, report).1 == (!s.runtime.busy() && missing_of(
            s.platform,
            report.runtime_dir@,
            report.probe,
        ).len() == 0),
{
}

impl Session {
    /// The backend that an installation asks for.
    pub fn preferred_backend(&self) -> (r: Option<String>)
        ensures
            text_view(r) == self@.wanted_backend(),
    {
        let i: usize = self.runtime.selected_backend;
        if i < self.runtime.backends.len() && !trim(self.runtime.backends[i].as_str()).is_empty() {
            assert(views(self.runtime.backends@)[i as int] == self.runtime.backends@[i as int]@);
            Some(self.runtime.backends[i].clone())
        } else {
            assert(i < self.runtime.backends@.len() ==> views(self.runtime.backends@)[i as int]
                == self.runtime.backends@[i as int]@);
            None
        }
    }

    /// Begins an installation of the runtime, unless one runs; gives the backend that it asks for.
    pub fn start_runtime_install(&mut self, board: &mut JobBoard, clock: &Clock, runtime_dir: &str)
        -> (r: Option<Option<String>>)
        ensures
            match r {
                None => old(self)@.runtime.busy() && final(self)@ == old(self)@ && final(board)@
                    == old(board)@,
                Some(backend) => !old(self)@.runtime.busy() && final(self)@
                    == old(self)@.installing(*clock, runtime_dir@) && text_view(backend)
                    == old(self)@.wanted_backend() && final(board)@ == (BoardView {
                    download_status: Some("Downloading runtime: preparing..."@),
                    ..old(board)@
                }),
            },
    {
        if self.runtime_busy() {
            return None;
        }
        let backend: Option<String> = self.preferred_backend();
        let text: String = install_text(&backend);
        self.mark_installing(runtime_dir);
        self.push_status(clock, text.as_str());
        self.queue_save(clock);
        board.download_status = Some("Downloading runtime: preparing...".to_owned());
        Some(backend)
    }

    /// Notes that the runtime is being installed.
    fn mark_installing(&mut self, runtime_dir: &str)
        ensures
            final(self)@ == old(self)@.marked_installing(runtime_dir@),
    {
        self.settings.runtime_dir = runtime_dir.to_owned();
        self.runtime.post_install_prompt = false;
        self.runtime.install_in_progress = true;
        self.runtime.show_missing_window = true;
    }

    /// Begins to unblock the runtime, unless it is being worked on.
    pub fn start_runtime_unblock(&mut self, clock: &Clock, runtime_dir: &str) -> (r: bool)
        ensures
            r == !old(self)@.runtime.busy(),
            final(self)@ == if r {
                old(self)@.unblocking(*clock, runtime_dir@)
            } else {
                old(self)@
            },
    {
        if self.runtime.install_in_progress || self.runtime.unblock_in_progress {
            return false;
        }
        self.settings.runtime_dir = runtime_dir.to_owned();
        self.runtime.unblock_in_progress = true;
        self.runtime.show_missing_window = true;
        self.push_status(clock, "Running unsigned runtime unblock script...");
        self.queue_save(clock);
        true
    }

    /// Whether the runtime is being installed or unblocked.
    pub fn runtime_busy(&self) -> (r: bool)
        ensures
            r == self@.runtime.busy(),
    {
        self.runtime.install_in_progress || self.runtime.unblock_in_progress
    }

    /// Looks at the runtime again.
    pub fn refresh_runtime_state(&mut self, clock: &Clock, report: &RuntimeReport)
        ensures
            final(self)@ == old(self)@.refreshed(*clock, *report),
    {
        self.look_at_runtime(report);
        let moved: bool = self.update_backends(&report.available_backends, &report.probe);
        if moved {
            self.queue_save(clock);
        }
    }

    /// Looks into the folder of the runtime.
    fn look_at_runtime(&mut self, report: &RuntimeReport)
        ensures
            final(self)@ == old(self)@.looked_at(*report),
    {
        let issues: Vec<String> = runtime_setup_issues(&report.models);
        assert(views(issues@).len() == issues@.len());
        let missing: Vec<String> = runtime_missing_messages(
            self.platform,
            report.runtime_dir.as_str(),
            &report.probe,
        );
        assert(views(missing@).len() == missing@.len());
        self.runtime.show_missing_window = missing.len() > 0 || issues.len() > 0;
        self.runtime.missing = missing;
        self.settings.runtime_dir = report.runtime_dir.clone();
    }

    /// Offers the backends that are available and chooses the one that the settings name, or that
    /// an installed runtime is for; `true` where the installed one was not the one chosen.
    pub fn update_backends(&mut self, available: &Option<Vec<String>>, probe: &RuntimeProbe) -> (r:
        bool)
        ensures
            ({
                let list = match *available {
                    Some(list) => Some(views(list@)),
                    None => None,
                };
                &&& final(self)@ == old(self)@.with_backends(list, *probe)
                &&& r == old(self)@.backend_moves(list, *probe)
            }),
    {
        let mut backends: Vec<String> = runtime_backend_options(self.platform, available);
        let mut index: usize = resolve_runtime_backend_index(
            &backends,
            self.settings.runtime_download_backend.as_str(),
        );
        let detected: Option<String> = detect_installed_windows_runtime_backend(probe);
        let r: bool = sync_runtime_backend_from_installed_runtime(
            self.platform,
            detected,
            &mut self.settings,
            &mut backends,
            &mut index,
        );
        self.runtime.backends = backends;
        self.runtime.selected_backend = index;
        r
    }

    /// Looks at the runtime again because the user asked for it; `true` where the window may close.
    pub fn recheck_runtime(
        &mut self,
        clock: &Clock,
        report: &RuntimeReport,
        auto_close: bool,
    ) -> (r: bool)
        ensures
            ({
                let s = old(self)@.refreshed(*clock, *report);
                let ready = s.runtime.missing.len() == 0;
                &&& final(self)@ == if ready {
                    s.said(*clock, "Runtime detected."@)
                } else {
                    s
                }
                &&& r == (ready && auto_close && !s.runtime.post_install_prompt)
            }),
    {
        self.refresh_runtime_state(clock, report);
        assert(views(self.runtime.missing@).len() == self.runtime.missing@.len());
        if self.runtime.missing.len() > 0 {
            return false;
        }
        self.push_status(clock, "Runtime detected.");
        auto_close && !self.runtime.post_install_prompt
    }

    /// Follows whether the window that tells of the missing runtime is open.
    pub fn sync_runtime_missing_popup_session(&mut self)
        ensures
            final(self)@ == (SessionView {
                runtime: if !old(self)@.runtime.show_missing_window {
                    RuntimeView {
                        popup_active: false,
                        missing_on_popup_open: false,
                        ..old(self)@.runtime
                    }
                } else if old(self)@.runtime.popup_active {
                    old(self)@.runtime
                } else {
                    RuntimeView {
                        popup_active: true,
                        missing_on_popup_open: old(self)@.runtime.missing.len() > 0,
                        ..old(self)@.runtime
                    }
                },
                ..old(self)@
            }),
    {
        assert(views(self.runtime.missing@).len() == self.runtime.missing@.len());
        if self.runtime.show_missing_window {
            if !self.runtime.popup_active {
                self.runtime.popup_active = true;
                self.runtime.missing_on_popup_open = self.runtime.missing.len() > 0;
            }
        } else {
            self.runtime.popup_active = false;
            self.runtime.missing_on_popup_open = false;
        }
    }

    /// Whether the runtime is ready for an action; says so where it is not.
    pub fn ensure_runtime_ready(
        &mut self,
        clock: &Clock,
        action: &str,
        report: &RuntimeReport,
    ) -> (r: bool)
        ensures
            (final(self)@, r) == old(self)@.runtime_asked(*clock, action@, *report),
    {
        if self.runtime.install_in_progress || self.runtime.unblock_in_progress {
            let text: String = cat2(action, " blocked: runtime maintenance is in progress.");
            self.push_status(clock, text.as_str());
            self.runtime.show_missing_window = true;
            return false;
        }
        self.refresh_runtime_state(clock, report);
        assert(views(self.runtime.missing@).len() == self.runtime.missing@.len());
        if self.runtime.missing.len() == 0 {
            return true;
        }
        let text: String = cat2(action, " blocked: runtime missing or incomplete.");
        self.push_status(clock, text.as_str());
        false
    }

    /// Sets the transcription model.
    pub fn set_whisper_model(&mut self, path: String)
        ensures
            final(self)@ == old(self)@.whisper_set(path@),
    {
        self.whisper_models = select_whisper_model_index(self.platform, path.as_str());
        self.settings.whisper_model = path;
    }

    /// Sets the model for live transcription.
    pub fn set_live_model(&mut self, path: String)
        ensures
            final(self)@ == old(self)@.live_set(path@),
    {
        self.live_models = select_live_model_index(self.platform, path.as_str());
        self.settings.live_transcription_model = path;
    }

    /// Sets the language model.
    pub fn set_chat_model(&mut self, path: String)
        ensures
            final(self)@ == old(self)@.chat_set(path@),
    {
        self.chat_models = select_chat_model_index(self.platform, path.as_str());
        self.settings.chat_model = path;
    }

    /// Sets the transcription model that the user picked.
    pub fn pick_whisper_model(&mut self, clock: &Clock, path: String)
        ensures
            final(self)@ == old(self)@.whisper_set(path@).saving(*clock),
    {
        self.set_whisper_model(path);
        self.queue_save(clock);
    }

    /// Sets the language model that the user picked.
    pub fn pick_chat_model(&mut self, clock: &Clock, path: String)
        ensures
            final(self)@ == old(self)@.chat_set(path@).saving(*clock),
    {
        self.set_chat_model(path);
        self.queue_save(clock);
    }

    /// Sees to it that a transcription model is set that is there; `false` where there is none.
    pub fn ensure_whisper_model_path_for_run(&mut self, clock: &Clock, models: &ModelReport) -> (r:
        bool)
        ensures
            (final(self)@, r) == old(self)@.whisper_for_run(*clock, *models),
    {
        if !trim(self.settings.whisper_model.as_str()).is_empty()
            && models.whisper_configured_exists {
            return true;
        }
        match first_installed_place(&models.whisper) {
            Some(path) => {
                self.set_whisper_model(path);
                self.queue_save(clock);
                true
            },
            None => false,
        }
    }

    /// Sees to it that a model for live transcription is set that is there; `false` where there is
    /// none.
    pub fn ensure_live_model_path_for_run(&mut self, clock: &Clock, models: &ModelReport) -> (r:
        bool)
        ensures
            (final(self)@, r) == old(self)@.live_for_run(*clock, *models),
    {
        if !trim(self.settings.live_transcription_model.as_str()).is_empty()
            && models.live_configured_exists {
            return true;
        }
        match first_installed_place(&models.live) {
            Some(path) => {
                self.set_live_model(path);
                self.queue_save(clock);
                true
            },
            None => false,
        }
    }

    /// Sees to it that a language model is set that is there; `false` where there is none.
    pub fn ensure_chat_model_path_for_run(&mut self, clock: &Clock, models: &ModelReport) -> (r:
        bool)
        ensures
            (final(self)@, r) == old(self)@.chat_for_run(*clock, *models),
    {
        let found: Option<String> = resolve_chat_model_path_from_store(
            self.platform,
            trim(self.settings.chat_model.as_str()),
            models.chat_configured_exists,
            &models.chat_store,
        );
        if let Some(path) = found {
            if !same_text(self.settings.chat_model.as_str(), path.as_str()) {
                self.set_chat_model(path);
                self.queue_save(clock);
            }
            return true;
        }
        match first_installed_place(&models.chat) {
            Some(path) => {
                self.set_chat_model(path);
                self.queue_save(clock);
                true
            },
            None => false,
        }
    }

    /// Whether files can be transcribed; says why where they cannot.
    pub fn ensure_transcription_setup_ready(&mut self, clock: &Clock, models: &ModelReport) -> (r:
        bool)
        ensures
            (final(self)@, r) == old(self)@.transcription_asked(*clock, *models),
    {
        let _ = self.ensure_whisper_model_path_for_run(clock, models);
        let issues: Vec<String> = runtime_setup_issues(models);
        assert(views(issues@).len() == issues@.len());
        if issues.len() == 0 {
            return true;
        }
        self.runtime.show_missing_window = true;
        let list: String = join(&issues, " | ");
        let text: String = cat2("Transcription blocked: ", list.as_str());
        self.push_status(clock, text.as_str());
        false
    }

    /// Whether a live session can be begun; says why where it cannot.
    pub fn ensure_live_setup_ready(&mut self, clock: &Clock, models: &ModelReport) -> (r: bool)
        ensures
            (final(self)@, r) == old(self)@.live_asked(*clock, *models),
    {
        let ghost start = self@;
        let mut issues: Vec<String> = Vec::new();
        if !self.ensure_live_model_path_for_run(clock, models) {
            issues.push(
                "No realtime Voxtral model installed. Download one in Settings -> Optional models.".to_owned(),
            );
        }
        if self.settings.live_diarization_enabled && !models.diarization_exists {
            issues.push(
                cat3(
                    "Live diarization requires the Sortformer model: ",
                    SORTFORMER_MODEL_FILE,
                    ".",
                ),
            );
        }
        assert(views(issues@) =~= start.live_issues(*clock, *models));
        if issues.len() == 0 {
            return true;
        }
        self.page = AppPage::Settings;
        let list: String = join(&issues, " | ");
        let text: String = cat2("Live transcription blocked: ", list.as_str());
        self.push_status(clock, text.as_str());
        false
    }

    /// Checks the paths of the required models and sets those that are there.
    pub fn recheck_setup_model_paths(&mut self, clock: &Clock, models: &ModelReport)
        ensures
            final(self)@ == old(self)@.models_rechecked(*clock, *models),
    {
        let mut changed: bool = false;
        if trim(self.settings.whisper_model.as_str()).is_empty()
            || !models.whisper_configured_exists {
            if let Some(path) = first_installed_place(&models.whisper) {
                self.set_whisper_model(path);
                changed = true;
            }
        }
        if !models.diarization_exists && models.default_diarization_exists {
            self.settings.diarization_models_dir = models.default_diarization_dir.clone();
            changed = true;
        }
        if changed {
            self.queue_save(clock);
            self.push_status(clock, "Setup model paths rechecked and updated.");
        } else {
            self.push_status(clock, "Setup model paths rechecked.");
        }
    }

    /// Chooses a device.
    pub fn choose_audio_device(&mut self, clock: &Clock, index: usize)
        ensures
            final(self)@ == old(self)@.device_chosen(*clock, index),
    {
        let before: usize = self.runtime.selected_audio_device;
        self.runtime.selected_audio_device = index;
        if index != before && apply_audio_device(
            &mut self.settings,
            self.runtime.audio_devices.as_slice(),
            index,
        ) {
            self.queue_save(clock);
        }
    }

    /// Chooses a backend.
    pub fn choose_backend(&mut self, clock: &Clock, index: usize)
        ensures
            final(self)@ == old(self)@.backend_chosen(*clock, index),
    {
        let before: usize = self.runtime.selected_backend;
        self.runtime.selected_backend = index;
        if index != before && index < self.runtime.backends.len() {
            assert(views(self.runtime.backends@)[index as int]
                == self.runtime.backends@[index as int]@);
            self.settings.runtime_download_backend = self.runtime.backends[index].clone();
            self.queue_save(clock);
        }
    }

    /// Puts the parameters of the engine back to their defaults.
    pub fn reset_runtime_defaults(&mut self, clock: &Clock)
        ensures
            ({
                let d = crate::settings::default_settings();
                final(self)@ == (SessionView {
                    settings: SettingsView {
                        n_ctx: d.n_ctx,
                        n_batch: d.n_batch,
                        n_ubatch: d.n_ubatch,
                        n_parallel: d.n_parallel,
                        n_threads: d.n_threads,
                        n_threads_batch: d.n_threads_batch,
                        ..old(self)@.settings
                    },
                    ..old(self)@
                }).saving(*clock)
            }),
    {
        let defaults: crate::settings::AppSettings = crate::settings::AppSettings::default();
        self.settings.n_ctx = defaults.n_ctx;
        self.settings.n_batch = defaults.n_batch;
        self.settings.n_ubatch = defaults.n_ubatch;
        self.settings.n_parallel = defaults.n_parallel;
        self.settings.n_threads = defaults.n_threads;
        self.settings.n_threads_batch = defaults.n_threads_batch;
        self.queue_save(clock);
    }
}

/// Which installed model is taken: the first place that has one; and there is none only where no place
/// has.
pub proof fn lemma_first_place(places: Seq<ModelPlace>, i: int)
    ensures
        0 <= i < places.len() && places[i].installed && (forall|k: int|
            0 <= k < i ==> !(#[trigger] places[k]).installed) ==> first_place(places) == Some(
            places[i].path@,
        ),
        first_place(places) is None <==> forall|k: int|
            0 <= k < places.len() ==> !(#[trigger] places[k]).installed,
    decreases places.len(),
{
    if places.len() > 0 && !places[0].installed {
        let rest = places.drop_first();
        lemma_first_place(rest, i - 1);
        assert forall|k: int| 0 <= k < rest.len() implies #[trigger] rest[k] == places[k + 1] by {}
        if (forall|k: int| 0 <= k < places.len() ==> !(#[trigger] places[k]).installed) {
            assert forall|k: int| 0 <= k < rest.len() implies !(#[trigger] rest[k]).installed by {
                assert(rest[k] == places[k + 1]);
            }
        }
        if (forall|k: int| 0 <= k < rest.len() ==> !(#[trigger] rest[k]).installed) {
            assert forall|k: int| 0 <= k < places.len() implies !(
            #[trigger] places[k]).installed by {
                if k > 0 {
                    assert(places[k] == rest[k - 1]);
                }
            }
        }
        if 0 <= i < places.len() && places[i].installed && (forall|k: int|
            0 <= k < i ==> !(#[trigger] places[k]).installed) {
            assert(rest[i - 1] == places[i]);
            assert forall|k: int| 0 <= k < i - 1 implies !(#[trigger] rest[k]).installed by {
                assert(rest[k] == places[k + 1]);
            }
        }
    }
}

/// What is still to be set up: a whisper model where none is installed, and the diarization model where
/// it is missing; nothing where both are there.
pub proof fn lemma_setup_issues(models: ModelReport)
    ensures
        setup_issues(models).len() == 0 <==> first_place(models.whisper@) is Some
            && models.diarization_exists,
        first_place(models.whisper@) is None && !models.diarization_exists ==> setup_issues(
            models,
        ).len() == 2,
        first_place(models.whisper@) is None ==> setup_issues(models)[0]
            == "No Whisper model installed. Download at least one Whisper model."@,
{
}

/// What the window knows after it looked at the runtime: where it is, what is missing of it, and whether
/// anything of the setup is; the window for that is open exactly where something is. Nothing else
/// changes but the backends.
pub proof fn lemma_looked_at(s: SessionView, report: RuntimeReport)
    ensures
        ({
            let after = s.looked_at(report);
            let missing = missing_of(s.platform, report.runtime_dir@, report.probe);
            &&& after.runtime.missing == missing
            &&& after.settings.runtime_dir == report.runtime_dir@
            &&& after.runtime.show_missing_window <==> missing.len() > 0 || setup_issues(
                report.models,
            ).len() > 0
            &&& after.settings == (SettingsView {
                runtime_dir: after.settings.runtime_dir,
                ..s.settings
            })
            &&& after.runtime == (RuntimeView {
                missing: after.runtime.missing,
                show_missing_window: after.runtime.show_missing_window,
                ..s.runtime
            })
            &&& after == (SessionView { settings: after.settings, runtime: after.runtime, ..s })
        }),
{
}

/// When something may use the runtime: it is not being worked on, and nothing of it is missing. A
/// refusal says what was refused.
pub proof fn lemma_runtime_asked(
    s: SessionView,
    clock: Clock,
    action: Seq<char>,
    report: RuntimeReport,
)
    ensures
        s.runtime_asked(clock, action, report).1 <==> !s.runtime.install_in_progress
            && !s.runtime.unblock_in_progress && missing_of(
            s.platform,
            report.runtime_dir@,
            report.probe,
        ).len() == 0,
        s.runtime.busy() ==> s.runtime_asked(clock, action, report).0.status == action
            + " blocked: runtime maintenance is in progress."@,
        !s.runtime.busy() && !s.runtime_asked(clock, action, report).1 ==> s.runtime_asked(
            clock,
            action,
            report,
        ).0.status == action + " blocked: runtime missing or incomplete."@,
        s.runtime_asked(clock, action, report).0.review == s.review,
        s.runtime_asked(clock, action, report).0.settings == (SettingsView {
            runtime_dir: s.runtime_asked(clock, action, report).0.settings.runtime_dir,
            runtime_download_backend: s.runtime_asked(
                clock,
                action,
                report,
            ).0.settings.runtime_download_backend,
            ..s.settings
        }),
{
    reveal(crate::runtime::synced_choice);
}

/// Setting a model sets the path of that model and of no other, and turns the list of that kind to it.
pub proof fn lemma_model_is_set(s: SessionView, path: Seq<char>)
    ensures
        s.whisper_set(path).settings == (SettingsView { whisper_model: path, ..s.settings }),
        s.live_set(path).settings == (SettingsView { live_transcription_model: path, ..s.settings }),
        s.chat_set(path).settings == (SettingsView { chat_model: path, ..s.settings }),
        s.whisper_set(path).live_models == s.live_models && s.whisper_set(path).chat_models
            == s.chat_models,
        s.live_set(path).whisper_models == s.whisper_models && s.live_set(path).chat_models
            == s.chat_models,
        s.chat_set(path).whisper_models == s.whisper_models && s.chat_set(path).live_models
            == s.live_models,
        s.whisper_set(path).whisper_models == model_index(whisper_files(), s.platform, path),
        s.live_set(path).live_models == model_index(live_files(), s.platform, path),
        s.chat_set(path).chat_models == model_index(chat_files(), s.platform, path),
        s.whisper_set(path).review == s.review && s.whisper_set(path).runtime == s.runtime,
{
}

/// Which model a run uses: the one that is set where it is there, which changes nothing; else the first
/// one that is installed, which is then set and saved; and where none is, the run cannot begin.
pub proof fn lemma_model_for_run(s: SessionView, clock: Clock, models: ModelReport)
    ensures
        stripped(s.settings.whisper_model).len() > 0 && models.whisper_configured_exists
            ==> s.whisper_for_run(clock, models) == (s, true),
        stripped(s.settings.whisper_model).len() == 0 || !models.whisper_configured_exists
            ==> match first_place(models.whisper@) {
            Some(path) => s.whisper_for_run(clock, models).1 && s.whisper_for_run(
                clock,
                models,
            ).0.settings.whisper_model == path && s.whisper_for_run(clock, models).0.settings_dirty,
            None => s.whisper_for_run(clock, models) == (s, false),
        },
        stripped(s.settings.live_transcription_model).len() > 0 && models.live_configured_exists
            ==> s.live_for_run(clock, models) == (s, true),
        stripped(s.settings.live_transcription_model).len() == 0 || !models.live_configured_exists
            ==> match first_place(models.live@) {
            Some(path) => s.live_for_run(clock, models).1 && s.live_for_run(
                clock,
                models,
            ).0.settings.live_transcription_model == path && s.live_for_run(
                clock,
                models,
            ).0.settings_dirty,
            None => s.live_for_run(clock, models) == (s, false),
        },
{
}

/// Which language model a run uses: the one that is set where it or its file in the store is there, else
/// the first one that is installed; and where none is, the run cannot begin.
pub proof fn lemma_chat_model_for_run(s: SessionView, clock: Clock, models: ModelReport)
    ensures
        ({
            let stored = stored_model(
                s.platform,
                stripped(stripped(s.settings.chat_model)),
                models.chat_configured_exists,
                models.chat_store@,
            );
            let (after, ready) = s.chat_for_run(clock, models);
            &&& stored matches Some(path) ==> ready && after.settings.chat_model == path
            &&& stored is None ==> match first_place(models.chat@) {
                Some(path) => ready && after.settings.chat_model == path && after.settings_dirty,
                None => !ready && after == s,
            }
            &&& after.settings.chat_model == s.settings.chat_model && ready && stored is Some
                ==> after == s
            &&& after.settings == (SettingsView {
                chat_model: after.settings.chat_model,
                ..s.settings
            })
        }),
{
}

/// When a transcription or a live session may begin, as far as the models go: a transcription where a
/// whisper model is installed and the diarization model is there; a live session where a live model is
/// set or installed and, if speakers are to be told apart, the diarization model is there. Where it may
/// not, the reasons are told, one bar apart.
pub proof fn lemma_models_asked(s: SessionView, clock: Clock, models: ModelReport)
    ensures
        s.transcription_asked(clock, models).1 <==> first_place(models.whisper@) is Some
            && models.diarization_exists,
        !s.transcription_asked(clock, models).1 ==> s.transcription_asked(clock, models).0.status
            == "Transcription blocked: "@ + joined(setup_issues(models), " | "@) && s.transcription_asked(
            clock,
            models,
        ).0.runtime.show_missing_window,
        s.live_asked(clock, models).1 <==> s.live_for_run(clock, models).1 && (
        s.settings.live_diarization_enabled ==> models.diarization_exists),
        !s.live_asked(clock, models).1 ==> s.live_asked(clock, models).0.page == AppPage::Settings
            && s.live_asked(clock, models).0.status == "Live transcription blocked: "@ + joined(
            s.live_issues(clock, models),
            " | "@,
        ),
{
    lemma_setup_issues(models);
}

/// What looking at the models once more changes: a whisper model that is not set or not there is
/// replaced by the first that is installed, and the folder of the diarization model by the usual one
/// where the model lies there and not where it is set; nothing else.
pub proof fn lemma_models_rechecked(s: SessionView, clock: Clock, models: ModelReport)
    ensures
        ({
            let after = s.models_rechecked(clock, models);
            let lost = stripped(s.settings.whisper_model).len() == 0
                || !models.whisper_configured_exists;
            let found = first_place(models.whisper@);
            let moved = !models.diarization_exists && models.default_diarization_exists;
            &&& lost ==> (found matches Some(path) ==> after.settings.whisper_model == path)
            &&& !lost || found is None ==> after.settings.whisper_model == s.settings.whisper_model
            &&& moved ==> after.settings.diarization_models_dir == models.default_diarization_dir@
            &&& !moved ==> after.settings.diarization_models_dir
                == s.settings.diarization_models_dir
            &&& after.settings == (SettingsView {
                whisper_model: after.settings.whisper_model,
                diarization_models_dir: after.settings.diarization_models_dir,
                ..s.settings
            })
            &&& (lost && found is Some) || moved ==> after.settings_dirty
            &&& !((lost && found is Some) || moved) ==> after.settings_dirty == s.settings_dirty
        }),
{
}

/// What choosing a device or a backend does: the list stands at it, and where it is another one than
/// before and is in the list, the settings turn to it and are saved.
pub proof fn lemma_choices(s: SessionView, clock: Clock, index: usize)
    ensures
        s.device_chosen(clock, index).runtime.selected_audio_device == index,
        index != s.runtime.selected_audio_device && index < s.runtime.audio_devices.len()
            ==> s.device_chosen(clock, index).settings == with_device(
            s.settings,
            s.runtime.audio_devices[index as int],
        ) && s.device_chosen(clock, index).settings_dirty,
        index == s.runtime.selected_audio_device || index >= s.runtime.audio_devices.len()
            ==> s.device_chosen(clock, index).settings == s.settings,
        s.backend_chosen(clock, index).runtime.selected_backend == index,
        index != s.runtime.selected_backend && index < s.runtime.backends.len()
            ==> s.backend_chosen(clock, index).settings == (SettingsView {
            runtime_download_backend: s.runtime.backends[index as int],
            ..s.settings
        }) && s.backend_chosen(clock, index).settings_dirty,
        index == s.runtime.selected_backend || index >= s.runtime.backends.len()
            ==> s.backend_chosen(clock, index).settings == s.settings,
{
}

/// What is installed: the backend that the list stands at, unless it is blank or the list is shorter; it
/// goes to the folder that is given, the work on the runtime is marked as begun, and the settings are
/// saved.
pub proof fn lemma_installing(s: SessionView, clock: Clock, runtime_dir: Seq<char>)
    ensures
        s.installing(clock, runtime_dir).runtime.install_in_progress,
        !s.installing(clock, runtime_dir).runtime.post_install_prompt,
        s.installing(clock, runtime_dir).runtime.unblock_in_progress
            == s.runtime.unblock_in_progress,
        s.installing(clock, runtime_dir).settings == (SettingsView { runtime_dir, ..s.settings }),
        s.installing(clock, runtime_dir).settings_dirty,
        s.unblocking(clock, runtime_dir).runtime.unblock_in_progress,
        s.unblocking(clock, runtime_dir).runtime.install_in_progress
            == s.runtime.install_in_progress,
        s.unblocking(clock, runtime_dir).settings == (SettingsView { runtime_dir, ..s.settings }),
        s.runtime.selected_backend < s.runtime.backends.len() && stripped(
            s.runtime.backends[s.runtime.selected_backend as int],
        ).len() > 0 ==> s.wanted_backend() == Some(
            s.runtime.backends[s.runtime.selected_backend as int],
        ),
        s.runtime.selected_backend >= s.runtime.backends.len() ==> s.wanted_backend() is None,
{
}

/// A refresh looks at the runtime anew and offers the backends that there are. Where it finds no
/// backend installed, or the platform has no choice of them, the one that was wanted stays and
/// nothing is saved.
pub proof fn lemma_refreshed(s: SessionView, clock: Clock, report: RuntimeReport)
    ensures
        ({
            let looked = s.looked_at(report);
            let offered = offered_backends(s.platform, report.available());
            let after = s.refreshed(clock, report);
            &&& after.runtime.missing == looked.runtime.missing
            &&& after.runtime.show_missing_window == looked.runtime.show_missing_window
            &&& after.settings == (SettingsView {
                runtime_download_backend: after.settings.runtime_download_backend,
                ..looked.settings
            })
            &&& detected_backend(report.probe) is None || !(s.platform is Windows) ==> {
                &&& after.settings == looked.settings
                &&& after.settings_dirty == s.settings_dirty
                &&& after.next_save_ms == s.next_save_ms
                &&& after.runtime.backends == offered
            }
            &&& after.settings != looked.settings ==> after.settings_dirty
            &&& after.status == s.status && after.review == s.review && after.chat == s.chat
            &&& after.page == s.page && after.live == s.live && after.playback == s.playback
        }),
{
    reveal(synced_choice);
}

} // verus!
