//! The setup wizard, the panels for models, and the beginning of jobs and live sessions.
use super::runtime_panel::{
    first_installed_place, first_place, lemma_models_asked, lemma_runtime_asked, ModelReport,
    RuntimeReport,
};
use super::{Clock, LiveView, RuntimeView, Session, SessionView};
use crate::board::{BoardView, JobBoard};
use crate::models::{is_managed_chat_model_path, lies_in, AppPaths};
use crate::pages::AppPage;
use crate::paths::{path_views, FilePath, PathView, Platform};
use crate::runtime::missing_of;
use crate::settings::SettingsView;
use crate::text::{
    cat2, cat3, cat4, decimal, decimal_text, eq_ignore_ascii_case, lowered, same_text, stripped, trim,
    views,
};
use vstd::prelude::*;
use vstd::string::*;

verus! {

/// Whether a transcription model is there.
pub open spec fn whisper_ready(s: SettingsView, models: ModelReport) -> bool {
    (stripped(s.whisper_model).len() > 0 && models.whisper_configured_exists) || first_place(
        models.whisper@,
    ) is Some
}

impl SessionView {
    /// Whether a step of the setup is complete.
    pub open spec fn step_complete(self, step: usize, models: ModelReport) -> bool {
        if step == 0 {
            self.runtime.missing.len() == 0 && !self.runtime.post_install_prompt
        } else if step == 1 {
            whisper_ready(self.settings, models) && models.diarization_exists
        } else {
            true
        }
    }

    /// Whether the required setup is complete.
    pub open spec fn setup_complete(self, models: ModelReport) -> bool {
        self.step_complete(0, models) && self.step_complete(1, models)
    }

    /// Whether the window of the setup has to stay open.
    pub open spec fn setup_pinned(self, models: ModelReport) -> bool {
        self.runtime.busy() || !self.setup_complete(models) || self.runtime.post_install_prompt
    }

    /// The state after a job was asked for, with the board after it, and whether it was queued.
    pub open spec fn job_queued(
        self,
        b: BoardView,
        clock: Clock,
        files: Seq<PathView>,
    ) -> (SessionView, BoardView, bool) {
        if files.len() == 0 {
            (
                self.warned("No files"@, "No selected media files."@).said(
                    clock,
                    "No selected media files."@,
                ),
                b,
                false,
            )
        } else {
            let after = b.enqueued(self.settings, files);
            (
                (SessionView { is_transcribing: true, ..self }).said(
                    clock,
                    "Queued job #"@ + decimal(after.next_job_id as nat) + "."@,
                ),
                after,
                true,
            )
        }
    }

    /// The state after a job was asked for, with the board after it, and whether it was queued.
    pub open spec fn job_asked(
        self,
        b: BoardView,
        clock: Clock,
        report: RuntimeReport,
        files: Seq<PathView>,
    ) -> (SessionView, BoardView, bool) {
        let (s1, ready) = self.runtime_asked(clock, "Transcription"@, report);
        if !ready {
            (s1, b, false)
        } else {
            let (s2, set_up) = s1.transcription_asked(clock, report.models);
            if !set_up {
                (s2, b, false)
            } else {
                s2.job_queued(b, clock, files)
            }
        }
    }

    /// The state after a live session was asked for, and whether it can go on.
    pub open spec fn live_session_asked(self, clock: Clock, report: RuntimeReport) -> (
        SessionView,
        bool,
    ) {
        if self.live.capturing {
            (self, false)
        } else {
            let (s, ready) = self.runtime_asked(clock, "Live transcription"@, report);
            if !ready {
                (s, false)
            } else {
                s.live_asked(clock, report.models)
            }
        }
    }

    /// The state once the microphone of a live session is set.
    pub open spec fn live_prepared(self, clock: Clock, device: Option<Seq<char>>) -> SessionView {
        (SessionView {
            settings: SettingsView {
                live_input_device: match device {
                    Some(name) => name,
                    None => Seq::empty(),
                },
                ..self.settings
            },
            live: LiveView { text: Seq::empty(), ..self.live },
            ..self
        }).saving(clock)
    }
}

/// A job that is refused leaves the board as it was; a job that is queued is the last of the board,
/// with the settings and files it was asked for with.
pub proof fn lemma_refused_job_leaves_board(
    s: SessionView,
    b: BoardView,
    clock: Clock,
    report: RuntimeReport,
    files: Seq<PathView>,
)
    ensures
        ({
            let (after, board, queued) = s.job_asked(b, clock, report, files);
            &&& !queued ==> board == b
            &&& queued ==> board.job_queue.len() == b.job_queue.len() + 1
            &&& queued ==> board.job_queue.last().files == files
            &&& queued ==> board.job_queue.last().settings == after.settings
            &&& queued ==> after.is_transcribing && files.len() > 0
        }),
{
}

/// What a step of the setup is called.
#[verifier::allow_in_spec]
pub fn setup_step_title(step: usize) -> &'static str
    returns
        (if step == 0 {
            "Runtime"
        } else if step == 1 {
            "Download models"
        } else if step == 2 {
            "Optional setup"
        } else {
            "Setup"
        }),
{
    if step == 0 {
        "Runtime"
    } else if step == 1 {
        "Download models"
    } else if step == 2 {
        "Optional setup"
    } else {
        "Setup"
    }
}

/// What is said of the transcription models.
#[verifier::allow_in_spec]
pub fn whisper_note(any_installed: bool, configured_exists: bool) -> &'static str
    returns
        (if !any_installed {
            "Not installed yet. Click Download to install this Whisper model."
        } else if configured_exists {
            "Installed in your app data models folder."
        } else {
            "Installed (at least one model). Choose an installed model or download selected."
        }),
{
    if !any_installed {
        "Not installed yet. Click Download to install this Whisper model."
    } else if configured_exists {
        "Installed in your app data models folder."
    } else {
        "Installed (at least one model). Choose an installed model or download selected."
    }
}

/// What is said of the models for live transcription.
#[verifier::allow_in_spec]
pub fn live_note(any_installed: bool, configured_exists: bool) -> &'static str
    returns
        (if !any_installed {
            "Optional for the Live tab. Download a Voxtral model to enable microphone transcription."
        } else if configured_exists {
            "Installed in your app data realtime models folder."
        } else {
            "Installed (at least one realtime model). Choose an installed model or download selected."
        }),
{
    if !any_installed {
        "Optional for the Live tab. Download a Voxtral model to enable microphone transcription."
    } else if configured_exists {
        "Installed in your app data realtime models folder."
    } else {
        "Installed (at least one realtime model). Choose an installed model or download selected."
    }
}

/// What is said of the language model that is set.
#[verifier::allow_in_spec]
pub fn chat_note(is_set: bool, exists_there: bool, managed: bool) -> &'static str
    returns
        (if !is_set {
            "No chat model selected yet."
        } else if !exists_there {
            "Current chat model path does not exist yet."
        } else if managed {
            "Current chat model is using the managed Qwen repo folder."
        } else {
            "Current chat model is using a manual external path."
        }),
{
    if !is_set {
        "No chat model selected yet."
    } else if !exists_there {
        "Current chat model path does not exist yet."
    } else if managed {
        "Current chat model is using the managed Qwen repo folder."
    } else {
        "Current chat model is using a manual external path."
    }
}

/// What is said of the mode of transcription.
#[verifier::allow_in_spec]
pub fn mode_note(transcript: bool, speech: bool) -> &'static str
    returns
        (if transcript {
            "Transcript mode includes speaker diarization."
        } else if speech {
            "Speech mode generates Markdown transcript without diarization."
        } else {
            "Subtitle mode generates SRT output without diarization."
        }),
{
    if transcript {
        "Transcript mode includes speaker diarization."
    } else if speech {
        "Speech mode generates Markdown transcript without diarization."
    } else {
        "Subtitle mode generates SRT output without diarization."
    }
}

/// Whether the language model that is chosen in the panel takes the place of the one that is set:
/// it is there, and the one that is set is none, one of the program's own, or the same but for case.
pub open spec fn managed_model_adopted(
    platform: Platform,
    chat_dir: Seq<char>,
    set: Seq<char>,
    managed: Seq<char>,
    exists_there: bool,
) -> bool {
    let path = stripped(set);
    exists_there && (path.len() == 0 || is_managed(platform, chat_dir, path) || lowered(path)
        == lowered(managed)) && set != managed
}

/// A language model that the user keeps elsewhere stays set, whichever one is chosen in the panel.
pub proof fn lemma_manual_model_stays(
    platform: Platform,
    chat_dir: Seq<char>,
    set: Seq<char>,
    managed: Seq<char>,
    exists_there: bool,
)
    requires
        stripped(set).len() > 0,
        !is_managed(platform, chat_dir, stripped(set)),
        lowered(stripped(set)) != lowered(managed),
    ensures
        !managed_model_adopted(platform, chat_dir, set, managed, exists_there),
{
}

/// Whether a path lies directly in the folder where the program keeps language models.
pub open spec fn is_managed(platform: Platform, chat_dir: Seq<char>, path: Seq<char>) -> bool {
    lies_in(platform, stripped(path), chat_dir)
}

impl Session {
    /// Whether a transcription model is there.
    pub fn whisper_model_ready(&self, models: &ModelReport) -> (r: bool)
        ensures
            r == whisper_ready(self@.settings, *models),
    {
        (!trim(self.settings.whisper_model.as_str()).is_empty() && models.whisper_configured_exists)
            || first_installed_place(&models.whisper).is_some()
    }

    /// Whether a step of the setup is complete.
    pub fn setup_step_complete(&self, step: usize, models: &ModelReport) -> (r: bool)
        ensures
            r == self@.step_complete(step, *models),
    {
        assert(views(self.runtime.missing@).len() == self.runtime.missing@.len());
        if step == 0 {
            self.runtime.missing.len() == 0 && !self.runtime.post_install_prompt
        } else if step == 1 {
            self.whisper_model_ready(models) && models.diarization_exists
        } else {
            true
        }
    }

    /// Whether the required setup is complete.
    pub fn setup_wizard_complete(&self, models: &ModelReport) -> (r: bool)
        ensures
            r == self@.setup_complete(*models),
    {
        self.setup_step_complete(0, models) && self.setup_step_complete(1, models)
    }

    /// What is said of a step of the setup.
    pub fn setup_step_summary(&self, step: usize, models: &ModelReport) -> (r: &'static str)
        ensures
            r == if self@.step_complete(step, *models) {
                "Done"
            } else {
                "Required"
            },
    {
        if self.setup_step_complete(step, models) {
            "Done"
        } else {
            "Required"
        }
    }

    /// Whether the window of the setup has to stay open.
    pub fn setup_window_pinned(&self, models: &ModelReport) -> (r: bool)
        ensures
            r == self@.setup_pinned(*models),
    {
        self.runtime.install_in_progress || self.runtime.unblock_in_progress
            || !self.setup_wizard_complete(models) || self.runtime.post_install_prompt
    }

    /// Notes that the window of the setup was drawn, and whether the user closed it: it stays where
    /// the setup was incomplete before it was drawn or something keeps it open now, unless it was
    /// closed and nothing kept it open before.
    pub fn setup_window_drawn(
        &mut self,
        pinned_before: bool,
        completed_before: bool,
        closed: bool,
    )
        ensures
            final(self)@ == (SessionView {
                runtime: RuntimeView {
                    show_missing_window: (pinned_before || !closed) && (!completed_before
                        || old(self)@.runtime.busy() || old(self)@.runtime.post_install_prompt),
                    ..old(self)@.runtime
                },
                ..old(self)@
            }),
    {
        self.runtime.show_missing_window = (pinned_before || !closed) && (!completed_before
            || self.runtime.install_in_progress || self.runtime.unblock_in_progress
            || self.runtime.post_install_prompt);
    }

    /// Goes back a step of the setup.
    pub fn wizard_back(&mut self)
        ensures
            final(self)@ == (SessionView {
                setup_wizard_step: if old(self)@.setup_wizard_step == 0 {
                    0
                } else {
                    (old(self)@.setup_wizard_step - 1) as usize
                },
                ..old(self)@
            }),
    {
        if self.setup_wizard_step > 0 {
            self.setup_wizard_step = self.setup_wizard_step - 1;
        }
    }

    /// Goes on to the next step of the setup, where the step is complete and there is one.
    pub fn wizard_next(&mut self, models: &ModelReport)
        ensures
            final(self)@ == if old(self)@.setup_wizard_step < 2 && old(self)@.step_complete(
                old(self)@.setup_wizard_step,
                *models,
            ) {
                SessionView {
                    setup_wizard_step: (old(self)@.setup_wizard_step + 1) as usize,
                    ..old(self)@
                }
            } else {
                old(self)@
            },
    {
        if self.setup_wizard_step < 2 && self.setup_step_complete(self.setup_wizard_step, models) {
            self.setup_wizard_step = self.setup_wizard_step + 1;
        }
    }

    /// Ends the setup, where it is complete.
    pub fn wizard_finish(&mut self, clock: &Clock, models: &ModelReport)
        ensures
            final(self)@ == if old(self)@.setup_complete(*models) {
                (SessionView {
                    page: AppPage::Home,
                    runtime: RuntimeView {
                        show_missing_window: false,
                        ..old(self)@.runtime
                    },
                    ..old(self)@
                }).said(*clock, "Required setup complete."@)
            } else {
                old(self)@
            },
    {
        if self.setup_wizard_complete(models) {
            self.runtime.show_missing_window = false;
            self.page = AppPage::Home;
            self.push_status(clock, "Required setup complete.");
        }
    }

    /// What is said of the mode of transcription.
    pub fn mode_note_text(&self) -> (r: &'static str)
        ensures
            r == mode_note(
                lowered(self@.settings.mode) == lowered("transcript"@),
                lowered(self@.settings.mode) == lowered("speech"@),
            ),
    {
        mode_note(
            eq_ignore_ascii_case(self.settings.mode.as_str(), "transcript"),
            eq_ignore_ascii_case(self.settings.mode.as_str(), "speech"),
        )
    }

    /// Sets the mode of transcription that the user chose.
    pub fn choose_mode(&mut self, clock: &Clock, mode: &str)
        ensures
            final(self)@ == if old(self)@.settings.mode == mode@ {
                old(self)@
            } else {
                (SessionView {
                    settings: SettingsView { mode: mode@, ..old(self)@.settings },
                    ..old(self)@
                }).saving(*clock)
            },
    {
        if !same_text(self.settings.mode.as_str(), mode) {
            self.settings.mode = mode.to_owned();
            self.queue_save(clock);
        }
    }

    /// Sets the transcription model that the panel shows, where it is another.
    pub fn adopt_whisper(&mut self, clock: &Clock, path: &str)
        ensures
            final(self)@ == if old(self)@.settings.whisper_model == path@ {
                old(self)@
            } else {
                (SessionView {
                    settings: SettingsView { whisper_model: path@, ..old(self)@.settings },
                    ..old(self)@
                }).saving(*clock)
            },
    {
        if !same_text(self.settings.whisper_model.as_str(), path) {
            self.settings.whisper_model = path.to_owned();
            self.queue_save(clock);
        }
    }

    /// Sets the model for live transcription that the panel shows, where it is another.
    pub fn adopt_live(&mut self, clock: &Clock, path: &str)
        ensures
            final(self)@ == if old(self)@.settings.live_transcription_model == path@ {
                old(self)@
            } else {
                (SessionView {
                    settings: SettingsView {
                        live_transcription_model: path@,
                        ..old(self)@.settings
                    },
                    ..old(self)@
                }).saving(*clock)
            },
    {
        if !same_text(self.settings.live_transcription_model.as_str(), path) {
            self.settings.live_transcription_model = path.to_owned();
            self.queue_save(clock);
        }
    }

    /// Sets the language model that the panel shows, where it may take the place of the one that is
    /// set.
    pub fn adopt_chat(&mut self, clock: &Clock, paths: &AppPaths, managed: &str, exists_there: bool)
        ensures
            final(self)@ == if managed_model_adopted(
                old(self)@.platform,
                paths.chat_models_dir@,
                old(self)@.settings.chat_model,
                managed@,
                exists_there,
            ) {
                (SessionView {
                    settings: SettingsView { chat_model: managed@, ..old(self)@.settings },
                    ..old(self)@
                }).saving(*clock)
            } else {
                old(self)@
            },
    {
        let path: &str = trim(self.settings.chat_model.as_str());
        if exists_there && (path.is_empty() || is_managed_chat_model_path(
            self.platform,
            paths,
            path,
        ) || eq_ignore_ascii_case(path, managed)) && !same_text(
            self.settings.chat_model.as_str(),
            managed,
        ) {
            self.settings.chat_model = managed.to_owned();
            self.queue_save(clock);
        }
    }

    /// Queues a job, where nothing keeps it from running; says why where something does.
    pub fn enqueue_job(
        &mut self,
        board: &mut JobBoard,
        clock: &Clock,
        report: &RuntimeReport,
        files: Vec<FilePath>,
    ) -> (r: bool)
        requires
            old(board).next_job_id < u64::MAX,
        ensures
            (final(self)@, final(board)@, r) == old(self)@.job_asked(
                old(board)@,
                *clock,
                *report,
                path_views(files@),
            ),
    {
        if !self.ensure_runtime_ready(clock, "Transcription", report) {
            return false;
        }
        if !self.ensure_transcription_setup_ready(clock, &report.models) {
            return false;
        }
        self.queue_job(board, clock, files)
    }

    /// Queues a job where it has files.
    fn queue_job(&mut self, board: &mut JobBoard, clock: &Clock, files: Vec<FilePath>) -> (r: bool)
        requires
            old(board).next_job_id < u64::MAX,
        ensures
            (final(self)@, final(board)@, r) == old(self)@.job_queued(
                old(board)@,
                *clock,
                path_views(files@),
            ),
    {
        assert(path_views(files@).len() == files@.len());
        if files.len() == 0 {
            self.open_modal("No files", "No selected media files.", true);
            self.push_status(clock, "No selected media files.");
            return false;
        }
        let id: u64 = board.enqueue(self.settings.copy(), files);
        self.is_transcribing = true;
        let number: String = decimal_text(id);
        let text: String = cat3("Queued job #", number.as_str(), ".");
        self.push_status(clock, text.as_str());
        true
    }

    /// Whether a live session that is asked for can go on; says why where it cannot.
    pub fn live_gate(&mut self, clock: &Clock, report: &RuntimeReport) -> (r: bool)
        ensures
            (final(self)@, r) == old(self)@.live_session_asked(*clock, *report),
    {
        if self.live.capturing {
            return false;
        }
        if !self.ensure_runtime_ready(clock, "Live transcription", report) {
            return false;
        }
        self.ensure_live_setup_ready(clock, &report.models)
    }

    /// Sets the microphone of a live session.
    pub fn prepare_live(&mut self, clock: &Clock, device: Option<&str>)
        ensures
            final(self)@ == old(self)@.live_prepared(
                *clock,
                match device {
                    Some(name) => Some(name@),
                    None => None,
                },
            ),
    {
        self.settings.live_input_device = match device {
            Some(name) => name.to_owned(),
            None => {
                let none: String = String::new();
                assert(none@ =~= Seq::<char>::empty());
                none
            },
        };
        self.live.text = String::new();
        assert(self.live.text@ =~= Seq::<char>::empty());
        self.queue_save(clock);
    }

    /// Notes that a live session runs.
    pub fn live_started(
        &mut self,
        clock: &Clock,
        session_id: u64,
        input_label: String,
        recording: FilePath,
        transcript: FilePath,
    )
        ensures
            final(self)@ == (SessionView {
                live: LiveView {
                    capturing: true,
                    session_id: Some(session_id),
                    input_label: input_label@,
                    recording_path: Some(recording@),
                    transcript_path: Some(transcript@),
                    ..old(self)@.live
                },
                ..old(self)@
            }).said(*clock, "Live transcription running."@),
    {
        self.live.capturing = true;
        self.live.session_id = Some(session_id);
        self.live.input_label = input_label;
        self.live.recording_path = Some(recording);
        self.live.transcript_path = Some(transcript);
        self.push_status(clock, "Live transcription running.");
    }

    /// Says that a live session could not begin.
    pub fn live_start_failed(&mut self, clock: &Clock, error: &str)
        ensures
            final(self)@ == old(self)@.said(
                *clock,
                "Failed to start live transcription: "@ + error@,
            ).warned("Live transcription failed"@, error@),
    {
        let text: String = cat2("Failed to start live transcription: ", error);
        self.push_status(clock, text.as_str());
        self.open_modal("Live transcription failed", error, true);
    }

    /// Asks a live session to stop, where one runs.
    pub fn stop_live(&mut self, clock: &Clock) -> (r: bool)
        ensures
            r == old(self)@.live.capturing,
            final(self)@ == if r {
                (SessionView {
                    live: LiveView { capturing: false, ..old(self)@.live },
                    ..old(self)@
                }).said(*clock, "Stopping live transcription..."@)
            } else {
                old(self)@
            },
    {
        if !self.live.capturing {
            return false;
        }
        self.live.capturing = false;
        self.push_status(clock, "Stopping live transcription...");
        true
    }

    /// Says that a dialog for files crashed.
    pub fn dialog_failed(&mut self, clock: &Clock, action: &str)
        ensures
            final(self)@ == old(self)@.warned(
                "File dialog failed"@,
                dialog_failure(old(self)@.platform, action@),
            ).said(*clock, "File dialog backend crashed; app stayed open."@),
    {
        let mut details: String = cat2(
            action,
            " failed because the native file dialog backend crashed.",
        );
        if matches!(self.platform, Platform::Linux) {
            details.append(
                "\n\nLinux tip: ensure a desktop session is running and install xdg-desktop-portal plus zenity.",
            );
        }
        self.open_modal("File dialog failed", details.as_str(), true);
        self.push_status(clock, "File dialog backend crashed; app stayed open.");
    }

    /// Says that drawing the window failed and went on.
    pub fn ui_panicked(&mut self, clock: &Clock, phase: &str, panic_text: &str, log_path: &str)
        ensures
            final(self)@ == old(self)@.warned(
                "Unexpected UI error"@,
                "Recovered from a UI error in '"@ + phase@ + "'.\n\n"@ + panic_text@
                    + "\n\nA panic log was written to:\n"@ + log_path@,
            ).said(*clock, "Recovered from a UI panic; details saved to panic.log."@),
    {
        let mut message: String = cat3("Recovered from a UI error in '", phase, "'.\n\n");
        message.append(panic_text);
        message.append("\n\nA panic log was written to:\n");
        message.append(log_path);
        self.open_modal("Unexpected UI error", message.as_str(), true);
        self.push_status(clock, "Recovered from a UI panic; details saved to panic.log.");
    }
}

/// What is said of a dialog for files that crashed.
pub open spec fn dialog_failure(platform: Platform, action: Seq<char>) -> Seq<char> {
    let details = action + " failed because the native file dialog backend crashed."@;
    if platform is Linux {
        details
            + "\n\nLinux tip: ensure a desktop session is running and install xdg-desktop-portal plus zenity."@
    } else {
        details
    }
}

impl Session {
    /// The folder that the diarization model is downloaded to: the one that the settings name, else
    /// the default, which the settings then name.
    pub fn diarization_dir_for_download(&mut self, default_dir: &str) -> (r: String)
        ensures
            r@ == if stripped(old(self)@.settings.diarization_models_dir).len() == 0 {
                default_dir@
            } else {
                stripped(old(self)@.settings.diarization_models_dir)
            },
            final(self)@ == if stripped(old(self)@.settings.diarization_models_dir).len() == 0 {
                SessionView {
                    settings: SettingsView {
                        diarization_models_dir: default_dir@,
                        ..old(self)@.settings
                    },
                    ..old(self)@
                }
            } else {
                old(self)@
            },
    {
        let dir: &str = trim(self.settings.diarization_models_dir.as_str());
        if dir.is_empty() {
            self.settings.diarization_models_dir = default_dir.to_owned();
            default_dir.to_owned()
        } else {
            dir.to_owned()
        }
    }

    /// Takes the folder of the diarization model that the user chose.
    pub fn choose_diarization_dir(&mut self, clock: &Clock, path: String)
        ensures
            final(self)@ == (SessionView {
                settings: SettingsView { diarization_models_dir: path@, ..old(self)@.settings },
                ..old(self)@
            }).saving(*clock),
    {
        self.settings.diarization_models_dir = path;
        self.queue_save(clock);
    }

    /// Takes the folder for live recordings that the user chose.
    pub fn choose_live_sessions_dir(&mut self, clock: &Clock, path: String)
        ensures
            final(self)@ == (SessionView {
                settings: SettingsView { live_sessions_output_dir: path@, ..old(self)@.settings },
                ..old(self)@
            }).saving(*clock),
    {
        self.settings.live_sessions_output_dir = path;
        self.queue_save(clock);
    }

    /// Says that the folder for live recordings could not be made or opened.
    pub fn live_folder_failed(&mut self, clock: &Clock, making: bool, path: &str, error: &str)
        ensures
            final(self)@ == old(self)@.said(
                *clock,
                (if making {
                    "Failed to create live sessions folder '"@
                } else {
                    "Failed to open live sessions folder '"@
                }) + path@ + "': "@ + error@,
            ),
    {
        let head: &str = if making {
            "Failed to create live sessions folder '"
        } else {
            "Failed to open live sessions folder '"
        };
        let text: String = cat4(head, path, "': ", error);
        self.push_status(clock, text.as_str());
    }
}

/// What the status bar says, given what is said of a download: nothing where that is the same.
pub fn shown_status(status: &str, download: &Option<String>) -> (r: String)
    ensures
        r@ == match *download {
            Some(d) => if stripped(status@) == stripped(d@) {
                Seq::empty()
            } else {
                status@
            },
            None => status@,
        },
{
    if let Some(d) = download {
        if same_text(trim(status), trim(d.as_str())) {
            let none: String = String::new();
            assert(none@ =~= Seq::<char>::empty());
            return none;
        }
    }
    status.to_owned()
}

/// When the steps of the setup are complete: the first once nothing of the runtime is missing and
/// nothing is left to do after an install; the second once a whisper model is set and there, or
/// installed, and the diarization model is there; any other step is. The window stays open until both
/// are, and while the runtime is worked on.
pub proof fn lemma_steps_complete(s: SessionView, models: ModelReport, step: usize)
    ensures
        s.step_complete(0, models) <==> s.runtime.missing.len() == 0
            && !s.runtime.post_install_prompt,
        s.step_complete(1, models) <==> models.diarization_exists && (first_place(
            models.whisper@,
        ) is Some || (stripped(s.settings.whisper_model).len() > 0
            && models.whisper_configured_exists)),
        step > 1 ==> s.step_complete(step, models),
        s.setup_complete(models) <==> s.step_complete(0, models) && s.step_complete(1, models),
        s.setup_pinned(models) <==> s.runtime.install_in_progress || s.runtime.unblock_in_progress
            || !s.setup_complete(models),
{
}

/// What queueing a job does: without files nothing is queued and the user is told; with files the job
/// goes onto the board with these files and the settings as they are, its number is told, and the window
/// shows that something is transcribed.
pub proof fn lemma_job_queued(s: SessionView, b: BoardView, clock: Clock, files: Seq<PathView>)
    requires
        b.next_job_id < u64::MAX,
    ensures
        ({
            let (after, board, queued) = s.job_queued(b, clock, files);
            &&& queued <==> files.len() > 0
            &&& files.len() == 0 ==> board == b && after.active_modal is Some
                && after.is_transcribing == s.is_transcribing
            &&& files.len() > 0 ==> {
                &&& after.is_transcribing
                &&& board.job_queue.len() == b.job_queue.len() + 1
                &&& board.job_queue.last().settings == s.settings
                &&& board.job_queue.last().files == files
                &&& after.status == "Queued job #"@ + decimal((b.next_job_id + 1) as nat) + "."@
            }
            &&& after.settings == s.settings
            &&& after.review == s.review
        }),
{
}

/// When a job is queued: the runtime is complete and is not being worked on, the models are there, and
/// there are files. Where it is not, the board stays as it is.
pub proof fn lemma_job_gate(
    s: SessionView,
    b: BoardView,
    clock: Clock,
    report: RuntimeReport,
    files: Seq<PathView>,
)
    ensures
        s.job_asked(b, clock, report, files).2 <==> !s.runtime.busy() && missing_of(
            s.platform,
            report.runtime_dir@,
            report.probe,
        ).len() == 0 && first_place(report.models.whisper@) is Some
            && report.models.diarization_exists && files.len() > 0,
        !s.job_asked(b, clock, report, files).2 ==> s.job_asked(b, clock, report, files).1 == b,
{
    lemma_runtime_asked(s, clock, "Transcription"@, report);
    let s1 = s.runtime_asked(clock, "Transcription"@, report).0;
    lemma_models_asked(s1, clock, report.models);
}

/// When a live session may begin: none runs, the runtime is complete and is not being worked on, and the
/// models for it are there. Preparing one empties the live text and sets the input that is asked for;
/// without one the system decides.
pub proof fn lemma_live_gate(
    s: SessionView,
    clock: Clock,
    report: RuntimeReport,
    device: Option<Seq<char>>,
)
    ensures
        s.live_session_asked(clock, report).1 ==> !s.live.capturing && !s.runtime.busy()
            && missing_of(s.platform, report.runtime_dir@, report.probe).len() == 0,
        s.live.capturing ==> s.live_session_asked(clock, report) == (s, false),
        s.live_prepared(clock, device).live.text.len() == 0,
        device matches Some(name) ==> s.live_prepared(clock, device).settings.live_input_device
            == name,
        device is None ==> s.live_prepared(clock, device).settings.live_input_device.len() == 0,
        s.live_prepared(clock, device).settings_dirty,
        s.live_prepared(clock, device).settings == (SettingsView {
            live_input_device: s.live_prepared(clock, device).settings.live_input_device,
            ..s.settings
        }),
        s.live_prepared(clock, device).live == (LiveView {
            text: s.live_prepared(clock, device).live.text,
            ..s.live
        }),
{
    lemma_runtime_asked(s, clock, "Live transcription"@, report);
}

/// When a language model of the store is taken over: it is there, it is not the one that is set, and
/// what is set is nothing, a model of the store, or the same file in another case. A model that the user
/// has set elsewhere stays.
pub proof fn lemma_managed_model_adopted(
    platform: Platform,
    chat_dir: Seq<char>,
    set: Seq<char>,
    managed: Seq<char>,
    exists_there: bool,
)
    ensures
        !exists_there || set == managed ==> !managed_model_adopted(
            platform,
            chat_dir,
            set,
            managed,
            exists_there,
        ),
        exists_there && set != managed && stripped(set).len() == 0 ==> managed_model_adopted(
            platform,
            chat_dir,
            set,
            managed,
            exists_there,
        ),
        exists_there && set != managed && is_managed(platform, chat_dir, stripped(set))
            ==> managed_model_adopted(platform, chat_dir, set, managed, exists_there),
        stripped(set).len() > 0 && !is_managed(platform, chat_dir, stripped(set)) && lowered(
            stripped(set),
        ) != lowered(managed) ==> !managed_model_adopted(
            platform,
            chat_dir,
            set,
            managed,
            exists_there,
        ),
{
}

} // verus!
