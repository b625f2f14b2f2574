//! The messages that workers send to the window, and what they do.
use super::chat::{counts_of, reported, AnonymiseCounts, AnonymiseSave};
use super::review::PlanView;
use super::runtime_panel::{setup_issues, RuntimeReport};
use super::{
    AnonymiseView, ChatView, Clock, LiveView, ReviewView, RuntimeView, Session, SessionView,
};
use crate::board::{
    file_failed_text, file_mark, file_mark_text, flag_text, flag_word, text_view, ActiveJob, BoardView,
    DownloadKind, JobBoard,
};
use crate::devices::{
    auto_select_gpu, auto_selected, device_options, device_views, enumerate_audio_device_options,
    resolve_audio_device_index, selected_device, BridgeDevice,
};
use crate::json::{can_show, is_showable, show_answer, shown_answer};
use crate::library::{ensure_media_entry, ensure_output_entry, with_entry, with_media};
use crate::live::{append_live_preview_text, with_chunk};
use crate::paths::{edited_file_path, edited_of, is_known, FilePath, PathView, Platform};
use crate::runtime::{
    backend_pos, detect_installed_windows_runtime_backend, detected_backend, missing_of,
    offered_backends, resolve_runtime_backend_index, runtime_backend_options,
    runtime_missing_messages, sync_runtime_backend_from_installed_runtime, synced_choice,
    BackendChoice, RuntimeProbe,
};
use crate::settings::{AppSettings, SettingsView};
use crate::text::{
    begins_with, cat2, cat3, cat4, cat5, contains_text, decimal, decimal_text, lowered, occurs_in,
    stands_at, to_ascii_lowercase, views,
};
use serde_json::Value;
use vstd::prelude::*;
use vstd::string::*;

verus! {

/// A file that was transcribed.
pub struct FileDone {
    pub job_id: u64,
    pub index: usize,
    pub total: usize,
    pub audio_path: FilePath,
    pub output_path: FilePath,
    pub output_text: String,
    pub preprocess_note: String,
    pub mode: String,
    pub custom_value: String,
    pub whisper_model: String,
    pub diarization_enabled: bool,
    pub audio_bytes_len: usize,
    pub timing_prepare_ms: u64,
    pub timing_read_audio_ms: u64,
    pub timing_bridge_ms: u64,
    pub timing_read_output_ms: u64,
    pub timing_total_ms: u64,
    /// How long it took, in seconds with two decimals.
    pub seconds: String,
    /// What the engine answered.
    pub response: Value,
    /// Why the edited copy could not be reset, if it could not.
    pub reset_error: Option<String>,
}

/// A message of a worker, with what the program found while it was handed on.
pub enum UiMessage {
    Log(String),
    Status(String),
    Refresh,
    RuntimeInstalled { report: RuntimeReport, devices: Option<Vec<BridgeDevice>> },
    RuntimeInstallFailed(String),
    RuntimeUnblocked { message: String, report: RuntimeReport },
    RuntimeUnblockFailed(String),
    JobFileOk(FileDone),
    JobFileErr { job_id: u64, index: usize, total: usize, audio_path: FilePath, error: String },
    JobDone(u64),
    ChatDone {
        source_path: FilePath,
        log: Result<FilePath, String>,
        reloaded: Option<(String, String)>,
    },
    ChatFailed(String),
    AnonymiseDone {
        answer: String,
        source_text: String,
        original_exists: bool,
        selected_exists: bool,
    },
    AnonymiseFailed(String),
    DownloadStatus { kind: DownloadKind, status: Option<String> },
    WhisperInstalled(String),
    LiveModelInstalled(String),
    ChatModelInstalled(String),
    DiarizationInstalled(String),
    LiveSessionStarted {
        session_id: u64,
        input_device: String,
        recording_path: FilePath,
        transcript_path: FilePath,
    },
    LiveTextAppend { session_id: u64, chunk: String },
    LiveTextSet { session_id: u64, text: String },
    LiveSessionFinished {
        session_id: u64,
        input_device: String,
        recording_path: FilePath,
        transcript_path: FilePath,
        preview_text: String,
    },
    LiveSessionFailed { session_id: u64, error: String },
}

/// What the program has to do after a message.
pub enum FollowUp {
    Nothing,
    /// Turn the chat to a transcript, if it is about none.
    ChooseChatSource,
    /// Write the edited copy.
    SaveAnonymised(AnonymiseSave),
}

/// Whether a status is shown as that of a download.
pub open spec fn tells_of_download(text: Seq<char>) -> bool {
    occurs_in("downloading "@, lowered(text)) || stands_at(
        lowered(text),
        "extracting runtime"@,
        0,
    )
}

/// What is said when a file was transcribed.
pub open spec fn done_line(d: FileDone) -> Seq<char> {
    "Job #"@ + file_mark(d.job_id, d.index, d.total) + " complete in "@ + d.seconds@ + "s"@
}

/// What the log says of a file that was transcribed.
pub open spec fn detail_line(d: FileDone) -> Seq<char> {
    "Job #"@ + file_mark(d.job_id, d.index, d.total) + " details: audio='"@ + d.audio_path@.text()
        + "' mode='"@ + d.mode@ + "' custom='"@ + d.custom_value@ + "' whisper_model='"@
        + d.whisper_model@ + "' diarization="@ + flag_text(d.diarization_enabled)
        + " audio_bytes="@ + decimal(d.audio_bytes_len as nat) + " output='"@
        + d.output_path@.text() + "' timings_ms[prepare="@ + decimal(d.timing_prepare_ms as nat)
        + ", read_audio="@ + decimal(d.timing_read_audio_ms as nat) + ", bridge="@ + decimal(
        d.timing_bridge_ms as nat,
    ) + ", read_output="@ + decimal(d.timing_read_output_ms as nat) + ", total="@ + decimal(
        d.timing_total_ms as nat,
    ) + "]"@
}

/// What the log says of the answer of the engine.
pub open spec fn answer_line(d: FileDone, shown: Seq<char>) -> Seq<char> {
    "Job #"@ + file_mark(d.job_id, d.index, d.total) + " bridge response json:\n"@ + shown
}

/// What is said when a file was transcribed.
fn done_text(d: &FileDone) -> (r: String)
    ensures
        r@ == done_line(*d),
{
    let mark: String = file_mark_text(d.job_id, d.index, d.total);
    cat5("Job #", mark.as_str(), " complete in ", d.seconds.as_str(), "s")
}

/// What the log says of a file that was transcribed.
fn detail_text(d: &FileDone) -> (r: String)
    ensures
        r@ == detail_line(*d),
{
    let mark: String = file_mark_text(d.job_id, d.index, d.total);
    let audio: String = d.audio_path.text();
    let output: String = d.output_path.text();
    let bytes: String = decimal_text(d.audio_bytes_len as u64);
    let t1: String = decimal_text(d.timing_prepare_ms);
    let t2: String = decimal_text(d.timing_read_audio_ms);
    let t3: String = decimal_text(d.timing_bridge_ms);
    let t4: String = decimal_text(d.timing_read_output_ms);
    let t5: String = decimal_text(d.timing_total_ms);
    let mut r: String = cat4("Job #", mark.as_str(), " details: audio='", audio.as_str());
    r.append("' mode='");
    r.append(d.mode.as_str());
    r.append("' custom='");
    r.append(d.custom_value.as_str());
    r.append("' whisper_model='");
    r.append(d.whisper_model.as_str());
    r.append("' diarization=");
    r.append(flag_word(d.diarization_enabled));
    r.append(" audio_bytes=");
    r.append(bytes.as_str());
    r.append(" output='");
    r.append(output.as_str());
    r.append("' timings_ms[prepare=");
    r.append(t1.as_str());
    r.append(", read_audio=");
    r.append(t2.as_str());
    r.append(", bridge=");
    r.append(t3.as_str());
    r.append(", read_output=");
    r.append(t4.as_str());
    r.append(", total=");
    r.append(t5.as_str());
    r.append("]");
    r
}

/// What the log says of the answer of the engine.
fn answer_text(d: &FileDone, shown: &str) -> (r: String)
    ensures
        r@ == answer_line(*d, shown@),
{
    let mark: String = file_mark_text(d.job_id, d.index, d.total);
    cat4("Job #", mark.as_str(), " bridge response json:\n", shown)
}

/// The board after a status was said.
pub open spec fn board_after_status(b: BoardView, text: Seq<char>) -> BoardView {
    if tells_of_download(text) {
        BoardView { download_status: Some(text), ..b }
    } else {
        b
    }
}

/// The board on which no status of a download is shown.
pub open spec fn board_without_status(b: BoardView) -> BoardView {
    BoardView { download_status: None, ..b }
}

/// The board after a file was transcribed.
pub open spec fn board_after_file(b: BoardView, d: FileDone) -> BoardView {
    BoardView {
        active_audio_path: Some(d.audio_path@),
        active_job: match b.active_job {
            Some(_) => Some(
                ActiveJob { id: d.job_id, total_files: d.total, done_files: d.index },
            ),
            None => None,
        },
        ..b.outputs_known(d.output_path@, edited_of(d.output_path@))
    }
}

/// The board after a live session was saved.
pub open spec fn board_after_live(
    b: BoardView,
    recording: PathView,
    transcript: PathView,
) -> BoardView {
    BoardView {
        output_entries: with_entry(b.output_entries, transcript, false),
        media_entries: with_media(b.media_entries, recording, false),
        active_audio_path: Some(recording),
        ..b
    }
}

/// The settings that name a backend of those that are offered.
pub open spec fn backend_adopted(
    s: SettingsView,
    backends: Seq<Seq<char>>,
    index: nat,
) -> SettingsView {
    if index < backends.len() {
        SettingsView { runtime_download_backend: backends[index as int], ..s }
    } else {
        s
    }
}

/// The backends that are offered, the one chosen and the settings once a runtime was installed.
pub open spec fn installed_choice(
    platform: Platform,
    s: SettingsView,
    available: Option<Seq<Seq<char>>>,
    probe: RuntimeProbe,
) -> BackendChoice {
    let backends = offered_backends(platform, available);
    let index = backend_pos(backends, s.runtime_download_backend);
    synced_choice(
        platform,
        BackendChoice { backends, index, settings: backend_adopted(s, backends, index) },
        detected_backend(probe),
    )
}

/// Makes the settings name a backend of those that are offered.
fn adopt_backend(settings: &mut AppSettings, backends: &Vec<String>, index: usize)
    ensures
        final(settings)@ == backend_adopted(old(settings)@, views(backends@), index as nat),
{
    assert(views(backends@).len() == backends@.len());
    if index < backends.len() {
        assert(views(backends@)[index as int] == backends@[index as int]@);
        settings.runtime_download_backend = backends[index].clone();
    }
}

/// Offers the backends after an installation and gives which one is chosen.
fn choose_installed_backend(
    platform: Platform,
    settings: &mut AppSettings,
    available: &Option<Vec<String>>,
    probe: &RuntimeProbe,
) -> (r: (Vec<String>, usize))
    ensures
        (BackendChoice {
            backends: views(r.0@),
            index: r.1 as nat,
            settings: final(settings)@,
        }) == installed_choice(
            platform,
            old(settings)@,
            match *available {
                Some(list) => Some(views(list@)),
                None => None,
            },
            *probe,
        ),
{
    let mut backends: Vec<String> = runtime_backend_options(platform, available);
    let mut index: usize = resolve_runtime_backend_index(
        &backends,
        settings.runtime_download_backend.as_str(),
    );
    adopt_backend(settings, &backends, index);
    let detected: Option<String> = detect_installed_windows_runtime_backend(probe);
    let _ = sync_runtime_backend_from_installed_runtime(
        platform,
        detected,
        settings,
        &mut backends,
        &mut index,
    );
    (backends, index)
}

impl SessionView {
    /// The state once the runtime was installed.
    pub open spec fn install_found(self, report: RuntimeReport) -> SessionView {
        let missing = missing_of(self.platform, report.runtime_dir@, report.probe);
        SessionView {
            settings: SettingsView { runtime_dir: report.runtime_dir@, ..self.settings },
            runtime: RuntimeView {
                install_in_progress: false,
                missing,
                post_install_prompt: missing.len() == 0,
                show_missing_window: true,
                ..self.runtime
            },
            ..self
        }
    }

    /// The state once it was said what came of an installation.
    pub open spec fn install_told(self, clock: Clock) -> SessionView {
        self.said(
            clock,
            if self.runtime.missing.len() == 0 {
                "Runtime install complete. Run 'Unblock unsigned runtime', then Recheck."@
            } else {
                "Runtime install finished but validation still reports missing components."@
            },
        )
    }

    /// The state once the devices of a runtime are offered.
    pub open spec fn with_devices(self, devices: Option<Vec<BridgeDevice>>) -> SessionView {
        let options = device_options(
            self.platform,
            match devices {
                Some(list) => Some(device_views(list@)),
                None => None,
            },
        );
        SessionView {
            runtime: RuntimeView {
                audio_devices: options,
                selected_audio_device: selected_device(
                    self.platform,
                    options,
                    self.settings,
                ) as usize,
                ..self.runtime
            },
            ..self
        }
    }

    /// The state once the backends are offered after an installation.
    pub open spec fn with_installed_backends(
        self,
        available: Option<Seq<Seq<char>>>,
        probe: RuntimeProbe,
    ) -> SessionView {
        let c = installed_choice(self.platform, self.settings, available, probe);
        SessionView {
            settings: c.settings,
            runtime: RuntimeView {
                backends: c.backends,
                selected_backend: c.index as usize,
                ..self.runtime
            },
            ..self
        }
    }

    /// The state once a GPU was chosen for the user, where they left that open.
    pub open spec fn gpu_chosen(self, clock: Clock) -> SessionView {
        let settings = auto_selected(
            self.settings,
            self.runtime.audio_devices,
            self.runtime.selected_audio_device,
        );
        if settings == self.settings {
            self
        } else {
            (SessionView { settings, ..self }).logged(
                clock,
                "Auto-selected macOS Metal GPU for runtime."@,
            )
        }
    }

    /// The state after an installation of the runtime.
    pub open spec fn installed(
        self,
        clock: Clock,
        report: RuntimeReport,
        devices: Option<Vec<BridgeDevice>>,
    ) -> SessionView {
        self.install_found(report).install_told(clock).with_devices(
            devices,
        ).with_installed_backends(report.available(), report.probe).gpu_chosen(clock).saving(clock)
    }

    /// The state after an installation of the runtime failed.
    pub open spec fn install_failed(self, clock: Clock, error: Seq<char>) -> SessionView {
        (SessionView {
            runtime: RuntimeView {
                install_in_progress: false,
                post_install_prompt: false,
                show_missing_window: true,
                ..self.runtime
            },
            ..self
        }).said(clock, "Runtime install failed: "@ + error).warned(
            "Runtime install failed"@,
            error,
        )
    }

    /// The state after the runtime was unblocked.
    pub open spec fn unblocked(
        self,
        clock: Clock,
        message: Seq<char>,
        report: RuntimeReport,
    ) -> SessionView {
        let s = (SessionView {
            runtime: RuntimeView {
                unblock_in_progress: false,
                post_install_prompt: false,
                ..self.runtime
            },
            ..self
        }).said(clock, message).refreshed(clock, report);
        if s.runtime.missing.len() == 0 && setup_issues(report.models).len() == 0 {
            (SessionView {
                runtime: RuntimeView { show_missing_window: false, ..s.runtime },
                ..s
            }).said(clock, "Runtime/setup detected."@)
        } else {
            s
        }
    }

    /// The state after unblocking the runtime failed.
    pub open spec fn unblock_failed(self, clock: Clock, error: Seq<char>) -> SessionView {
        (SessionView {
            runtime: RuntimeView {
                unblock_in_progress: false,
                show_missing_window: true,
                ..self.runtime
            },
            ..self
        }).said(clock, "Unsigned runtime unblock failed: "@ + error).warned(
            "Unsigned runtime unblock failed"@,
            error,
        )
    }

    /// The state once a file that was transcribed is shown.
    pub open spec fn file_shown(self, d: FileDone) -> SessionView {
        SessionView {
            settings: SettingsView { audio_file: d.audio_path@.text(), ..self.settings },
            review: (ReviewView {
                active_audio_path: Some(d.audio_path@),
                preprocess_note: d.preprocess_note@,
                output_path: Some(d.output_path@),
                ..self.review
            }).showing(d.output_text@, d.output_text@),
            ..self
        }
    }

    /// The state once the log tells of a file that was transcribed.
    pub open spec fn file_told(self, clock: Clock, d: FileDone) -> SessionView {
        let s = self.said(clock, done_line(d)).logged(clock, detail_line(d));
        match shown_answer(d.response) {
            Some(shown) => s.logged(clock, answer_line(d, shown)),
            None => s,
        }
    }

    /// The state after a file was transcribed.
    pub open spec fn file_done(self, clock: Clock, d: FileDone) -> SessionView {
        let s = match d.reset_error {
            Some(e) => self.logged(
                clock,
                "Failed to reset edited output '"@ + edited_of(d.output_path@).text() + "': "@
                    + e@,
            ),
            None => self,
        };
        s.file_shown(d).file_told(clock, d).saving(clock)
    }

    /// The state after a job ended, given whether none runs or waits now.
    pub open spec fn job_over(self, clock: Clock, id: u64, idle: bool) -> SessionView {
        let s = self.said(clock, "Job #"@ + decimal(id as nat) + " complete."@);
        if idle {
            SessionView { is_transcribing: false, ..s }
        } else {
            s
        }
    }

    /// The state after a chat ended.
    pub open spec fn chat_over(
        self,
        clock: Clock,
        source: PathView,
        log: Result<FilePath, String>,
        reloaded: Option<(String, String)>,
    ) -> SessionView {
        let s = SessionView { chat: ChatView { is_chatting: false, ..self.chat }, ..self };
        match log {
            Err(e) => s.said(clock, "Chat complete, but failed to save log: "@ + e@),
            Ok(path) => (match reloaded {
                Some((context, history)) if is_known(self.chat.source_path, source) => SessionView {
                    chat: ChatView {
                        context_text: context@,
                        history_text: history@,
                        ..s.chat
                    },
                    ..s
                },
                _ => s,
            }).said(clock, "Chat complete. Log saved: "@ + path@.text()),
        }
    }

    /// The state after a chat failed.
    pub open spec fn chat_failed(self, clock: Clock, error: Seq<char>) -> SessionView {
        (SessionView { chat: ChatView { is_chatting: false, ..self.chat }, ..self }).said(
            clock,
            "Chat failed: "@ + error,
        )
    }

    /// The state after an anonymisation failed before the language model answered.
    pub open spec fn anonymise_unanswered(self, clock: Clock, error: Seq<char>) -> SessionView {
        (SessionView { anonymise: AnonymiseView { running: false, ..self.anonymise }, ..self }
        ).anonymise_failed(clock, error)
    }

    /// The state after a transcription model was installed.
    pub open spec fn whisper_installed(self, clock: Clock, path: Seq<char>) -> SessionView {
        self.whisper_set(path).said(clock, "Whisper model installed: "@ + path).saving(clock)
    }

    /// The state after a model for live transcription was installed.
    pub open spec fn live_installed(self, clock: Clock, path: Seq<char>) -> SessionView {
        self.live_set(path).said(
            clock,
            "Realtime transcription model installed: "@ + path,
        ).saving(clock)
    }

    /// The state after a language model was installed.
    pub open spec fn chat_installed(self, clock: Clock, path: Seq<char>) -> SessionView {
        self.chat_set(path).said(clock, "Chat model installed: "@ + path).saving(clock)
    }

    /// The state after the diarization model was installed.
    pub open spec fn diarization_installed(self, clock: Clock, path: Seq<char>) -> SessionView {
        (SessionView {
            settings: SettingsView { diarization_models_dir: path, ..self.settings },
            ..self
        }).said(clock, "Sortformer diarization model installed: "@ + path).saving(clock)
    }

    /// The state after a live session began.
    pub open spec fn live_began(
        self,
        input_device: Seq<char>,
        recording: PathView,
        transcript: PathView,
    ) -> SessionView {
        SessionView {
            live: LiveView {
                input_label: input_device,
                recording_path: Some(recording),
                transcript_path: Some(transcript),
                text: Seq::empty(),
                ..self.live
            },
            ..self
        }
    }

    /// The state after a live session was saved.
    pub open spec fn live_saved(
        self,
        clock: Clock,
        input_device: Seq<char>,
        recording: PathView,
        transcript: PathView,
        preview: Seq<char>,
    ) -> SessionView {
        (SessionView {
            live: LiveView {
                capturing: false,
                session_id: None,
                input_label: input_device,
                recording_path: Some(recording),
                transcript_path: Some(transcript),
                text: preview,
            },
            review: ReviewView { active_audio_path: Some(recording), ..self.review },
            settings: SettingsView { audio_file: recording.text(), ..self.settings },
            ..self
        }).said(clock, "Live transcription saved: "@ + transcript.text()).saving(clock)
    }

    /// The state after a live session failed.
    pub open spec fn live_failed(self, clock: Clock, error: Seq<char>) -> SessionView {
        (SessionView {
            live: LiveView { capturing: false, session_id: None, ..self.live },
            ..self
        }).said(clock, "Live transcription failed: "@ + error).warned(
            "Live transcription failed"@,
            error,
        ).saving(clock)
    }
}

/// The live session that a message is of.
pub open spec fn live_session_of(m: UiMessage) -> Option<u64> {
    match m {
        UiMessage::LiveSessionStarted { session_id, .. } => Some(session_id),
        UiMessage::LiveTextAppend { session_id, .. } => Some(session_id),
        UiMessage::LiveTextSet { session_id, .. } => Some(session_id),
        UiMessage::LiveSessionFinished { session_id, .. } => Some(session_id),
        UiMessage::LiveSessionFailed { session_id, .. } => Some(session_id),
        _ => None,
    }
}

/// Whether a message is of a live session other than the one that runs.
pub open spec fn is_stale(s: SessionView, m: UiMessage) -> bool {
    match live_session_of(m) {
        Some(id) => s.live.session_id != Some(id),
        None => false,
    }
}

/// Whether the log can tell of what a message brings.
pub open spec fn can_be_told(m: UiMessage) -> bool {
    match m {
        UiMessage::JobFileOk(d) => is_showable(d.response),
        _ => true,
    }
}

/// The state after a message.
pub open spec fn after_message(
    s: SessionView,
    b: BoardView,
    clock: Clock,
    m: UiMessage,
) -> SessionView {
    if is_stale(s, m) {
        s
    } else {
        match m {
            UiMessage::Log(line) => s.said(clock, line@),
            UiMessage::Status(text) => s.said(clock, text@),
            UiMessage::Refresh => s,
            UiMessage::RuntimeInstalled { report, devices } => s.installed(
                clock,
                report,
                devices,
            ),
            UiMessage::RuntimeInstallFailed(e) => s.install_failed(clock, e@),
            UiMessage::RuntimeUnblocked { message, report } => s.unblocked(
                clock,
                message@,
                report,
            ),
            UiMessage::RuntimeUnblockFailed(e) => s.unblock_failed(clock, e@),
            UiMessage::JobFileOk(d) => s.file_done(clock, d),
            UiMessage::JobFileErr { job_id, index, total, audio_path, error } => s.said(
                clock,
                "Job #"@ + file_mark(job_id, index, total) + " failed ("@ + audio_path@.text()
                    + "): "@ + error@,
            ),
            UiMessage::JobDone(id) => s.job_over(clock, id, b.idle()),
            UiMessage::ChatDone { source_path, log, reloaded } => s.chat_over(
                clock,
                source_path@,
                log,
                reloaded,
            ),
            UiMessage::ChatFailed(e) => s.chat_failed(clock, e@),
            UiMessage::AnonymiseDone { answer, source_text, original_exists, selected_exists } => {
                let noted = s.answer_noted(answer@);
                match reported(answer@) {
                    Err(why) => noted.anonymise_failed(clock, why),
                    Ok(matches) => noted.answer_applied(
                        clock,
                        matches,
                        source_text@,
                        b.original_output_path,
                        original_exists,
                        selected_exists,
                    ).0,
                }
            },
            UiMessage::AnonymiseFailed(e) => s.anonymise_unanswered(clock, e@),
            UiMessage::DownloadStatus { .. } => s,
            UiMessage::WhisperInstalled(path) => s.whisper_installed(clock, path@),
            UiMessage::LiveModelInstalled(path) => s.live_installed(clock, path@),
            UiMessage::ChatModelInstalled(path) => s.chat_installed(clock, path@),
            UiMessage::DiarizationInstalled(path) => s.diarization_installed(clock, path@),
            UiMessage::LiveSessionStarted { input_device, recording_path, transcript_path, .. } =>
            s.live_began(input_device@, recording_path@, transcript_path@),
            UiMessage::LiveTextAppend { chunk, .. } => SessionView {
                live: LiveView { text: with_chunk(s.live.text, chunk@), ..s.live },
                ..s
            },
            UiMessage::LiveTextSet { text, .. } => SessionView {
                live: LiveView { text: text@, ..s.live },
                ..s
            },
            UiMessage::LiveSessionFinished {
                input_device,
                recording_path,
                transcript_path,
                preview_text,
                ..
            } => s.live_saved(
                clock,
                input_device@,
                recording_path@,
                transcript_path@,
                preview_text@,
            ),
            UiMessage::LiveSessionFailed { error, .. } => s.live_failed(clock, error@),
        }
    }
}

/// The board after a message.
pub open spec fn board_after_message(s: SessionView, b: BoardView, m: UiMessage) -> BoardView {
    if is_stale(s, m) {
        b
    } else {
        match m {
            UiMessage::Status(text) => board_after_status(b, text@),
            UiMessage::RuntimeInstalled { .. } => board_without_status(b),
            UiMessage::RuntimeInstallFailed(_) => board_without_status(b),
            UiMessage::RuntimeUnblocked { .. } => board_without_status(b),
            UiMessage::RuntimeUnblockFailed(_) => board_without_status(b),
            UiMessage::JobFileOk(d) => board_after_file(b, d),
            UiMessage::ChatDone { .. } => b.task_ended(),
            UiMessage::ChatFailed(_) => b.task_ended(),
            UiMessage::AnonymiseDone { .. } => b.task_ended(),
            UiMessage::AnonymiseFailed(_) => b.task_ended(),
            UiMessage::DownloadStatus { kind, status } => b.download_said(kind, text_view(status)),
            UiMessage::LiveSessionFinished { recording_path, transcript_path, .. } =>
            board_after_live(b, recording_path@, transcript_path@),
            _ => b,
        }
    }
}

/// What has to be saved after a message, and what the anonymisation counted.
pub open spec fn save_after(s: SessionView, b: BoardView, clock: Clock, m: UiMessage) -> Option<
    (PlanView, AnonymiseCounts),
> {
    match m {
        UiMessage::AnonymiseDone { answer, source_text, original_exists, selected_exists } => {
            let noted = s.answer_noted(answer@);
            match reported(answer@) {
                Err(_) => None,
                Ok(matches) => match noted.answer_applied(
                    clock,
                    matches,
                    source_text@,
                    b.original_output_path,
                    original_exists,
                    selected_exists,
                ).1 {
                    Some(plan) => Some(
                        (plan, counts_of(noted.base_text(source_text@), matches)),
                    ),
                    None => None,
                },
            }
        },
        _ => None,
    }
}

/// Whether `next` is what the program has to do after a message.
pub open spec fn is_follow_up(
    s: SessionView,
    b: BoardView,
    clock: Clock,
    m: UiMessage,
    next: FollowUp,
) -> bool {
    match next {
        FollowUp::Nothing => !(m is JobFileOk) && save_after(s, b, clock, m) is None,
        FollowUp::ChooseChatSource => m is JobFileOk,
        FollowUp::SaveAnonymised(save) => save_after(s, b, clock, m) == Some(
            (save.plan@, save.counts),
        ),
    }
}

/// A message of a live session other than the one that runs changes nothing.
pub proof fn lemma_stale_messages_do_nothing(
    s: SessionView,
    b: BoardView,
    clock: Clock,
    m: UiMessage,
)
    requires
        live_session_of(m) is Some,
        s.live.session_id != live_session_of(m),
    ensures
        after_message(s, b, clock, m) == s,
        board_after_message(s, b, m) == b,
{
}

/// Once a live session was saved or failed, every later message of it changes nothing.
pub proof fn lemma_ended_session_is_stale(
    s: SessionView,
    b: BoardView,
    clock: Clock,
    last: UiMessage,
    later: UiMessage,
)
    requires
        last is LiveSessionFinished || last is LiveSessionFailed,
        s.live.session_id == live_session_of(last),
        live_session_of(later) == live_session_of(last),
    ensures
        is_stale(after_message(s, b, clock, last), later),
{
}

/// A file that was transcribed resets its edited copy: both show the same text with the same cues.
pub proof fn lemma_new_transcript_resets_edited(
    s: SessionView,
    b: BoardView,
    clock: Clock,
    d: FileDone,
)
    ensures
        ({
            let r = after_message(s, b, clock, UiMessage::JobFileOk(d)).review;
            &&& r.edited_text == d.output_text@
            &&& r.transcription_text == d.output_text@
            &&& r.edited_cues == r.cues
            &&& r.output_path == Some(d.output_path@)
        }),
{
}

impl Session {
    /// Says what came of an installation.
    fn tell_install(&mut self, clock: &Clock)
        ensures
            final(self)@ == old(self)@.install_told(*clock),
    {
        assert(views(self.runtime.missing@).len() == self.runtime.missing@.len());
        if self.runtime.missing.len() == 0 {
            self.push_status(
                clock,
                "Runtime install complete. Run 'Unblock unsigned runtime', then Recheck.",
            );
        } else {
            self.push_status(
                clock,
                "Runtime install finished but validation still reports missing components.",
            );
        }
    }

    /// Notes what was found where the runtime was installed.
    fn note_install(&mut self, report: &RuntimeReport)
        ensures
            final(self)@ == old(self)@.install_found(*report),
    {
        let missing: Vec<String> = runtime_missing_messages(
            self.platform,
            report.runtime_dir.as_str(),
            &report.probe,
        );
        assert(views(missing@).len() == missing@.len());
        self.settings.runtime_dir = report.runtime_dir.clone();
        self.runtime.install_in_progress = false;
        self.runtime.post_install_prompt = missing.len() == 0;
        self.runtime.show_missing_window = true;
        self.runtime.missing = missing;
    }

    /// Offers the devices of a runtime.
    pub fn offer_devices(&mut self, devices: Option<Vec<BridgeDevice>>)
        ensures
            final(self)@ == old(self)@.with_devices(devices),
    {
        let options: Vec<crate::devices::AudioDeviceOption> = enumerate_audio_device_options(
            self.platform,
            devices,
        );
        self.runtime.selected_audio_device = resolve_audio_device_index(
            self.platform,
            options.as_slice(),
            &self.settings,
        );
        self.runtime.audio_devices = options;
    }

    /// Offers the backends after an installation.
    fn offer_installed_backends(&mut self, available: &Option<Vec<String>>, probe: &RuntimeProbe)
        ensures
            final(self)@ == old(self)@.with_installed_backends(
                match *available {
                    Some(list) => Some(views(list@)),
                    None => None,
                },
                *probe,
            ),
    {
        let (backends, index): (Vec<String>, usize) = choose_installed_backend(
            self.platform,
            &mut self.settings,
            available,
            probe,
        );
        self.runtime.backends = backends;
        self.runtime.selected_backend = index;
    }

    /// Chooses a GPU for the user, where they left that open.
    pub fn choose_gpu(&mut self, clock: &Clock)
        ensures
            final(self)@ == old(self)@.gpu_chosen(*clock),
    {
        let index: usize = self.runtime.selected_audio_device;
        if auto_select_gpu(&mut self.settings, self.runtime.audio_devices.as_slice(), index) {
            self.push_log_only(clock, "Auto-selected macOS Metal GPU for runtime.");
        }
    }

    /// Notes that the runtime was installed.
    fn runtime_installed(
        &mut self,
        clock: &Clock,
        report: &RuntimeReport,
        devices: Option<Vec<BridgeDevice>>,
    )
        ensures
            final(self)@ == old(self)@.installed(*clock, *report, devices),
    {
        self.note_install(report);
        self.tell_install(clock);
        self.offer_devices(devices);
        self.offer_installed_backends(&report.available_backends, &report.probe);
        self.choose_gpu(clock);
        self.queue_save(clock);
    }

    /// Notes that an installation failed.
    fn runtime_install_failed(&mut self, clock: &Clock, error: &str)
        ensures
            final(self)@ == old(self)@.install_failed(*clock, error@),
    {
        self.runtime.install_in_progress = false;
        self.runtime.post_install_prompt = false;
        self.runtime.show_missing_window = true;
        let text: String = cat2("Runtime install failed: ", error);
        self.push_status(clock, text.as_str());
        self.open_modal("Runtime install failed", error, true);
    }

    /// Notes that the runtime was unblocked.
    fn runtime_unblocked(&mut self, clock: &Clock, message: &str, report: &RuntimeReport)
        ensures
            final(self)@ == old(self)@.unblocked(*clock, message@, *report),
    {
        self.runtime.unblock_in_progress = false;
        self.runtime.post_install_prompt = false;
        self.push_status(clock, message);
        self.refresh_runtime_state(clock, report);
        let issues: Vec<String> = super::runtime_panel::runtime_setup_issues(&report.models);
        assert(views(issues@).len() == issues@.len());
        assert(views(self.runtime.missing@).len() == self.runtime.missing@.len());
        if self.runtime.missing.len() == 0 && issues.len() == 0 {
            self.runtime.show_missing_window = false;
            self.push_status(clock, "Runtime/setup detected.");
        }
    }

    /// Notes that unblocking the runtime failed.
    fn runtime_unblock_failed(&mut self, clock: &Clock, error: &str)
        ensures
            final(self)@ == old(self)@.unblock_failed(*clock, error@),
    {
        self.runtime.unblock_in_progress = false;
        self.runtime.show_missing_window = true;
        let text: String = cat2("Unsigned runtime unblock failed: ", error);
        self.push_status(clock, text.as_str());
        self.open_modal("Unsigned runtime unblock failed", error, true);
    }

    /// Shows a file that was transcribed.
    fn show_file(&mut self, d: &FileDone)
        ensures
            final(self)@ == old(self)@.file_shown(*d),
    {
        self.settings.audio_file = d.audio_path.text();
        self.review.active_audio_path = Some(d.audio_path.copy());
        self.review.preprocess_note = d.preprocess_note.clone();
        self.review.output_path = Some(d.output_path.copy());
        self.review.show_texts(d.output_text.clone(), d.output_text.clone());
    }

    /// Tells of a file that was transcribed.
    fn tell_file(&mut self, clock: &Clock, d: &FileDone)
        ensures
            final(self)@ == old(self)@.file_told(*clock, *d),
    {
        let done: String = done_text(d);
        self.push_status(clock, done.as_str());
        let detail: String = detail_text(d);
        self.push_log_only(clock, detail.as_str());
        if let Some(shown) = show_answer(&d.response) {
            let line: String = answer_text(d, shown.as_str());
            self.push_log_only(clock, line.as_str());
        }
    }

    /// Notes that a file was transcribed.
    fn note_file(&mut self, clock: &Clock, d: &FileDone)
        ensures
            final(self)@ == old(self)@.file_done(*clock, *d),
    {
        if let Some(e) = &d.reset_error {
            let edited: FilePath = edited_file_path(&d.output_path);
            let name: String = edited.text();
            let line: String = cat4(
                "Failed to reset edited output '",
                name.as_str(),
                "': ",
                e.as_str(),
            );
            self.push_log_only(clock, line.as_str());
        }
        self.show_file(d);
        self.tell_file(clock, d);
        self.queue_save(clock);
    }

    /// Notes that a job ended.
    fn note_job_done(&mut self, clock: &Clock, id: u64, idle: bool)
        ensures
            final(self)@ == old(self)@.job_over(*clock, id, idle),
    {
        let number: String = decimal_text(id);
        let text: String = cat3("Job #", number.as_str(), " complete.");
        self.push_status(clock, text.as_str());
        if idle {
            self.is_transcribing = false;
        }
    }

    /// Notes that a chat ended.
    fn note_chat_done(
        &mut self,
        clock: &Clock,
        source: &FilePath,
        log: Result<FilePath, String>,
        reloaded: Option<(String, String)>,
    )
        ensures
            final(self)@ == old(self)@.chat_over(*clock, source@, log, reloaded),
    {
        self.chat.is_chatting = false;
        match log {
            Err(e) => {
                let text: String = cat2("Chat complete, but failed to save log: ", e.as_str());
                self.push_status(clock, text.as_str());
            },
            Ok(path) => {
                let same: bool = match &self.chat.source_path {
                    Some(p) => p.same(source),
                    None => false,
                };
                if let Some((context, history)) = reloaded {
                    if same {
                        self.chat.context_text = context;
                        self.chat.history_text = history;
                    }
                }
                let name: String = path.text();
                let text: String = cat2("Chat complete. Log saved: ", name.as_str());
                self.push_status(clock, text.as_str());
            },
        }
    }

    /// Notes that a chat failed.
    fn note_chat_failed(&mut self, clock: &Clock, error: &str)
        ensures
            final(self)@ == old(self)@.chat_failed(*clock, error@),
    {
        self.chat.is_chatting = false;
        let text: String = cat2("Chat failed: ", error);
        self.push_status(clock, text.as_str());
    }

    /// Notes that an anonymisation failed before the language model answered.
    fn note_anonymise_failed(&mut self, clock: &Clock, error: &str)
        ensures
            final(self)@ == old(self)@.anonymise_unanswered(*clock, error@),
    {
        self.anonymise.running = false;
        self.fail_anonymise(clock, error);
    }

    /// Notes that a transcription model was installed.
    fn note_whisper(&mut self, clock: &Clock, path: String)
        ensures
            final(self)@ == old(self)@.whisper_installed(*clock, path@),
    {
        let text: String = cat2("Whisper model installed: ", path.as_str());
        self.set_whisper_model(path);
        self.push_status(clock, text.as_str());
        self.queue_save(clock);
    }

    /// Notes that a model for live transcription was installed.
    fn note_live_model(&mut self, clock: &Clock, path: String)
        ensures
            final(self)@ == old(self)@.live_installed(*clock, path@),
    {
        let text: String = cat2("Realtime transcription model installed: ", path.as_str());
        self.set_live_model(path);
        self.push_status(clock, text.as_str());
        self.queue_save(clock);
    }

    /// Notes that a language model was installed.
    fn note_chat_model(&mut self, clock: &Clock, path: String)
        ensures
            final(self)@ == old(self)@.chat_installed(*clock, path@),
    {
        let text: String = cat2("Chat model installed: ", path.as_str());
        self.set_chat_model(path);
        self.push_status(clock, text.as_str());
        self.queue_save(clock);
    }

    /// Notes that the diarization model was installed.
    fn note_diarization(&mut self, clock: &Clock, path: String)
        ensures
            final(self)@ == old(self)@.diarization_installed(*clock, path@),
    {
        let text: String = cat2("Sortformer diarization model installed: ", path.as_str());
        self.settings.diarization_models_dir = path;
        self.push_status(clock, text.as_str());
        self.queue_save(clock);
    }

    /// Notes that a live session began.
    fn note_live_began(
        &mut self,
        input_device: String,
        recording: FilePath,
        transcript: FilePath,
    )
        ensures
            final(self)@ == old(self)@.live_began(input_device@, recording@, transcript@),
    {
        self.live.input_label = input_device;
        self.live.recording_path = Some(recording);
        self.live.transcript_path = Some(transcript);
        self.live.text = String::new();
        assert(self.live.text@ =~= Seq::<char>::empty());
    }

    /// Notes that a live session was saved.
    fn note_live_saved(
        &mut self,
        clock: &Clock,
        input_device: String,
        recording: FilePath,
        transcript: FilePath,
        preview: String,
    )
        ensures
            final(self)@ == old(self)@.live_saved(
                *clock,
                input_device@,
                recording@,
                transcript@,
                preview@,
            ),
    {
        let name: String = transcript.text();
        let text: String = cat2("Live transcription saved: ", name.as_str());
        self.live.capturing = false;
        self.live.session_id = None;
        self.live.input_label = input_device;
        self.live.transcript_path = Some(transcript);
        self.live.text = preview;
        self.review.active_audio_path = Some(recording.copy());
        self.settings.audio_file = recording.text();
        self.live.recording_path = Some(recording);
        self.push_status(clock, text.as_str());
        self.queue_save(clock);
    }

    /// Notes that a live session failed.
    fn note_live_failed(&mut self, clock: &Clock, error: &str)
        ensures
            final(self)@ == old(self)@.live_failed(*clock, error@),
    {
        self.live.capturing = false;
        self.live.session_id = None;
        let text: String = cat2("Live transcription failed: ", error);
        self.push_status(clock, text.as_str());
        self.open_modal("Live transcription failed", error, true);
        self.queue_save(clock);
    }

    /// Whether a live session is the one that runs.
    fn is_live(&self, id: u64) -> (r: bool)
        ensures
            r == (self@.live.session_id == Some(id)),
    {
        match self.live.session_id {
            Some(own) => own == id,
            None => false,
        }
    }

    /// Does what a message asks for, where the log can tell of it; else nothing is done and nothing
    /// said.
    pub fn try_process_message(
        &mut self,
        board: &mut JobBoard,
        clock: &Clock,
        message: UiMessage,
    ) -> (r: Option<FollowUp>)
        requires
            old(board).completed_jobs < usize::MAX,
        ensures
            match r {
                Some(next) => {
                    &&& can_be_told(message)
                    &&& final(self)@ == after_message(old(self)@, old(board)@, *clock, message)
                    &&& final(board)@ == board_after_message(old(self)@, old(board)@, message)
                    &&& is_follow_up(old(self)@, old(board)@, *clock, message, next)
                },
                None => !can_be_told(message) && final(self)@ == old(self)@ && final(board)@
                    == old(board)@,
            },
    {
        if let UiMessage::JobFileOk(d) = &message {
            if !can_show(&d.response) {
                return None;
            }
        }
        Some(self.process_message(board, clock, message))
    }

    /// Does what a message asks for, and says what the program has to do then.
    #[verifier::rlimit(30)]
    pub fn process_message(
        &mut self,
        board: &mut JobBoard,
        clock: &Clock,
        message: UiMessage,
    ) -> (r: FollowUp)
        requires
            old(board).completed_jobs < usize::MAX,
            can_be_told(message),
        ensures
            final(self)@ == after_message(old(self)@, old(board)@, *clock, message),
            final(board)@ == board_after_message(old(self)@, old(board)@, message),
            is_follow_up(old(self)@, old(board)@, *clock, message, r),
    {
        match message {
            UiMessage::Log(line) => {
                self.push_status(clock, line.as_str());
                FollowUp::Nothing
            },
            UiMessage::Status(text) => {
                note_status(board, text.as_str());
                self.push_status(clock, text.as_str());
                FollowUp::Nothing
            },
            UiMessage::Refresh => FollowUp::Nothing,
            UiMessage::RuntimeInstalled { report, devices } => {
                board.download_status = None;
                self.runtime_installed(clock, &report, devices);
                FollowUp::Nothing
            },
            UiMessage::RuntimeInstallFailed(error) => {
                board.download_status = None;
                self.runtime_install_failed(clock, error.as_str());
                FollowUp::Nothing
            },
            UiMessage::RuntimeUnblocked { message, report } => {
                board.download_status = None;
                self.runtime_unblocked(clock, message.as_str(), &report);
                FollowUp::Nothing
            },
            UiMessage::RuntimeUnblockFailed(error) => {
                board.download_status = None;
                self.runtime_unblock_failed(clock, error.as_str());
                FollowUp::Nothing
            },
            UiMessage::JobFileOk(d) => {
                note_file_on_board(board, &d);
                self.note_file(clock, &d);
                FollowUp::ChooseChatSource
            },
            UiMessage::JobFileErr { job_id, index, total, audio_path, error } => {
                let text: String = file_failed_text(
                    job_id,
                    index,
                    total,
                    &audio_path,
                    error.as_str(),
                );
                self.push_status(clock, text.as_str());
                FollowUp::Nothing
            },
            UiMessage::JobDone(id) => {
                let idle: bool = board.is_idle();
                self.note_job_done(clock, id, idle);
                FollowUp::Nothing
            },
            UiMessage::ChatDone { source_path, log, reloaded } => {
                board.task_ends();
                self.note_chat_done(clock, &source_path, log, reloaded);
                FollowUp::Nothing
            },
            UiMessage::ChatFailed(error) => {
                board.task_ends();
                self.note_chat_failed(clock, error.as_str());
                FollowUp::Nothing
            },
            UiMessage::AnonymiseDone { answer, source_text, original_exists, selected_exists } => {
                let save: Option<AnonymiseSave> = self.apply_anonymise_response(
                    board,
                    clock,
                    answer.as_str(),
                    source_text.as_str(),
                    original_exists,
                    selected_exists,
                );
                board.task_ends();
                match save {
                    Some(s) => FollowUp::SaveAnonymised(s),
                    None => FollowUp::Nothing,
                }
            },
            UiMessage::AnonymiseFailed(error) => {
                board.task_ends();
                self.note_anonymise_failed(clock, error.as_str());
                FollowUp::Nothing
            },
            UiMessage::DownloadStatus { kind, status } => {
                board.set_download(kind, status);
                FollowUp::Nothing
            },
            UiMessage::WhisperInstalled(path) => {
                self.note_whisper(clock, path);
                FollowUp::Nothing
            },
            UiMessage::LiveModelInstalled(path) => {
                self.note_live_model(clock, path);
                FollowUp::Nothing
            },
            UiMessage::ChatModelInstalled(path) => {
                self.note_chat_model(clock, path);
                FollowUp::Nothing
            },
            UiMessage::DiarizationInstalled(path) => {
                self.note_diarization(clock, path);
                FollowUp::Nothing
            },
            UiMessage::LiveSessionStarted {
                session_id,
                input_device,
                recording_path,
                transcript_path,
            } => {
                if self.is_live(session_id) {
                    self.note_live_began(input_device, recording_path, transcript_path);
                }
                FollowUp::Nothing
            },
            UiMessage::LiveTextAppend { session_id, chunk } => {
                if self.is_live(session_id) {
                    append_live_preview_text(&mut self.live.text, chunk.as_str());
                }
                FollowUp::Nothing
            },
            UiMessage::LiveTextSet { session_id, text } => {
                if self.is_live(session_id) {
                    self.live.text = text;
                }
                FollowUp::Nothing
            },
            UiMessage::LiveSessionFinished {
                session_id,
                input_device,
                recording_path,
                transcript_path,
                preview_text,
            } => {
                if self.is_live(session_id) {
                    note_live_on_board(board, &recording_path, &transcript_path);
                    self.note_live_saved(
                        clock,
                        input_device,
                        recording_path,
                        transcript_path,
                        preview_text,
                    );
                }
                FollowUp::Nothing
            },
            UiMessage::LiveSessionFailed { session_id, error } => {
                if self.is_live(session_id) {
                    self.note_live_failed(clock, error.as_str());
                }
                FollowUp::Nothing
            },
        }
    }
}

/// Notes a status on the board where it tells of a download.
fn note_status(board: &mut JobBoard, text: &str)
    ensures
        final(board)@ == board_after_status(old(board)@, text@),
{
    let low: String = to_ascii_lowercase(text);
    if contains_text(low.as_str(), "downloading ") || begins_with(
        low.as_str(),
        "extracting runtime",
    ) {
        board.download_status = Some(text.to_owned());
    }
}

/// Notes on the board that a file was transcribed.
fn note_file_on_board(board: &mut JobBoard, d: &FileDone)
    ensures
        final(board)@ == board_after_file(old(board)@, *d),
{
    let edited: FilePath = edited_file_path(&d.output_path);
    board.know_outputs(&d.output_path, &edited);
    board.active_audio_path = Some(d.audio_path.copy());
    board.active_job = match board.active_job {
        Some(_) => Some(ActiveJob { id: d.job_id, total_files: d.total, done_files: d.index }),
        None => None,
    };
}

/// Notes on the board that a live session was saved.
fn note_live_on_board(board: &mut JobBoard, recording: &FilePath, transcript: &FilePath)
    ensures
        final(board)@ == board_after_live(old(board)@, recording@, transcript@),
{
    ensure_output_entry(&mut board.output_entries, transcript.copy(), false);
    ensure_media_entry(&mut board.media_entries, recording, false);
    board.active_audio_path = Some(recording.copy());
}

} // verus!
