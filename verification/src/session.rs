//! The state of the window and what its events do to it.
//!
//! Reading and writing files, running the engine and showing widgets is left to the program; what
//! came of it is handed in, and each event says what the state is afterwards.
use crate::anonymise::kind::AnonymiseEntityKind;
use crate::board::path_view;
use crate::devices::{option_views, AudioDeviceOption, OptionView};
use crate::pages::AppPage;
use crate::paths::{FilePath, PathView, Platform};
use crate::settings::{AppSettings, SettingsView};
use crate::speakers::{rename_views, SpeakerRenameEntry};
use crate::text::{cat4, views};
use crate::transcript::TranscriptCue;
use vstd::prelude::*;
use vstd::string::*;

pub mod chat;
pub mod messages;
pub mod outcomes;
pub mod playing;
pub mod review;
pub mod runtime_panel;
pub mod setup;
pub mod startup;

verus! {

/// What the time is: the milliseconds of a clock that never goes back, and the time of day.
pub struct Clock {
    pub now_ms: u64,
    pub hms: String,
}

/// The time `delay` milliseconds later.
#[verifier::allow_in_spec]
pub fn later(now_ms: u64, delay: u64) -> u64
    returns
        (if now_ms <= u64::MAX - delay {
            (now_ms + delay) as u64
        } else {
            u64::MAX
        }),
{
    if now_ms <= u64::MAX - delay {
        now_ms + delay
    } else {
        u64::MAX
    }
}

/// A message that waits to be closed.
#[derive(Debug)]
pub struct UiModal {
    pub title: String,
    pub message: String,
    pub is_error: bool,
}

/// What a message says.
pub struct ModalView {
    pub title: Seq<char>,
    pub message: Seq<char>,
    pub is_error: bool,
}

impl View for UiModal {
    type V = ModalView;

    open spec fn view(&self) -> ModalView {
        ModalView { title: self.title@, message: self.message@, is_error: self.is_error }
    }
}

/// The view of a message that may be missing.
pub open spec fn modal_view(modal: Option<UiModal>) -> Option<ModalView> {
    match modal {
        Some(m) => Some(m@),
        None => None,
    }
}

/// The runtime and the devices it can run on.
#[derive(Debug)]
pub struct RuntimePanel {
    pub missing: Vec<String>,
    pub show_missing_window: bool,
    pub install_in_progress: bool,
    pub unblock_in_progress: bool,
    pub post_install_prompt: bool,
    pub popup_active: bool,
    pub missing_on_popup_open: bool,
    pub backends: Vec<String>,
    pub selected_backend: usize,
    pub audio_devices: Vec<AudioDeviceOption>,
    pub selected_audio_device: usize,
}

/// What is known of the runtime and its devices.
pub struct RuntimeView {
    pub missing: Seq<Seq<char>>,
    pub show_missing_window: bool,
    pub install_in_progress: bool,
    pub unblock_in_progress: bool,
    pub post_install_prompt: bool,
    pub popup_active: bool,
    pub missing_on_popup_open: bool,
    pub backends: Seq<Seq<char>>,
    pub selected_backend: usize,
    pub audio_devices: Seq<OptionView>,
    pub selected_audio_device: usize,
}

impl View for RuntimePanel {
    type V = RuntimeView;

    open spec fn view(&self) -> RuntimeView {
        RuntimeView {
            missing: views(self.missing@),
            show_missing_window: self.show_missing_window,
            install_in_progress: self.install_in_progress,
            unblock_in_progress: self.unblock_in_progress,
            post_install_prompt: self.post_install_prompt,
            popup_active: self.popup_active,
            missing_on_popup_open: self.missing_on_popup_open,
            backends: views(self.backends@),
            selected_backend: self.selected_backend,
            audio_devices: option_views(self.audio_devices@),
            selected_audio_device: self.selected_audio_device,
        }
    }
}

impl RuntimeView {
    /// Whether the runtime is being installed or unblocked.
    pub open spec fn busy(self) -> bool {
        self.install_in_progress || self.unblock_in_progress
    }
}

/// The transcript that is open, and its edited copy.
#[derive(Debug)]
pub struct Review {
    pub transcription_text: String,
    pub cues: Vec<TranscriptCue>,
    pub edited_text: String,
    pub edited_cues: Vec<TranscriptCue>,
    pub editing_enabled: bool,
    pub edit_pause_until: Option<u64>,
    pub output_path: Option<FilePath>,
    pub active_audio_path: Option<FilePath>,
    pub preprocess_note: String,
    pub selected_output_row: Option<usize>,
    pub rename_entries: Vec<SpeakerRenameEntry>,
    pub show_rename_window: bool,
}

/// What is open.
pub struct ReviewView {
    pub transcription_text: Seq<char>,
    pub cues: Seq<TranscriptCue>,
    pub edited_text: Seq<char>,
    pub edited_cues: Seq<TranscriptCue>,
    pub editing_enabled: bool,
    pub edit_pause_until: Option<u64>,
    pub output_path: Option<PathView>,
    pub active_audio_path: Option<PathView>,
    pub preprocess_note: Seq<char>,
    pub selected_output_row: Option<usize>,
    pub rename_entries: Seq<(Seq<char>, Seq<char>)>,
    pub show_rename_window: bool,
}

impl View for Review {
    type V = ReviewView;

    open spec fn view(&self) -> ReviewView {
        ReviewView {
            transcription_text: self.transcription_text@,
            cues: self.cues@,
            edited_text: self.edited_text@,
            edited_cues: self.edited_cues@,
            editing_enabled: self.editing_enabled,
            edit_pause_until: self.edit_pause_until,
            output_path: path_view(self.output_path),
            active_audio_path: path_view(self.active_audio_path),
            preprocess_note: self.preprocess_note@,
            selected_output_row: self.selected_output_row,
            rename_entries: rename_views(self.rename_entries@),
            show_rename_window: self.show_rename_window,
        }
    }
}

/// The chat about a transcript.
#[derive(Debug)]
pub struct ChatPanel {
    pub is_chatting: bool,
    pub source_path: Option<FilePath>,
    pub history_text: String,
    pub context_text: String,
    pub input_text: String,
}

/// What the chat shows.
pub struct ChatView {
    pub is_chatting: bool,
    pub source_path: Option<PathView>,
    pub history_text: Seq<char>,
    pub context_text: Seq<char>,
    pub input_text: Seq<char>,
}

impl View for ChatPanel {
    type V = ChatView;

    open spec fn view(&self) -> ChatView {
        ChatView {
            is_chatting: self.is_chatting,
            source_path: path_view(self.source_path),
            history_text: self.history_text@,
            context_text: self.context_text@,
            input_text: self.input_text@,
        }
    }
}

/// The anonymisation of a transcript.
#[derive(Debug)]
pub struct AnonymisePanel {
    pub running: bool,
    pub selected_kinds: Vec<AnonymiseEntityKind>,
    pub last_response: String,
}

/// What is known of the anonymisation.
pub struct AnonymiseView {
    pub running: bool,
    pub selected_kinds: Seq<AnonymiseEntityKind>,
    pub last_response: Seq<char>,
}

impl View for AnonymisePanel {
    type V = AnonymiseView;

    open spec fn view(&self) -> AnonymiseView {
        AnonymiseView {
            running: self.running,
            selected_kinds: self.selected_kinds@,
            last_response: self.last_response@,
        }
    }
}

/// The live session.
#[derive(Debug)]
pub struct LivePanel {
    pub capturing: bool,
    pub session_id: Option<u64>,
    pub text: String,
    pub recording_path: Option<FilePath>,
    pub transcript_path: Option<FilePath>,
    pub input_label: String,
}

/// What is known of the live session.
pub struct LiveView {
    pub capturing: bool,
    pub session_id: Option<u64>,
    pub text: Seq<char>,
    pub recording_path: Option<PathView>,
    pub transcript_path: Option<PathView>,
    pub input_label: Seq<char>,
}

impl View for LivePanel {
    type V = LiveView;

    open spec fn view(&self) -> LiveView {
        LiveView {
            capturing: self.capturing,
            session_id: self.session_id,
            text: self.text@,
            recording_path: path_view(self.recording_path),
            transcript_path: path_view(self.transcript_path),
            input_label: self.input_label@,
        }
    }
}

/// What playback waits for. Times of the recording are in microseconds.
#[derive(Debug)]
pub struct PlaybackPanel {
    pub decode_in_progress: bool,
    pub decode_autoplay: bool,
    pub pending_start: Option<(FilePath, u64)>,
    pub follow_pause_until: Option<u64>,
    pub click_sync_target: Option<(u64, u64)>,
}

/// What playback waits for.
pub struct PlaybackView {
    pub decode_in_progress: bool,
    pub decode_autoplay: bool,
    pub pending_start: Option<(PathView, u64)>,
    pub follow_pause_until: Option<u64>,
    pub click_sync_target: Option<(u64, u64)>,
}

impl View for PlaybackPanel {
    type V = PlaybackView;

    open spec fn view(&self) -> PlaybackView {
        PlaybackView {
            decode_in_progress: self.decode_in_progress,
            decode_autoplay: self.decode_autoplay,
            pending_start: match self.pending_start {
                Some(p) => Some((p.0@, p.1)),
                None => None,
            },
            follow_pause_until: self.follow_pause_until,
            click_sync_target: self.click_sync_target,
        }
    }
}

/// The state of the window.
#[derive(Debug)]
pub struct Session {
    pub platform: Platform,
    pub settings: AppSettings,
    pub page: AppPage,
    pub setup_wizard_step: usize,
    pub status: String,
    pub status_log: Vec<String>,
    pub active_modal: Option<UiModal>,
    pub settings_dirty: bool,
    pub next_save_ms: u64,
    pub whisper_models: usize,
    pub live_models: usize,
    pub chat_models: usize,
    pub is_transcribing: bool,
    pub runtime: RuntimePanel,
    pub review: Review,
    pub chat: ChatPanel,
    pub anonymise: AnonymisePanel,
    pub live: LivePanel,
    pub playback: PlaybackPanel,
}

/// What the window shows.
pub struct SessionView {
    pub platform: Platform,
    pub settings: SettingsView,
    pub page: AppPage,
    pub setup_wizard_step: usize,
    pub status: Seq<char>,
    pub status_log: Seq<Seq<char>>,
    pub active_modal: Option<ModalView>,
    pub settings_dirty: bool,
    pub next_save_ms: u64,
    pub whisper_models: usize,
    pub live_models: usize,
    pub chat_models: usize,
    pub is_transcribing: bool,
    pub runtime: RuntimeView,
    pub review: ReviewView,
    pub chat: ChatView,
    pub anonymise: AnonymiseView,
    pub live: LiveView,
    pub playback: PlaybackView,
}

impl View for Session {
    type V = SessionView;

    open spec fn view(&self) -> SessionView {
        SessionView {
            platform: self.platform,
            settings: self.settings@,
            page: self.page,
            setup_wizard_step: self.setup_wizard_step,
            status: self.status@,
            status_log: views(self.status_log@),
            active_modal: modal_view(self.active_modal),
            settings_dirty: self.settings_dirty,
            next_save_ms: self.next_save_ms,
            whisper_models: self.whisper_models,
            live_models: self.live_models,
            chat_models: self.chat_models,
            is_transcribing: self.is_transcribing,
            runtime: self.runtime@,
            review: self.review@,
            chat: self.chat@,
            anonymise: self.anonymise@,
            live: self.live@,
            playback: self.playback@,
        }
    }
}

/// How many lines the log keeps.
pub const LOG_LINES: usize = 500;

/// How long after a change the settings are saved.
pub const SAVE_DELAY_MS: u64 = 300;

/// The log with one more line; only the last lines are kept.
pub open spec fn log_with(log: Seq<Seq<char>>, line: Seq<char>) -> Seq<Seq<char>> {
    let all = log.push(line);
    if all.len() > LOG_LINES {
        all.skip(all.len() - LOG_LINES)
    } else {
        all
    }
}

/// A line of the log: the time of day, then what is said.
pub open spec fn log_line(clock: Clock, text: Seq<char>) -> Seq<char> {
    "["@ + clock.hms@ + "] "@ + text
}

impl SessionView {
    /// The state after a text was put into the log.
    pub open spec fn logged(self, clock: Clock, text: Seq<char>) -> SessionView {
        SessionView { status_log: log_with(self.status_log, log_line(clock, text)), ..self }
    }

    /// The state after a text was said: it is shown and put into the log.
    pub open spec fn said(self, clock: Clock, text: Seq<char>) -> SessionView {
        SessionView { status: text, ..self.logged(clock, text) }
    }

    /// The state after the settings were marked for saving.
    pub open spec fn saving(self, clock: Clock) -> SessionView {
        SessionView {
            settings_dirty: true,
            next_save_ms: later(clock.now_ms, SAVE_DELAY_MS),
            ..self
        }
    }

    /// The state after a message was put up that tells of an error.
    pub open spec fn warned(self, title: Seq<char>, message: Seq<char>) -> SessionView {
        SessionView { active_modal: Some(ModalView { title, message, is_error: true }), ..self }
    }
}

/// However much is logged, the log never holds more than it keeps, its last line is the newest, and
/// the lines that stay keep their order.
pub proof fn lemma_log_capped(log: Seq<Seq<char>>, line: Seq<char>)
    ensures
        log_with(log, line).len() <= LOG_LINES,
        log_with(log, line).last() == line,
        log.len() < LOG_LINES ==> log_with(log, line) == log.push(line),
        log.len() >= LOG_LINES ==> log_with(log, line).drop_last() == log.skip(
            log.len() + 1 - LOG_LINES,
        ),
{
    if log.len() >= LOG_LINES {
        let all = log.push(line);
        assert(log_with(log, line).drop_last() =~= log.skip(log.len() + 1 - LOG_LINES));
        assert(all.skip(all.len() - LOG_LINES).last() == line);
    }
}

impl Session {
    /// Puts a text into the log.
    pub fn push_log_only(&mut self, clock: &Clock, text: &str)
        ensures
            final(self)@ == old(self)@.logged(*clock, text@),
    {
        let ghost before = self@;
        let ghost lines = self.status_log@;
        let line: String = cat4("[", clock.hms.as_str(), "] ", text);
        let ghost all = before.status_log.push(line@);
        self.status_log.push(line);
        assert(views(self.status_log@) =~= all);
        let ghost mut dropped: int = 0;
        assert(all.skip(0) =~= all);
        while self.status_log.len() > LOG_LINES
            invariant
                0 <= dropped,
                dropped + self.status_log@.len() == all.len(),
                dropped == 0 || self.status_log@.len() >= LOG_LINES,
                views(self.status_log@) == all.skip(dropped),
                self@ == (SessionView { status_log: views(self.status_log@), ..before }),
            decreases self.status_log@.len(),
        {
            let ghost now = self.status_log@;
            self.status_log.remove(0);
            assert(views(self.status_log@) =~= views(now).skip(1));
            assert(all.skip(dropped).skip(1) =~= all.skip(dropped + 1));
            proof {
                dropped = dropped + 1;
            }
        }
        assert(views(self.status_log@) =~= log_with(before.status_log, log_line(*clock, text@)));
    }

    /// Says a text: shows it and puts it into the log.
    pub fn push_status(&mut self, clock: &Clock, text: &str)
        ensures
            final(self)@ == old(self)@.said(*clock, text@),
    {
        self.status = text.to_owned();
        self.push_log_only(clock, text);
    }

    /// Marks the settings for saving.
    pub fn queue_save(&mut self, clock: &Clock)
        ensures
            final(self)@ == old(self)@.saving(*clock),
    {
        self.settings_dirty = true;
        self.next_save_ms = later(clock.now_ms, SAVE_DELAY_MS);
    }

    /// Puts up a message.
    pub fn open_modal(&mut self, title: &str, message: &str, is_error: bool)
        ensures
            final(self)@ == (SessionView {
                active_modal: Some(ModalView { title: title@, message: message@, is_error }),
                ..old(self)@
            }),
    {
        self.active_modal = Some(
            UiModal { title: title.to_owned(), message: message.to_owned(), is_error },
        );
    }

    /// Empties the log and says so in it.
    pub fn clear_log(&mut self, clock: &Clock)
        ensures
            final(self)@ == (SessionView { status_log: Seq::empty(), ..old(self)@ }).logged(
                *clock,
                "Log cleared."@,
            ),
    {
        self.status_log = Vec::new();
        assert(views(self.status_log@) =~= Seq::<Seq<char>>::empty());
        self.push_log_only(clock, "Log cleared.");
    }

    /// Whether the settings have to be saved now.
    pub fn save_due(&self, clock: &Clock) -> (r: bool)
        ensures
            r == (self@.settings_dirty && self@.next_save_ms <= clock.now_ms),
    {
        self.settings_dirty && self.next_save_ms <= clock.now_ms
    }

    /// Notes what came of saving the settings and the links to the models.
    pub fn settings_saved(
        &mut self,
        clock: &Clock,
        settings: Result<(), String>,
        links: Result<(), String>,
    )
        ensures
            final(self)@ == match (settings, links) {
                (Err(e), _) => old(self)@.said(*clock, "Failed to save settings: "@ + e@),
                (Ok(_), Err(e)) => old(self)@.said(*clock, "Failed to save model links: "@ + e@),
                (Ok(_), Ok(_)) => SessionView {
                    settings_dirty: false,
                    next_save_ms: later(clock.now_ms, 1_000),
                    ..old(self)@
                },
            },
    {
        if let Err(e) = settings {
            let text: String = crate::text::cat2("Failed to save settings: ", e.as_str());
            self.push_status(clock, text.as_str());
            return;
        }
        if let Err(e) = links {
            let text: String = crate::text::cat2("Failed to save model links: ", e.as_str());
            self.push_status(clock, text.as_str());
            return;
        }
        self.settings_dirty = false;
        self.next_save_ms = later(clock.now_ms, 1_000);
    }

    /// Turns to a page.
    pub fn go_to(&mut self, page: AppPage)
        ensures
            final(self)@ == (SessionView { page, ..old(self)@ }),
    {
        self.page = page;
    }
}

/// What saying a text does: it is shown, and it is the last line of the log, behind the time of day;
/// nothing else changes. What is only logged is not shown.
pub proof fn lemma_said(s: SessionView, clock: Clock, text: Seq<char>)
    ensures
        s.said(clock, text).status == text,
        s.said(clock, text).status_log.last() == "["@ + clock.hms@ + "] "@ + text,
        s.said(clock, text) == (SessionView {
            status: text,
            status_log: s.said(clock, text).status_log,
            ..s
        }),
        s.logged(clock, text).status_log == s.said(clock, text).status_log,
        s.logged(clock, text) == (SessionView {
            status_log: s.said(clock, text).status_log,
            ..s
        }),
{
    lemma_log_capped(s.status_log, log_line(clock, text));
}

/// Settings that were changed are saved 300 milliseconds after the last change, and marking them
/// changes nothing else. A message that is put up tells of an error and changes nothing else.
pub proof fn lemma_marked(s: SessionView, clock: Clock, title: Seq<char>, message: Seq<char>)
    ensures
        s.saving(clock).settings_dirty,
        clock.now_ms + 300 <= u64::MAX ==> s.saving(clock).next_save_ms == clock.now_ms + 300,
        s.saving(clock) == (SessionView {
            settings_dirty: true,
            next_save_ms: s.saving(clock).next_save_ms,
            ..s
        }),
        s.warned(title, message).active_modal == Some(
            ModalView { title, message, is_error: true },
        ),
        s.warned(title, message) == (SessionView {
            active_modal: s.warned(title, message).active_modal,
            ..s
        }),
{
}

} // verus!
