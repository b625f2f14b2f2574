//! What the messages of the workers come to.
use super::messages::{
    after_message, board_after_message, done_line, is_stale, FileDone, UiMessage,
};
use super::runtime_panel::{setup_issues, RuntimeReport};
use super::{AnonymiseView, ChatView, Clock, LiveView, SessionView};
use crate::board::{text_view, BoardView};
use crate::devices::BridgeDevice;
use crate::library::{with_entry, with_media};
use crate::live::with_chunk;
use crate::paths::{edited_of, is_known, FilePath, PathView};
use crate::runtime::missing_of;
use crate::settings::SettingsView;
use crate::text::decimal;
use crate::transcript::cues_in;
use vstd::prelude::*;
use vstd::string::*;

verus! {

/// What work ends with the message that tells of its end, well or not: nothing is asked, anonymised,
/// installed, unblocked or captured any more once that is told; and what is told of one kind of work
/// does not end another. The text of a live session grows by what is heard, or is set anew.
#[verifier::rlimit(60)]
pub proof fn lemma_work_ends(s: SessionView, b: BoardView, clock: Clock, m: UiMessage)
    requires
        !is_stale(s, m),
    ensures
        ({
            let after = after_message(s, b, clock, m);
            &&& m is ChatDone || m is ChatFailed ==> !after.chat.is_chatting
            &&& !(m is ChatDone || m is ChatFailed) ==> after.chat == s.chat
            &&& m is AnonymiseDone || m is AnonymiseFailed ==> !after.anonymise.running
            &&& !(m is AnonymiseDone || m is AnonymiseFailed) ==> after.anonymise == s.anonymise
            &&& m is RuntimeInstalled || m is RuntimeInstallFailed
                ==> !after.runtime.install_in_progress
            &&& !(m is RuntimeInstalled || m is RuntimeInstallFailed)
                ==> after.runtime.install_in_progress == s.runtime.install_in_progress
            &&& m is RuntimeUnblocked || m is RuntimeUnblockFailed
                ==> !after.runtime.unblock_in_progress
            &&& !(m is RuntimeUnblocked || m is RuntimeUnblockFailed)
                ==> after.runtime.unblock_in_progress == s.runtime.unblock_in_progress
            &&& m is LiveSessionFinished || m is LiveSessionFailed ==> !after.live.capturing
                && after.live.session_id is None
            &&& !(m is LiveSessionFinished || m is LiveSessionFailed) ==> after.live.capturing
                == s.live.capturing && after.live.session_id == s.live.session_id
            &&& !(m is JobDone) ==> after.is_transcribing == s.is_transcribing
            &&& m matches UiMessage::LiveTextAppend { chunk, .. } ==> after.live == (LiveView {
                text: with_chunk(s.live.text, chunk@),
                ..s.live
            })
            &&& m matches UiMessage::LiveTextSet { text, .. } ==> after.live == (LiveView {
                text: text@,
                ..s.live
            })
            &&& after.playback == s.playback
            &&& after.page == s.page
        }),
{
}

/// Which settings a message changes: a model that was installed is the one that is set, for its kind and
/// for no other; a file that was transcribed and a live session that was saved set the recording, and
/// nothing else. Apart from what is found of the runtime no other message changes a setting.
#[verifier::rlimit(60)]
pub proof fn lemma_settings_after(s: SessionView, b: BoardView, clock: Clock, m: UiMessage)
    requires
        !is_stale(s, m),
    ensures
        ({
            let after = after_message(s, b, clock, m).settings;
            &&& m matches UiMessage::WhisperInstalled(path) ==> after == (SettingsView {
                whisper_model: path@,
                ..s.settings
            })
            &&& m matches UiMessage::LiveModelInstalled(path) ==> after == (SettingsView {
                live_transcription_model: path@,
                ..s.settings
            })
            &&& m matches UiMessage::ChatModelInstalled(path) ==> after == (SettingsView {
                chat_model: path@,
                ..s.settings
            })
            &&& m matches UiMessage::DiarizationInstalled(path) ==> after == (SettingsView {
                diarization_models_dir: path@,
                ..s.settings
            })
            &&& m matches UiMessage::JobFileOk(d) ==> after == (SettingsView {
                audio_file: d.audio_path@.text(),
                ..s.settings
            })
            &&& m matches UiMessage::LiveSessionFinished { recording_path, .. } ==> after == (
            SettingsView { audio_file: recording_path@.text(), ..s.settings })
            &&& m is Log || m is Status || m is Refresh || m is JobFileErr || m is JobDone || m is ChatDone
                || m is ChatFailed || m is AnonymiseDone || m is AnonymiseFailed || m is DownloadStatus
                || m is LiveSessionStarted || m is LiveTextAppend || m is LiveTextSet
                || m is LiveSessionFailed || m is RuntimeInstallFailed || m is RuntimeUnblockFailed
                ==> after == s.settings
        }),
{
}

/// What a message changes of the board: a task that ended is counted; what is said of a download is
/// noted; a file that was transcribed, or a live session that was saved, is known by its recording. The
/// jobs that wait, and the numbers that they have, are changed by no message.
pub proof fn lemma_board_after(s: SessionView, b: BoardView, m: UiMessage)
    requires
        !is_stale(s, m),
    ensures
        ({
            let after = board_after_message(s, b, m);
            &&& after.job_queue == b.job_queue
            &&& after.next_job_id == b.next_job_id
            &&& after.queue_worker_running == b.queue_worker_running
            &&& m is ChatDone || m is ChatFailed || m is AnonymiseDone || m is AnonymiseFailed
                ==> after == b.task_ended()
            &&& m matches UiMessage::DownloadStatus { kind, status } ==> after == b.download_said(
                kind,
                text_view(status),
            )
            &&& m matches UiMessage::JobFileOk(d) ==> {
                &&& after.active_audio_path == Some(d.audio_path@)
                &&& after.original_output_path == Some(d.output_path@)
                &&& after.edited_output_path == Some(edited_of(d.output_path@))
                &&& after.media_entries == b.media_entries
                &&& after.running_jobs == b.running_jobs
                &&& after.completed_jobs == b.completed_jobs
                &&& b.active_job is Some ==> (after.active_job matches Some(job) && job.id
                    == d.job_id && job.done_files == d.index && job.total_files == d.total)
                &&& b.active_job is None ==> after.active_job is None
            }
            &&& m matches UiMessage::LiveSessionFinished {
                recording_path,
                transcript_path,
                ..
            } ==> {
                &&& after.active_audio_path == Some(recording_path@)
                &&& after.output_entries == with_entry(b.output_entries, transcript_path@, false)
                &&& after.media_entries == with_media(b.media_entries, recording_path@, false)
            }
            &&& m is JobDone || m is JobFileErr || m is Log || m is Refresh || m is WhisperInstalled
                || m is LiveModelInstalled || m is ChatModelInstalled || m is DiarizationInstalled
                || m is LiveSessionStarted || m is LiveTextAppend || m is LiveTextSet
                || m is LiveSessionFailed ==> after == b
        }),
{
}

/// What a file that was transcribed does: its text is shown and can be edited, with its cues; it is the
/// transcript that is open and its recording the one that is played; the settings name that recording,
/// change in nothing else and are saved.
pub proof fn lemma_file_is_shown(s: SessionView, clock: Clock, d: FileDone)
    ensures
        ({
            let after = s.file_done(clock, d);
            &&& after.review.transcription_text == d.output_text@
            &&& after.review.edited_text == d.output_text@
            &&& after.review.cues == cues_in(d.output_text@)
            &&& after.review.edited_cues == cues_in(d.output_text@)
            &&& after.review.output_path == Some(d.output_path@)
            &&& after.review.active_audio_path == Some(d.audio_path@)
            &&& after.review.preprocess_note == d.preprocess_note@
            &&& after.settings == (SettingsView { audio_file: d.audio_path@.text(), ..s.settings })
            &&& after.settings_dirty
            &&& after.status == done_line(d)
            &&& after.is_transcribing == s.is_transcribing
            &&& after.runtime == s.runtime
        }),
{
}

/// What the end of a job does: it is told, and the window stops to show that something is transcribed
/// exactly where no job runs or waits any more.
pub proof fn lemma_job_is_over(s: SessionView, clock: Clock, id: u64, idle: bool)
    ensures
        ({
            let after = s.job_over(clock, id, idle);
            &&& after.is_transcribing <==> s.is_transcribing && !idle
            &&& after.status == "Job #"@ + decimal(id as nat) + " complete."@
            &&& after.settings == s.settings && after.review == s.review && after.chat == s.chat
        }),
{
}

/// What the end of an answer does: nothing is being asked any more. What was asked about is shown anew
/// only where it was read again and is still what the chat is about; a log that could not be saved is
/// told of.
pub proof fn lemma_chat_is_over(
    s: SessionView,
    clock: Clock,
    source: PathView,
    log: FilePath,
    context: String,
    history: String,
    error: String,
)
    ensures
        ({
            let after = s.chat_over(clock, source, Ok(log), Some((context, history)));
            &&& !after.chat.is_chatting
            &&& is_known(s.chat.source_path, source) ==> after.chat.context_text == context@
                && after.chat.history_text == history@
            &&& !is_known(s.chat.source_path, source) ==> after.chat.context_text
                == s.chat.context_text && after.chat.history_text == s.chat.history_text
            &&& after.chat.source_path == s.chat.source_path
            &&& after.chat.input_text == s.chat.input_text
            &&& after.status == "Chat complete. Log saved: "@ + log@.text()
            &&& after.review == s.review && after.settings == s.settings
        }),
        ({
            let after = s.chat_over(clock, source, Err(error), Some((context, history)));
            &&& after.chat == (ChatView { is_chatting: false, ..s.chat })
            &&& after.status == "Chat complete, but failed to save log: "@ + error@
        }),
        s.chat_failed(clock, error@).chat == (ChatView { is_chatting: false, ..s.chat }),
        s.chat_failed(clock, error@).status == "Chat failed: "@ + error@,
{
}

/// What a request to anonymise does that was not answered: nothing is being anonymised any more, the
/// reason is told and put up, and the transcript stays as it was. An answer is kept, and the selection
/// with it.
pub proof fn lemma_anonymise_is_over(s: SessionView, clock: Clock, text: Seq<char>)
    ensures
        ({
            let after = s.anonymise_unanswered(clock, text);
            &&& after.anonymise == (AnonymiseView { running: false, ..s.anonymise })
            &&& after.status == "Anonymise failed: "@ + text
            &&& after.active_modal matches Some(modal) && modal.message == text
            &&& after.review == s.review && after.settings == s.settings
        }),
        ({
            let after = s.answer_noted(text);
            &&& !after.anonymise.running
            &&& after.anonymise.last_response == text
            &&& after.anonymise.selected_kinds == s.anonymise.selected_kinds
            &&& after == (SessionView { anonymise: after.anonymise, ..s })
        }),
{
}

/// How a live session begins: with an empty text, and with what it records and where.
pub proof fn lemma_live_begins(
    s: SessionView,
    input_device: Seq<char>,
    recording: PathView,
    transcript: PathView,
)
    ensures
        ({
            let after = s.live_began(input_device, recording, transcript);
            &&& after.live.text.len() == 0
            &&& after.live.input_label == input_device
            &&& after.live.recording_path == Some(recording)
            &&& after.live.transcript_path == Some(transcript)
            &&& after.live.capturing == s.live.capturing
            &&& after.live.session_id == s.live.session_id
            &&& after == (SessionView { live: after.live, ..s })
        }),
{
}

/// What the end of a live session does: nothing is captured any more and no session runs; what was heard
/// stays in view, and its recording is the one that is played and the one that the settings name. A
/// failure ends the session and leaves the rest.
pub proof fn lemma_live_ends(
    s: SessionView,
    clock: Clock,
    input_device: Seq<char>,
    recording: PathView,
    transcript: PathView,
    preview: Seq<char>,
    error: Seq<char>,
)
    ensures
        ({
            let after = s.live_saved(clock, input_device, recording, transcript, preview);
            &&& !after.live.capturing
            &&& after.live.session_id is None
            &&& after.live.text == preview
            &&& after.live.recording_path == Some(recording)
            &&& after.live.transcript_path == Some(transcript)
            &&& after.review.active_audio_path == Some(recording)
            &&& after.review.transcription_text == s.review.transcription_text
            &&& after.settings == (SettingsView { audio_file: recording.text(), ..s.settings })
            &&& after.settings_dirty
            &&& after.status == "Live transcription saved: "@ + transcript.text()
        }),
        ({
            let after = s.live_failed(clock, error);
            &&& !after.live.capturing
            &&& after.live.session_id is None
            &&& after.live.text == s.live.text
            &&& after.status == "Live transcription failed: "@ + error
            &&& after.active_modal matches Some(modal) && modal.message == error
            &&& after.settings == s.settings
        }),
{
}

/// What the work on the runtime comes to that is done: it is no longer being installed; what is missing
/// of it is known, and the user is asked to unblock it only where nothing is.
pub proof fn lemma_runtime_is_installed(
    s: SessionView,
    clock: Clock,
    report: RuntimeReport,
    devices: Option<Vec<BridgeDevice>>,
    error: Seq<char>,
)
    ensures
        ({
            let after = s.installed(clock, report, devices);
            let missing = missing_of(s.platform, report.runtime_dir@, report.probe);
            &&& !after.runtime.install_in_progress
            &&& after.runtime.missing == missing
            &&& after.runtime.post_install_prompt <==> missing.len() == 0
            &&& after.runtime.show_missing_window
            &&& after.settings.runtime_dir == report.runtime_dir@
            &&& after.settings_dirty
            &&& after.review == s.review && after.chat == s.chat
        }),
        ({
            let after = s.install_failed(clock, error);
            &&& !after.runtime.install_in_progress
            &&& !after.runtime.post_install_prompt
            &&& after.runtime.missing == s.runtime.missing
            &&& after.status == "Runtime install failed: "@ + error
            &&& after.active_modal matches Some(modal) && modal.message == error
            &&& after.settings == s.settings
        }),
{
    reveal(crate::runtime::synced_choice);
}

/// What unblocking the runtime does: it is no longer being unblocked, what is missing is looked at once
/// more, and the window for the setup is open exactly where something is missing. One that failed is
/// told of, and an install that runs goes on.
pub proof fn lemma_runtime_is_unblocked(
    s: SessionView,
    clock: Clock,
    message: Seq<char>,
    report: RuntimeReport,
)
    ensures
        ({
            let after = s.unblocked(clock, message, report);
            &&& !after.runtime.unblock_in_progress
            &&& !after.runtime.post_install_prompt
            &&& after.runtime.missing == missing_of(s.platform, report.runtime_dir@, report.probe)
            &&& after.runtime.show_missing_window <==> after.runtime.missing.len() > 0
                || setup_issues(report.models).len() > 0
            &&& after.review == s.review
        }),
        ({
            let after = s.unblock_failed(clock, message);
            &&& !after.runtime.unblock_in_progress
            &&& after.runtime.show_missing_window
            &&& after.runtime.install_in_progress == s.runtime.install_in_progress
            &&& after.status == "Unsigned runtime unblock failed: "@ + message
            &&& after.settings == s.settings
        }),
{
}

} // verus!
