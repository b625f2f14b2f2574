//! Downloads of models: what is said of them, and where they are put.
use crate::board::DownloadKind;
use crate::models::{
    chat_catalog, chat_models, live_catalog, live_models, whisper_catalog, whisper_models,
    ChatModelSpec, LiveModelSpec, WhisperModelSpec, DIARIZATION_REPO,
};
use crate::paths::{stem_of, FilePath};
use crate::session::messages::UiMessage;
use crate::text::{cat2, cat3, cat4};
use vstd::prelude::*;
use vstd::string::*;

verus! {

/// How often, in milliseconds, a download tells how far it has come.
pub const PROGRESS_EVERY_MS: u64 = 350;

/// The transcription model at a place of the list; the first where there is none.
pub fn whisper_model_at(index: usize) -> (r: WhisperModelSpec)
    ensures
        r == whisper_catalog()[if index < whisper_catalog().len() {
            index as int
        } else {
            0
        }],
{
    let models: Vec<WhisperModelSpec> = whisper_models();
    if index < models.len() {
        models[index]
    } else {
        models[0]
    }
}

/// The model for live transcription at a place of the list; the first where there is none.
pub fn live_model_at(index: usize) -> (r: LiveModelSpec)
    ensures
        r == live_catalog()[if index < live_catalog().len() {
            index as int
        } else {
            0
        }],
{
    let models: Vec<LiveModelSpec> = live_models();
    if index < models.len() {
        models[index]
    } else {
        models[0]
    }
}

/// The language model at a place of the list; the first where there is none.
pub fn chat_model_at(index: usize) -> (r: ChatModelSpec)
    ensures
        r == chat_catalog()[if index < chat_catalog().len() {
            index as int
        } else {
            0
        }],
{
    let models: Vec<ChatModelSpec> = chat_models();
    if index < models.len() {
        models[index]
    } else {
        models[0]
    }
}

/// What the log says when a download begins.
pub open spec fn begins_line(kind: DownloadKind, name: Seq<char>, dest: Seq<char>) -> Seq<char> {
    match kind {
        DownloadKind::Whisper => "Starting download: Whisper model model '"@ + name + "' -> "@
            + dest,
        DownloadKind::Live => "Starting download: realtime model '"@ + name + "' -> "@ + dest,
        DownloadKind::Chat => "Starting download: chat model '"@ + name + "' -> "@ + dest,
        DownloadKind::Diarization => "Starting diarization model download from "@
            + DIARIZATION_REPO@ + " to "@ + dest,
    }
}

/// What the log says when a download begins.
pub fn download_begins_log(kind: DownloadKind, name: &str, dest: &str) -> (r: String)
    ensures
        r@ == begins_line(kind, name@, dest@),
{
    match kind {
        DownloadKind::Whisper => cat4(
            "Starting download: Whisper model model '",
            name,
            "' -> ",
            dest,
        ),
        DownloadKind::Live => cat4("Starting download: realtime model '", name, "' -> ", dest),
        DownloadKind::Chat => cat4("Starting download: chat model '", name, "' -> ", dest),
        DownloadKind::Diarization => cat4(
            "Starting diarization model download from ",
            DIARIZATION_REPO,
            " to ",
            dest,
        ),
    }
}

/// What is said when a download begins.
pub open spec fn begins_status(kind: DownloadKind, name: Seq<char>) -> Seq<char> {
    match kind {
        DownloadKind::Whisper => "Downloading "@ + name + "..."@,
        DownloadKind::Live => "Downloading realtime model "@ + name + "..."@,
        DownloadKind::Chat => "Downloading chat model "@ + name + "..."@,
        DownloadKind::Diarization => "Downloading Sortformer diarization model..."@,
    }
}

/// What is said when a download begins.
pub fn download_begins_status(kind: DownloadKind, name: &str) -> (r: String)
    ensures
        r@ == begins_status(kind, name@),
{
    match kind {
        DownloadKind::Whisper => cat3("Downloading ", name, "..."),
        DownloadKind::Live => cat3("Downloading realtime model ", name, "..."),
        DownloadKind::Chat => cat3("Downloading chat model ", name, "..."),
        DownloadKind::Diarization => "Downloading Sortformer diarization model...".to_owned(),
    }
}

/// What a download is called while it runs.
pub fn download_label(kind: DownloadKind, name: &str) -> (r: String)
    ensures
        r@ == match kind {
            DownloadKind::Diarization => "Sortformer diarization model"@,
            _ => name@,
        },
{
    match kind {
        DownloadKind::Diarization => "Sortformer diarization model".to_owned(),
        _ => name.to_owned(),
    }
}

/// What is said when a download has ended well.
pub open spec fn ends_status(kind: DownloadKind, name: Seq<char>) -> Seq<char> {
    match kind {
        DownloadKind::Whisper => "Installed "@ + name,
        DownloadKind::Live => "Installed realtime model "@ + name,
        DownloadKind::Chat => "Installed chat model "@ + name,
        DownloadKind::Diarization => "Sortformer diarization model installed."@,
    }
}

/// What is said when a download has ended well.
pub fn download_ends_status(kind: DownloadKind, name: &str) -> (r: String)
    ensures
        r@ == ends_status(kind, name@),
{
    match kind {
        DownloadKind::Whisper => cat2("Installed ", name),
        DownloadKind::Live => cat2("Installed realtime model ", name),
        DownloadKind::Chat => cat2("Installed chat model ", name),
        DownloadKind::Diarization => "Sortformer diarization model installed.".to_owned(),
    }
}

/// What the log says when a download failed.
pub open spec fn failed_line(kind: DownloadKind, name: Seq<char>, error: Seq<char>) -> Seq<char> {
    match kind {
        DownloadKind::Whisper => "Download failed for "@ + name + ": "@ + error,
        DownloadKind::Live => "Realtime model download failed for "@ + name + ": "@ + error,
        DownloadKind::Chat => "Chat model download failed for "@ + name + ": "@ + error,
        DownloadKind::Diarization => "Sortformer diarization model download failed: "@ + error,
    }
}

/// What the log says when a download failed.
pub fn download_failed_log(kind: DownloadKind, name: &str, error: &str) -> (r: String)
    ensures
        r@ == failed_line(kind, name@, error@),
{
    match kind {
        DownloadKind::Whisper => cat4("Download failed for ", name, ": ", error),
        DownloadKind::Live => cat4("Realtime model download failed for ", name, ": ", error),
        DownloadKind::Chat => cat4("Chat model download failed for ", name, ": ", error),
        DownloadKind::Diarization => cat2("Sortformer diarization model download failed: ", error),
    }
}

/// What is said when a download failed.
#[verifier::allow_in_spec]
pub fn download_failed_status(kind: DownloadKind) -> &'static str
    returns
        (match kind {
            DownloadKind::Whisper => "Model download failed.",
            DownloadKind::Live => "Realtime model download failed.",
            DownloadKind::Chat => "Chat model download failed.",
            DownloadKind::Diarization => "Diarization download failed.",
        }),
{
    match kind {
        DownloadKind::Whisper => "Model download failed.",
        DownloadKind::Live => "Realtime model download failed.",
        DownloadKind::Chat => "Chat model download failed.",
        DownloadKind::Diarization => "Diarization download failed.",
    }
}

/// The message that a model is there; the diarization model is told by its folder, the others by
/// their file.
pub open spec fn tells_installed(m: UiMessage, kind: DownloadKind, place: Seq<char>) -> bool {
    match kind {
        DownloadKind::Whisper => m matches UiMessage::WhisperInstalled(t) && t@ == place,
        DownloadKind::Live => m matches UiMessage::LiveModelInstalled(t) && t@ == place,
        DownloadKind::Chat => m matches UiMessage::ChatModelInstalled(t) && t@ == place,
        DownloadKind::Diarization => m matches UiMessage::DiarizationInstalled(t) && t@ == place,
    }
}

/// What a download sends when it begins.
pub fn download_begins(kind: DownloadKind, name: &str, place: &str) -> (r: Vec<UiMessage>)
    ensures
        r@.len() == 2,
        r@[0] matches UiMessage::Log(t) && t@ == begins_line(kind, name@, place@),
        r@[1] matches UiMessage::Status(t) && t@ == begins_status(kind, name@),
{
    vec![
        UiMessage::Log(download_begins_log(kind, name, place)),
        UiMessage::Status(download_begins_status(kind, name)),
    ]
}

/// What a download sends when it has ended: that it no longer runs, then that the model is there or
/// why it is not, then that the files have to be looked at again.
pub fn download_ends(
    kind: DownloadKind,
    name: &str,
    place: &str,
    error: &Option<String>,
) -> (r: Vec<UiMessage>)
    ensures
        r@.len() == 4,
        r@[0] matches UiMessage::DownloadStatus { kind: k, status: None } && k == kind,
        match *error {
            None => tells_installed(r@[1], kind, place@) && (r@[2] matches UiMessage::Status(t)
                && t@ == ends_status(kind, name@)),
            Some(why) => (r@[1] matches UiMessage::Log(t) && t@ == failed_line(
                kind,
                name@,
                why@,
            )) && (r@[2] matches UiMessage::Status(t) && t@ == download_failed_status(kind)@),
        },
        r@[3] is Refresh,
{
    let over: UiMessage = UiMessage::DownloadStatus { kind, status: None };
    match error {
        None => {
            let there: UiMessage = match kind {
                DownloadKind::Whisper => UiMessage::WhisperInstalled(place.to_owned()),
                DownloadKind::Live => UiMessage::LiveModelInstalled(place.to_owned()),
                DownloadKind::Chat => UiMessage::ChatModelInstalled(place.to_owned()),
                DownloadKind::Diarization => UiMessage::DiarizationInstalled(place.to_owned()),
            };
            vec![
                over,
                there,
                UiMessage::Status(download_ends_status(kind, name)),
                UiMessage::Refresh,
            ]
        },
        Some(why) => vec![
            over,
            UiMessage::Log(download_failed_log(kind, name, why.as_str())),
            UiMessage::Status(download_failed_status(kind).to_owned()),
            UiMessage::Refresh,
        ],
    }
}

/// The file that a download is written to until it is whole: in place of its extension it has one of
/// its own. A path without a file name stays.
pub fn download_temp_path(dest: &FilePath) -> (r: FilePath)
    ensures
        r@ == if dest@.name.len() == 0 {
            dest@
        } else {
            dest@.beside(stem_of(dest@.name) + ".download"@)
        },
{
    if dest.name.as_str().is_empty() {
        return dest.copy();
    }
    let stem: String = dest.stem();
    dest.beside(cat2(stem.as_str(), ".download"))
}

/// Whether a download has to tell again how far it has come.
pub fn progress_due(since_last_ms: u64) -> (r: bool)
    ensures
        r == (since_last_ms >= PROGRESS_EVERY_MS),
{
    since_last_ms >= PROGRESS_EVERY_MS
}

/// What is said when the user asks for a download.
pub fn download_asked_status(kind: DownloadKind, name: &str) -> (r: Option<String>)
    ensures
        match kind {
            DownloadKind::Whisper => r matches Some(t) && t@ == "Downloading "@ + name@,
            DownloadKind::Live => r matches Some(t) && t@ == "Downloading realtime model "@ + name@,
            DownloadKind::Chat => r matches Some(t) && t@ == "Downloading chat model "@ + name@,
            DownloadKind::Diarization => r is None,
        },
{
    match kind {
        DownloadKind::Whisper => Some(cat2("Downloading ", name)),
        DownloadKind::Live => Some(cat2("Downloading realtime model ", name)),
        DownloadKind::Chat => Some(cat2("Downloading chat model ", name)),
        DownloadKind::Diarization => None,
    }
}

/// What is said of a download tells what is loaded and where to, and why it failed: the destination, or
/// the reason, comes last, and a model is called by its name.
pub proof fn lemma_download_texts(
    kind: DownloadKind,
    name: Seq<char>,
    dest: Seq<char>,
    error: Seq<char>,
)
    ensures
        exists|lead: Seq<char>| begins_line(kind, name, dest) == #[trigger] (lead + dest),
        exists|lead: Seq<char>| failed_line(kind, name, error) == #[trigger] (lead + ": "@ + error),
        kind != DownloadKind::Diarization ==> (exists|lead: Seq<char>|
            ends_status(kind, name) == #[trigger] (lead + name)) && (exists|lead: Seq<char>|
            begins_status(kind, name) == #[trigger] (lead + name + "..."@)),
{
    reveal_strlit(": ");
    reveal_strlit("Sortformer diarization model download failed: ");
    let head = "Sortformer diarization model download failed: "@;
    let n = head.len() - 2;
    assert(head.take(n) + ": "@ =~= head);
    assert(failed_line(DownloadKind::Diarization, name, error) == head.take(n) + ": "@ + error);
    assert(failed_line(DownloadKind::Whisper, name, error) == ("Download failed for "@ + name) + ": "@
        + error);
    assert(failed_line(DownloadKind::Live, name, error) == ("Realtime model download failed for "@
        + name) + ": "@ + error);
    assert(failed_line(DownloadKind::Chat, name, error) == ("Chat model download failed for "@ + name)
        + ": "@ + error);
    let begins = match kind {
        DownloadKind::Whisper => "Starting download: Whisper model model '"@ + name + "' -> "@,
        DownloadKind::Live => "Starting download: realtime model '"@ + name + "' -> "@,
        DownloadKind::Chat => "Starting download: chat model '"@ + name + "' -> "@,
        DownloadKind::Diarization => "Starting diarization model download from "@ + DIARIZATION_REPO@
            + " to "@,
    };
    assert(begins_line(kind, name, dest) == begins + dest);
    assert(begins_status(DownloadKind::Whisper, name) == "Downloading "@ + name + "..."@);
    assert(begins_status(DownloadKind::Live, name) == "Downloading realtime model "@ + name + "..."@);
    assert(begins_status(DownloadKind::Chat, name) == "Downloading chat model "@ + name + "..."@);
}

/// That something was installed is told of one kind and of one place.
pub proof fn lemma_tells_installed(
    m: UiMessage,
    kind: DownloadKind,
    place: Seq<char>,
    other: DownloadKind,
    elsewhere: Seq<char>,
)
    requires
        tells_installed(m, kind, place),
    ensures
        tells_installed(m, other, elsewhere) <==> kind == other && place == elsewhere,
{
}

} // verus!
