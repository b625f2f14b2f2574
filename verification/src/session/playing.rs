//! What playback waits for, and how the transcript follows it.
use super::{later, Clock, PlaybackPanel, PlaybackView, Review, ReviewView, Session, SessionView};
use crate::board::{copy_path, path_view, JobBoard};
use crate::paths::{same_file, FilePath, PathView};
use crate::text::{
    cat2, cat3, cat4, cat5, decimal, decimal_text, lines, split_lines, views,
};
use crate::transcript::{
    active_cue, cue_index_at_time, cue_line_range_at_time, cue_start_for_line, lemma_active_cue,
    lemma_line_start_time, line_start_time, lines_at, TranscriptCue,
};
use vstd::prelude::*;
use vstd::string::*;

verus! {

/// How long the transcript stays where the user scrolled it.
pub const SCROLL_PAUSE_MS: u64 = 5_000;

/// How long the transcript waits for playback to reach the line that was clicked.
pub const CLICK_HOLD_MS: u64 = 2_500;

/// How near playback has to come to the line that was clicked.
pub const CLICK_NEAR_US: u64 = 200_000;

/// What a request to play asks for.
pub enum PlayStep {
    /// The recording is decoded: play it.
    Start,
    /// Another recording is being decoded; the request waits.
    Queued,
    /// The recording has to be decoded.
    Decode,
}

/// What the button that plays and pauses asks for.
#[derive(Debug, Clone, Copy, PartialEq, Eq, Structural)]
pub enum ToggleAction {
    /// There is no recording.
    NoAudio,
    /// Play or pause what is decoded.
    Toggle,
    /// Play the recording from the start.
    Request,
}

/// A request that waited while a recording was decoded.
pub struct Pending {
    pub path: FilePath,
    pub start_us: u64,
    /// Whether it is the recording that was decoded.
    pub decoded: bool,
}

impl PlaybackView {
    /// The time by which the transcript follows playback: that of the line that was clicked, until
    /// playback is near it or the wait is over.
    pub open spec fn sync_time(self, clock: Clock, actual: u64) -> u64 {
        match self.click_sync_target {
            Some((target, deadline)) => if clock.now_ms > deadline || actual + CLICK_NEAR_US
                >= target {
                actual
            } else {
                target
            },
            None => actual,
        }
    }

    /// Whether the wait for the line that was clicked goes on.
    pub open spec fn still_waiting(self, clock: Clock, actual: u64) -> bool {
        match self.click_sync_target {
            Some((target, deadline)) => !(clock.now_ms > deadline || actual + CLICK_NEAR_US
                >= target),
            None => false,
        }
    }

    /// The state once a recording is being decoded.
    pub open spec fn decoding(self, autoplay: bool) -> PlaybackView {
        PlaybackView {
            decode_in_progress: true,
            decode_autoplay: autoplay,
            pending_start: None,
            ..self
        }
    }

    /// The state once nothing is being decoded and nothing waits.
    pub open spec fn decoded(self) -> PlaybackView {
        PlaybackView {
            decode_in_progress: false,
            decode_autoplay: false,
            pending_start: None,
            ..self
        }
    }
}

/// Once the wait for a line that was clicked has ended, the transcript follows playback itself, and
/// stays with it.
pub proof fn lemma_click_wait_ends(
    p: PlaybackView,
    clock: Clock,
    actual: u64,
    now: Clock,
    later: u64,
)
    requires
        !p.still_waiting(clock, actual),
    ensures
        p.sync_time(clock, actual) == actual,
        (PlaybackView { click_sync_target: None, ..p }).sync_time(now, later) == later,
{
}

impl SessionView {
    /// The recording that is played: the one of the transcript, else the one found beside it, else
    /// the last one of the board.
    pub open spec fn audio_for(self, beside: Option<PathView>, last: Option<PathView>) -> Option<
        PathView,
    > {
        match self.review.active_audio_path {
            Some(p) => Some(p),
            None => match (self.review.output_path, beside) {
                (Some(_), Some(p)) => Some(p),
                _ => last,
            },
        }
    }

    /// The state once a line was clicked that begins at `target`.
    pub open spec fn line_clicked(self, clock: Clock, target: u64) -> SessionView {
        SessionView {
            review: ReviewView { edit_pause_until: None, ..self.review },
            playback: PlaybackView {
                follow_pause_until: None,
                click_sync_target: Some((target, later(clock.now_ms, CLICK_HOLD_MS))),
                ..self.playback
            },
            ..self
        }
    }

    /// Where playback turns to when a line of the edited text is clicked.
    pub open spec fn edited_line_start(self, line: usize) -> Option<u64> {
        match line_start_time(self.review.edited_cues, line) {
            Some(t) => Some(t),
            None => line_start_time(self.review.cues, line),
        }
    }

    /// Whether the user holds the transcript where it is.
    pub open spec fn follow_paused(self, clock: Clock) -> bool {
        (match self.review.edit_pause_until {
            Some(deadline) => clock.now_ms < deadline,
            None => false,
        }) || (match self.playback.follow_pause_until {
            Some(deadline) => clock.now_ms < deadline,
            None => false,
        })
    }
}

impl PlaybackPanel {
    /// The time by which the transcript follows playback.
    pub fn playback_time_for_transcript_sync(&mut self, clock: &Clock, actual: u64) -> (r: u64)
        ensures
            r == old(self)@.sync_time(*clock, actual),
            final(self)@ == (PlaybackView {
                click_sync_target: if old(self)@.still_waiting(*clock, actual) {
                    old(self)@.click_sync_target
                } else {
                    None
                },
                ..old(self)@
            }),
    {
        if let Some((target, deadline)) = self.click_sync_target {
            let near: bool = target <= CLICK_NEAR_US || actual >= target - CLICK_NEAR_US;
            if clock.now_ms > deadline || near {
                self.click_sync_target = None;
                return actual;
            }
            return target;
        }
        actual
    }

    /// Notes that the user scrolled the transcript.
    pub fn pause_follow_after_manual_scroll(&mut self, clock: &Clock)
        ensures
            final(self)@ == (PlaybackView {
                follow_pause_until: Some(later(clock.now_ms, SCROLL_PAUSE_MS)),
                ..old(self)@
            }),
    {
        self.follow_pause_until = Some(later(clock.now_ms, SCROLL_PAUSE_MS));
    }

    /// Whether the transcript follows playback, given whether it plays.
    pub fn playback_follow_active(&self, playing: bool) -> (r: bool)
        ensures
            r == (playing || self@.click_sync_target is Some),
    {
        playing || self.click_sync_target.is_some()
    }

    /// Notes that a recording is being decoded.
    fn begin_decoding(&mut self, autoplay: bool)
        ensures
            final(self)@ == old(self)@.decoding(autoplay),
    {
        self.decode_in_progress = true;
        self.decode_autoplay = autoplay;
        self.pending_start = None;
    }

    /// Takes the request that waited; it may be for the recording that was decoded.
    fn take_pending(&mut self, decoded: Option<&FilePath>) -> (r: Option<Pending>)
        ensures
            final(self)@ == old(self)@.decoded(),
            match (old(self)@.pending_start, r) {
                (Some((p, t)), Some(q)) => q.path@ == p && q.start_us == t && q.decoded == (match decoded {
                    Some(d) => same_file(p, d@),
                    None => false,
                }),
                (None, None) => true,
                _ => false,
            },
    {
        self.decode_in_progress = false;
        self.decode_autoplay = false;
        let waiting: Option<(FilePath, u64)> = self.pending_start.take();
        match waiting {
            Some((path, start_us)) => {
                let same: bool = match decoded {
                    Some(d) => path.same(d),
                    None => false,
                };
                Some(Pending { path, start_us, decoded: same })
            },
            None => None,
        }
    }
}

/// What of the transcript and of the edited text belongs to a time: the lines that are set off, and
/// the line that is scrolled to.
#[derive(Debug, Clone, Copy)]
pub struct FollowPlan {
    pub lines: Option<(usize, usize)>,
    pub line: Option<usize>,
    pub edited_lines: Option<(usize, usize)>,
    pub edited_line: Option<usize>,
}

/// What belongs to a time, in a transcript and an edited text with these cues and so many lines. The
/// edited text is scrolled to the line of its own cue, else to that of the transcript.
pub open spec fn followed(
    cues: Seq<TranscriptCue>,
    total: usize,
    edited_cues: Seq<TranscriptCue>,
    edited_total: usize,
    t: u64,
) -> FollowPlan {
    let lines = lines_at(cues, t, total);
    let edited_lines = lines_at(edited_cues, t, edited_total);
    let line = match lines {
        Some((start, _)) => Some(start),
        None => None,
    };
    FollowPlan {
        lines,
        line,
        edited_lines,
        edited_line: match edited_lines {
            Some((start, _)) => Some(start),
            None => match active_cue(edited_cues, t) {
                Some(i) => Some(edited_cues[i as int].line_index),
                None => line,
            },
        },
    }
}

impl Review {
    /// What of the transcript and of the edited text belongs to a time.
    pub fn follow_at(&self, t: u64) -> (r: FollowPlan)
        ensures
            r == followed(
                self@.cues,
                lines(self@.transcription_text).len() as usize,
                self@.edited_cues,
                lines(self@.edited_text).len() as usize,
                t,
            ),
    {
        let shown: Vec<String> = split_lines(self.transcription_text.as_str());
        let edited: Vec<String> = split_lines(self.edited_text.as_str());
        assert(views(shown@).len() == shown@.len());
        assert(views(edited@).len() == edited@.len());
        let own: Option<(usize, usize)> = cue_line_range_at_time(
            self.cues.as_slice(),
            t,
            shown.len(),
        );
        let edited_lines: Option<(usize, usize)> = cue_line_range_at_time(
            self.edited_cues.as_slice(),
            t,
            edited.len(),
        );
        let line: Option<usize> = match own {
            Some((start, _)) => Some(start),
            None => None,
        };
        let edited_line: Option<usize> = match edited_lines {
            Some((start, _)) => Some(start),
            None => match cue_index_at_time(self.edited_cues.as_slice(), t) {
                Some(l) => Some(l),
                None => line,
            },
        };
        FollowPlan { lines: own, line, edited_lines, edited_line }
    }
}

/// What the button that plays and pauses asks for.
pub fn toggle_action(has_path: bool, has_audio: bool, ended: bool) -> (r: ToggleAction)
    ensures
        r == if !has_path {
            ToggleAction::NoAudio
        } else if has_audio && !ended {
            ToggleAction::Toggle
        } else {
            ToggleAction::Request
        },
{
    if !has_path {
        ToggleAction::NoAudio
    } else if has_audio && !ended {
        ToggleAction::Toggle
    } else {
        ToggleAction::Request
    }
}

impl Session {
    /// The recording that is played, given the one found beside the transcript.
    pub fn resolve_active_audio_path(
        &self,
        board: &JobBoard,
        beside: Option<FilePath>,
    ) -> (r: Option<FilePath>)
        ensures
            path_view(r) == self@.audio_for(path_view(beside), board@.active_audio_path),
    {
        if self.review.active_audio_path.is_some() {
            return copy_path(&self.review.active_audio_path);
        }
        if self.review.output_path.is_some() {
            if let Some(p) = beside {
                return Some(p);
            }
        }
        copy_path(&board.active_audio_path)
    }

    /// Whether the user holds the transcript where it is.
    pub fn follow_paused_for_user_navigation(&self, clock: &Clock) -> (r: bool)
        ensures
            r == self@.follow_paused(*clock),
    {
        let edit: bool = match self.review.edit_pause_until {
            Some(deadline) => clock.now_ms < deadline,
            None => false,
        };
        let scroll: bool = match self.playback.follow_pause_until {
            Some(deadline) => clock.now_ms < deadline,
            None => false,
        };
        edit || scroll
    }

    /// Whether the recording has to be decoded ahead of time, given whether it is there and is
    /// already decoded.
    pub fn predecode_wanted(&self, exists_there: bool, loaded: bool) -> (r: bool)
        ensures
            r == (!self@.playback.decode_in_progress && exists_there && !loaded),
    {
        !self.playback.decode_in_progress && exists_there && !loaded
    }

    /// Notes that a recording is being decoded ahead of time.
    pub fn predecode_begins(&mut self, clock: &Clock, path: &str)
        ensures
            final(self)@ == (SessionView {
                playback: old(self)@.playback.decoding(false),
                ..old(self)@
            }).logged(*clock, "Preloading audio to RAM for instant playback: "@ + path@),
    {
        self.playback.begin_decoding(false);
        let text: String = cat2("Preloading audio to RAM for instant playback: ", path);
        self.push_log_only(clock, text.as_str());
    }

    /// Asks to play a recording from a time; says what has to be done.
    pub fn request_playback_start(
        &mut self,
        clock: &Clock,
        path: &FilePath,
        start_us: u64,
        loaded: bool,
    ) -> (r: PlayStep)
        ensures
            if loaded {
                r is Start && final(self)@ == old(self)@
            } else if old(self)@.playback.decode_in_progress {
                r is Queued && final(self)@ == (SessionView {
                    playback: PlaybackView {
                        pending_start: Some((path@, start_us)),
                        ..old(self)@.playback
                    },
                    ..old(self)@
                }).said(
                    *clock,
                    "Playback decode in progress. Queued latest seek/start request."@,
                )
            } else {
                r is Decode && final(self)@ == old(self)@
            },
    {
        if loaded {
            return PlayStep::Start;
        }
        if self.playback.decode_in_progress {
            self.playback.pending_start = Some((path.copy(), start_us));
            self.push_status(
                clock,
                "Playback decode in progress. Queued latest seek/start request.",
            );
            return PlayStep::Queued;
        }
        PlayStep::Decode
    }

    /// Says what came of playing a recording that is decoded.
    pub fn playback_told(&mut self, clock: &Clock, outcome: Result<String, String>)
        ensures
            final(self)@ == match outcome {
                Ok(at) => old(self)@.said(*clock, "Playback "@ + at@ + "s"@),
                Err(e) => old(self)@.said(*clock, "Playback start failed: "@ + e@),
            },
    {
        match outcome {
            Ok(at) => {
                let text: String = cat3("Playback ", at.as_str(), "s");
                self.push_status(clock, text.as_str());
            },
            Err(e) => {
                let text: String = cat2("Playback start failed: ", e.as_str());
                self.push_status(clock, text.as_str());
            },
        }
    }

    /// Begins to decode a recording that is to be played from a time, given whether the device can
    /// play; `false` where it cannot.
    pub fn decode_begins(
        &mut self,
        clock: &Clock,
        reason: &str,
        at: &str,
        stream: Result<(), String>,
    ) -> (r: bool)
        ensures
            match stream {
                Err(e) => !r && final(self)@ == old(self)@.said(
                    *clock,
                    "Playback stream init failed: "@ + e@,
                ),
                Ok(_) => r && final(self)@ == (SessionView {
                    playback: old(self)@.playback.decoding(true),
                    ..old(self)@
                }).said(
                    *clock,
                    "Decoding audio for playback ("@ + reason@ + ") at "@ + at@ + "s..."@,
                ),
            },
    {
        if let Err(e) = stream {
            let text: String = cat2("Playback stream init failed: ", e.as_str());
            self.push_status(clock, text.as_str());
            return false;
        }
        self.playback.begin_decoding(true);
        let text: String = cat5("Decoding audio for playback (", reason, ") at ", at, "s...");
        self.push_status(clock, text.as_str());
        true
    }

    /// Notes that a recording was decoded, and what came of playing it or of keeping it; gives the
    /// request that waited.
    pub fn playback_decoded(
        &mut self,
        clock: &Clock,
        path: &FilePath,
        outcome: Result<String, String>,
    ) -> (r: Option<Pending>)
        ensures
            ({
                let s = SessionView { playback: old(self)@.playback.decoded(), ..old(self)@ };
                final(self)@ == if old(self)@.playback.decode_autoplay {
                    s.said(
                        *clock,
                        match outcome {
                            Ok(at) => "Playback started "@ + at@ + "s ("@ + path@.text() + ")"@,
                            Err(e) => "Playback start failed: "@ + e@,
                        },
                    )
                } else {
                    match outcome {
                        Ok(_) => s.logged(
                            *clock,
                            "Playback preloaded to RAM: "@ + path@.text(),
                        ),
                        Err(e) => s.said(*clock, "Playback preload failed: "@ + e@),
                    }
                }
            }),
            match (old(self)@.playback.pending_start, r) {
                (Some((p, t)), Some(q)) => q.path@ == p && q.start_us == t && q.decoded == same_file(
                    p,
                    path@,
                ),
                (None, None) => true,
                _ => false,
            },
    {
        let autoplay: bool = self.playback.decode_autoplay;
        let pending: Option<Pending> = self.playback.take_pending(Some(path));
        let name: String = path.text();
        if autoplay {
            let text: String = match outcome {
                Ok(at) => cat5("Playback started ", at.as_str(), "s (", name.as_str(), ")"),
                Err(e) => cat2("Playback start failed: ", e.as_str()),
            };
            self.push_status(clock, text.as_str());
        } else {
            match outcome {
                Ok(_) => {
                    let text: String = cat2("Playback preloaded to RAM: ", name.as_str());
                    self.push_log_only(clock, text.as_str());
                },
                Err(e) => {
                    let text: String = cat2("Playback preload failed: ", e.as_str());
                    self.push_status(clock, text.as_str());
                },
            }
        }
        pending
    }

    /// Says what came of a request that waited for the recording that was decoded.
    pub fn queued_seek_told(&mut self, clock: &Clock, outcome: Result<String, String>)
        ensures
            final(self)@ == match outcome {
                Ok(at) => old(self)@.said(*clock, "Playback queued seek "@ + at@ + "s"@),
                Err(e) => old(self)@.said(*clock, "Playback queued seek failed: "@ + e@),
            },
    {
        match outcome {
            Ok(at) => {
                let text: String = cat3("Playback queued seek ", at.as_str(), "s");
                self.push_status(clock, text.as_str());
            },
            Err(e) => {
                let text: String = cat2("Playback queued seek failed: ", e.as_str());
                self.push_status(clock, text.as_str());
            },
        }
    }

    /// Notes that a recording could not be decoded; gives the request that waited, of which nothing is
    /// decoded.
    pub fn playback_decode_failed(&mut self, clock: &Clock, path: &FilePath, error: &str) -> (r:
        Option<Pending>)
        ensures
            final(self)@ == (SessionView {
                playback: old(self)@.playback.decoded(),
                ..old(self)@
            }).said(*clock, "Playback decode failed ("@ + path@.text() + "): "@ + error@),
            match (old(self)@.playback.pending_start, r) {
                (Some((p, t)), Some(q)) => q.path@ == p && q.start_us == t && !q.decoded,
                (None, None) => true,
                _ => false,
            },
    {
        let pending: Option<Pending> = self.playback.take_pending(None);
        let name: String = path.text();
        let text: String = cat4("Playback decode failed (", name.as_str(), "): ", error);
        self.push_status(clock, text.as_str());
        pending
    }

    /// Notes that a line begins at a time and was clicked.
    fn mark_clicked(&mut self, clock: &Clock, target: u64)
        ensures
            final(self)@ == old(self)@.line_clicked(*clock, target),
    {
        self.playback.follow_pause_until = None;
        self.review.edit_pause_until = None;
        self.playback.click_sync_target = Some((target, later(clock.now_ms, CLICK_HOLD_MS)));
    }

    /// Turns to a line of the transcript that was clicked; gives the time where it begins.
    pub fn seek_to_line(&mut self, clock: &Clock, line: usize) -> (r: Option<u64>)
        ensures
            r == line_start_time(old(self)@.review.cues, line),
            final(self)@ == match r {
                Some(target) => old(self)@.line_clicked(*clock, target),
                None => old(self)@,
            },
    {
        match cue_start_for_line(self.review.cues.as_slice(), line) {
            Some(target) => {
                self.mark_clicked(clock, target);
                Some(target)
            },
            None => None,
        }
    }

    /// Turns to a line of the edited text that was clicked; gives the time where it begins.
    pub fn seek_to_edited_line(&mut self, clock: &Clock, line: usize) -> (r: Option<u64>)
        ensures
            r == old(self)@.edited_line_start(line),
            final(self)@ == match r {
                Some(target) => old(self)@.line_clicked(*clock, target),
                None => old(self)@,
            },
    {
        let target: Option<u64> = match cue_start_for_line(
            self.review.edited_cues.as_slice(),
            line,
        ) {
            Some(t) => Some(t),
            None => cue_start_for_line(self.review.cues.as_slice(), line),
        };
        if let Some(t) = target {
            self.mark_clicked(clock, t);
        }
        target
    }

    /// Says that playback cannot turn to a line because there is no recording.
    pub fn seek_refused(&mut self, clock: &Clock)
        ensures
            final(self)@ == old(self)@.said(
                *clock,
                "Playback seek blocked: no active audio path for this transcript."@,
            ),
    {
        self.push_status(
            clock,
            "Playback seek blocked: no active audio path for this transcript.",
        );
    }

    /// Says to which line playback turned.
    pub fn line_seek_told(&mut self, clock: &Clock, edited: bool, line: usize, at: &str)
        requires
            line < usize::MAX,
        ensures
            final(self)@ == old(self)@.said(
                *clock,
                (if edited {
                    "Playback edited-line seek: "@
                } else {
                    "Playback line seek: "@
                }) + decimal(line as nat + 1) + " at "@ + at@ + "s"@,
            ),
    {
        let number: String = decimal_text((line + 1) as u64);
        let head: &str = if edited {
            "Playback edited-line seek: "
        } else {
            "Playback line seek: "
        };
        let text: String = cat5(head, number.as_str(), " at ", at, "s");
        self.push_status(clock, text.as_str());
    }

    /// Says that there is no recording to play.
    pub fn no_active_audio(&mut self, clock: &Clock)
        ensures
            final(self)@ == old(self)@.said(*clock, "No active audio selected."@),
    {
        self.push_status(clock, "No active audio selected.");
    }

    /// Says what came of playing or pausing.
    pub fn toggle_told(&mut self, clock: &Clock, outcome: Result<String, String>)
        ensures
            final(self)@ == match outcome {
                Ok(at) => old(self)@.said(*clock, "Playback "@ + at@ + "s"@),
                Err(e) => old(self)@.said(*clock, "Playback failed: "@ + e@),
            },
    {
        let text: String = match outcome {
            Ok(at) => cat3("Playback ", at.as_str(), "s"),
            Err(e) => cat2("Playback failed: ", e.as_str()),
        };
        self.push_status(clock, text.as_str());
    }

    /// Says what came of a jump.
    pub fn seek_told(&mut self, clock: &Clock, outcome: Result<String, String>)
        ensures
            final(self)@ == match outcome {
                Ok(at) => old(self)@.said(*clock, "Playback "@ + at@ + "s"@),
                Err(e) => old(self)@.said(*clock, "Seek failed: "@ + e@),
            },
    {
        let text: String = match outcome {
            Ok(at) => cat3("Playback ", at.as_str(), "s"),
            Err(e) => cat2("Seek failed: ", e.as_str()),
        };
        self.push_status(clock, text.as_str());
    }

    /// Says how fast is played.
    pub fn speed_told(&mut self, clock: &Clock, speed: &str)
        ensures
            final(self)@ == old(self)@.said(*clock, "Speed "@ + speed@ + "x"@),
    {
        let text: String = cat3("Speed ", speed, "x");
        self.push_status(clock, text.as_str());
    }

    /// Whether the window has to be drawn again soon.
    pub fn repaint_wanted(&self, board: &JobBoard, playing: bool) -> (r: bool)
        ensures
            r == (self@.is_transcribing || self@.chat.is_chatting || self@.anonymise.running
                || self@.live.capturing || self@.playback.decode_in_progress || playing || (
            self@.review.editing_enabled && self@.review.edit_pause_until is Some)
                || self@.runtime.busy() || board@.download_status is Some),
    {
        self.is_transcribing || self.chat.is_chatting || self.anonymise.running
            || self.live.capturing || self.playback.decode_in_progress || playing || (
        self.review.editing_enabled && self.review.edit_pause_until.is_some())
            || self.runtime.install_in_progress || self.runtime.unblock_in_progress
            || board.download_status.is_some()
    }
}

/// A click on a line: the transcript is no longer held where it was, and it shows the line at once. It
/// stays there until playback is within 200 milliseconds of the line or 2.5 seconds have passed, and
/// follows playback from there on. Nothing else of the session changes.
pub proof fn lemma_line_is_held(
    s: SessionView,
    clock: Clock,
    target: u64,
    now: Clock,
    actual: u64,
)
    requires
        clock.now_ms + 2_500 <= u64::MAX,
    ensures
        ({
            let after = s.line_clicked(clock, target);
            &&& !after.follow_paused(now)
            &&& now.now_ms <= clock.now_ms + 2_500 && actual + 200_000 < target
                ==> after.playback.sync_time(now, actual) == target && after.playback.still_waiting(
                now,
                actual,
            )
            &&& now.now_ms > clock.now_ms + 2_500 || actual + 200_000 >= target
                ==> after.playback.sync_time(now, actual) == actual && !after.playback.still_waiting(
                now,
                actual,
            )
            &&& after == (SessionView { review: after.review, playback: after.playback, ..s })
            &&& after.review == (ReviewView { edit_pause_until: None, ..s.review })
            &&& after.playback.pending_start == s.playback.pending_start
            &&& after.playback.decode_in_progress == s.playback.decode_in_progress
            &&& after.playback.decode_autoplay == s.playback.decode_autoplay
        }),
{
}

/// When the user holds the transcript: while a deadline that editing or scrolling has set lies ahead,
/// and not once both have passed or where neither was set. Without a click the transcript goes by the
/// time of playback.
pub proof fn lemma_follow_paused(s: SessionView, clock: Clock, actual: u64)
    ensures
        s.review.edit_pause_until matches Some(d) ==> d > clock.now_ms ==> s.follow_paused(clock),
        s.playback.follow_pause_until matches Some(d) ==> d > clock.now_ms ==> s.follow_paused(clock),
        !(s.review.edit_pause_until matches Some(d) && d > clock.now_ms) && !(
        s.playback.follow_pause_until matches Some(d) && d > clock.now_ms) ==> !s.follow_paused(
            clock,
        ),
        s.playback.click_sync_target is None ==> s.playback.sync_time(clock, actual) == actual,
{
}

/// Which recording is played: that of the transcript before any other, else the one beside the
/// transcript where one is open, else the last one of the board.
pub proof fn lemma_audio_for(s: SessionView, beside: Option<PathView>, last: Option<PathView>)
    ensures
        s.review.active_audio_path is Some ==> s.audio_for(beside, last)
            == s.review.active_audio_path,
        s.review.active_audio_path is None && s.review.output_path is Some && beside is Some
            ==> s.audio_for(beside, last) == beside,
        s.review.active_audio_path is None && (s.review.output_path is None || beside is None)
            ==> s.audio_for(beside, last) == last,
{
}

/// What is decoded: while a recording is decoded nothing waits from before, and whether it is played at
/// once is what was asked for; once it is decoded nothing is in progress and nothing waits. Where the
/// transcript stands does not change.
pub proof fn lemma_decoding(p: PlaybackView, autoplay: bool)
    ensures
        p.decoding(autoplay).decode_in_progress,
        p.decoding(autoplay).decode_autoplay == autoplay,
        p.decoding(autoplay).pending_start is None,
        !p.decoded().decode_in_progress,
        !p.decoded().decode_autoplay,
        p.decoded().pending_start is None,
        p.decoding(autoplay).decoded() == p.decoded(),
        p.decoded().follow_pause_until == p.follow_pause_until,
        p.decoded().click_sync_target == p.click_sync_target,
{
}

/// Where the transcript and the edited text stand at a time: each at the first of the lines that belong
/// to it; the edited text, where it has no cues, with the transcript.
pub proof fn lemma_followed(
    cues: Seq<TranscriptCue>,
    total: usize,
    edited_cues: Seq<TranscriptCue>,
    edited_total: usize,
    t: u64,
)
    ensures
        ({
            let f = followed(cues, total, edited_cues, edited_total, t);
            &&& f.lines == lines_at(cues, t, total)
            &&& f.edited_lines == lines_at(edited_cues, t, edited_total)
            &&& f.lines matches Some((start, _)) ==> f.line == Some(start)
            &&& f.lines is None ==> f.line is None
            &&& f.edited_lines matches Some((start, _)) ==> f.edited_line == Some(start)
            &&& edited_cues.len() == 0 ==> f.edited_line == f.line
        }),
{
    lemma_active_cue(edited_cues, t);
}

/// Where playback turns to for a line of the edited text: as its own cues say where it has any, else
/// as those of the transcript do.
pub proof fn lemma_edited_line_start(s: SessionView, line: usize)
    ensures
        s.review.edited_cues.len() > 0 ==> s.edited_line_start(line) == line_start_time(
            s.review.edited_cues,
            line,
        ),
        s.review.edited_cues.len() == 0 ==> s.edited_line_start(line) == line_start_time(
            s.review.cues,
            line,
        ),
        s.edited_line_start(line) is None <==> s.review.edited_cues.len() == 0
            && s.review.cues.len() == 0,
{
    lemma_line_start_time(s.review.edited_cues, line);
    lemma_line_start_time(s.review.cues, line);
}

} // verus!
