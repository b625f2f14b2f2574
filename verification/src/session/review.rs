//! Opening, editing, renaming and saving a transcript.
use super::{Clock, Review, ReviewView, Session, SessionView};
use crate::anonymise::replace::capped;
use crate::board::{copy_path, path_view, BoardView, JobBoard};
use crate::library::{
    add_media_files, add_output_files, ensure_output_entry, entry_views, remove_selected, unticked,
    with_added_media, with_added_outputs, with_entry, AddedMedia, AddedOutput, EntryView, Lists,
};
use crate::paths::{
    base_stem, edited_file_path, edited_of, extension_of, first_recording,
    guess_audio_path_for_output, is_edited, is_edited_output_path, is_known, lemma_original_of_edited,
    original_of, original_output_path_for_any, path_views, same_file, FilePath, PathView,
};
use crate::settings::SettingsView;
use crate::speakers::{
    carried_over, carry_over_names, detect_speaker_slots, rename_speakers, rename_views, renamed,
    speaker_slots, speaker_source, speaker_tags_in,
};
use crate::text::{cat2, cat3, cat4, decimal, decimal_text, stripped, trim};
use crate::transcript::{cues_in, parse_transcript};
use vstd::prelude::*;
use vstd::string::*;

verus! {

/// The files that saving the edited copy concerns: the one that is open, the transcript as it was
/// made, and the edited copy, which is written.
pub struct SavePlan {
    pub selected: FilePath,
    pub original: FilePath,
    pub output: FilePath,
}

/// The files that saving the edited copy concerns.
pub struct PlanView {
    pub selected: PathView,
    pub original: PathView,
    pub output: PathView,
}

impl View for SavePlan {
    type V = PlanView;

    open spec fn view(&self) -> PlanView {
        PlanView { selected: self.selected@, original: self.original@, output: self.output@ }
    }
}

/// What toggling the editing asks for.
pub enum ToggleStep {
    /// There is nothing to edit.
    NoTranscript,
    /// A transcript has to be opened first.
    Open(FilePath),
    /// Editing can begin.
    Start,
    /// The edited copy has to be saved first.
    Save,
}

/// What is found when a transcript is opened.
pub struct FoundTranscript {
    pub exists: bool,
    pub text: Result<String, String>,
    pub edited_exists: bool,
    pub edited_text: Option<String>,
    /// The text of the transcript that was open before, as it was made.
    pub known_original: Option<String>,
    /// The files of the folder.
    pub folder: Vec<FilePath>,
}

impl FoundTranscript {
    /// The text of the edited copy: that of the transcript where there is none or it cannot be read.
    pub open spec fn edited(self, text: Seq<char>) -> Seq<char> {
        match self.edited_text {
            Some(t) if self.edited_exists => t@,
            _ => text,
        }
    }
}

impl ReviewView {
    /// The transcript that saving concerns: the one that is open, else the last one known.
    pub open spec fn save_target(self, known: Option<PathView>) -> Option<PathView> {
        match self.output_path {
            Some(p) => Some(p),
            None => known,
        }
    }

    /// The files that saving the edited copy concerns, or why it cannot be saved.
    pub open spec fn save_plan(
        self,
        known: Option<PathView>,
        original_exists: bool,
        selected_exists: bool,
    ) -> Result<PlanView, Seq<char>> {
        if stripped(self.edited_text).len() == 0 {
            Err("edited text is empty"@)
        } else {
            match self.save_target(known) {
                None => Err("no transcript output selected for editing"@),
                Some(selected) => {
                    let original = original_of(selected);
                    if !original_exists && !(is_edited(selected) && selected_exists) {
                        Err("selected transcript does not exist: '"@ + original.text() + "'"@)
                    } else {
                        Ok(PlanView { selected, original, output: edited_of(original) })
                    }
                },
            }
        }
    }

    /// The transcript that is edited and whether it has to be opened first; or why there is none.
    pub open spec fn editing_target(self, selected: Option<PathView>) -> Result<
        (PathView, bool),
        Seq<char>,
    > {
        match self.output_path {
            Some(p) => Ok((p, stripped(self.transcription_text).len() == 0)),
            None => match selected {
                Some(p) => Ok((p, true)),
                None => Err("select or load an output transcript before editing operations"@),
            },
        }
    }

    /// The transcript that editing begins with.
    pub open spec fn edit_choice(self, selected: Option<PathView>) -> Option<PathView> {
        match selected {
            Some(p) => Some(p),
            None => self.output_path,
        }
    }

    /// The state once the texts are shown.
    pub open spec fn showing(self, shown: Seq<char>, edited: Seq<char>) -> ReviewView {
        ReviewView {
            transcription_text: shown,
            cues: cues_in(shown),
            edited_text: edited,
            edited_cues: cues_in(edited),
            ..self
        }
    }

    /// The state once the edited text is another.
    pub open spec fn with_edited(self, edited: Seq<char>) -> ReviewView {
        ReviewView { edited_text: edited, edited_cues: cues_in(edited), ..self }
    }

    /// The edited text, or the transcript where nothing was edited.
    pub open spec fn edited_or_shown(self) -> Seq<char> {
        if stripped(self.edited_text).len() == 0 {
            self.transcription_text
        } else {
            self.edited_text
        }
    }

    /// The state after the speakers were looked for; names that were given stay.
    pub open spec fn speakers_found(self, original: Option<Seq<char>>) -> ReviewView {
        let source = match original {
            Some(text) => text,
            None => if stripped(self.transcription_text).len() > 0 {
                self.transcription_text
            } else {
                self.edited_text
            },
        };
        ReviewView {
            rename_entries: carried_over(
                speaker_slots(speaker_tags_in(source)),
                self.rename_entries,
            ),
            ..self
        }
    }

    /// The state once nothing is open.
    pub open spec fn closed(self) -> ReviewView {
        ReviewView {
            editing_enabled: false,
            edit_pause_until: None,
            output_path: None,
            transcription_text: Seq::empty(),
            cues: Seq::empty(),
            edited_text: Seq::empty(),
            edited_cues: Seq::empty(),
            rename_entries: Seq::empty(),
            show_rename_window: false,
            ..self
        }
    }

    /// The state once a transcript was opened.
    pub open spec fn opened(
        self,
        path: PathView,
        text: Seq<char>,
        found: FoundTranscript,
    ) -> ReviewView {
        let edited = found.edited(text);
        let shown = if is_edited(path) {
            edited
        } else {
            text
        };
        let r = (ReviewView { output_path: Some(path), ..self }).showing(
            shown,
            edited,
        ).speakers_found(crate::board::text_view(found.known_original));
        match first_recording(path_views(found.folder@), base_stem(original_of(path))) {
            Some(audio) => ReviewView { active_audio_path: Some(audio), ..r },
            None => r,
        }
    }
}

/// What a save wrote, opening reads back: whether the transcript that was open is opened again, the
/// edited copy, or the transcript as it was made, the edited copy that is looked at is the file that
/// was written, and its text is the edited text that was saved. A transcript as it was made is one
/// whose own name is not that of an edited copy; without an extension, the name of the edited copy
/// does not lead back.
pub proof fn lemma_saved_is_read_back(
    saved: ReviewView,
    known: Option<PathView>,
    original_exists: bool,
    selected_exists: bool,
    plan: PlanView,
    again: ReviewView,
    path: PathView,
    text: Seq<char>,
    found: FoundTranscript,
)
    requires
        saved.save_plan(known, original_exists, selected_exists) == Ok::<PlanView, Seq<char>>(plan),
        path == plan.selected || (path == plan.output && extension_of(plan.original.name) is Some)
            || (path == plan.original && !is_edited(plan.original)),
        found.edited_exists,
        crate::board::text_view(found.edited_text) == Some(saved.edited_text),
    ensures
        edited_of(original_of(path)) == plan.output,
        again.opened(path, text, found).edited_text == saved.edited_text,
        is_edited(path) ==> again.opened(path, text, found).transcription_text
            == saved.edited_text,
        again.opened(path, text, found).output_path == Some(path),
{
    if path == plan.output && extension_of(plan.original.name) is Some {
        lemma_original_of_edited(plan.original);
    }
}

impl Review {
    /// Shows a transcript and its edited copy.
    pub fn show_texts(&mut self, shown: String, edited: String)
        ensures
            final(self)@ == old(self)@.showing(shown@, edited@),
    {
        self.cues = parse_transcript(shown.as_str());
        self.edited_cues = parse_transcript(edited.as_str());
        self.transcription_text = shown;
        self.edited_text = edited;
    }

    /// Replaces the edited text.
    pub fn set_edited(&mut self, edited: String)
        ensures
            final(self)@ == old(self)@.with_edited(edited@),
    {
        self.edited_cues = parse_transcript(edited.as_str());
        self.edited_text = edited;
    }

    /// Looks for the speakers in the transcript as it was made, or in what is shown.
    pub fn refresh_speaker_rename_entries(&mut self, original: Option<&str>)
        ensures
            final(self)@ == old(self)@.speakers_found(
                match original {
                    Some(t) => Some(t@),
                    None => None,
                },
            ),
    {
        let tags: Vec<String> = detect_speaker_slots(
            speaker_source(
                original,
                self.transcription_text.as_str(),
                self.edited_text.as_str(),
            ),
        );
        self.rename_entries = carry_over_names(&tags, &self.rename_entries);
    }

    /// Closes the transcript.
    pub fn close(&mut self)
        ensures
            final(self)@ == old(self)@.closed(),
    {
        self.editing_enabled = false;
        self.edit_pause_until = None;
        self.output_path = None;
        self.transcription_text = String::new();
        self.cues = Vec::new();
        self.edited_text = String::new();
        self.edited_cues = Vec::new();
        self.rename_entries = Vec::new();
        self.show_rename_window = false;
        assert(self.transcription_text@ =~= Seq::<char>::empty());
        assert(self.edited_text@ =~= Seq::<char>::empty());
        assert(rename_views(self.rename_entries@) =~= Seq::<(Seq<char>, Seq<char>)>::empty());
    }

    /// The transcript that saving concerns.
    pub fn save_target(&self, board: &JobBoard) -> (r: Option<FilePath>)
        ensures
            path_view(r) == self@.save_target(board@.original_output_path),
    {
        match &self.output_path {
            Some(p) => Some(p.copy()),
            None => copy_path(&board.original_output_path),
        }
    }

    /// The files that saving the edited copy concerns, or why it cannot be saved.
    pub fn plan_save(&self, board: &JobBoard, original_exists: bool, selected_exists: bool) -> (r:
        Result<SavePlan, String>)
        ensures
            match self@.save_plan(board@.original_output_path, original_exists, selected_exists) {
                Ok(plan) => r matches Ok(p) && p@ == plan,
                Err(why) => r matches Err(e) && e@ == why,
            },
    {
        if trim(self.edited_text.as_str()).is_empty() {
            return Err("edited text is empty".to_owned());
        }
        let selected: FilePath = match self.save_target(board) {
            Some(p) => p,
            None => {
                return Err("no transcript output selected for editing".to_owned());
            },
        };
        let original: FilePath = original_output_path_for_any(&selected);
        if !original_exists && !(is_edited_output_path(&selected) && selected_exists) {
            let text: String = original.text();
            return Err(cat3("selected transcript does not exist: '", text.as_str(), "'"));
        }
        let output: FilePath = edited_file_path(&original);
        Ok(SavePlan { selected, original, output })
    }

    /// Notes that the edited copy is about to be written.
    pub fn save_begins(&mut self, plan: &SavePlan)
        ensures
            final(self)@ == (ReviewView { output_path: Some(plan@.selected), ..old(self)@ }),
    {
        self.output_path = Some(plan.selected.copy());
    }

    /// The transcript that is edited and whether it has to be opened first; or why there is none.
    pub fn editing_target(
        &self,
        selected: Option<FilePath>,
    ) -> (r: Result<(FilePath, bool), String>)
        ensures
            match self@.editing_target(path_view(selected)) {
                Ok((p, reload)) => r matches Ok((q, again)) && q@ == p && again == reload,
                Err(why) => r matches Err(e) && e@ == why,
            },
    {
        if let Some(p) = &self.output_path {
            return Ok((p.copy(), trim(self.transcription_text.as_str()).is_empty()));
        }
        match selected {
            Some(p) => Ok((p, true)),
            None => Err("select or load an output transcript before editing operations".to_owned()),
        }
    }

    /// Whether editing can be begun or stopped, given whether the transcript that is selected and the
    /// one that is loaded are there.
    pub fn can_edit(&self, selected_exists: bool, loaded_exists: bool) -> (r: bool)
        ensures
            r == (self@.editing_enabled || selected_exists || loaded_exists),
    {
        self.editing_enabled || selected_exists || loaded_exists
    }

    /// Whether an autosave is due: editing is on, and the pause after the last change is over.
    pub fn autosave_due(&self, clock: &Clock) -> (r: bool)
        ensures
            r == (self@.editing_enabled && match self@.edit_pause_until {
                Some(deadline) => clock.now_ms >= deadline,
                None => false,
            }),
    {
        self.editing_enabled && match self.edit_pause_until {
            Some(deadline) => clock.now_ms >= deadline,
            None => false,
        }
    }

    /// Notes that the user changed the edited text, which is saved after a pause.
    pub fn text_edited(&mut self, clock: &Clock, edited: String, delay_ms: u64)
        ensures
            final(self)@ == (ReviewView {
                edit_pause_until: Some(super::later(clock.now_ms, delay_ms)),
                ..old(self)@.with_edited(edited@)
            }),
    {
        self.set_edited(edited);
        self.edit_pause_until = Some(super::later(clock.now_ms, delay_ms));
    }

    /// Notes that the user placed the cursor in the edited text, which keeps the transcript where it
    /// is for a while.
    pub fn cursor_placed(&mut self, clock: &Clock, delay_ms: u64)
        ensures
            final(self)@ == (ReviewView {
                edit_pause_until: Some(super::later(clock.now_ms, delay_ms)),
                ..old(self)@
            }),
    {
        self.edit_pause_until = Some(super::later(clock.now_ms, delay_ms));
    }

    /// Opens a transcript.
    fn open(&mut self, path: &FilePath, text: &str, found: &FoundTranscript)
        ensures
            final(self)@ == old(self)@.opened(path@, text@, *found),
    {
        let edited: String = match &found.edited_text {
            Some(t) if found.edited_exists => t.clone(),
            _ => text.to_owned(),
        };
        let shown: String = if is_edited_output_path(path) {
            edited.clone()
        } else {
            text.to_owned()
        };
        self.output_path = Some(path.copy());
        self.show_texts(shown, edited);
        let known: Option<&str> = match &found.known_original {
            Some(t) => Some(t.as_str()),
            None => None,
        };
        self.refresh_speaker_rename_entries(known);
        let original: FilePath = original_output_path_for_any(path);
        if let Some(audio) = guess_audio_path_for_output(&original, &found.folder) {
            self.active_audio_path = Some(audio);
        }
    }
}

/// The board after a transcript was opened.
pub open spec fn board_after_open(
    b: BoardView,
    path: PathView,
    edited_exists: bool,
    audio: Option<PathView>,
) -> BoardView {
    let original = original_of(path);
    let edited = edited_of(original);
    let entries = with_entry(b.output_entries, original, false);
    BoardView {
        original_output_path: Some(original),
        edited_output_path: Some(edited),
        output_entries: if edited_exists {
            with_entry(entries, edited, false)
        } else {
            entries
        },
        active_audio_path: match audio {
            Some(a) => Some(a),
            None => b.active_audio_path,
        },
        ..b
    }
}

/// Notes on the board that a transcript was opened.
fn note_opened(board: &mut JobBoard, path: &FilePath, edited_exists: bool, audio: &Option<FilePath>)
    ensures
        final(board)@ == board_after_open(
            old(board)@,
            path@,
            edited_exists,
            path_view(*audio),
        ),
{
    let original: FilePath = original_output_path_for_any(path);
    let edited: FilePath = edited_file_path(&original);
    board.original_output_path = Some(original.copy());
    board.edited_output_path = Some(edited.copy());
    ensure_output_entry(&mut board.output_entries, original, false);
    if edited_exists {
        ensure_output_entry(&mut board.output_entries, edited, false);
    }
    if let Some(a) = audio {
        board.active_audio_path = Some(a.copy());
    }
}

/// The file that the text of a transcript is read from.
pub open spec fn text_source(path: PathView) -> PathView {
    if is_edited(path) {
        path
    } else {
        original_of(path)
    }
}

/// The file that the text of a transcript is read from.
pub fn transcript_text_source(path: &FilePath) -> (r: FilePath)
    ensures
        r@ == text_source(path@),
{
    if is_edited_output_path(path) {
        path.copy()
    } else {
        original_output_path_for_any(path)
    }
}

impl SessionView {
    /// The state once a transcript was opened.
    pub open spec fn transcript_opened(
        self,
        path: PathView,
        text: Seq<char>,
        found: FoundTranscript,
    ) -> SessionView {
        SessionView {
            review: self.review.opened(path, text, found),
            settings: match first_recording(
                path_views(found.folder@),
                base_stem(original_of(path)),
            ) {
                Some(audio) => SettingsView { audio_file: audio.text(), ..self.settings },
                None => self.settings,
            },
            ..self
        }
    }

    /// The state once editing is on or off.
    pub open spec fn editing(self, enabled: bool) -> SessionView {
        SessionView {
            settings: SettingsView { split_view: enabled, ..self.settings },
            review: ReviewView {
                editing_enabled: enabled,
                edit_pause_until: None,
                ..self.review
            },
            ..self
        }
    }

    /// The state once what is edited was made ready.
    pub open spec fn edit_ready(self) -> SessionView {
        SessionView {
            review: self.review.with_edited(self.review.edited_or_shown()),
            ..self
        }
    }

    /// The state after an operation on the edited copy made editing begin.
    pub open spec fn edit_begun(self, clock: Clock) -> SessionView {
        let s = self.edit_ready();
        if s.review.editing_enabled {
            SessionView { review: ReviewView { edit_pause_until: None, ..s.review }, ..s }
        } else {
            s.editing(true).saving(clock).said(clock, "Editing enabled."@)
        }
    }
}

impl Session {
    /// The transcript of the row that is selected.
    pub fn selected_output_path(&self, board: &JobBoard) -> (r: Option<FilePath>)
        ensures
            path_view(r) == match self@.review.selected_output_row {
                Some(row) if row < board@.output_entries.len() => Some(
                    board@.output_entries[row as int].path,
                ),
                _ => None,
            },
    {
        match self.review.selected_output_row {
            Some(row) => if row < board.output_entries.len() {
                assert(entry_views(board.output_entries@)[row as int]
                    == board.output_entries@[row as int]@);
                Some(board.output_entries[row].path.copy())
            } else {
                None
            },
            None => None,
        }
    }

    /// Opens a transcript, given what was found; or says why it cannot be opened.
    pub fn open_output_transcript(
        &mut self,
        board: &mut JobBoard,
        path: &FilePath,
        found: &FoundTranscript,
    ) -> (r: Result<(), String>)
        ensures
            match (found.exists, found.text) {
                (true, Ok(text)) => r is Ok && final(self)@ == old(self)@.transcript_opened(
                    path@,
                    text@,
                    *found,
                ) && final(board)@ == board_after_open(
                    old(board)@,
                    path@,
                    found.edited_exists,
                    final(self)@.review.active_audio_path,
                ),
                (true, Err(_)) => (r matches Err(e) && e@ == "failed to read output file '"@
                    + text_source(path@).text() + "'"@) && final(self)@ == old(self)@
                    && final(board)@ == old(board)@,
                (false, _) => (r matches Err(e) && e@ == "output file does not exist: '"@
                    + path@.text() + "'"@) && final(self)@ == old(self)@ && final(board)@ == old(
                    board,
                )@,
            },
    {
        if !found.exists {
            let text: String = path.text();
            return Err(cat3("output file does not exist: '", text.as_str(), "'"));
        }
        match &found.text {
            Err(_) => {
                let source: FilePath = transcript_text_source(path);
                let text: String = source.text();
                Err(cat3("failed to read output file '", text.as_str(), "'"))
            },
            Ok(text) => {
                let original: FilePath = original_output_path_for_any(path);
                if let Some(audio) = guess_audio_path_for_output(&original, &found.folder) {
                    self.settings.audio_file = audio.text();
                }
                self.review.open(path, text.as_str(), found);
                note_opened(board, path, found.edited_exists, &self.review.active_audio_path);
                Ok(())
            },
        }
    }

    /// Says what came of opening a transcript that was selected.
    pub fn transcript_loaded(&mut self, clock: &Clock, path: &FilePath, outcome: Result<(), String>)
        ensures
            final(self)@ == match outcome {
                Ok(_) => old(self)@.said(*clock, "Loaded output transcript: "@ + path@.text()),
                Err(e) => old(self)@.warned("Failed to load output transcript"@, e@).said(
                    *clock,
                    "Failed to load output transcript: "@ + e@,
                ),
            },
    {
        match outcome {
            Ok(_) => {
                let name: String = path.text();
                let text: String = cat2("Loaded output transcript: ", name.as_str());
                self.push_status(clock, text.as_str());
            },
            Err(e) => {
                self.open_modal("Failed to load output transcript", e.as_str(), true);
                let text: String = cat2("Failed to load output transcript: ", e.as_str());
                self.push_status(clock, text.as_str());
            },
        }
    }

    /// Fills the edited text from the transcript where it is empty, and reads its cues.
    fn prepare_edit(&mut self)
        ensures
            final(self)@ == old(self)@.edit_ready(),
    {
        let text: String = if trim(self.review.edited_text.as_str()).is_empty() {
            self.review.transcription_text.clone()
        } else {
            self.review.edited_text.clone()
        };
        self.review.set_edited(text);
    }

    /// Turns editing on or off.
    fn set_editing(&mut self, enabled: bool)
        ensures
            final(self)@ == old(self)@.editing(enabled),
    {
        self.review.editing_enabled = enabled;
        self.review.edit_pause_until = None;
        self.settings.split_view = enabled;
    }

    /// Makes editing begin for an operation on the edited copy and gives its text; or says that
    /// there is none.
    pub fn begin_editing(&mut self, clock: &Clock) -> (r: Result<String, String>)
        ensures
            final(self)@ == old(self)@.edit_begun(*clock),
            ({
                let text = old(self)@.review.edited_or_shown();
                if stripped(text).len() == 0 {
                    r matches Err(e) && e@ == "edited transcript is empty"@
                } else {
                    r matches Ok(t) && t@ == text
                }
            }),
    {
        self.prepare_edit();
        if self.review.editing_enabled {
            self.review.edit_pause_until = None;
        } else {
            self.set_editing(true);
            self.queue_save(clock);
            self.push_status(clock, "Editing enabled.");
        }
        if trim(self.review.edited_text.as_str()).is_empty() {
            return Err("edited transcript is empty".to_owned());
        }
        Ok(self.review.edited_text.clone())
    }

    /// What toggling the editing asks for.
    pub fn toggle_step(&self, board: &JobBoard) -> (r: ToggleStep)
        ensures
            ({
                let choice = self@.review.edit_choice(
                    match self@.review.selected_output_row {
                        Some(row) if row < board@.output_entries.len() => Some(
                            board@.output_entries[row as int].path,
                        ),
                        _ => None,
                    },
                );
                if self@.review.editing_enabled {
                    r is Save
                } else {
                    match choice {
                        None => r is NoTranscript,
                        Some(p) => if is_known(self@.review.output_path, p) && stripped(
                            self@.review.transcription_text,
                        ).len() > 0 {
                            r is Start
                        } else {
                            r matches ToggleStep::Open(q) && q@ == p
                        },
                    }
                }
            }),
    {
        if self.review.editing_enabled {
            return ToggleStep::Save;
        }
        let choice: Option<FilePath> = match self.selected_output_path(board) {
            Some(p) => Some(p),
            None => copy_path(&self.review.output_path),
        };
        match choice {
            None => ToggleStep::NoTranscript,
            Some(p) => {
                let loaded: bool = match &self.review.output_path {
                    Some(own) => own.same(&p),
                    None => false,
                };
                if loaded && !trim(self.review.transcription_text.as_str()).is_empty() {
                    ToggleStep::Start
                } else {
                    ToggleStep::Open(p)
                }
            },
        }
    }

    /// Says that there is nothing to edit.
    pub fn refuse_edit(&mut self, clock: &Clock)
        ensures
            final(self)@ == old(self)@.warned(
                "No transcript selected"@,
                "Select or load a transcript in Output files before editing."@,
            ).said(*clock, "Edit blocked: select an output transcript first."@),
    {
        self.open_modal(
            "No transcript selected",
            "Select or load a transcript in Output files before editing.",
            true,
        );
        self.push_status(clock, "Edit blocked: select an output transcript first.");
    }

    /// Says that the transcript to edit cannot be opened.
    pub fn edit_open_failed(&mut self, clock: &Clock, error: &str)
        ensures
            final(self)@ == old(self)@.warned("Failed to open transcript"@, error@).said(
                *clock,
                "Edit blocked: "@ + error@,
            ),
    {
        self.open_modal("Failed to open transcript", error, true);
        let text: String = cat2("Edit blocked: ", error);
        self.push_status(clock, text.as_str());
    }

    /// Begins to edit the transcript that is open.
    pub fn start_editing(&mut self, clock: &Clock)
        ensures
            final(self)@ == old(self)@.edit_ready().editing(true).said(
                *clock,
                "Editing enabled."@,
            ).saving(*clock),
    {
        self.prepare_edit();
        self.set_editing(true);
        self.push_status(clock, "Editing enabled.");
        self.queue_save(clock);
    }

    /// Stops editing, given what came of saving the edited copy.
    pub fn stop_editing(&mut self, clock: &Clock, saved: Result<(), String>)
        ensures
            final(self)@ == match saved {
                Ok(_) => old(self)@.editing(false).said(*clock, "Editing stopped."@).saving(*clock),
                Err(e) => old(self)@.warned("Failed to save edits"@, e@).said(
                    *clock,
                    "Stop editing blocked: "@ + e@,
                ),
            },
    {
        if let Err(e) = saved {
            self.open_modal("Failed to save edits", e.as_str(), true);
            let text: String = cat2("Stop editing blocked: ", e.as_str());
            self.push_status(clock, text.as_str());
            return;
        }
        self.set_editing(false);
        self.push_status(clock, "Editing stopped.");
        self.queue_save(clock);
    }

    /// Notes what came of an autosave.
    pub fn autosaved(&mut self, clock: &Clock, saved: Result<(), String>)
        ensures
            ({
                let s = match saved {
                    Ok(_) => old(self)@,
                    Err(e) => old(self)@.said(*clock, "Autosave failed: "@ + e@),
                };
                final(self)@ == (SessionView {
                    review: ReviewView { edit_pause_until: None, ..s.review },
                    ..s
                })
            }),
    {
        if let Err(e) = saved {
            let text: String = cat2("Autosave failed: ", e.as_str());
            self.push_status(clock, text.as_str());
        }
        self.review.edit_pause_until = None;
    }

    /// Replaces the tags of the speakers by the names that were given; gives how many were
    /// replaced, in which case the edited copy has to be saved.
    pub fn rename_step(&mut self) -> (r: Result<usize, String>)
        ensures
            match renamed(old(self)@.review.edited_text, old(self)@.review.rename_entries) {
                Ok((text, count)) => (r matches Ok(n) && n == capped(count)) && final(self)@
                    == if count == 0 {
                    old(self)@
                } else {
                    SessionView {
                        review: ReviewView {
                            edit_pause_until: None,
                            ..old(self)@.review.with_edited(text)
                        },
                        ..old(self)@
                    }
                },
                Err(why) => (r matches Err(e) && e@ == why) && final(self)@ == old(self)@,
            },
    {
        match rename_speakers(self.review.edited_text.as_str(), &self.review.rename_entries) {
            Ok((text, count)) => {
                if count > 0 {
                    self.review.set_edited(text);
                    self.review.edit_pause_until = None;
                }
                Ok(count)
            },
            Err(e) => Err(e),
        }
    }

    /// Takes over the settings for editing, which always shows both texts.
    pub fn editing_settings_saved(&mut self, clock: &Clock)
        ensures
            final(self)@ == (SessionView {
                settings: SettingsView { split_view: true, ..old(self)@.settings },
                ..old(self)@
            }).saving(*clock),
    {
        self.settings.split_view = true;
        self.queue_save(clock);
    }

    /// Says what came of renaming the speakers.
    pub fn renames_applied(&mut self, clock: &Clock, outcome: Result<
        Option<(usize, FilePath)>,
        String,
    >)
        ensures
            final(self)@ == match outcome {
                Ok(None) => old(self)@.said(
                    *clock,
                    "Speaker rename: no replacements made (empty names or no matches)."@,
                ),
                Ok(Some((count, saved))) => old(self)@.said(
                    *clock,
                    "Speaker rename applied: "@ + decimal(count as nat) + " replacements. Saved: "@
                        + saved@.text(),
                ),
                Err(e) => old(self)@.warned("Speaker rename failed"@, e@).said(
                    *clock,
                    "Speaker rename failed: "@ + e@,
                ),
            },
    {
        match outcome {
            Ok(None) => {
                self.push_status(
                    clock,
                    "Speaker rename: no replacements made (empty names or no matches).",
                );
            },
            Ok(Some((count, saved))) => {
                let number: String = decimal_text(count as u64);
                let path: String = saved.text();
                let text: String = cat4(
                    "Speaker rename applied: ",
                    number.as_str(),
                    " replacements. Saved: ",
                    path.as_str(),
                );
                self.push_status(clock, text.as_str());
            },
            Err(e) => {
                self.open_modal("Speaker rename failed", e.as_str(), true);
                let text: String = cat2("Speaker rename failed: ", e.as_str());
                self.push_status(clock, text.as_str());
            },
        }
    }

    /// Opens the window for renaming speakers, or says why it cannot be opened.
    pub fn open_speaker_rename_window(
        &mut self,
        clock: &Clock,
        ready: Result<(), String>,
        original: Option<&str>,
    )
        ensures
            final(self)@ == match ready {
                Ok(_) => SessionView {
                    review: ReviewView {
                        show_rename_window: true,
                        ..old(self)@.review.speakers_found(
                            match original {
                                Some(t) => Some(t@),
                                None => None,
                            },
                        )
                    },
                    ..old(self)@
                },
                Err(e) => old(self)@.warned("Rename speakers blocked"@, e@).said(
                    *clock,
                    "Rename speakers blocked: "@ + e@,
                ),
            },
    {
        if let Err(e) = ready {
            self.open_modal("Rename speakers blocked", e.as_str(), true);
            let text: String = cat2("Rename speakers blocked: ", e.as_str());
            self.push_status(clock, text.as_str());
            return;
        }
        self.review.refresh_speaker_rename_entries(original);
        self.review.show_rename_window = true;
    }

    /// Adds recordings with the transcripts beside them.
    pub fn add_media(&mut self, board: &mut JobBoard, clock: &Clock, added: &Vec<AddedMedia>)
        ensures
            ({
                let l = with_added_media(
                    (Lists {
                        media: old(board)@.media_entries,
                        outputs: old(board)@.output_entries,
                    }),
                    added@,
                );
                let found = exists|i: int|
                    0 <= i < added@.len() && crate::library::outputs_beside(
                        #[trigger] added@[i],
                    ).len() > 0;
                &&& final(board)@ == (BoardView {
                    media_entries: l.media,
                    output_entries: l.outputs,
                    ..old(board)@
                })
                &&& final(self)@ == old(self)@.said(
                    *clock,
                    if found {
                        "Added media files. Existing .md/.edited.md outputs were auto-added."@
                    } else {
                        "Added media files."@
                    },
                )
            }),
    {
        let found: bool = add_media_files(
            &mut board.media_entries,
            &mut board.output_entries,
            added,
        );
        if found {
            self.push_status(
                clock,
                "Added media files. Existing .md/.edited.md outputs were auto-added.",
            );
        } else {
            self.push_status(clock, "Added media files.");
        }
    }

    /// Adds transcripts with their counterparts.
    pub fn add_outputs(&mut self, board: &mut JobBoard, clock: &Clock, added: &Vec<AddedOutput>)
        ensures
            final(board)@ == (BoardView {
                output_entries: with_added_outputs(old(board)@.output_entries, added@),
                ..old(board)@
            }),
            final(self)@ == old(self)@.said(*clock, "Added output files."@),
    {
        add_output_files(&mut board.output_entries, added);
        self.push_status(clock, "Added output files.");
    }

    /// Takes the ticked transcripts out of the list; where the open one was among them, closes it.
    pub fn remove_selected_outputs(&mut self, board: &mut JobBoard, clock: &Clock)
        ensures
            ({
                let entries = old(board)@.output_entries;
                let current = open_is_ticked(entries, old(self)@.review.output_path);
                let any = any_ticked(entries);
                let b = BoardView { output_entries: unticked(entries), ..old(board)@ };
                let s = if any {
                    SessionView {
                        review: ReviewView { selected_output_row: None, ..old(self)@.review },
                        ..old(self)@
                    }
                } else {
                    old(self)@
                };
                &&& final(board)@ == if current {
                    BoardView { original_output_path: None, edited_output_path: None, ..b }
                } else {
                    b
                }
                &&& final(self)@ == if current {
                    (SessionView { review: s.review.closed(), ..s }).said(
                        *clock,
                        "Removed selected output transcript. Select another output to edit."@,
                    )
                } else {
                    s
                }
            }),
    {
        let current: bool = find_open_ticked(&board.output_entries, &self.review.output_path);
        let any: bool = find_ticked(&board.output_entries);
        remove_selected(&mut board.output_entries);
        if any {
            self.review.selected_output_row = None;
        }
        if current {
            board.original_output_path = None;
            board.edited_output_path = None;
            self.review.close();
            self.push_status(
                clock,
                "Removed selected output transcript. Select another output to edit.",
            );
        }
    }

    /// Turns to a recording of the list.
    pub fn choose_media(&mut self, clock: &Clock, path: &FilePath)
        ensures
            final(self)@ == (SessionView {
                settings: SettingsView { audio_file: path@.text(), ..old(self)@.settings },
                review: ReviewView { active_audio_path: Some(path@), ..old(self)@.review },
                ..old(self)@
            }).saving(*clock),
    {
        self.settings.audio_file = path.text();
        self.review.active_audio_path = Some(path.copy());
        self.queue_save(clock);
    }
}

/// Whether the open transcript is ticked.
pub open spec fn open_is_ticked(entries: Seq<EntryView>, open: Option<PathView>) -> bool {
    match open {
        Some(p) => exists|i: int|
            0 <= i < entries.len() && (#[trigger] entries[i]).selected && same_file(entries[i].path, p),
        None => false,
    }
}

/// Whether an entry is ticked.
pub open spec fn any_ticked(entries: Seq<EntryView>) -> bool {
    exists|i: int| 0 <= i < entries.len() && (#[trigger] entries[i]).selected
}

/// Whether the open transcript is ticked.
fn find_open_ticked(
    entries: &Vec<crate::library::OutputEntry>,
    open: &Option<FilePath>,
) -> (r: bool)
    ensures
        r == open_is_ticked(entry_views(entries@), path_view(*open)),
{
    let p: &FilePath = match open {
        Some(p) => p,
        None => {
            return false;
        },
    };
    let mut i: usize = 0;
    while i < entries.len()
        invariant
            i <= entries@.len(),
            path_view(*open) == Some(p@),
            forall|k: int|
                0 <= k < i ==> !((#[trigger] entry_views(entries@)[k]).selected && same_file(
                    entry_views(entries@)[k].path,
                    p@,
                )),
        decreases entries@.len() - i,
    {
        assert(entry_views(entries@)[i as int] == entries@[i as int]@);
        if entries[i].selected && entries[i].path.same(p) {
            return true;
        }
        i += 1;
    }
    false
}

/// Whether an entry is ticked.
fn find_ticked(entries: &Vec<crate::library::OutputEntry>) -> (r: bool)
    ensures
        r == any_ticked(entry_views(entries@)),
{
    let mut i: usize = 0;
    while i < entries.len()
        invariant
            i <= entries@.len(),
            forall|k: int| 0 <= k < i ==> !(#[trigger] entry_views(entries@)[k]).selected,
        decreases entries@.len() - i,
    {
        assert(entry_views(entries@)[i as int] == entries@[i as int]@);
        if entries[i].selected {
            return true;
        }
        i += 1;
    }
    false
}

/// What is shown and what can be edited each have the cues of their own text, and changing one text
/// leaves the other alone. Nothing else of what is open changes.
pub proof fn lemma_texts_have_their_cues(r: ReviewView, shown: Seq<char>, edited: Seq<char>)
    ensures
        ({
            let after = r.showing(shown, edited);
            &&& after.transcription_text == shown && after.cues == cues_in(shown)
            &&& after.edited_text == edited && after.edited_cues == cues_in(edited)
            &&& after == (ReviewView {
                transcription_text: after.transcription_text,
                cues: after.cues,
                edited_text: after.edited_text,
                edited_cues: after.edited_cues,
                ..r
            })
        }),
        ({
            let after = r.with_edited(edited);
            &&& after.edited_text == edited && after.edited_cues == cues_in(edited)
            &&& after.transcription_text == r.transcription_text && after.cues == r.cues
            &&& after == (ReviewView {
                edited_text: after.edited_text,
                edited_cues: after.edited_cues,
                ..r
            })
        }),
        stripped(r.edited_text).len() > 0 ==> r.edited_or_shown() == r.edited_text,
        stripped(r.edited_text).len() == 0 ==> r.edited_or_shown() == r.transcription_text,
{
}

/// When the edited text can be saved, and where to: it is not blank, a transcript is open or known, and
/// that transcript, or the edited one that is open, exists. It is saved beside the transcript as its
/// edited copy, and never over it.
pub proof fn lemma_save_plan(
    r: ReviewView,
    known: Option<PathView>,
    original_exists: bool,
    selected_exists: bool,
)
    ensures
        ({
            let target = if r.output_path is Some {
                r.output_path
            } else {
                known
            };
            let plan = r.save_plan(known, original_exists, selected_exists);
            &&& plan is Ok <==> stripped(r.edited_text).len() > 0 && target is Some && (
            original_exists || (is_edited(target->0) && selected_exists))
            &&& plan matches Ok(p) ==> p.selected == target->0 && p.original == original_of(
                target->0,
            ) && p.output == edited_of(original_of(target->0))
            &&& stripped(r.edited_text).len() == 0 ==> plan == Err::<PlanView, Seq<char>>(
                "edited text is empty"@,
            )
        }),
{
}

/// Which transcript is edited: the one that is open, which is read again only where nothing of it is
/// shown; else the one that is selected, which has to be read; and none can be where there is neither.
pub proof fn lemma_editing_target(r: ReviewView, selected: Option<PathView>)
    ensures
        r.output_path matches Some(p) ==> (r.editing_target(selected) matches Ok((q, read)) && q == p
            && (read <==> stripped(r.transcription_text).len() == 0)),
        r.output_path is None ==> (selected matches Some(p) ==> (r.editing_target(
            selected,
        ) matches Ok((q, read)) && q == p && read)),
        r.output_path is None && selected is None ==> r.editing_target(selected) is Err,
        selected is Some ==> r.edit_choice(selected) == selected,
        selected is None ==> r.edit_choice(selected) == r.output_path,
{
}

/// Whose speakers can be named: those of the transcript as it was made where that is known, else of the
/// one that is shown, else of the edited one; each has a row with its tag, in their order, and nothing
/// else of what is open changes.
pub proof fn lemma_speakers_found(r: ReviewView, original: Option<Seq<char>>)
    ensures
        ({
            let source = if original is Some {
                original->0
            } else if stripped(r.transcription_text).len() > 0 {
                r.transcription_text
            } else {
                r.edited_text
            };
            let slots = speaker_slots(speaker_tags_in(source));
            let after = r.speakers_found(original);
            &&& after.rename_entries.len() == slots.len()
            &&& forall|i: int|
                0 <= i < slots.len() ==> (#[trigger] after.rename_entries[i]).0 == slots[i]
            &&& after == (ReviewView { rename_entries: after.rename_entries, ..r })
        }),
{
}

/// What closing a transcript leaves: nothing is open, shown, edited or named any more; the recording
/// that is played stays.
pub proof fn lemma_closed(r: ReviewView)
    ensures
        r.closed().output_path is None,
        r.closed().transcription_text.len() == 0 && r.closed().cues.len() == 0,
        r.closed().edited_text.len() == 0 && r.closed().edited_cues.len() == 0,
        r.closed().rename_entries.len() == 0 && !r.closed().show_rename_window,
        !r.closed().editing_enabled && r.closed().edit_pause_until is None,
        r.closed().active_audio_path == r.active_audio_path,
        r.closed().preprocess_note == r.preprocess_note,
        r.closed().selected_output_row == r.selected_output_row,
{
}

/// What opening a transcript shows: of one that is not edited the text that was read, and beside it its
/// edited copy where that can be read, else the same text; of an edited one the edited text in both. The
/// recording beside it is the one that is played, if there is one.
pub proof fn lemma_transcript_opened(
    s: SessionView,
    path: PathView,
    text: Seq<char>,
    found: FoundTranscript,
)
    ensures
        ({
            let after = s.transcript_opened(path, text, found);
            let edited = if found.edited_exists && found.edited_text is Some {
                found.edited_text->0@
            } else {
                text
            };
            let audio = first_recording(path_views(found.folder@), base_stem(original_of(path)));
            &&& after.review.output_path == Some(path)
            &&& !is_edited(path) ==> after.review.transcription_text == text
            &&& is_edited(path) ==> after.review.transcription_text == edited
            &&& after.review.edited_text == edited
            &&& after.review.cues == cues_in(after.review.transcription_text)
            &&& after.review.edited_cues == cues_in(edited)
            &&& audio matches Some(a) ==> after.review.active_audio_path == Some(a)
                && after.settings.audio_file == a.text()
            &&& audio is None ==> after.review.active_audio_path == s.review.active_audio_path
                && after.settings.audio_file == s.settings.audio_file
            &&& after.settings == (SettingsView { audio_file: after.settings.audio_file, ..s.settings })
            &&& after == (SessionView { review: after.review, settings: after.settings, ..s })
            &&& after.review.editing_enabled == s.review.editing_enabled
        }),
        text_source(path) == path,
{
}

/// What the board knows of a transcript that is opened: it and its edited copy, by the names that belong
/// together; the edited copy is listed only where it exists, and the recording changes only where one
/// was found. Jobs, recordings in the list and downloads stay.
pub proof fn lemma_board_after_open(
    b: BoardView,
    path: PathView,
    edited_exists: bool,
    audio: Option<PathView>,
)
    ensures
        ({
            let after = board_after_open(b, path, edited_exists, audio);
            let original = original_of(path);
            &&& after.original_output_path == Some(original)
            &&& after.edited_output_path == Some(edited_of(original))
            &&& audio is Some ==> after.active_audio_path == audio
            &&& audio is None ==> after.active_audio_path == b.active_audio_path
            &&& !edited_exists ==> after.output_entries == with_entry(
                b.output_entries,
                original,
                false,
            )
            &&& edited_exists ==> after.output_entries == with_entry(
                with_entry(b.output_entries, original, false),
                edited_of(original),
                false,
            )
            &&& after == (BoardView {
                original_output_path: after.original_output_path,
                edited_output_path: after.edited_output_path,
                output_entries: after.output_entries,
                active_audio_path: after.active_audio_path,
                ..b
            })
        }),
{
}

/// What beginning to edit does: the edited text is what it was, or, where it is blank, the transcript
/// that is shown; editing is on, beside the transcript, and nothing holds the transcript where it is.
/// Editing that was on is left on without a word.
pub proof fn lemma_edit_begun(s: SessionView, clock: Clock)
    ensures
        ({
            let after = s.edit_begun(clock);
            let text = if stripped(s.review.edited_text).len() > 0 {
                s.review.edited_text
            } else {
                s.review.transcription_text
            };
            &&& after.review.editing_enabled
            &&& after.review.edit_pause_until is None
            &&& after.review.edited_text == text
            &&& after.review.edited_cues == cues_in(text)
            &&& after.review.transcription_text == s.review.transcription_text
            &&& after.review.output_path == s.review.output_path
            &&& s.review.editing_enabled ==> after.settings == s.settings && after.status == s.status
                && after.status_log == s.status_log
            &&& !s.review.editing_enabled ==> after.settings.split_view && after.settings_dirty
        }),
        s.editing(false).settings.split_view == false,
        s.editing(false).review.editing_enabled == false,
        s.editing(false).review.edited_text == s.review.edited_text,
{
}

/// Whether the transcript that is open would be taken out of the list: where an entry of it is ticked,
/// however it is written.
pub proof fn lemma_open_is_ticked(entries: Seq<EntryView>, open: PathView, i: int)
    requires
        0 <= i < entries.len(),
        entries[i].selected,
    ensures
        any_ticked(entries),
        same_file(entries[i].path, open) ==> open_is_ticked(entries, Some(open)),
        !open_is_ticked(entries, None),
        (forall|k: int| 0 <= k < entries.len() ==> !same_file((#[trigger] entries[k]).path, open))
            ==> !open_is_ticked(entries, Some(open)),
{
}

} // verus!
