//! The chat about a transcript, and its anonymisation.
use super::runtime_panel::RuntimeReport;
use super::review::{PlanView, SavePlan};
use super::{
    AnonymiseView, ChatPanel, ChatView, Clock, ReviewView, Session, SessionView,
};
use crate::anonymise::candidate::{
    build_replacement_candidates, descending_lengths, distinct_candidates, distinct_keys, from_match,
    lemma_candidates, longest_first, match_views, AnonymiseMatch,
};
use crate::anonymise::kind::{anonymise_entity_order, entity_order, AnonymiseEntityKind};
use crate::anonymise::prompt::{anonymise_prompt, build_anonymise_prompt};
use crate::anonymise::replace::{apply_anonymise_to_text, capped, redacted, Redaction};
use crate::anonymise::response::{
    answered, direct_reading, key_value_matches, object_readings, parse_anonymise_matches,
};
use crate::board::{copy_path, path_view, BoardView, JobBoard};
use crate::engine::{prompt_of, reasoning_of};
use crate::paths::{is_known, FilePath, PathView};
use crate::runtime::missing_of;
use crate::settings::{AppSettings, SettingsView};
use crate::text::{
    cat2, cat3, cat4, cat5, decimal, decimal_text, join, joined, stripped, trim, views,
};
use crate::transcript::cues_in;
use vstd::prelude::*;
use vstd::string::*;

verus! {

/// What the language model is told to do with a question about a transcript.
pub const CHAT_RULES: &'static str = "You are a transcript Q&A assistant.\nUse only the provided transcript markdown context.\nIf the answer is not present in context, say so clearly.\n\nTranscript markdown:\n";

/// What the language model is asked about a transcript.
pub open spec fn chat_question(context: Seq<char>, prompt: Seq<char>) -> Seq<char> {
    CHAT_RULES@ + context + "\n\nUser request:\n"@ + prompt
}

/// What the language model is asked about a transcript.
pub fn build_chat_prompt(context: &str, user_prompt: &str) -> (r: String)
    ensures
        r@ == chat_question(context@, user_prompt@),
{
    cat4(CHAT_RULES, context, "\n\nUser request:\n", user_prompt)
}

/// What is put into the log of a chat.
pub fn chat_log_block(stamp: &str, user_prompt: &str, answer: &str) -> (r: String)
    ensures
        r@ == "["@ + stamp@ + "] You: "@ + user_prompt@ + "\n\n["@ + stamp@ + "] Assistant: "@
            + answer@ + "\n\n----------------\n\n"@,
{
    let mut r: String = cat5("[", stamp, "] You: ", user_prompt, "\n\n[");
    r.append(stamp);
    r.append("] Assistant: ");
    r.append(answer);
    r.append("\n\n----------------\n\n");
    r
}

/// A chat that can be sent: the settings it runs with, the transcript it is about, and what the
/// user asked.
pub struct ChatRequest {
    pub settings: AppSettings,
    pub source_path: FilePath,
    pub user_prompt: String,
}

impl SessionView {
    /// The state after a chat was asked for, and whether it can go on.
    pub open spec fn chat_asked(self, clock: Clock, report: RuntimeReport) -> (SessionView, bool) {
        if self.chat.is_chatting {
            (self, false)
        } else if self.anonymise.running {
            (self.said(clock, "Chat blocked: anonymisation is currently running."@), false)
        } else {
            let (s, ready) = self.runtime_asked(clock, "Chat"@, report);
            if !ready {
                (s, false)
            } else {
                s.chat_for_run(clock, report.models).0.chat_checked(clock)
            }
        }
    }

    /// The state after the model and the question of a chat were looked at, and whether it can go
    /// on.
    pub open spec fn chat_checked(self, clock: Clock) -> (SessionView, bool) {
        if stripped(self.settings.chat_model).len() == 0 {
            (
                self.warned("Missing model"@, "Select chat model first."@).said(
                    clock,
                    "Select chat model first."@,
                ),
                false,
            )
        } else if stripped(self.chat.input_text).len() == 0 {
            (
                self.warned("Missing prompt"@, "Chat prompt is empty."@).said(
                    clock,
                    "Chat prompt is empty."@,
                ),
                false,
            )
        } else {
            (self, true)
        }
    }

    /// The state once a chat runs.
    pub open spec fn chatting(self, clock: Clock) -> SessionView {
        (SessionView { chat: ChatView { is_chatting: true, ..self.chat }, ..self }).said(
            clock,
            "Running chat..."@,
        )
    }

    /// The state after an anonymisation was asked for, and whether it can go on.
    pub open spec fn anonymise_asked(self, clock: Clock, report: RuntimeReport) -> (
        SessionView,
        bool,
    ) {
        if self.anonymise.running {
            (self, false)
        } else if self.chat.is_chatting {
            (self.said(clock, "Anonymise blocked: chat is currently running."@), false)
        } else {
            let (s, ready) = self.runtime_asked(clock, "Anonymise"@, report);
            if !ready {
                (s, false)
            } else {
                s.chat_for_run(clock, report.models).0.anonymise_checked(clock)
            }
        }
    }

    /// The state after the model and the kinds of an anonymisation were looked at, and whether it
    /// can go on.
    pub open spec fn anonymise_checked(self, clock: Clock) -> (SessionView, bool) {
        if stripped(self.settings.chat_model).len() == 0 {
            (
                self.warned(
                    "Missing chat model"@,
                    "Anonymise (beta) requires a chat model in Settings -> Chat settings."@,
                ).said(clock, "Anonymise blocked: set a chat model first."@),
                false,
            )
        } else if kinds_in_order(self.anonymise.selected_kinds).len() == 0 {
            (
                self.warned(
                    "Nothing selected"@,
                    "Select at least one entity type to anonymise."@,
                ).said(clock, "Anonymise blocked: select at least one entity type."@),
                false,
            )
        } else {
            (self, true)
        }
    }

    /// The state once an anonymisation runs.
    pub open spec fn anonymising(self, clock: Clock) -> SessionView {
        (SessionView {
            anonymise: AnonymiseView {
                running: true,
                last_response: Seq::empty(),
                ..self.anonymise
            },
            ..self
        }).said(clock, "Running Anonymise (beta)..."@)
    }

    /// The state once an anonymisation failed.
    pub open spec fn anonymise_failed(self, clock: Clock, why: Seq<char>) -> SessionView {
        self.said(clock, "Anonymise failed: "@ + why).warned("Anonymise failed"@, why)
    }

    /// The state once the language model has answered.
    pub open spec fn answer_noted(self, answer: Seq<char>) -> SessionView {
        SessionView {
            anonymise: AnonymiseView {
                running: false,
                last_response: answer,
                ..self.anonymise
            },
            ..self
        }
    }

    /// The state once the edited text was rewritten.
    pub open spec fn rewritten(self, text: Seq<char>) -> SessionView {
        SessionView {
            review: ReviewView { edit_pause_until: None, ..self.review.with_edited(text) },
            ..self
        }
    }

    /// The text in which is replaced what was reported.
    pub open spec fn base_text(self, source: Seq<char>) -> Seq<char> {
        if stripped(source).len() == 0 {
            self.review.edited_or_shown()
        } else {
            source
        }
    }

    /// The state once it was logged that nothing that was reported stands in the text, where that
    /// is so.
    pub open spec fn misses_logged(
        self,
        clock: Clock,
        found: Redaction,
        candidates: Seq<(AnonymiseEntityKind, Seq<char>)>,
    ) -> SessionView {
        if found.exact == 0 && found.fuzzy == 0 && candidates.len() > 0 {
            self.logged(
                clock,
                "Anonymise extracted values but none matched transcript text. Sample: "@
                    + sample_of(candidates),
            )
        } else {
            self
        }
    }

    /// The state once the edited text was rewritten, with what has to be saved, if anything.
    pub open spec fn rewrite_planned(
        self,
        clock: Clock,
        text: Seq<char>,
        known: Option<PathView>,
        original_exists: bool,
        selected_exists: bool,
    ) -> (SessionView, Option<PlanView>) {
        let s = self.rewritten(text);
        match s.review.save_plan(known, original_exists, selected_exists) {
            Err(why) => (s.anonymise_failed(clock, why), None),
            Ok(plan) => (
                SessionView {
                    review: ReviewView { output_path: Some(plan.selected), ..s.review },
                    ..s
                },
                Some(plan),
            ),
        }
    }

    /// The state after an answer was applied to a transcript, with what has to be saved, if
    /// anything.
    pub open spec fn answer_applied(
        self,
        clock: Clock,
        matches: Seq<(AnonymiseEntityKind, Seq<char>)>,
        source: Seq<char>,
        known: Option<PathView>,
        original_exists: bool,
        selected_exists: bool,
    ) -> (SessionView, Option<PlanView>) {
        let found = redaction_of(self.base_text(source), matches);
        self.misses_logged(clock, found, candidates_of(matches)).rewrite_planned(
            clock,
            found.text,
            known,
            original_exists,
            selected_exists,
        )
    }
}

/// The kinds that are selected, in the order in which they are offered.
pub open spec fn kinds_in_order(selected: Seq<AnonymiseEntityKind>) -> Seq<AnonymiseEntityKind> {
    entity_order().filter(|k: AnonymiseEntityKind| selected.contains(k))
}

/// The matches that an answer of the language model reports, or why it cannot be read.
#[verifier::opaque]
pub open spec fn reported(answer: Seq<char>) -> Result<
    Seq<(AnonymiseEntityKind, Seq<char>)>,
    Seq<char>,
> {
    answered(
        answer,
        direct_reading(answer),
        object_readings(answer),
        key_value_matches(answer),
    )
}

/// What is looked for in a transcript, given the matches that were reported.
#[verifier::opaque]
pub open spec fn candidates_of(matches: Seq<(AnonymiseEntityKind, Seq<char>)>) -> Seq<
    (AnonymiseEntityKind, Seq<char>),
> {
    longest_first(distinct_candidates(matches))
}

/// A transcript with the matches that were reported replaced.
#[verifier::opaque]
pub open spec fn redaction_of(
    text: Seq<char>,
    matches: Seq<(AnonymiseEntityKind, Seq<char>)>,
) -> Redaction {
    redacted(text, longest_first(distinct_candidates(matches)))
}

/// The first of what is looked for, as the log shows it.
pub open spec fn sample_of(candidates: Seq<(AnonymiseEntityKind, Seq<char>)>) -> Seq<char> {
    joined(
        Seq::new(
            if candidates.len() < 3 {
                candidates.len()
            } else {
                3
            },
            |i: int| candidates[i].0.key()@ + ": "@ + candidates[i].1,
        ),
        " | "@,
    )
}

/// The first of what is looked for, as the log shows it.
fn sample_text(candidates: &Vec<AnonymiseMatch>) -> (r: String)
    ensures
        r@ == sample_of(match_views(candidates@)),
{
    let ghost all = match_views(candidates@);
    let mut out: Vec<String> = Vec::new();
    let mut i: usize = 0;
    while i < candidates.len() && i < 3
        invariant
            i <= candidates@.len(),
            i <= 3,
            all == match_views(candidates@),
            out@.len() == i,
            forall|k: int|
                0 <= k < i ==> (#[trigger] out@[k])@ == all[k].0.key()@ + ": "@ + all[k].1,
        decreases candidates@.len() - i,
    {
        assert(all[i as int] == candidates@[i as int]@);
        out.push(cat3(candidates[i].kind.key(), ": ", candidates[i].value.as_str()));
        i += 1;
    }
    assert(views(out@) =~= Seq::new(
        if all.len() < 3 {
            all.len()
        } else {
            3
        },
        |i: int| all[i].0.key()@ + ": "@ + all[i].1,
    ));
    join(&out, " | ")
}

/// How many matches were reported, how many can be looked for, and how many were replaced.
#[derive(Debug, Clone, Copy)]
pub struct AnonymiseCounts {
    pub total_matches: usize,
    pub usable_matches: usize,
    pub exact_replacements: usize,
    pub fuzzy_replacements: usize,
}

/// What an anonymisation of a text counts.
pub open spec fn counts_of(
    text: Seq<char>,
    matches: Seq<(AnonymiseEntityKind, Seq<char>)>,
) -> AnonymiseCounts {
    let found = redaction_of(text, matches);
    AnonymiseCounts {
        total_matches: matches.len() as usize,
        usable_matches: candidates_of(matches).len() as usize,
        exact_replacements: capped(found.exact),
        fuzzy_replacements: capped(found.fuzzy),
    }
}

/// A text in which was replaced what was reported, how often, and what was looked for.
struct Redacted {
    text: String,
    exact: usize,
    fuzzy: usize,
    candidates: Vec<AnonymiseMatch>,
}

/// What has to be saved after an anonymisation, and what it counted.
pub struct AnonymiseSave {
    pub plan: SavePlan,
    pub counts: AnonymiseCounts,
}

impl ChatPanel {
    /// Shows a transcript and the log of the chat about it.
    pub fn show_source(&mut self, path: FilePath, context: String, history: String)
        ensures
            final(self)@ == (ChatView {
                source_path: Some(path@),
                context_text: context@,
                history_text: history@,
                ..old(self)@
            }),
    {
        self.source_path = Some(path);
        self.context_text = context;
        self.history_text = history;
    }

    /// Shows a transcript and the log of the chat about it, given what was found; or says why it
    /// cannot.
    pub fn load_chat_source_file(
        &mut self,
        path: &FilePath,
        exists_there: bool,
        context: Result<String, String>,
        history: Option<String>,
    ) -> (r: Result<(), String>)
        ensures
            match (exists_there, context) {
                (true, Ok(text)) => r is Ok && final(self)@ == (ChatView {
                    source_path: Some(path@),
                    context_text: text@,
                    history_text: match history {
                        Some(h) => h@,
                        None => Seq::empty(),
                    },
                    ..old(self)@
                }),
                (true, Err(_)) => (r matches Err(e) && e@ == "failed to read '"@ + path@.text()
                    + "'"@) && final(self)@ == old(self)@,
                (false, _) => (r matches Err(e) && e@ == "chat source file does not exist: '"@
                    + path@.text() + "'"@) && final(self)@ == old(self)@,
            },
    {
        if !exists_there {
            let text: String = path.text();
            return Err(cat3("chat source file does not exist: '", text.as_str(), "'"));
        }
        match context {
            Err(_) => {
                let text: String = path.text();
                Err(cat3("failed to read '", text.as_str(), "'"))
            },
            Ok(text) => {
                let shown: String = match history {
                    Some(h) => h,
                    None => {
                        let none: String = String::new();
                        assert(none@ =~= Seq::<char>::empty());
                        none
                    },
                };
                self.show_source(path.copy(), text, shown);
                Ok(())
            },
        }
    }

    /// Shows no transcript.
    pub fn clear_source(&mut self)
        ensures
            final(self)@ == (ChatView {
                source_path: None,
                context_text: Seq::empty(),
                history_text: Seq::empty(),
                ..old(self)@
            }),
    {
        self.source_path = None;
        self.context_text = String::new();
        self.history_text = String::new();
        assert(self.context_text@ =~= Seq::<char>::empty());
        assert(self.history_text@ =~= Seq::<char>::empty());
    }

    /// Whether a question can be sent.
    pub fn can_send(&self) -> (r: bool)
        ensures
            r == (!self@.is_chatting && self@.source_path is Some),
    {
        !self.is_chatting && self.source_path.is_some()
    }
}

/// The settings with which the language model is asked for what identifies people in a text.
pub open spec fn anonymise_settings(s: SessionView, source_text: Seq<char>) -> SettingsView {
    SettingsView {
        chat_prompt: anonymise_prompt(
            source_text,
            kinds_in_order(s.anonymise.selected_kinds),
        ),
        chat_context_file: Seq::empty(),
        chat_allow_thinking: false,
        ..s.settings
    }
}

/// An anonymisation never lets the language model reason before it answers, whatever the settings
/// allow, and asks it nothing but its own prompt.
pub proof fn lemma_anonymise_does_not_think(
    s: SessionView,
    source_text: Seq<char>,
    context: Option<Seq<char>>,
)
    ensures
        reasoning_of(anonymise_settings(s, source_text)) == ("off"@, None::<i32>, None::<Seq<char>>),
        prompt_of(anonymise_settings(s, source_text), context) == anonymise_prompt(
            source_text,
            kinds_in_order(s.anonymise.selected_kinds),
        ),
{
    assert(stripped(Seq::<char>::empty()).len() == 0);
}

impl Session {
    /// The transcript that the chat has to turn to, given which files exist and which transcripts
    /// can be asked about; none where it already is about one that exists, or where there is none.
    pub fn chat_source_wanted(
        &self,
        current_exists: bool,
        loaded_exists: bool,
        candidates: &Vec<FilePath>,
    ) -> (r: Option<FilePath>)
        ensures
            path_view(r) == if self@.chat.source_path is Some && current_exists {
                None
            } else if self@.review.output_path is Some && loaded_exists {
                self@.review.output_path
            } else if candidates@.len() > 0 {
                Some(candidates@[0]@)
            } else {
                None
            },
    {
        if self.chat.source_path.is_some() && current_exists {
            return None;
        }
        if self.review.output_path.is_some() && loaded_exists {
            return copy_path(&self.review.output_path);
        }
        if candidates.len() > 0 {
            return Some(candidates[0].copy());
        }
        None
    }

    /// Says what came of turning the chat to another transcript.
    pub fn chat_source_failed(&mut self, clock: &Clock, path: &FilePath, error: &str)
        ensures
            final(self)@ == old(self)@.said(
                *clock,
                "Failed to load chat source '"@ + path@.text() + "': "@ + error@,
            ),
    {
        let name: String = path.text();
        let text: String = cat4("Failed to load chat source '", name.as_str(), "': ", error);
        self.push_status(clock, text.as_str());
    }

    /// Notes what came of emptying the log of a chat.
    pub fn chat_log_cleared(
        &mut self,
        clock: &Clock,
        source: &FilePath,
        outcome: Result<FilePath, String>,
    )
        ensures
            final(self)@ == match outcome {
                Ok(log) => (if is_known(old(self)@.chat.source_path, source@) {
                    SessionView {
                        chat: ChatView { history_text: Seq::empty(), ..old(self)@.chat },
                        ..old(self)@
                    }
                } else {
                    old(self)@
                }).said(*clock, "Cleared chat log: "@ + log@.text()),
                Err(e) => old(self)@.said(*clock, "Failed to clear chat log: "@ + e@),
            },
    {
        match outcome {
            Ok(log) => {
                let same: bool = match &self.chat.source_path {
                    Some(p) => p.same(source),
                    None => false,
                };
                if same {
                    self.chat.history_text = String::new();
                    assert(self.chat.history_text@ =~= Seq::<char>::empty());
                }
                let name: String = log.text();
                let text: String = cat2("Cleared chat log: ", name.as_str());
                self.push_status(clock, text.as_str());
            },
            Err(e) => {
                let text: String = cat2("Failed to clear chat log: ", e.as_str());
                self.push_status(clock, text.as_str());
            },
        }
    }

    /// Whether a chat that is asked for can go on; says why where it cannot.
    pub fn chat_gate(&mut self, clock: &Clock, report: &RuntimeReport) -> (r: bool)
        ensures
            (final(self)@, r) == old(self)@.chat_asked(*clock, *report),
    {
        if self.chat.is_chatting {
            return false;
        }
        if self.anonymise.running {
            self.push_status(clock, "Chat blocked: anonymisation is currently running.");
            return false;
        }
        if !self.ensure_runtime_ready(clock, "Chat", report) {
            return false;
        }
        let _ = self.ensure_chat_model_path_for_run(clock, &report.models);
        self.check_chat(clock)
    }

    /// Whether the model and the question of a chat are there; says why it cannot go on where they
    /// are not.
    fn check_chat(&mut self, clock: &Clock) -> (r: bool)
        ensures
            (final(self)@, r) == old(self)@.chat_checked(*clock),
    {
        if trim(self.settings.chat_model.as_str()).is_empty() {
            self.open_modal("Missing model", "Select chat model first.", true);
            self.push_status(clock, "Select chat model first.");
            return false;
        }
        if trim(self.chat.input_text.as_str()).is_empty() {
            self.open_modal("Missing prompt", "Chat prompt is empty.", true);
            self.push_status(clock, "Chat prompt is empty.");
            return false;
        }
        true
    }

    /// Begins a chat about the transcript that it shows, given its text; or says why it cannot.
    pub fn begin_chat(
        &mut self,
        board: &mut JobBoard,
        clock: &Clock,
        context: Result<String, String>,
    ) -> (r: Option<ChatRequest>)
        requires
            old(board).running_jobs < usize::MAX,
        ensures
            match (old(self)@.chat.source_path, context) {
                (None, _) => r is None && final(board)@ == old(board)@ && final(self)@ == old(
                    self,
                )@.warned(
                    "Missing context file"@,
                    "Select a transcript file in Chat source dropdown first."@,
                ).said(*clock, "Chat blocked: no chat source selected."@),
                (Some(p), Err(e)) => r is None && final(board)@ == old(board)@ && final(self)@
                    == old(self)@.warned(
                    "Failed to read context file"@,
                    p.text() + ": "@ + e@,
                ).said(
                    *clock,
                    "Chat blocked: failed to read context file '"@ + p.text() + "'"@,
                ),
                (Some(p), Ok(text)) => (r matches Some(request) && request.settings@ == (
                SettingsView {
                    chat_prompt: chat_question(text@, stripped(old(self)@.chat.input_text)),
                    chat_context_file: Seq::empty(),
                    ..old(self)@.settings
                }) && request.source_path@ == p && request.user_prompt@ == stripped(
                    old(self)@.chat.input_text,
                )) && final(self)@ == old(self)@.chatting(*clock) && final(board)@ == (BoardView {
                    running_jobs: (old(board)@.running_jobs + 1) as usize,
                    ..old(board)@
                }),
            },
    {
        let source: FilePath = match &self.chat.source_path {
            Some(p) => p.copy(),
            None => {
                self.open_modal(
                    "Missing context file",
                    "Select a transcript file in Chat source dropdown first.",
                    true,
                );
                self.push_status(clock, "Chat blocked: no chat source selected.");
                return None;
            },
        };
        let text: String = match context {
            Ok(text) => text,
            Err(e) => {
                let name: String = source.text();
                let message: String = cat3(name.as_str(), ": ", e.as_str());
                self.open_modal("Failed to read context file", message.as_str(), true);
                let said: String = cat3(
                    "Chat blocked: failed to read context file '",
                    name.as_str(),
                    "'",
                );
                self.push_status(clock, said.as_str());
                return None;
            },
        };
        let user_prompt: String = trim(self.chat.input_text.as_str()).to_owned();
        let mut settings: AppSettings = self.settings.copy();
        settings.chat_prompt = build_chat_prompt(text.as_str(), user_prompt.as_str());
        settings.chat_context_file = String::new();
        assert(settings.chat_context_file@ =~= Seq::<char>::empty());
        self.mark_chatting(clock);
        board.task_begins();
        Some(ChatRequest { settings, source_path: source, user_prompt })
    }

    /// Notes that a chat runs.
    fn mark_chatting(&mut self, clock: &Clock)
        ensures
            final(self)@ == old(self)@.chatting(*clock),
    {
        self.chat.is_chatting = true;
        self.push_status(clock, "Running chat...");
    }

    /// The kinds that are selected, in the order in which they are offered.
    pub fn anonymise_selected_in_order(&self) -> (r: Vec<AnonymiseEntityKind>)
        ensures
            r@ == kinds_in_order(self@.anonymise.selected_kinds),
    {
        let order: Vec<AnonymiseEntityKind> = anonymise_entity_order();
        let ghost chosen = self.anonymise.selected_kinds@;
        let ghost p = |k: AnonymiseEntityKind| chosen.contains(k);
        let mut out: Vec<AnonymiseEntityKind> = Vec::new();
        let mut i: usize = 0;
        assert(order@.take(0).filter(p) =~= Seq::<AnonymiseEntityKind>::empty()) by {
            reveal(Seq::filter);
        }
        while i < order.len()
            invariant
                i <= order@.len(),
                chosen == self.anonymise.selected_kinds@,
                p == (|k: AnonymiseEntityKind| chosen.contains(k)),
                out@ == order@.take(i as int).filter(p),
            decreases order@.len() - i,
        {
            let kind: AnonymiseEntityKind = order[i];
            let chosen_here: bool = holds_kind(&self.anonymise.selected_kinds, kind);
            proof {
                reveal(Seq::filter);
                assert(order@.take(i + 1).drop_last() =~= order@.take(i as int));
                assert(order@.take(i + 1).last() == kind);
            }
            if chosen_here {
                out.push(kind);
            }
            i += 1;
        }
        assert(order@.take(i as int) =~= order@);
        out
    }

    /// Ticks a kind, or takes its tick away.
    pub fn select_kind(&mut self, kind: AnonymiseEntityKind, selected: bool)
        ensures
            final(self)@.anonymise.selected_kinds.contains(kind) == selected,
            forall|k: AnonymiseEntityKind|
                k != kind ==> (#[trigger] final(self)@.anonymise.selected_kinds.contains(k)
                    == old(self)@.anonymise.selected_kinds.contains(k)),
            final(self)@ == (SessionView {
                anonymise: AnonymiseView {
                    selected_kinds: final(self)@.anonymise.selected_kinds,
                    ..old(self)@.anonymise
                },
                ..old(self)@
            }),
    {
        let ghost start = self.anonymise.selected_kinds@;
        let mut kept: Vec<AnonymiseEntityKind> = Vec::new();
        let mut i: usize = 0;
        while i < self.anonymise.selected_kinds.len()
            invariant
                i <= self.anonymise.selected_kinds@.len(),
                start == self.anonymise.selected_kinds@,
                forall|j: int| 0 <= j < kept@.len() ==> #[trigger] kept@[j] != kind && start.contains(
                    kept@[j],
                ),
                forall|j: int|
                    0 <= j < i && start[j] != kind ==> kept@.contains(#[trigger] start[j]),
            decreases self.anonymise.selected_kinds@.len() - i,
        {
            let own: AnonymiseEntityKind = self.anonymise.selected_kinds[i];
            if own != kind {
                let ghost before = kept@;
                kept.push(own);
                assert(kept@.last() == own);
                assert forall|j: int| 0 <= j <= i && start[j] != kind implies kept@.contains(
                    #[trigger] start[j],
                ) by {
                    if j < i {
                        let k = choose|k: int| 0 <= k < before.len() && before[k] == start[j];
                        assert(kept@[k] == start[j]);
                    } else {
                        assert(kept@[kept@.len() - 1] == start[j]);
                    }
                }
            }
            i += 1;
        }
        let ghost rest = kept@;
        assert(!rest.contains(kind));
        assert forall|k: AnonymiseEntityKind| k != kind implies #[trigger] rest.contains(k)
            == start.contains(k) by {
            if start.contains(k) {
                let j = choose|j: int| 0 <= j < start.len() && start[j] == k;
                assert(rest.contains(start[j]));
            }
            if rest.contains(k) {
                let j = choose|j: int| 0 <= j < rest.len() && rest[j] == k;
                assert(start.contains(rest[j]));
            }
        }
        if selected {
            kept.push(kind);
            assert(kept@[rest.len() as int] == kind);
            assert forall|k: AnonymiseEntityKind| k != kind implies #[trigger] kept@.contains(k)
                == rest.contains(k) by {
                if rest.contains(k) {
                    let j = choose|j: int| 0 <= j < rest.len() && rest[j] == k;
                    assert(kept@[j] == k);
                }
            }
        }
        self.anonymise.selected_kinds = kept;
    }

    /// Whether an anonymisation that is asked for can go on; says why where it cannot.
    pub fn anonymise_gate(&mut self, clock: &Clock, report: &RuntimeReport) -> (r: bool)
        ensures
            (final(self)@, r) == old(self)@.anonymise_asked(*clock, *report),
    {
        if self.anonymise.running {
            return false;
        }
        if self.chat.is_chatting {
            self.push_status(clock, "Anonymise blocked: chat is currently running.");
            return false;
        }
        if !self.ensure_runtime_ready(clock, "Anonymise", report) {
            return false;
        }
        let _ = self.ensure_chat_model_path_for_run(clock, &report.models);
        self.check_anonymise(clock)
    }

    /// Whether the model and a kind of an anonymisation are there; says why it cannot go on where
    /// they are not.
    fn check_anonymise(&mut self, clock: &Clock) -> (r: bool)
        ensures
            (final(self)@, r) == old(self)@.anonymise_checked(*clock),
    {
        if trim(self.settings.chat_model.as_str()).is_empty() {
            self.open_modal(
                "Missing chat model",
                "Anonymise (beta) requires a chat model in Settings -> Chat settings.",
                true,
            );
            self.push_status(clock, "Anonymise blocked: set a chat model first.");
            return false;
        }
        if self.anonymise_selected_in_order().len() == 0 {
            self.open_modal(
                "Nothing selected",
                "Select at least one entity type to anonymise.",
                true,
            );
            self.push_status(clock, "Anonymise blocked: select at least one entity type.");
            return false;
        }
        true
    }

    /// Begins an anonymisation of a text and gives the settings with which the language model is
    /// asked.
    pub fn begin_anonymise(&mut self, board: &mut JobBoard, clock: &Clock, source_text: &str) -> (r:
        AppSettings)
        requires
            old(board).running_jobs < usize::MAX,
        ensures
            r@ == anonymise_settings(old(self)@, source_text@),
            final(self)@ == old(self)@.anonymising(*clock),
            final(board)@ == (BoardView {
                running_jobs: (old(board)@.running_jobs + 1) as usize,
                ..old(board)@
            }),
    {
        let kinds: Vec<AnonymiseEntityKind> = self.anonymise_selected_in_order();
        let mut settings: AppSettings = self.settings.copy();
        settings.chat_prompt = build_anonymise_prompt(source_text, kinds.as_slice());
        settings.chat_context_file = String::new();
        settings.chat_allow_thinking = false;
        assert(settings.chat_context_file@ =~= Seq::<char>::empty());
        self.mark_anonymising(clock);
        board.task_begins();
        settings
    }

    /// Notes that an anonymisation runs.
    fn mark_anonymising(&mut self, clock: &Clock)
        ensures
            final(self)@ == old(self)@.anonymising(*clock),
    {
        self.anonymise.running = true;
        self.anonymise.last_response = String::new();
        assert(self.anonymise.last_response@ =~= Seq::<char>::empty());
        self.push_status(clock, "Running Anonymise (beta)...");
    }

    /// Says that an anonymisation cannot begin because of the transcript.
    pub fn anonymise_blocked(&mut self, clock: &Clock, error: &str)
        ensures
            final(self)@ == old(self)@.warned("Anonymise blocked"@, error@).said(
                *clock,
                "Anonymise blocked: "@ + error@,
            ),
    {
        self.open_modal("Anonymise blocked", error, true);
        let text: String = cat2("Anonymise blocked: ", error);
        self.push_status(clock, text.as_str());
    }

    /// Says that an anonymisation failed.
    pub fn fail_anonymise(&mut self, clock: &Clock, why: &str)
        ensures
            final(self)@ == old(self)@.anonymise_failed(*clock, why@),
    {
        let text: String = cat2("Anonymise failed: ", why);
        self.push_status(clock, text.as_str());
        self.open_modal("Anonymise failed", why, true);
    }

    /// Notes that the language model has answered.
    fn note_answer(&mut self, answer: &str)
        ensures
            final(self)@ == old(self)@.answer_noted(answer@),
    {
        self.anonymise.running = false;
        self.anonymise.last_response = answer.to_owned();
    }

    /// What was reported, replaced in the text, with what was looked for.
    fn redact(&self, matches: &Vec<AnonymiseMatch>, source: &str) -> (r: Redacted)
        ensures
            ({
                let found = redaction_of(self@.base_text(source@), match_views(matches@));
                &&& r.text@ == found.text
                &&& r.exact == capped(found.exact)
                &&& r.fuzzy == capped(found.fuzzy)
                &&& match_views(r.candidates@) == candidates_of(match_views(matches@))
            }),
    {
        let candidates: Vec<AnonymiseMatch> = build_replacement_candidates(matches.as_slice());
        let base: String = if !trim(source).is_empty() {
            source.to_owned()
        } else if trim(self.review.edited_text.as_str()).is_empty() {
            self.review.transcription_text.clone()
        } else {
            self.review.edited_text.clone()
        };
        let (text, exact, fuzzy): (String, usize, usize) = apply_anonymise_to_text(
            base.as_str(),
            matches.as_slice(),
        );
        reveal(candidates_of);
        reveal(redaction_of);
        Redacted { text, exact, fuzzy, candidates }
    }

    /// Puts into the log that nothing that was reported stands in the text, where that is so.
    fn log_misses(&mut self, clock: &Clock, redacted: &Redacted, found: Ghost<Redaction>)
        requires
            redacted.exact == capped(found@.exact),
            redacted.fuzzy == capped(found@.fuzzy),
        ensures
            final(self)@ == old(self)@.misses_logged(
                *clock,
                found@,
                match_views(redacted.candidates@),
            ),
    {
        assert(match_views(redacted.candidates@).len() == redacted.candidates@.len());
        if redacted.exact == 0 && redacted.fuzzy == 0 && redacted.candidates.len() > 0 {
            let sample: String = sample_text(&redacted.candidates);
            let line: String = cat2(
                "Anonymise extracted values but none matched transcript text. Sample: ",
                sample.as_str(),
            );
            self.push_log_only(clock, line.as_str());
        }
    }

    /// Rewrites the edited text and gives what has to be saved.
    fn plan_rewrite(
        &mut self,
        clock: &Clock,
        text: String,
        board: &JobBoard,
        original_exists: bool,
        selected_exists: bool,
    ) -> (r: Option<SavePlan>)
        ensures
            ({
                let after = old(self)@.rewrite_planned(
                    *clock,
                    text@,
                    board@.original_output_path,
                    original_exists,
                    selected_exists,
                );
                &&& final(self)@ == after.0
                &&& match r {
                    Some(plan) => after.1 == Some(plan@),
                    None => after.1 is None,
                }
            }),
    {
        self.rewrite(text);
        match self.review.plan_save(board, original_exists, selected_exists) {
            Err(why) => {
                self.fail_anonymise(clock, why.as_str());
                None
            },
            Ok(plan) => {
                self.review.save_begins(&plan);
                Some(plan)
            },
        }
    }

    /// Replaces in a transcript what was reported; gives what has to be saved.
    fn apply_matches(
        &mut self,
        clock: &Clock,
        matches: &Vec<AnonymiseMatch>,
        source: &str,
        board: &JobBoard,
        original_exists: bool,
        selected_exists: bool,
    ) -> (r: Option<AnonymiseSave>)
        ensures
            ({
                let after = old(self)@.answer_applied(
                    *clock,
                    match_views(matches@),
                    source@,
                    board@.original_output_path,
                    original_exists,
                    selected_exists,
                );
                &&& final(self)@ == after.0
                &&& match r {
                    Some(save) => after.1 == Some(save.plan@) && save.counts == counts_of(
                        old(self)@.base_text(source@),
                        match_views(matches@),
                    ),
                    None => after.1 is None,
                }
            }),
    {
        let redacted: Redacted = self.redact(matches, source);
        assert(match_views(matches@).len() == matches@.len());
        assert(match_views(redacted.candidates@).len() == redacted.candidates@.len());
        let ghost found = redaction_of(self@.base_text(source@), match_views(matches@));
        self.log_misses(clock, &redacted, Ghost(found));
        let counts: AnonymiseCounts = AnonymiseCounts {
            total_matches: matches.len(),
            usable_matches: redacted.candidates.len(),
            exact_replacements: redacted.exact,
            fuzzy_replacements: redacted.fuzzy,
        };
        match self.plan_rewrite(clock, redacted.text, board, original_exists, selected_exists) {
            Some(plan) => Some(AnonymiseSave { plan, counts }),
            None => None,
        }
    }

    /// Replaces the edited text by a rewritten one.
    fn rewrite(&mut self, text: String)
        ensures
            final(self)@ == old(self)@.rewritten(text@),
    {
        self.review.set_edited(text);
        self.review.edit_pause_until = None;
    }

    /// Applies an answer of the language model to a transcript; gives what has to be saved.
    pub fn apply_anonymise_response(
        &mut self,
        board: &JobBoard,
        clock: &Clock,
        answer: &str,
        source_text: &str,
        original_exists: bool,
        selected_exists: bool,
    ) -> (r: Option<AnonymiseSave>)
        ensures
            ({
                let s = old(self)@.answer_noted(answer@);
                match reported(answer@) {
                    Err(why) => r is None && final(self)@ == s.anonymise_failed(*clock, why),
                    Ok(matches) => {
                        let after = s.answer_applied(
                            *clock,
                            matches,
                            source_text@,
                            board@.original_output_path,
                            original_exists,
                            selected_exists,
                        );
                        &&& final(self)@ == after.0
                        &&& match r {
                            Some(save) => after.1 == Some(save.plan@) && save.counts == counts_of(
                                s.base_text(source_text@),
                                matches,
                            ),
                            None => after.1 is None,
                        }
                    },
                }
            }),
    {
        self.note_answer(answer);
        reveal(reported);
        match parse_anonymise_matches(answer) {
            Err(why) => {
                self.fail_anonymise(clock, why.as_str());
                None
            },
            Ok(matches) => {
                assert(match_views(matches@).len() == matches@.len());
                self.apply_matches(
                    clock,
                    &matches,
                    source_text,
                    board,
                    original_exists,
                    selected_exists,
                )
            },
        }
    }

    /// Notes what came of saving an anonymised transcript.
    pub fn anonymise_saved(
        &mut self,
        board: &mut JobBoard,
        clock: &Clock,
        save: &AnonymiseSave,
        written: Result<(), String>,
    )
        ensures
            match written {
                Ok(_) => final(board)@ == old(board)@.outputs_known(
                    save.plan@.original,
                    save.plan@.output,
                ) && final(self)@ == old(self)@.said(
                    *clock,
                    counts_line(save.counts, save.plan@.output),
                ),
                Err(e) => final(board)@ == old(board)@ && final(self)@
                    == old(self)@.anonymise_failed(*clock, e@),
            },
    {
        match written {
            Err(e) => {
                self.fail_anonymise(clock, e.as_str());
            },
            Ok(_) => {
                board.know_outputs(&save.plan.original, &save.plan.output);
                let text: String = counts_text(save.counts, &save.plan.output);
                self.push_status(clock, text.as_str());
            },
        }
    }
}

/// What is said when a transcript was anonymised.
pub open spec fn counts_line(counts: AnonymiseCounts, output: PathView) -> Seq<char> {
    "Anonymise complete: "@ + decimal(counts.total_matches as nat) + " extracted ("@ + decimal(
        counts.usable_matches as nat,
    ) + " usable), "@ + decimal(counts.exact_replacements as nat) + " exact + "@ + decimal(
        counts.fuzzy_replacements as nat,
    ) + " fuzzy replacements. Saved: "@ + output.text()
}

/// What is said when a transcript was anonymised.
fn counts_text(counts: AnonymiseCounts, output: &FilePath) -> (r: String)
    ensures
        r@ == counts_line(counts, output@),
{
    let total: String = decimal_text(counts.total_matches as u64);
    let usable: String = decimal_text(counts.usable_matches as u64);
    let exact: String = decimal_text(counts.exact_replacements as u64);
    let fuzzy: String = decimal_text(counts.fuzzy_replacements as u64);
    let path: String = output.text();
    let mut r: String = cat5(
        "Anonymise complete: ",
        total.as_str(),
        " extracted (",
        usable.as_str(),
        " usable), ",
    );
    r.append(exact.as_str());
    r.append(" exact + ");
    r.append(fuzzy.as_str());
    r.append(" fuzzy replacements. Saved: ");
    r.append(path.as_str());
    r
}

/// Whether a kind is among others.
fn holds_kind(kinds: &Vec<AnonymiseEntityKind>, kind: AnonymiseEntityKind) -> (r: bool)
    ensures
        r == kinds@.contains(kind),
{
    let mut i: usize = 0;
    while i < kinds.len()
        invariant
            i <= kinds@.len(),
            forall|k: int| 0 <= k < i ==> #[trigger] kinds@[k] != kind,
        decreases kinds@.len() - i,
    {
        if kinds[i] == kind {
            return true;
        }
        i += 1;
    }
    false
}

/// What the language model is asked in the chat: the rules come first, then the transcript, and the
/// question of the user comes last; none of them is changed.
pub proof fn lemma_chat_question(context: Seq<char>, prompt: Seq<char>)
    ensures
        CHAT_RULES@.is_prefix_of(chat_question(context, prompt)),
        (CHAT_RULES@ + context).is_prefix_of(chat_question(context, prompt)),
        ("\n\nUser request:\n"@ + prompt).is_suffix_of(chat_question(context, prompt)),
        chat_question(context, prompt).len() == CHAT_RULES@.len() + context.len()
            + "\n\nUser request:\n"@.len() + prompt.len(),
{
    let q = chat_question(context, prompt);
    let head = CHAT_RULES@ + context;
    let tail = "\n\nUser request:\n"@ + prompt;
    assert(q.take(CHAT_RULES@.len() as int) =~= CHAT_RULES@);
    assert(q.take(head.len() as int) =~= head);
    assert(q.skip(q.len() - tail.len()) =~= tail);
}

/// When a question may be asked: no other is being answered, nothing is being anonymised, the runtime is
/// complete and is not being worked on, a model is set, and there is a question. A refusal does not
/// touch the transcript, the question or the chat so far.
pub proof fn lemma_chat_gate(s: SessionView, clock: Clock, report: RuntimeReport)
    ensures
        ({
            let (after, ready) = s.chat_asked(clock, report);
            &&& ready ==> !s.chat.is_chatting && !s.anonymise.running && !s.runtime.busy()
                && missing_of(s.platform, report.runtime_dir@, report.probe).len() == 0 && stripped(
                after.settings.chat_model,
            ).len() > 0 && stripped(s.chat.input_text).len() > 0
            &&& s.chat.is_chatting ==> after == s
            &&& after.chat == s.chat
            &&& after.review == s.review
            &&& after.anonymise == s.anonymise
            &&& after.live == s.live
            &&& after.playback == s.playback
            &&& after.is_transcribing == s.is_transcribing
        }),
{
}

/// When a transcript may be anonymised: nothing else is being asked of the language model, the runtime
/// is complete and is not being worked on, a model is set, and a kind of entity is selected. A refusal
/// does not touch the transcript or the selection.
pub proof fn lemma_anonymise_gate(s: SessionView, clock: Clock, report: RuntimeReport)
    ensures
        ({
            let (after, ready) = s.anonymise_asked(clock, report);
            &&& ready ==> !s.chat.is_chatting && !s.anonymise.running && !s.runtime.busy()
                && missing_of(s.platform, report.runtime_dir@, report.probe).len() == 0 && stripped(
                after.settings.chat_model,
            ).len() > 0 && kinds_in_order(s.anonymise.selected_kinds).len() > 0
            &&& s.anonymise.running ==> after == s
            &&& after.chat == s.chat
            &&& after.review == s.review
            &&& after.anonymise == s.anonymise
            &&& after.live == s.live
            &&& after.playback == s.playback
            &&& after.is_transcribing == s.is_transcribing
        }),
{
}

/// Which kinds are looked for: exactly those that are selected, however often and in whatever order.
pub proof fn lemma_kinds_in_order(
    selected: Seq<AnonymiseEntityKind>,
    kind: AnonymiseEntityKind,
)
    ensures
        kinds_in_order(selected).contains(kind) <==> selected.contains(kind),
{
    broadcast use vstd::seq_lib::group_filter_ensures;

    let p = |k: AnonymiseEntityKind| selected.contains(k);
    let order = entity_order();
    let at = match kind {
        AnonymiseEntityKind::Name => 0int,
        AnonymiseEntityKind::Location => 1,
        AnonymiseEntityKind::Address => 2,
        AnonymiseEntityKind::Phone => 3,
        AnonymiseEntityKind::Email => 4,
        AnonymiseEntityKind::Number => 5,
        AnonymiseEntityKind::Organisation => 6,
        AnonymiseEntityKind::Identifier => 7,
    };
    assert(order[at] == kind);
    if selected.contains(kind) {
        assert(p(order[at]));
    }
    if kinds_in_order(selected).contains(kind) {
        let k = choose|k: int|
            0 <= k < kinds_in_order(selected).len() && kinds_in_order(selected)[k] == kind;
        assert(p(order.filter(p)[k]));
    }
}

/// What the language model reported is read from its answer alone; what is looked for are the plausible
/// matches of it, each once and the longest first; and what is removed is removed for these.
pub proof fn lemma_answer_is_applied(
    text: Seq<char>,
    answer: Seq<char>,
    matches: Seq<(AnonymiseEntityKind, Seq<char>)>,
)
    ensures
        reported(answer) == answered(
            answer,
            direct_reading(answer),
            object_readings(answer),
            key_value_matches(answer),
        ),
        redaction_of(text, matches) == redacted(text, candidates_of(matches)),
        distinct_keys(candidates_of(matches)),
        descending_lengths(candidates_of(matches)),
        forall|i: int|
            0 <= i < candidates_of(matches).len() ==> from_match(
                matches,
                #[trigger] candidates_of(matches)[i],
            ),
{
    reveal(reported);
    reveal(candidates_of);
    reveal(redaction_of);
    lemma_candidates(matches);
}

/// What an answer does to the transcript: the edited text becomes the text that was sent, or, where that
/// is blank, the edited or else the shown text, with everything that was found removed; the transcript
/// as it was made stays, and so does what is open unless a place to save to is found.
pub proof fn lemma_answer_rewrites(
    s: SessionView,
    clock: Clock,
    matches: Seq<(AnonymiseEntityKind, Seq<char>)>,
    source: Seq<char>,
    known: Option<PathView>,
    original_exists: bool,
    selected_exists: bool,
)
    ensures
        ({
            let base = if stripped(source).len() > 0 {
                source
            } else if stripped(s.review.edited_text).len() > 0 {
                s.review.edited_text
            } else {
                s.review.transcription_text
            };
            let (after, plan) = s.answer_applied(
                clock,
                matches,
                source,
                known,
                original_exists,
                selected_exists,
            );
            &&& after.review.edited_text == redaction_of(base, matches).text
            &&& after.review.edited_cues == cues_in(redaction_of(base, matches).text)
            &&& after.review.transcription_text == s.review.transcription_text
            &&& after.review.cues == s.review.cues
            &&& after.review.edit_pause_until is None
            &&& after.review.rename_entries == s.review.rename_entries
            &&& after.review.active_audio_path == s.review.active_audio_path
            &&& plan is None ==> after.review.output_path == s.review.output_path
                && after.active_modal is Some
            &&& plan matches Some(p) ==> after.review.output_path == Some(p.selected)
            &&& after.settings == s.settings
            &&& after.chat == s.chat
            &&& after.anonymise == s.anonymise
            &&& after.live == s.live
            &&& after.playback == s.playback
        }),
{
}

/// What is counted: how much was reported, how much of that was looked for, and how often something was
/// found as it was reported and in another spelling.
pub proof fn lemma_counts_of(text: Seq<char>, matches: Seq<(AnonymiseEntityKind, Seq<char>)>)
    ensures
        counts_of(text, matches).total_matches == matches.len() as usize,
        counts_of(text, matches).usable_matches == candidates_of(matches).len() as usize,
        redaction_of(text, matches).exact <= usize::MAX ==> counts_of(
            text,
            matches,
        ).exact_replacements == redaction_of(text, matches).exact,
        redaction_of(text, matches).fuzzy <= usize::MAX ==> counts_of(
            text,
            matches,
        ).fuzzy_replacements == redaction_of(text, matches).fuzzy,
{
}

/// What is shown of candidates that were not found: the first three at most, each with its kind.
pub proof fn lemma_sample_of(candidates: Seq<(AnonymiseEntityKind, Seq<char>)>)
    ensures
        candidates.len() == 0 ==> sample_of(candidates).len() == 0,
        candidates.len() == 1 ==> sample_of(candidates) == candidates[0].0.key()@ + ": "@
            + candidates[0].1,
        candidates.len() == 2 ==> sample_of(candidates) == candidates[0].0.key()@ + ": "@
            + candidates[0].1 + " | "@ + (candidates[1].0.key()@ + ": "@ + candidates[1].1),
        candidates.len() >= 3 ==> sample_of(candidates) == sample_of(candidates.take(2)) + " | "@ + (
        candidates[2].0.key()@ + ": "@ + candidates[2].1),
{
    let n = if candidates.len() < 3 {
        candidates.len()
    } else {
        3
    };
    let parts = Seq::new(n, |i: int| candidates[i].0.key()@ + ": "@ + candidates[i].1);
    assert(sample_of(candidates) == joined(parts, " | "@));
    if n >= 2 {
        let one = parts.take(1);
        let two = parts.take(2);
        assert(two.drop_last() =~= one);
        assert(joined(one, " | "@) == parts[0]);
        assert(joined(two, " | "@) == parts[0] + " | "@ + parts[1]);
        if n == 2 {
            assert(two =~= parts);
        } else {
            assert(parts.drop_last() =~= two);
            let few = candidates.take(2);
            let shown = Seq::new(2, |i: int| few[i].0.key()@ + ": "@ + few[i].1);
            assert(shown =~= two);
            assert(sample_of(few) == joined(shown, " | "@));
        }
    }
}

/// What is asked of the language model to anonymise: the prompt for the transcript and the selected
/// kinds, without a file and without thinking; the model and all other settings stay.
pub proof fn lemma_anonymise_settings(s: SessionView, source_text: Seq<char>)
    ensures
        ({
            let asked = anonymise_settings(s, source_text);
            &&& asked.chat_prompt == anonymise_prompt(
                source_text,
                kinds_in_order(s.anonymise.selected_kinds),
            )
            &&& asked.chat_context_file.len() == 0
            &&& !asked.chat_allow_thinking
            &&& asked == (SettingsView {
                chat_prompt: asked.chat_prompt,
                chat_context_file: asked.chat_context_file,
                chat_allow_thinking: false,
                ..s.settings
            })
        }),
{
}

} // verus!
