//! The worker that runs the jobs: what it does next, and what it tells, for each thing that happens.
use crate::board::{
    file_begins_text, file_config, file_config_text, file_line, file_settings,
    file_stage_detail, file_stage_text, job_begins_text, BoardView, JobBoard, JobView, QueuedJob,
};
use crate::paths::{FilePath, PathView};
use crate::session::messages::{FileDone, UiMessage};
use crate::settings::{AppSettings, SettingsView};
use crate::text::decimal;
use vstd::prelude::*;
use vstd::string::*;

verus! {

/// A job that runs, and how many of its files are over.
pub struct JobRun {
    pub job: QueuedJob,
    pub next: usize,
}

/// What happens to the worker.
pub enum WorkerEvent {
    /// The job was taken from the queue.
    Taken,
    /// The file whose turn it is came to a stage.
    Stage(String),
    /// The file whose turn it was is transcribed.
    Transcribed(FileDone),
    /// The file whose turn it was could not be transcribed.
    Failed(String),
}

/// What the worker does next.
pub enum WorkerAction {
    /// Transcribe a file with these settings.
    Transcribe { file: FilePath, settings: AppSettings },
    /// Go on with the file whose turn it is.
    GoOn,
    /// The job is over: take the next one.
    TakeNext,
}

/// What the worker does next.
pub enum ActionView {
    Transcribe { file: PathView, settings: SettingsView },
    GoOn,
    TakeNext,
}

impl View for WorkerAction {
    type V = ActionView;

    open spec fn view(&self) -> ActionView {
        match *self {
            WorkerAction::Transcribe { file, settings } => ActionView::Transcribe {
                file: file@,
                settings: settings@,
            },
            WorkerAction::GoOn => ActionView::GoOn,
            WorkerAction::TakeNext => ActionView::TakeNext,
        }
    }
}

/// What the worker tells the window.
pub enum Told {
    Log(Seq<char>),
    Status(Seq<char>),
    Refresh,
    FileOk { job_id: u64, index: usize, total: usize, audio: PathView, done: FileDone },
    FileErr { job_id: u64, index: usize, total: usize, audio: PathView, error: Seq<char> },
    JobDone(u64),
}

/// Whether a transcribed file is the other one but for the job, the place in it and the recording.
pub open spec fn same_result(a: FileDone, b: FileDone) -> bool {
    a == (FileDone {
        job_id: a.job_id,
        index: a.index,
        total: a.total,
        audio_path: a.audio_path,
        ..b
    })
}

/// Whether a message tells something.
pub open spec fn tells(message: UiMessage, told: Told) -> bool {
    match (message, told) {
        (UiMessage::Log(m), Told::Log(t)) => m@ == t,
        (UiMessage::Status(m), Told::Status(t)) => m@ == t,
        (UiMessage::Refresh, Told::Refresh) => true,
        (UiMessage::JobFileOk(d), Told::FileOk { job_id, index, total, audio, done }) => {
            &&& d.job_id == job_id
            &&& d.index == index
            &&& d.total == total
            &&& d.audio_path@ == audio
            &&& same_result(d, done)
        },
        (
            UiMessage::JobFileErr { job_id: i, index: n, total: m, audio_path, error: e },
            Told::FileErr { job_id, index, total, audio, error },
        ) => i == job_id && n == index && m == total && audio_path@ == audio && e@ == error,
        (UiMessage::JobDone(m), Told::JobDone(t)) => m == t,
        _ => false,
    }
}

/// Whether messages tell things, one for one.
pub open spec fn tell(messages: Seq<UiMessage>, told: Seq<Told>) -> bool {
    &&& messages.len() == told.len()
    &&& forall|i: int| 0 <= i < told.len() ==> tells(#[trigger] messages[i], told[i])
}

/// Whether an event ends the turn of a file.
pub open spec fn ends_turn(event: WorkerEvent) -> bool {
    event is Transcribed || event is Failed
}

/// How many files are over after an event.
pub open spec fn next_after(next: nat, event: WorkerEvent) -> nat {
    if ends_turn(event) {
        next + 1
    } else {
        next
    }
}

impl JobView {
    /// The settings with which a file is transcribed.
    pub open spec fn settings_for(self, i: int) -> SettingsView {
        SettingsView { audio_file: self.files[i].text(), ..self.settings }
    }

    /// What the worker does where `next` files are over.
    pub open spec fn turn(self, next: nat) -> ActionView {
        if next < self.files.len() {
            ActionView::Transcribe {
                file: self.files[next as int],
                settings: self.settings_for(next as int),
            }
        } else {
            ActionView::TakeNext
        }
    }

    /// What is told where `next` files are over: that the next one is begun, or that the job is done.
    pub open spec fn turn_told(self, next: nat) -> Seq<Told> {
        let total = self.files.len() as usize;
        let index = (next + 1) as usize;
        if next < self.files.len() {
            seq![
                Told::Log(file_config(self.id, index, total, self.settings_for(next as int))),
                Told::Status(
                    file_line(self.id, index, total, ": preparing "@, self.files[next as int].text()),
                ),
            ]
        } else {
            seq![Told::JobDone(self.id), Told::Refresh]
        }
    }

    /// The board where `next` files are over.
    pub open spec fn turn_board(self, b: BoardView, next: nat) -> BoardView {
        if next < self.files.len() {
            b.at_stage(self.id, (next + 1) as usize, self.files.len() as usize, "preparing"@)
        } else {
            b.job_ended()
        }
    }

    /// What the worker does after an event, where `next` files were over before it.
    pub open spec fn action(self, next: nat, event: WorkerEvent) -> ActionView {
        match event {
            WorkerEvent::Stage(_) => ActionView::GoOn,
            _ => self.turn(next_after(next, event)),
        }
    }

    /// What is told after an event, where `next` files were over before it.
    pub open spec fn told(self, next: nat, event: WorkerEvent) -> Seq<Told> {
        let total = self.files.len() as usize;
        let index = (next + 1) as usize;
        let audio = self.files[next as int];
        match event {
            WorkerEvent::Taken => seq![
                Told::Refresh,
                Told::Log(
                    "Running job #"@ + decimal(self.id as nat) + " with "@ + decimal(total as nat)
                        + " file(s)..."@,
                ),
            ] + self.turn_told(next),
            WorkerEvent::Stage(s) => seq![
                Told::Status(file_line(self.id, index, total, ": "@, s@)),
                Told::Log(file_line(self.id, index, total, " stage detail: "@, s@)),
            ],
            WorkerEvent::Transcribed(done) => seq![
                Told::FileOk { job_id: self.id, index, total, audio, done },
                Told::Refresh,
            ] + self.turn_told(next + 1),
            WorkerEvent::Failed(error) => seq![
                Told::FileErr { job_id: self.id, index, total, audio, error: error@ },
                Told::Refresh,
            ] + self.turn_told(next + 1),
        }
    }

    /// The board after an event, where `next` files were over before it.
    pub open spec fn board_after(self, b: BoardView, next: nat, event: WorkerEvent) -> BoardView {
        let index = (next + 1) as usize;
        match event {
            WorkerEvent::Taken => self.turn_board(b, next),
            WorkerEvent::Stage(s) => b.at_stage(self.id, index, self.files.len() as usize, s@),
            _ => self.turn_board(b.files_done(index), next + 1),
        }
    }

    /// Whether an event can happen where `next` files are over: the job is taken once, at its
    /// beginning, and the rest happens to a file whose turn it is.
    pub open spec fn can_happen(self, next: nat, event: WorkerEvent) -> bool {
        if event is Taken {
            next == 0
        } else {
            next < self.files.len()
        }
    }
}

impl JobRun {
    /// A job before its first file.
    pub fn new(job: QueuedJob) -> (r: JobRun)
        ensures
            r.job == job,
            r.next == 0,
    {
        JobRun { job, next: 0 }
    }

    /// Whether an event can happen now.
    pub fn can_happen(&self, event: &WorkerEvent) -> (r: bool)
        ensures
            r == self.job@.can_happen(self.next as nat, *event),
    {
        assert(self.job@.files.len() == self.job.files@.len());
        match event {
            WorkerEvent::Taken => self.next == 0,
            _ => self.next < self.job.files.len(),
        }
    }

    /// Begins the file whose turn it is, or ends the job.
    fn take_turn(&self, board: &mut JobBoard, messages: &mut Vec<UiMessage>) -> (r: WorkerAction)
        requires
            self.next <= self.job.files@.len(),
            old(board).completed_jobs < usize::MAX,
        ensures
            r@ == self.job@.turn(self.next as nat),
            final(board)@ == self.job@.turn_board(old(board)@, self.next as nat),
            exists|new: Seq<UiMessage>|
                final(messages)@ == old(messages)@ + new && tell(
                    new,
                    self.job@.turn_told(self.next as nat),
                ),
    {
        let ghost before = messages@;
        let total: usize = self.job.files.len();
        assert(self.job@.files.len() == total);
        if self.next < total {
            let index: usize = self.next + 1;
            let file: &FilePath = &self.job.files[self.next];
            assert(self.job@.files[self.next as int] == file@);
            let settings: AppSettings = file_settings(&self.job, file);
            board.set_stage(self.job.id, index, total, "preparing");
            let config: UiMessage = UiMessage::Log(
                file_config_text(self.job.id, index, total, &settings),
            );
            let begins: UiMessage = UiMessage::Status(
                file_begins_text(self.job.id, index, total, file),
            );
            let ghost new = seq![config, begins];
            messages.push(config);
            messages.push(begins);
            assert(messages@ =~= before + new);
            assert(tell(new, self.job@.turn_told(self.next as nat)));
            WorkerAction::Transcribe { file: file.copy(), settings }
        } else {
            board.job_ends();
            let ghost new = seq![UiMessage::JobDone(self.job.id), UiMessage::Refresh];
            messages.push(UiMessage::JobDone(self.job.id));
            messages.push(UiMessage::Refresh);
            assert(messages@ =~= before + new);
            assert(tell(new, self.job@.turn_told(self.next as nat)));
            WorkerAction::TakeNext
        }
    }

    /// What the worker does after an event, and what it tells. A file that could not be transcribed
    /// does not keep the others from their turn.
    pub fn next_step(&mut self, board: &mut JobBoard, event: WorkerEvent) -> (r: (
        WorkerAction,
        Vec<UiMessage>,
    ))
        requires
            old(self).job@.can_happen(old(self).next as nat, event),
            old(board).completed_jobs < usize::MAX,
        ensures
            final(self).job == old(self).job,
            final(self).next == next_after(old(self).next as nat, event),
            final(board)@ == old(self).job@.board_after(old(board)@, old(self).next as nat, event),
            r.0@ == old(self).job@.action(old(self).next as nat, event),
            tell(r.1@, old(self).job@.told(old(self).next as nat, event)),
    {
        let id: u64 = self.job.id;
        let total: usize = self.job.files.len();
        let ghost job = self.job@;
        let ghost next = self.next as nat;
        assert(job.files.len() == total);
        let mut messages: Vec<UiMessage> = Vec::new();
        match event {
            WorkerEvent::Taken => {
                messages.push(UiMessage::Refresh);
                messages.push(UiMessage::Log(job_begins_text(id, total)));
            },
            WorkerEvent::Stage(stage) => {
                let index: usize = self.next + 1;
                board.set_stage(id, index, total, stage.as_str());
                messages.push(UiMessage::Status(file_stage_text(id, index, total, stage.as_str())));
                messages.push(UiMessage::Log(file_stage_detail(id, index, total, stage.as_str())));
                return (WorkerAction::GoOn, messages);
            },
            WorkerEvent::Transcribed(done) => {
                let index: usize = self.next + 1;
                let audio_path: FilePath = self.job.files[self.next].copy();
                assert(job.files[next as int] == audio_path@);
                board.set_done(index);
                messages.push(
                    UiMessage::JobFileOk(FileDone { job_id: id, index, total, audio_path, ..done }),
                );
                messages.push(UiMessage::Refresh);
                self.next = index;
            },
            WorkerEvent::Failed(error) => {
                let index: usize = self.next + 1;
                let audio_path: FilePath = self.job.files[self.next].copy();
                assert(job.files[next as int] == audio_path@);
                board.set_done(index);
                messages.push(
                    UiMessage::JobFileErr { job_id: id, index, total, audio_path, error },
                );
                messages.push(UiMessage::Refresh);
                self.next = index;
            },
        }
        let ghost first = messages@;
        let action: WorkerAction = self.take_turn(board, &mut messages);
        proof {
            let rest = job.turn_told(self.next as nat);
            let new = choose|new: Seq<UiMessage>|
                messages@ == first + new && tell(new, rest);
            let all = job.told(next, event);
            assert forall|i: int| 0 <= i < all.len() implies tells(#[trigger] messages@[i], all[i]) by {
                if i >= 2 {
                    assert(messages@[i] == new[i - 2]);
                    assert(all[i] == rest[i - 2]);
                } else {
                    assert(messages@[i] == first[i]);
                }
            }
        }
        (action, messages)
    }
}

/// How many files are over after events.
pub open spec fn over_after(events: Seq<WorkerEvent>) -> nat
    decreases events.len(),
{
    if events.len() == 0 {
        0
    } else {
        next_after(over_after(events.drop_last()), events.last())
    }
}

/// The places of the files whose turn events ended, and whether each was transcribed.
pub open spec fn turns_in(events: Seq<WorkerEvent>) -> Seq<(usize, bool)>
    decreases events.len(),
{
    if events.len() == 0 {
        Seq::empty()
    } else if ends_turn(events.last()) {
        turns_in(events.drop_last()).push(
            (over_after(events) as usize, events.last() is Transcribed),
        )
    } else {
        turns_in(events.drop_last())
    }
}

/// The places of the files of which an outcome is told, and whether each was transcribed.
pub open spec fn outcomes_in(told: Seq<Told>) -> Seq<(usize, bool)>
    decreases told.len(),
{
    if told.len() == 0 {
        Seq::empty()
    } else {
        let before = outcomes_in(told.drop_last());
        match told.last() {
            Told::FileOk { index, .. } => before.push((index, true)),
            Told::FileErr { index, .. } => before.push((index, false)),
            _ => before,
        }
    }
}

/// How often it is told that a job is done.
pub open spec fn ends_in(told: Seq<Told>) -> nat
    decreases told.len(),
{
    if told.len() == 0 {
        0
    } else if told.last() is JobDone {
        ends_in(told.drop_last()) + 1
    } else {
        ends_in(told.drop_last())
    }
}

impl JobView {
    /// Whether events can happen one after the other: the job is taken, and the rest happens to files
    /// whose turn it is.
    pub open spec fn can_run(self, events: Seq<WorkerEvent>) -> bool
        decreases events.len(),
    {
        if events.len() == 0 {
            true
        } else {
            let before = events.drop_last();
            &&& self.can_run(before)
            &&& (events.last() is Taken) == (before.len() == 0)
            &&& self.can_happen(over_after(before), events.last())
        }
    }

    /// What is told in the course of events.
    pub open spec fn told_in(self, events: Seq<WorkerEvent>) -> Seq<Told>
        decreases events.len(),
    {
        if events.len() == 0 {
            Seq::empty()
        } else {
            let before = events.drop_last();
            self.told_in(before) + self.told(over_after(before), events.last())
        }
    }

    /// The board after events.
    pub open spec fn board_in(self, b: BoardView, events: Seq<WorkerEvent>) -> BoardView
        decreases events.len(),
    {
        if events.len() == 0 {
            b
        } else {
            let before = events.drop_last();
            self.board_after(self.board_in(b, before), over_after(before), events.last())
        }
    }
}

/// What is told in two parts is told in both.
proof fn lemma_told_concat(a: Seq<Told>, b: Seq<Told>)
    ensures
        outcomes_in(a + b) == outcomes_in(a) + outcomes_in(b),
        ends_in(a + b) == ends_in(a) + ends_in(b),
    decreases b.len(),
{
    if b.len() == 0 {
        assert(a + b =~= a);
        assert(outcomes_in(a) + outcomes_in(b) =~= outcomes_in(a));
    } else {
        lemma_told_concat(a, b.drop_last());
        assert((a + b).drop_last() =~= a + b.drop_last());
        assert((a + b).last() == b.last());
        assert(outcomes_in(a + b) =~= outcomes_in(a) + outcomes_in(b));
    }
}

/// What is told after one event: the outcome of the file whose turn it ended, and the end of the job
/// where no file is left.
proof fn lemma_told_once(job: JobView, next: nat, event: WorkerEvent)
    requires
        job.can_happen(next, event),
        job.files.len() <= usize::MAX,
    ensures
        outcomes_in(job.told(next, event)) == if ends_turn(event) {
            seq![((next + 1) as usize, event is Transcribed)]
        } else {
            Seq::empty()
        },
        ends_in(job.told(next, event)) == if !(event is Stage) && next_after(next, event)
            >= job.files.len() {
            1nat
        } else {
            0nat
        },
{
    reveal_with_fuel(outcomes_in, 3);
    reveal_with_fuel(ends_in, 3);
    let turn = job.turn_told(next_after(next, event));
    assert(outcomes_in(turn) =~= Seq::empty());
    let all = job.told(next, event);
    if event is Stage {
        assert(outcomes_in(all) =~= Seq::empty());
    } else {
        let head = all.take(2);
        assert(all =~= head + turn);
        lemma_told_concat(head, turn);
        assert(head.drop_last().drop_last() =~= Seq::empty());
        assert(outcomes_in(head) + outcomes_in(turn) =~= outcomes_in(head));
        if ends_turn(event) {
            assert(outcomes_in(head) =~= seq![((next + 1) as usize, event is Transcribed)]);
        } else {
            assert(outcomes_in(head) =~= Seq::empty());
        }
    }
}

/// Every file of a job gets one turn, in the order of the files, whatever came of those before it:
/// one outcome is told of each, with its place counted from one, and each of them is the outcome that
/// its turn had.
pub proof fn lemma_every_file_has_its_turn(job: JobView, events: Seq<WorkerEvent>)
    requires
        job.files.len() <= usize::MAX,
        job.can_run(events),
    ensures
        outcomes_in(job.told_in(events)) == turns_in(events),
        turns_in(events).len() == over_after(events) <= job.files.len(),
        forall|i: int|
            0 <= i < turns_in(events).len() ==> (#[trigger] turns_in(events)[i]).0 == i + 1,
    decreases events.len(),
{
    if events.len() > 0 {
        let before = events.drop_last();
        let next = over_after(before);
        lemma_every_file_has_its_turn(job, before);
        lemma_told_once(job, next, events.last());
        lemma_told_concat(job.told_in(before), job.told(next, events.last()));
        assert(outcomes_in(job.told_in(events)) =~= turns_in(events));
    } else {
        assert(outcomes_in(job.told_in(events)) =~= turns_in(events));
    }
}

/// A job ends when its last file is over, and only then: that it is done is told once, last of all,
/// the worker takes the next job, and the board counts one job less that runs and one more that is
/// complete. Until then it is not told, and after each file but the last the next one is transcribed.
pub proof fn lemma_job_ends_after_its_last_file(
    job: JobView,
    b: BoardView,
    events: Seq<WorkerEvent>,
)
    requires
        job.files.len() <= usize::MAX,
        job.can_run(events),
        events.len() > 0,
    ensures
        ({
            let over = over_after(events);
            let told = job.told_in(events);
            let action = job.action(over_after(events.drop_last()), events.last());
            if over == job.files.len() {
                &&& ends_in(told) == 1
                &&& told.len() >= 2
                &&& told[told.len() - 2] == Told::JobDone(job.id)
                &&& action is TakeNext
                &&& job.board_in(b, events) == b.job_ended()
            } else {
                &&& ends_in(told) == 0
                &&& !(action is TakeNext)
                &&& ends_turn(events.last()) ==> action == job.turn(over)
                &&& job.board_in(b, events).job_ended() == b.job_ended()
            }
        }),
    decreases events.len(),
{
    let before = events.drop_last();
    let next = over_after(before);
    lemma_every_file_has_its_turn(job, events);
    lemma_told_once(job, next, events.last());
    lemma_told_concat(job.told_in(before), job.told(next, events.last()));
    if before.len() > 0 {
        lemma_job_ends_after_its_last_file(job, b, before);
    } else {
        assert(job.told_in(before) =~= Seq::empty());
    }
}

/// What the worker asks for: the file whose turn it is, with the settings of its job but for the
/// recording, which is that file; and another job once every file is over.
pub proof fn lemma_turn(job: JobView, next: nat)
    ensures
        next < job.files.len() ==> (job.turn(next) matches ActionView::Transcribe { file, settings }
            && file == job.files[next as int] && settings.audio_file == job.files[next as int].text()
            && settings == (SettingsView { audio_file: settings.audio_file, ..job.settings })),
        next >= job.files.len() ==> job.turn(next) is TakeNext,
{
}

/// What happens to one file does not stop the others: after a file that failed the worker goes on as
/// after one that was transcribed, and the board shows the same. A stage of a file asks for nothing.
pub proof fn lemma_failure_is_passed(
    job: JobView,
    next: nat,
    done: FileDone,
    error: String,
    stage: String,
    b: BoardView,
)
    requires
        next < job.files.len() <= usize::MAX,
    ensures
        job.action(next, WorkerEvent::Failed(error)) == job.turn(next + 1),
        job.action(next, WorkerEvent::Transcribed(done)) == job.turn(next + 1),
        job.action(next, WorkerEvent::Stage(stage)) is GoOn,
        job.board_after(b, next, WorkerEvent::Failed(error)) == job.board_after(
            b,
            next,
            WorkerEvent::Transcribed(done),
        ),
        next + 1 < job.files.len() ==> (b.active_job matches Some(active) ==> (job.board_after(
            b,
            next,
            WorkerEvent::Failed(error),
        ).active_job matches Some(after) && after.done_files == next + 1 && after.id == active.id)),
        next + 1 == job.files.len() ==> job.board_after(
            b,
            next,
            WorkerEvent::Failed(error),
        ).active_job is None,
{
}

/// What is told of a file: first what came of it, with the number of the job, its place among the files
/// and the recording, and where it failed why; of a stage, the stage in the status and in the log.
pub proof fn lemma_outcome_is_told(
    job: JobView,
    next: nat,
    done: FileDone,
    error: String,
    stage: String,
)
    requires
        next < job.files.len() <= usize::MAX,
    ensures
        job.told(next, WorkerEvent::Transcribed(done))[0] == (Told::FileOk {
            job_id: job.id,
            index: (next + 1) as usize,
            total: job.files.len() as usize,
            audio: job.files[next as int],
            done,
        }),
        job.told(next, WorkerEvent::Failed(error))[0] == (Told::FileErr {
            job_id: job.id,
            index: (next + 1) as usize,
            total: job.files.len() as usize,
            audio: job.files[next as int],
            error: error@,
        }),
        job.told(next, WorkerEvent::Stage(stage)).len() == 2,
        job.told(next, WorkerEvent::Stage(stage))[0] == Told::Status(
            file_line(job.id, (next + 1) as usize, job.files.len() as usize, ": "@, stage@),
        ),
        job.told(next, WorkerEvent::Stage(stage))[1] == Told::Log(
            file_line(
                job.id,
                (next + 1) as usize,
                job.files.len() as usize,
                " stage detail: "@,
                stage@,
            ),
        ),
{
}

} // verus!
