//! The board of jobs, downloads and files that the window and the workers share.
use crate::library::{
    entry_views, ensure_output_entry, with_entry, EntryView, MediaEntry, OutputEntry,
};
use crate::paths::{path_views, FilePath, PathView};
use crate::settings::{
    selected_gpu, selected_gpu_index_from_settings, AppSettings, SettingsView,
};
use crate::text::{
    cat2, cat3, cat4, cat5, decimal, decimal_text, lowered, signed_decimal, signed_decimal_text,
    stripped, trim,
};
use std::collections::VecDeque;
use vstd::prelude::*;
use vstd::string::*;

verus! {

/// A job that waits: the files to transcribe, and the settings it was queued with.
#[derive(Debug)]
pub struct QueuedJob {
    pub id: u64,
    pub settings: AppSettings,
    pub files: Vec<FilePath>,
}

/// What a job that waits holds.
pub struct JobView {
    pub id: u64,
    pub settings: SettingsView,
    pub files: Seq<PathView>,
}

impl View for QueuedJob {
    type V = JobView;

    open spec fn view(&self) -> JobView {
        JobView { id: self.id, settings: self.settings@, files: path_views(self.files@) }
    }
}

/// The views of the jobs that wait.
pub open spec fn job_views(jobs: Seq<QueuedJob>) -> Seq<JobView> {
    Seq::new(jobs.len(), |i: int| jobs[i]@)
}

/// How far the job that runs has come.
#[derive(Debug, Clone, Copy)]
pub struct ActiveJob {
    pub id: u64,
    pub total_files: usize,
    pub done_files: usize,
}

/// What can be downloaded.
#[derive(Debug, Clone, Copy, PartialEq, Eq, Structural)]
pub enum DownloadKind {
    Whisper,
    Live,
    Chat,
    Diarization,
}

/// What is said of each download that runs.
#[derive(Debug)]
pub struct Downloads {
    pub whisper: Option<String>,
    pub live: Option<String>,
    pub chat: Option<String>,
    pub diarization: Option<String>,
}

/// What is said of each download that runs.
pub struct DownloadsView {
    pub whisper: Option<Seq<char>>,
    pub live: Option<Seq<char>>,
    pub chat: Option<Seq<char>>,
    pub diarization: Option<Seq<char>>,
}

/// The view of a text that may be missing.
pub open spec fn text_view(text: Option<String>) -> Option<Seq<char>> {
    match text {
        Some(t) => Some(t@),
        None => None,
    }
}

/// The view of a path that may be missing.
pub open spec fn path_view(path: Option<FilePath>) -> Option<PathView> {
    match path {
        Some(p) => Some(p@),
        None => None,
    }
}

/// A text once more, if there is one.
pub fn copy_text(text: &Option<String>) -> (r: Option<String>)
    ensures
        text_view(r) == text_view(*text),
{
    match text {
        Some(t) => Some(t.clone()),
        None => None,
    }
}

/// A path once more, if there is one.
pub fn copy_path(path: &Option<FilePath>) -> (r: Option<FilePath>)
    ensures
        path_view(r) == path_view(*path),
{
    match path {
        Some(p) => Some(p.copy()),
        None => None,
    }
}

impl View for Downloads {
    type V = DownloadsView;

    open spec fn view(&self) -> DownloadsView {
        DownloadsView {
            whisper: text_view(self.whisper),
            live: text_view(self.live),
            chat: text_view(self.chat),
            diarization: text_view(self.diarization),
        }
    }
}

impl DownloadsView {
    /// What is said of one download.
    pub open spec fn of(self, kind: DownloadKind) -> Option<Seq<char>> {
        match kind {
            DownloadKind::Whisper => self.whisper,
            DownloadKind::Live => self.live,
            DownloadKind::Chat => self.chat,
            DownloadKind::Diarization => self.diarization,
        }
    }

    /// What is said of the downloads once something else is said of one.
    pub open spec fn with(self, kind: DownloadKind, status: Option<Seq<char>>) -> DownloadsView {
        match kind {
            DownloadKind::Whisper => DownloadsView { whisper: status, ..self },
            DownloadKind::Live => DownloadsView { live: status, ..self },
            DownloadKind::Chat => DownloadsView { chat: status, ..self },
            DownloadKind::Diarization => DownloadsView { diarization: status, ..self },
        }
    }

    /// What is said of the first download that runs.
    pub open spec fn first(self) -> Option<Seq<char>> {
        match self.whisper {
            Some(t) => Some(t),
            None => match self.live {
                Some(t) => Some(t),
                None => match self.chat {
                    Some(t) => Some(t),
                    None => self.diarization,
                },
            },
        }
    }
}

impl Downloads {
    /// No download.
    pub fn none() -> (r: Downloads)
        ensures
            r@ == (DownloadsView { whisper: None, live: None, chat: None, diarization: None }),
    {
        Downloads { whisper: None, live: None, chat: None, diarization: None }
    }

    /// What is said of one download.
    pub fn status(&self, kind: DownloadKind) -> (r: Option<String>)
        ensures
            text_view(r) == self@.of(kind),
    {
        match kind {
            DownloadKind::Whisper => copy_text(&self.whisper),
            DownloadKind::Live => copy_text(&self.live),
            DownloadKind::Chat => copy_text(&self.chat),
            DownloadKind::Diarization => copy_text(&self.diarization),
        }
    }

    /// Says something else of one download.
    pub fn set(&mut self, kind: DownloadKind, status: Option<String>)
        ensures
            final(self)@ == old(self)@.with(kind, text_view(status)),
    {
        match kind {
            DownloadKind::Whisper => {
                self.whisper = status;
            },
            DownloadKind::Live => {
                self.live = status;
            },
            DownloadKind::Chat => {
                self.chat = status;
            },
            DownloadKind::Diarization => {
                self.diarization = status;
            },
        }
    }

    /// What is said of the first download that runs.
    pub fn first_status(&self) -> (r: Option<String>)
        ensures
            text_view(r) == self@.first(),
    {
        if self.whisper.is_some() {
            copy_text(&self.whisper)
        } else if self.live.is_some() {
            copy_text(&self.live)
        } else if self.chat.is_some() {
            copy_text(&self.chat)
        } else {
            copy_text(&self.diarization)
        }
    }
}

/// The board of jobs, downloads and files.
#[derive(Debug)]
pub struct JobBoard {
    pub original_output_path: Option<FilePath>,
    pub edited_output_path: Option<FilePath>,
    pub active_audio_path: Option<FilePath>,
    pub media_entries: Vec<MediaEntry>,
    pub output_entries: Vec<OutputEntry>,
    pub running_jobs: usize,
    pub completed_jobs: usize,
    pub job_queue: VecDeque<QueuedJob>,
    pub active_job: Option<ActiveJob>,
    pub active_stage: String,
    pub queue_worker_running: bool,
    pub next_job_id: u64,
    pub download_status: Option<String>,
    pub download_statuses: Downloads,
}

/// What the board shows.
pub struct BoardView {
    pub original_output_path: Option<PathView>,
    pub edited_output_path: Option<PathView>,
    pub active_audio_path: Option<PathView>,
    pub media_entries: Seq<EntryView>,
    pub output_entries: Seq<EntryView>,
    pub running_jobs: usize,
    pub completed_jobs: usize,
    pub job_queue: Seq<JobView>,
    pub active_job: Option<ActiveJob>,
    pub active_stage: Seq<char>,
    pub queue_worker_running: bool,
    pub next_job_id: u64,
    pub download_status: Option<Seq<char>>,
    pub download_statuses: DownloadsView,
}

impl View for JobBoard {
    type V = BoardView;

    open spec fn view(&self) -> BoardView {
        BoardView {
            original_output_path: path_view(self.original_output_path),
            edited_output_path: path_view(self.edited_output_path),
            active_audio_path: path_view(self.active_audio_path),
            media_entries: entry_views(self.media_entries@),
            output_entries: entry_views(self.output_entries@),
            running_jobs: self.running_jobs,
            completed_jobs: self.completed_jobs,
            job_queue: job_views(self.job_queue@),
            active_job: self.active_job,
            active_stage: self.active_stage@,
            queue_worker_running: self.queue_worker_running,
            next_job_id: self.next_job_id,
            download_status: text_view(self.download_status),
            download_statuses: self.download_statuses@,
        }
    }
}

/// The board on which nothing stands.
pub open spec fn empty_board() -> BoardView {
    BoardView {
        original_output_path: None,
        edited_output_path: None,
        active_audio_path: None,
        media_entries: Seq::empty(),
        output_entries: Seq::empty(),
        running_jobs: 0,
        completed_jobs: 0,
        job_queue: Seq::empty(),
        active_job: None,
        active_stage: Seq::empty(),
        queue_worker_running: false,
        next_job_id: 0,
        download_status: None,
        download_statuses: DownloadsView { whisper: None, live: None, chat: None, diarization: None },
    }
}

/// Where a job stands among its files: `job #id file index/total`.
pub open spec fn file_mark(id: u64, index: usize, total: usize) -> Seq<char> {
    decimal(id as nat) + " file "@ + decimal(index as nat) + "/"@ + decimal(total as nat)
}

/// Where a job stands among its files.
pub fn file_mark_text(id: u64, index: usize, total: usize) -> (r: String)
    ensures
        r@ == file_mark(id, index, total),
{
    let id_text: String = decimal_text(id);
    let index_text: String = decimal_text(index as u64);
    let total_text: String = decimal_text(total as u64);
    cat5(id_text.as_str(), " file ", index_text.as_str(), "/", total_text.as_str())
}

impl BoardView {
    /// The board after a job was queued.
    pub open spec fn enqueued(self, settings: SettingsView, files: Seq<PathView>) -> BoardView {
        let id = (self.next_job_id + 1) as u64;
        BoardView {
            next_job_id: id,
            job_queue: self.job_queue.push(JobView { id, settings, files }),
            ..self
        }
    }

    /// The board after the worker took the job that waited longest, or stopped where none waits.
    pub open spec fn job_taken(self) -> BoardView {
        if self.job_queue.len() == 0 {
            BoardView {
                queue_worker_running: false,
                active_job: None,
                active_stage: Seq::empty(),
                ..self
            }
        } else {
            let job = self.job_queue[0];
            BoardView {
                job_queue: self.job_queue.drop_first(),
                running_jobs: (self.running_jobs + 1) as usize,
                active_job: Some(
                    ActiveJob {
                        id: job.id,
                        total_files: job.files.len() as usize,
                        done_files: 0,
                    },
                ),
                ..self
            }
        }
    }

    /// The board after a task other than a job ended.
    pub open spec fn task_ended(self) -> BoardView {
        BoardView {
            running_jobs: if self.running_jobs == 0 {
                0
            } else {
                (self.running_jobs - 1) as usize
            },
            completed_jobs: (self.completed_jobs + 1) as usize,
            ..self
        }
    }

    /// The board after the job that runs ended.
    pub open spec fn job_ended(self) -> BoardView {
        BoardView { active_job: None, active_stage: Seq::empty(), ..self.task_ended() }
    }

    /// The board after a file of a job came to a stage.
    pub open spec fn at_stage(
        self,
        id: u64,
        index: usize,
        total: usize,
        stage: Seq<char>,
    ) -> BoardView {
        BoardView {
            active_stage: "job #"@ + file_mark(id, index, total) + ": "@ + stage,
            ..self
        }
    }

    /// The board after `done` files of the job that runs were transcribed.
    pub open spec fn files_done(self, done: usize) -> BoardView {
        BoardView {
            active_job: match self.active_job {
                Some(job) => Some(ActiveJob { done_files: done, ..job }),
                None => None,
            },
            ..self
        }
    }

    /// The board after something was said of a download; the status that is shown is this one, or,
    /// where the download ended, that of the first that still runs.
    pub open spec fn download_said(
        self,
        kind: DownloadKind,
        status: Option<Seq<char>>,
    ) -> BoardView {
        let statuses = self.download_statuses.with(kind, status);
        BoardView {
            download_statuses: statuses,
            download_status: match status {
                Some(t) => Some(t),
                None => statuses.first(),
            },
            ..self
        }
    }

    /// Whether no job runs or waits.
    pub open spec fn idle(self) -> bool {
        self.running_jobs == 0 && self.job_queue.len() == 0
    }

    /// Whether the numbers of the jobs that wait ascend and none is above the last one given.
    pub open spec fn numbered(self) -> bool {
        &&& forall|i: int|
            0 <= i < self.job_queue.len() ==> (#[trigger] self.job_queue[i]).id <= self.next_job_id
        &&& forall|i: int, j: int|
            0 <= i < j < self.job_queue.len() ==> (#[trigger] self.job_queue[i]).id < (
            #[trigger] self.job_queue[j]).id
    }

    /// The board after a transcript and its edited copy were opened, saved or made.
    pub open spec fn outputs_known(self, original: PathView, edited: PathView) -> BoardView {
        BoardView {
            original_output_path: Some(original),
            edited_output_path: Some(edited),
            output_entries: with_entry(
                with_entry(self.output_entries, original, false),
                edited,
                false,
            ),
            ..self
        }
    }
}

/// Every job gets a number above all that were given before, and the jobs run in the order in which
/// they were queued: queueing puts a job behind all others, and the worker takes the foremost.
pub proof fn lemma_jobs_in_order(b: BoardView, settings: SettingsView, files: Seq<PathView>)
    requires
        b.numbered(),
        b.next_job_id < u64::MAX,
    ensures
        b.enqueued(settings, files).numbered(),
        b.enqueued(settings, files).job_queue.last().id > b.next_job_id,
        b.job_taken().numbered(),
        b.job_queue.len() > 0 ==> b.enqueued(settings, files).job_queue[0] == b.job_queue[0],
        b.job_queue.len() > 0 ==> forall|i: int|
            0 <= i < b.job_taken().job_queue.len() ==> b.job_queue[0].id < (
            #[trigger] b.job_taken().job_queue[i]).id,
{
    let q = b.job_queue;
    let e = b.enqueued(settings, files);
    assert forall|i: int| 0 <= i < e.job_queue.len() implies (#[trigger] e.job_queue[i]).id
        <= e.next_job_id by {
        if i < q.len() {
            assert(e.job_queue[i] == q[i]);
        }
    }
    assert forall|i: int, j: int| 0 <= i < j < e.job_queue.len() implies (
    #[trigger] e.job_queue[i]).id < (#[trigger] e.job_queue[j]).id by {
        assert(e.job_queue[i] == q[i]);
        if j < q.len() {
            assert(e.job_queue[j] == q[j]);
        }
    }
    let t = b.job_taken();
    if q.len() > 0 {
        assert forall|i: int| 0 <= i < t.job_queue.len() implies (#[trigger] t.job_queue[i]).id
            <= t.next_job_id && q[0].id < t.job_queue[i].id by {
            assert(t.job_queue[i] == q[i + 1]);
        }
        assert forall|i: int, j: int| 0 <= i < j < t.job_queue.len() implies (
        #[trigger] t.job_queue[i]).id < (#[trigger] t.job_queue[j]).id by {
            assert(t.job_queue[i] == q[i + 1] && t.job_queue[j] == q[j + 1]);
        }
    }
}

/// A job that is taken and ended leaves the board with one job less in the queue, one more
/// completed, and as many running as before.
pub proof fn lemma_job_accounting(b: BoardView)
    requires
        b.job_queue.len() > 0,
        b.running_jobs < usize::MAX,
        b.completed_jobs < usize::MAX,
    ensures
        b.job_taken().job_ended().running_jobs == b.running_jobs,
        b.job_taken().job_ended().completed_jobs == b.completed_jobs + 1,
        b.job_taken().job_ended().job_queue == b.job_queue.drop_first(),
        b.job_taken().job_ended().active_job is None,
{
}

/// Saying that a download ended forgets it, and what is said of the others stays.
pub proof fn lemma_download_ended(b: BoardView, kind: DownloadKind, other: DownloadKind)
    ensures
        b.download_said(kind, None).download_statuses.of(kind) is None,
        other != kind ==> b.download_said(kind, None).download_statuses.of(other)
            == b.download_statuses.of(other),
        b.download_said(kind, None).download_status is Some ==> exists|k: DownloadKind|
            k != kind && #[trigger] b.download_statuses.of(k) == b.download_said(
                kind,
                None,
            ).download_status,
{
    let after = b.download_said(kind, None);
    if after.download_status is Some {
        let k = if after.download_statuses.whisper is Some {
            DownloadKind::Whisper
        } else if after.download_statuses.live is Some {
            DownloadKind::Live
        } else if after.download_statuses.chat is Some {
            DownloadKind::Chat
        } else {
            DownloadKind::Diarization
        };
        assert(k != kind && b.download_statuses.of(k) == after.download_status);
    }
}

impl JobBoard {
    /// The board on which nothing stands.
    pub fn new() -> (r: JobBoard)
        ensures
            r@ == empty_board(),
    {
        let r: JobBoard = JobBoard {
            original_output_path: None,
            edited_output_path: None,
            active_audio_path: None,
            media_entries: Vec::new(),
            output_entries: Vec::new(),
            running_jobs: 0,
            completed_jobs: 0,
            job_queue: VecDeque::new(),
            active_job: None,
            active_stage: String::new(),
            queue_worker_running: false,
            next_job_id: 0,
            download_status: None,
            download_statuses: Downloads::none(),
        };
        assert(r@.media_entries =~= Seq::<EntryView>::empty());
        assert(r@.output_entries =~= Seq::<EntryView>::empty());
        assert(r@.job_queue =~= Seq::<JobView>::empty());
        assert(r@.active_stage =~= Seq::<char>::empty());
        r
    }

    /// Queues a job and gives its number.
    pub fn enqueue(&mut self, settings: AppSettings, files: Vec<FilePath>) -> (id: u64)
        requires
            old(self).next_job_id < u64::MAX,
        ensures
            final(self)@ == old(self)@.enqueued(settings@, path_views(files@)),
            id == final(self)@.next_job_id,
    {
        let ghost before = self@;
        self.next_job_id = self.next_job_id + 1;
        let id: u64 = self.next_job_id;
        let job: QueuedJob = QueuedJob { id, settings, files };
        let ghost view = job@;
        self.job_queue.push_back(job);
        assert(job_views(self.job_queue@) =~= before.job_queue.push(view));
        id
    }

    /// Whether a worker has to be started: none runs, and a job waits.
    pub fn start_worker(&mut self) -> (r: bool)
        ensures
            r == (!old(self)@.queue_worker_running && old(self)@.job_queue.len() > 0),
            final(self)@ == (BoardView {
                queue_worker_running: old(self)@.queue_worker_running || r,
                ..old(self)@
            }),
    {
        if self.queue_worker_running || self.job_queue.len() == 0 {
            return false;
        }
        self.queue_worker_running = true;
        true
    }

    /// Takes the job that waited longest; where none waits, the worker stops.
    pub fn take_job(&mut self) -> (r: Option<QueuedJob>)
        requires
            old(self).job_queue@.len() > 0 ==> old(self).running_jobs < usize::MAX,
        ensures
            final(self)@ == old(self)@.job_taken(),
            match r {
                Some(job) => old(self)@.job_queue.len() > 0 && job@ == old(self)@.job_queue[0],
                None => old(self)@.job_queue.len() == 0,
            },
    {
        let ghost before = self@;
        let ghost jobs = self.job_queue@;
        match self.job_queue.pop_front() {
            Some(job) => {
                self.running_jobs = self.running_jobs + 1;
                self.active_job = Some(
                    ActiveJob { id: job.id, total_files: job.files.len(), done_files: 0 },
                );
                assert(job_views(self.job_queue@) =~= before.job_queue.drop_first());
                assert(before.job_queue[0] == jobs[0]@);
                Some(job)
            },
            None => {
                self.queue_worker_running = false;
                self.active_job = None;
                self.active_stage = String::new();
                assert(self.active_stage@ =~= Seq::<char>::empty());
                None
            },
        }
    }

    /// Notes the stage that a file of a job is in.
    pub fn set_stage(&mut self, id: u64, index: usize, total: usize, stage: &str)
        ensures
            final(self)@ == old(self)@.at_stage(id, index, total, stage@),
    {
        let mark: String = file_mark_text(id, index, total);
        self.active_stage = cat4("job #", mark.as_str(), ": ", stage);
    }

    /// Notes how many files of the job that runs were transcribed.
    pub fn set_done(&mut self, done: usize)
        ensures
            final(self)@ == old(self)@.files_done(done),
    {
        self.active_job = match self.active_job {
            Some(job) => Some(
                ActiveJob { id: job.id, total_files: job.total_files, done_files: done },
            ),
            None => None,
        };
    }

    /// Notes that a task began that is no job.
    pub fn task_begins(&mut self)
        requires
            old(self).running_jobs < usize::MAX,
        ensures
            final(self)@ == (BoardView {
                running_jobs: (old(self)@.running_jobs + 1) as usize,
                ..old(self)@
            }),
    {
        self.running_jobs = self.running_jobs + 1;
    }

    /// Notes that a task ended that is no job.
    pub fn task_ends(&mut self)
        requires
            old(self).completed_jobs < usize::MAX,
        ensures
            final(self)@ == old(self)@.task_ended(),
    {
        if self.running_jobs > 0 {
            self.running_jobs = self.running_jobs - 1;
        }
        self.completed_jobs = self.completed_jobs + 1;
    }

    /// Notes that the job that runs ended.
    pub fn job_ends(&mut self)
        requires
            old(self).completed_jobs < usize::MAX,
        ensures
            final(self)@ == old(self)@.job_ended(),
    {
        self.task_ends();
        self.active_job = None;
        self.active_stage = String::new();
        assert(self.active_stage@ =~= Seq::<char>::empty());
    }

    /// Whether no job runs or waits.
    pub fn is_idle(&self) -> (r: bool)
        ensures
            r == self@.idle(),
    {
        self.running_jobs == 0 && self.job_queue.len() == 0
    }

    /// Notes what is said of a download.
    pub fn set_download(&mut self, kind: DownloadKind, status: Option<String>)
        ensures
            final(self)@ == old(self)@.download_said(kind, text_view(status)),
    {
        self.download_statuses.set(kind, copy_text(&status));
        self.download_status = match status {
            Some(text) => Some(text),
            None => self.download_statuses.first_status(),
        };
    }

    /// Notes a transcript and its edited copy that were opened, saved or made.
    pub fn know_outputs(&mut self, original: &FilePath, edited: &FilePath)
        ensures
            final(self)@ == old(self)@.outputs_known(original@, edited@),
    {
        self.original_output_path = Some(original.copy());
        self.edited_output_path = Some(edited.copy());
        ensure_output_entry(&mut self.output_entries, original.copy(), false);
        ensure_output_entry(&mut self.output_entries, edited.copy(), false);
    }
}

/// What is said when a job begins.
pub fn job_begins_text(id: u64, total: usize) -> (r: String)
    ensures
        r@ == "Running job #"@ + decimal(id as nat) + " with "@ + decimal(total as nat)
            + " file(s)..."@,
{
    let id_text: String = decimal_text(id);
    let total_text: String = decimal_text(total as u64);
    cat5("Running job #", id_text.as_str(), " with ", total_text.as_str(), " file(s)...")
}

/// The settings with which a file of a job is transcribed.
pub fn file_settings(job: &QueuedJob, file: &FilePath) -> (r: AppSettings)
    ensures
        r@ == (SettingsView { audio_file: file@.text(), ..job@.settings }),
{
    let mut r: AppSettings = job.settings.copy();
    r.audio_file = file.text();
    r
}

/// The device that the engine runs on, as the log names it.
pub open spec fn device_mark(s: SettingsView) -> Seq<char> {
    match selected_gpu(s) {
        Some(i) => "gpu:"@ + signed_decimal(i as int),
        None => "cpu"@,
    }
}

/// The words `true` and `false`.
pub open spec fn flag_text(b: bool) -> Seq<char> {
    if b {
        "true"@
    } else {
        "false"@
    }
}

/// The words `true` and `false`.
pub fn flag_word(b: bool) -> (r: &'static str)
    ensures
        r@ == flag_text(b),
{
    if b {
        "true"
    } else {
        "false"
    }
}

/// What the log says of the settings with which a file is transcribed.
pub open spec fn file_config(id: u64, index: usize, total: usize, s: SettingsView) -> Seq<char> {
    "Job #"@ + file_mark(id, index, total) + " config: mode='"@ + s.mode + "' custom='"@
        + s.custom_mode + "' whisper_model='"@ + s.whisper_model + "' diarization="@ + flag_text(
        lowered(stripped(s.mode)) == "transcript"@,
    ) + " diarization_models_dir='"@ + s.diarization_models_dir + "' device='"@ + device_mark(s)
        + "' n_ctx="@ + signed_decimal(s.n_ctx as int) + " n_batch="@ + signed_decimal(
        s.n_batch as int,
    ) + " audio='"@ + s.audio_file + "'"@
}

/// What the log says of the settings with which a file is transcribed.
pub fn file_config_text(id: u64, index: usize, total: usize, settings: &AppSettings) -> (r: String)
    ensures
        r@ == file_config(id, index, total, settings@),
{
    let mark: String = file_mark_text(id, index, total);
    let mode_low: String = crate::text::to_ascii_lowercase(trim(settings.mode.as_str()));
    let diarization: bool = crate::text::same_text(mode_low.as_str(), "transcript");
    let device: String = match selected_gpu_index_from_settings(settings) {
        Some(i) => {
            let number: String = signed_decimal_text(i);
            cat2("gpu:", number.as_str())
        },
        None => "cpu".to_owned(),
    };
    let n_ctx: String = signed_decimal_text(settings.n_ctx);
    let n_batch: String = signed_decimal_text(settings.n_batch);
    let mut r: String = cat4("Job #", mark.as_str(), " config: mode='", settings.mode.as_str());
    r.append("' custom='");
    r.append(settings.custom_mode.as_str());
    r.append("' whisper_model='");
    r.append(settings.whisper_model.as_str());
    r.append("' diarization=");
    r.append(flag_word(diarization));
    r.append(" diarization_models_dir='");
    r.append(settings.diarization_models_dir.as_str());
    r.append("' device='");
    r.append(device.as_str());
    r.append("' n_ctx=");
    r.append(n_ctx.as_str());
    r.append(" n_batch=");
    r.append(n_batch.as_str());
    r.append(" audio='");
    r.append(settings.audio_file.as_str());
    r.append("'");
    r
}

/// What is said of a file of a job.
pub open spec fn file_line(
    id: u64,
    index: usize,
    total: usize,
    link: Seq<char>,
    what: Seq<char>,
) -> Seq<char> {
    "Job #"@ + file_mark(id, index, total) + link + what
}

/// What is said when a file of a job is begun.
pub fn file_begins_text(id: u64, index: usize, total: usize, file: &FilePath) -> (r: String)
    ensures
        r@ == file_line(id, index, total, ": preparing "@, file@.text()),
{
    let mark: String = file_mark_text(id, index, total);
    let text: String = file.text();
    cat4("Job #", mark.as_str(), ": preparing ", text.as_str())
}

/// What is said of the stage that a file of a job is in.
pub fn file_stage_text(id: u64, index: usize, total: usize, stage: &str) -> (r: String)
    ensures
        r@ == file_line(id, index, total, ": "@, stage@),
{
    let mark: String = file_mark_text(id, index, total);
    cat4("Job #", mark.as_str(), ": ", stage)
}

/// What the log says of the stage that a file of a job is in.
pub fn file_stage_detail(id: u64, index: usize, total: usize, stage: &str) -> (r: String)
    ensures
        r@ == file_line(id, index, total, " stage detail: "@, stage@),
{
    let mark: String = file_mark_text(id, index, total);
    cat4("Job #", mark.as_str(), " stage detail: ", stage)
}

/// What is said when a file of a job could not be transcribed.
pub fn file_failed_text(id: u64, index: usize, total: usize, file: &FilePath, error: &str) -> (r:
    String)
    ensures
        r@ == "Job #"@ + file_mark(id, index, total) + " failed ("@ + file@.text() + "): "@
            + error@,
{
    let mark: String = file_mark_text(id, index, total);
    let text: String = file.text();
    let mut r: String = cat5("Job #", mark.as_str(), " failed (", text.as_str(), "): ");
    r.append(error);
    r
}

/// How many jobs run, wait and are complete.
pub open spec fn job_counts(b: BoardView) -> Seq<char> {
    decimal(b.running_jobs as nat) + " running | "@ + decimal(b.job_queue.len()) + " queued | "@
        + decimal(b.completed_jobs as nat) + " complete"@
}

/// What the status bar says of the jobs.
pub open spec fn banner_of(b: BoardView) -> Seq<char> {
    match b.active_job {
        Some(job) => job_counts(b) + " | job #"@ + file_mark(
            job.id,
            job.done_files,
            job.total_files,
        ),
        None => job_counts(b),
    }
}

/// How many jobs run, wait and are complete.
pub fn job_counts_text(board: &JobBoard) -> (r: String)
    ensures
        r@ == job_counts(board@),
{
    let running: String = decimal_text(board.running_jobs as u64);
    let queued: String = decimal_text(board.job_queue.len() as u64);
    let completed: String = decimal_text(board.completed_jobs as u64);
    let mut r: String = cat4(
        running.as_str(),
        " running | ",
        queued.as_str(),
        " queued | ",
    );
    r.append(completed.as_str());
    r.append(" complete");
    r
}

/// What the status bar says of the jobs.
pub fn banner_text(board: &JobBoard) -> (r: String)
    ensures
        r@ == banner_of(board@),
{
    let mut r: String = job_counts_text(board);
    if let Some(job) = board.active_job {
        let mark: String = file_mark_text(job.id, job.done_files, job.total_files);
        r.append(" | job #");
        r.append(mark.as_str());
    }
    r
}

/// What the page for transcribing says of the jobs: a line, the stage, and, where a job runs, how
/// many files of how many are done.
pub struct Progress {
    pub line: String,
    pub stage: Option<String>,
    pub done: Option<(usize, usize)>,
}

/// The line that shows the stage.
pub open spec fn stage_line(stage: Seq<char>) -> Option<Seq<char>> {
    if stripped(stage).len() == 0 {
        None
    } else {
        Some("Stage: "@ + stage)
    }
}

/// The line that shows the stage.
pub fn stage_text(stage: &str) -> (r: Option<String>)
    ensures
        text_view(r) == stage_line(stage@),
{
    if trim(stage).is_empty() {
        None
    } else {
        Some(cat2("Stage: ", stage))
    }
}

/// What the page of activities says of the stage; nothing where there is none.
pub fn current_stage_text(stage: &str) -> (r: Option<String>)
    ensures
        text_view(r) == if stripped(stage@).len() == 0 {
            None
        } else {
            Some("Current stage: "@ + stage@)
        },
{
    if trim(stage).is_empty() {
        None
    } else {
        Some(cat2("Current stage: ", stage))
    }
}

/// How many files a job counts as, and how many of them are done.
pub open spec fn done_of(job: ActiveJob) -> (usize, usize) {
    let total = if job.total_files == 0 {
        1
    } else {
        job.total_files
    };
    (if job.done_files < total {
        job.done_files
    } else {
        total
    }, total)
}

/// What the page for transcribing says of the jobs.
pub fn transcribe_progress(board: &JobBoard) -> (r: Progress)
    ensures
        match board@.active_job {
            Some(job) => r.line@ == "Running job #"@ + decimal(job.id as nat) + ": file "@
                + decimal(done_of(job).0 as nat) + "/"@ + decimal(job.total_files as nat)
                && text_view(r.stage) == stage_line(board@.active_stage) && r.done == Some(
                done_of(job),
            ),
            None => r.done is None && if board@.running_jobs > 0 || board@.job_queue.len() > 0 {
                r.line@ == job_counts(board@) && text_view(r.stage) == stage_line(
                    board@.active_stage,
                )
            } else {
                r.line@ == "Idle | "@ + decimal(board@.completed_jobs as nat) + " complete"@
                    && r.stage is None
            },
        },
{
    if let Some(job) = board.active_job {
        let total: usize = if job.total_files == 0 {
            1
        } else {
            job.total_files
        };
        let done: usize = if job.done_files < total {
            job.done_files
        } else {
            total
        };
        let id: String = decimal_text(job.id);
        let done_text: String = decimal_text(done as u64);
        let total_text: String = decimal_text(job.total_files as u64);
        let mut line: String = cat4("Running job #", id.as_str(), ": file ", done_text.as_str());
        line.append("/");
        line.append(total_text.as_str());
        return Progress {
            line,
            stage: stage_text(board.active_stage.as_str()),
            done: Some((done, total)),
        };
    }
    if board.running_jobs > 0 || board.job_queue.len() > 0 {
        return Progress {
            line: job_counts_text(board),
            stage: stage_text(board.active_stage.as_str()),
            done: None,
        };
    }
    let completed: String = decimal_text(board.completed_jobs as u64);
    Progress { line: cat3("Idle | ", completed.as_str(), " complete"), stage: None, done: None }
}

/// What the window of the log says of the jobs.
pub fn jobs_line(board: &JobBoard) -> (r: String)
    ensures
        r@ == "Jobs: running="@ + decimal(board@.running_jobs as nat) + " queued="@ + decimal(
            board@.job_queue.len(),
        ) + " complete="@ + decimal(board@.completed_jobs as nat) + " stage="@ + if stripped(
            board@.active_stage,
        ).len() == 0 {
            "<idle>"@
        } else {
            board@.active_stage
        },
{
    let running: String = decimal_text(board.running_jobs as u64);
    let queued: String = decimal_text(board.job_queue.len() as u64);
    let completed: String = decimal_text(board.completed_jobs as u64);
    let mut r: String = cat4("Jobs: running=", running.as_str(), " queued=", queued.as_str());
    r.append(" complete=");
    r.append(completed.as_str());
    r.append(" stage=");
    if trim(board.active_stage.as_str()).is_empty() {
        r.append("<idle>");
    } else {
        r.append(board.active_stage.as_str());
    }
    r
}

/// What queueing a job does: the job waits behind all others with the settings and the files that it
/// was given and with the next number, and nothing else on the board changes.
pub proof fn lemma_enqueued(b: BoardView, settings: SettingsView, files: Seq<PathView>)
    requires
        b.next_job_id < u64::MAX,
    ensures
        ({
            let after = b.enqueued(settings, files);
            &&& after.job_queue.len() == b.job_queue.len() + 1
            &&& after.job_queue.drop_last() == b.job_queue
            &&& after.job_queue.last().settings == settings
            &&& after.job_queue.last().files == files
            &&& after.job_queue.last().id == after.next_job_id == b.next_job_id + 1
            &&& after == (BoardView {
                job_queue: after.job_queue,
                next_job_id: after.next_job_id,
                ..b
            })
        }),
{
    assert(b.enqueued(settings, files).job_queue.drop_last() =~= b.job_queue);
}

/// What taking a job does: the foremost job leaves the queue and the others keep their order; the board
/// shows it with its number, with as many files as it has and none of them done; one more job runs.
/// Where none waits the worker stops and no job is shown. Nothing else changes.
pub proof fn lemma_job_taken(b: BoardView)
    requires
        b.running_jobs < usize::MAX,
        b.job_queue.len() > 0 ==> b.job_queue[0].files.len() <= usize::MAX,
    ensures
        ({
            let after = b.job_taken();
            &&& b.job_queue.len() > 0 ==> {
                &&& seq![b.job_queue[0]] + after.job_queue == b.job_queue
                &&& after.running_jobs == b.running_jobs + 1
                &&& after.active_job matches Some(job) && job.id == b.job_queue[0].id
                    && job.total_files == b.job_queue[0].files.len() && job.done_files == 0
                &&& after == (BoardView {
                    job_queue: after.job_queue,
                    running_jobs: after.running_jobs,
                    active_job: after.active_job,
                    ..b
                })
            }
            &&& b.job_queue.len() == 0 ==> {
                &&& !after.queue_worker_running
                &&& after.active_job is None
                &&& after.active_stage.len() == 0
                &&& after == (BoardView {
                    queue_worker_running: false,
                    active_job: None,
                    active_stage: after.active_stage,
                    ..b
                })
            }
        }),
{
    if b.job_queue.len() > 0 {
        assert(seq![b.job_queue[0]] + b.job_taken().job_queue =~= b.job_queue);
    }
}

/// What ends: one job or task less runs, though never fewer than none, and one more is complete; a job
/// is then no longer shown, while a task leaves the job that runs and its stage alone. The queue, the
/// files and the downloads stay as they are.
pub proof fn lemma_task_ended(b: BoardView)
    requires
        b.completed_jobs < usize::MAX,
    ensures
        b.task_ended().completed_jobs == b.completed_jobs + 1,
        b.running_jobs > 0 ==> b.task_ended().running_jobs == b.running_jobs - 1,
        b.running_jobs == 0 ==> b.task_ended().running_jobs == 0,
        b.task_ended() == (BoardView {
            running_jobs: b.task_ended().running_jobs,
            completed_jobs: b.task_ended().completed_jobs,
            ..b
        }),
        b.job_ended().active_job is None,
        b.job_ended().active_stage.len() == 0,
        b.job_ended() == (BoardView {
            active_job: None,
            active_stage: b.job_ended().active_stage,
            running_jobs: b.task_ended().running_jobs,
            completed_jobs: b.task_ended().completed_jobs,
            ..b
        }),
{
}

/// How a job moves on: the number of files that are done changes and nothing else of the job; the stage
/// tells the job, the file, how many files there are and what is done, in this order.
pub proof fn lemma_job_moves_on(
    b: BoardView,
    id: u64,
    index: usize,
    total: usize,
    stage: Seq<char>,
    done: usize,
)
    ensures
        b.active_job is None ==> b.files_done(done) == b,
        b.active_job matches Some(job) ==> (b.files_done(done).active_job matches Some(after)
            && after.done_files == done && after.id == job.id && after.total_files
            == job.total_files),
        b.files_done(done) == (BoardView { active_job: b.files_done(done).active_job, ..b }),
        b.at_stage(id, index, total, stage).active_stage == "job #"@ + decimal(id as nat)
            + " file "@ + decimal(index as nat) + "/"@ + decimal(total as nat) + ": "@ + stage,
        b.at_stage(id, index, total, stage) == (BoardView {
            active_stage: b.at_stage(id, index, total, stage).active_stage,
            ..b
        }),
{
    assert("job #"@ + file_mark(id, index, total) + ": "@ + stage =~= "job #"@ + decimal(id as nat)
        + " file "@ + decimal(index as nat) + "/"@ + decimal(total as nat) + ": "@ + stage);
}

/// What is said of a download is said of that one and of no other, and it is what is shown; once a
/// download has ended what is shown is that of the first that runs: the whisper model, then the live
/// model, then the chat model, then the diarization model.
pub proof fn lemma_download_said(
    b: BoardView,
    kind: DownloadKind,
    other: DownloadKind,
    status: Option<Seq<char>>,
)
    ensures
        ({
            let after = b.download_said(kind, status);
            &&& after.download_statuses.of(kind) == status
            &&& other != kind ==> after.download_statuses.of(other) == b.download_statuses.of(other)
            &&& status is Some ==> after.download_status == status
            &&& status is None ==> after.download_status == after.download_statuses.first()
            &&& after == (BoardView {
                download_status: after.download_status,
                download_statuses: after.download_statuses,
                ..b
            })
        }),
        b.download_statuses.first() is None <==> b.download_statuses.whisper is None
            && b.download_statuses.live is None && b.download_statuses.chat is None
            && b.download_statuses.diarization is None,
        b.download_statuses.of(DownloadKind::Whisper) is Some ==> b.download_statuses.first()
            == b.download_statuses.of(DownloadKind::Whisper),
        b.download_statuses.of(DownloadKind::Whisper) is None && b.download_statuses.of(
            DownloadKind::Live,
        ) is Some ==> b.download_statuses.first() == b.download_statuses.of(DownloadKind::Live),
        b.download_statuses.of(DownloadKind::Whisper) is None && b.download_statuses.of(
            DownloadKind::Live,
        ) is None && b.download_statuses.of(DownloadKind::Chat) is Some
            ==> b.download_statuses.first() == b.download_statuses.of(DownloadKind::Chat),
{
}

/// When nothing is to be done: no job runs and none waits. A job that is queued ends that, and taking
/// it does not bring it back.
pub proof fn lemma_idle(b: BoardView, settings: SettingsView, files: Seq<PathView>)
    requires
        b.running_jobs < usize::MAX,
    ensures
        b.idle() <==> b.running_jobs == 0 && b.job_queue.len() == 0,
        !b.enqueued(settings, files).idle(),
        b.job_queue.len() > 0 ==> !b.job_taken().idle(),
{
}

/// What is known of a transcript: it and its edited copy are the ones that are open, both stand in the
/// list of outputs, and nothing that belongs to jobs, recordings or downloads changes.
pub proof fn lemma_outputs_known(b: BoardView, original: PathView, edited: PathView)
    ensures
        ({
            let after = b.outputs_known(original, edited);
            &&& after.original_output_path == Some(original)
            &&& after.edited_output_path == Some(edited)
            &&& after == (BoardView {
                original_output_path: Some(original),
                edited_output_path: Some(edited),
                output_entries: after.output_entries,
                ..b
            })
            &&& after.output_entries == with_entry(
                with_entry(b.output_entries, original, false),
                edited,
                false,
            )
        }),
{
}

/// What the status bar says: first how many jobs run, how many wait and how many are complete; a job
/// that runs is named behind that, with how many of its files are done.
pub proof fn lemma_banner(b: BoardView)
    ensures
        (decimal(b.running_jobs as nat) + " running | "@).is_prefix_of(banner_of(b)),
        (decimal(b.running_jobs as nat) + " running | "@ + decimal(b.job_queue.len())
            + " queued | "@).is_prefix_of(banner_of(b)),
        (decimal(b.running_jobs as nat) + " running | "@ + decimal(b.job_queue.len())
            + " queued | "@ + decimal(b.completed_jobs as nat) + " complete"@).is_prefix_of(
            banner_of(b),
        ),
        b.active_job is None ==> banner_of(b) == job_counts(b),
        b.active_job matches Some(job) ==> banner_of(b) == job_counts(b) + " | job #"@ + (decimal(
            job.id as nat,
        ) + " file "@ + decimal(job.done_files as nat) + "/"@ + decimal(job.total_files as nat)),
{
    let a = decimal(b.running_jobs as nat) + " running | "@;
    let c = a + decimal(b.job_queue.len()) + " queued | "@;
    let d = c + decimal(b.completed_jobs as nat) + " complete"@;
    assert(banner_of(b).take(a.len() as int) =~= a);
    assert(banner_of(b).take(c.len() as int) =~= c);
    assert(banner_of(b).take(d.len() as int) =~= d);
}

/// How far a job is shown to be: never beyond its last file, and a job without files counts as one of
/// one file.
pub proof fn lemma_done_of(job: ActiveJob)
    ensures
        done_of(job).0 <= done_of(job).1,
        job.total_files > 0 ==> done_of(job).1 == job.total_files,
        job.total_files == 0 ==> done_of(job).1 == 1,
        job.done_files <= job.total_files ==> done_of(job).0 == job.done_files,
        job.total_files > 0 && job.done_files > job.total_files ==> done_of(job).0
            == job.total_files,
{
}

} // verus!
