//! The course of a transcription: what is done next and which stages are reported, for each thing
//! that the program found, made or read.
use crate::board::path_view;
use crate::devices::BridgeDevice;
use crate::engine::{
    check_diarization, check_settings, diarization_error, engine_stages, is_transcript_mode,
    output_of, output_of_transcription, plan_of, plan_transcription, settings_error, stages, tells_speakers,
    transcription_error, AudioPlan, AudioPlanView, Found,
};
use crate::models::{sortformer_model_path_from_settings, SORTFORMER_MODEL_FILE};
use crate::path_text::{folder_of, joined_path, path_folder};
use crate::paths::{file_path, file_path_at, FilePath, PathView, Platform};
use crate::settings::{AppSettings, SettingsView};
use crate::text::{cat3, lowered, stripped, trim};
use serde_json::Value;
use vstd::prelude::*;
use vstd::string::*;

verus! {

/// How far a transcription has come: what it waits for.
#[derive(Debug, Clone, Copy, PartialEq, Eq, Structural)]
pub enum Phase {
    Ready,
    Looking,
    MakingFolder,
    LookingForModel,
    LoadingEngine,
    ReadingAudio,
    RunningEngine,
    ReadingOutput,
    Over,
}

/// What is found before a transcription begins.
#[derive(Debug, Clone, Copy)]
pub struct Looked {
    pub audio_exists: bool,
    /// Whether the length of a piece is a positive number.
    pub custom_is_positive: bool,
    /// Whether the shift of the times is a number.
    pub offset_is_number: bool,
    /// The number of threads where the settings give none.
    pub default_threads: Option<i32>,
}

/// What happens to a transcription.
pub enum TranscribeEvent {
    Begun,
    Looked(Looked),
    /// Whether the folder of the output could be made.
    FolderMade(bool),
    /// Whether the diarization model is there.
    ModelLookedFor(bool),
    /// The devices that the engine reports, if it does, or why it could not be loaded.
    EngineLoaded(Result<Option<Vec<BridgeDevice>>, String>),
    /// Whether the recording could be read.
    AudioRead(bool),
    /// What the engine answered, or why it did not.
    Answered(Result<Value, String>),
    /// Whether the output could be read.
    OutputRead(bool),
}

/// What a transcription does next.
pub enum TranscribeAction {
    Look,
    MakeFolder(String),
    LookForModel(String),
    LoadEngine,
    ReadAudio,
    RunEngine,
    ReadOutput,
    Finish,
    Fail(String),
}

/// What a transcription does next.
pub enum NextView {
    Look,
    MakeFolder(Seq<char>),
    LookForModel(Seq<char>),
    LoadEngine,
    ReadAudio,
    RunEngine,
    ReadOutput,
    Finish,
    Fail(Seq<char>),
}

impl View for TranscribeAction {
    type V = NextView;

    open spec fn view(&self) -> NextView {
        match *self {
            TranscribeAction::Look => NextView::Look,
            TranscribeAction::MakeFolder(dir) => NextView::MakeFolder(dir@),
            TranscribeAction::LookForModel(path) => NextView::LookForModel(path@),
            TranscribeAction::LoadEngine => NextView::LoadEngine,
            TranscribeAction::ReadAudio => NextView::ReadAudio,
            TranscribeAction::RunEngine => NextView::RunEngine,
            TranscribeAction::ReadOutput => NextView::ReadOutput,
            TranscribeAction::Finish => NextView::Finish,
            TranscribeAction::Fail(why) => NextView::Fail(why@),
        }
    }
}

/// A transcription, with what it knows so far.
pub struct Transcription {
    pub platform: Platform,
    pub settings: AppSettings,
    pub audio: FilePath,
    pub phase: Phase,
    pub found: Found,
    pub plan: Option<AudioPlan>,
    pub response: Option<Value>,
    pub output: Option<FilePath>,
}

/// What a transcription knows.
pub struct TranscriptionView {
    pub platform: Platform,
    pub settings: SettingsView,
    pub audio: PathView,
    pub phase: Phase,
    pub found: Found,
    pub plan: Option<AudioPlanView>,
    pub response: Option<Value>,
    pub output: Option<PathView>,
}

impl View for Transcription {
    type V = TranscriptionView;

    open spec fn view(&self) -> TranscriptionView {
        TranscriptionView {
            platform: self.platform,
            settings: self.settings@,
            audio: self.audio@,
            phase: self.phase,
            found: self.found,
            plan: match self.plan {
                Some(p) => Some(p@),
                None => None,
            },
            response: self.response,
            output: path_view(self.output),
        }
    }
}

/// The next step of a transcription: the stages that are reported, and what is done.
pub struct StepView {
    pub after: TranscriptionView,
    pub stages: Seq<&'static str>,
    pub action: NextView,
}

impl TranscriptionView {
    /// The step to another phase.
    pub open spec fn to(self, phase: Phase, told: Seq<&'static str>, action: NextView) -> StepView {
        StepView { after: TranscriptionView { phase, ..self }, stages: told, action }
    }

    /// The step that ends a transcription that failed.
    pub open spec fn fail(self, why: Seq<char>) -> StepView {
        self.to(Phase::Over, Seq::empty(), NextView::Fail(why))
    }

    /// Where the output is put.
    pub open spec fn folder(self) -> Seq<char> {
        folder_of(self.platform, self.audio.text())
    }

    /// Whether an event is what a transcription waits for.
    pub open spec fn waits_for(self, event: TranscribeEvent) -> bool {
        match event {
            TranscribeEvent::Begun => self.phase is Ready,
            TranscribeEvent::Looked(_) => self.phase is Looking,
            TranscribeEvent::FolderMade(_) => self.phase is MakingFolder,
            TranscribeEvent::ModelLookedFor(_) => self.phase is LookingForModel,
            TranscribeEvent::EngineLoaded(_) => self.phase is LoadingEngine,
            TranscribeEvent::AudioRead(_) => self.phase is ReadingAudio,
            TranscribeEvent::Answered(_) => self.phase is RunningEngine,
            TranscribeEvent::OutputRead(_) => self.phase is ReadingOutput,
        }
    }

    /// The next step after an event.
    pub open spec fn step(self, event: TranscribeEvent) -> StepView {
        match event {
            TranscribeEvent::Begun => self.to(
                Phase::Looking,
                seq!["validating input"],
                NextView::Look,
            ),
            TranscribeEvent::Looked(l) => {
                let t = TranscriptionView {
                    found: Found {
                        audio_exists: l.audio_exists,
                        custom_is_positive: l.custom_is_positive,
                        offset_is_number: l.offset_is_number,
                        default_threads: l.default_threads,
                        ..self.found
                    },
                    ..self
                };
                match settings_error(self.settings, l.audio_exists, true) {
                    Some(why) => t.fail(why),
                    None => t.to(
                        Phase::MakingFolder,
                        Seq::empty(),
                        NextView::MakeFolder(self.folder()),
                    ),
                }
            },
            TranscribeEvent::FolderMade(made) => if !made {
                self.fail("failed to create output dir '"@ + self.folder() + "'"@)
            } else {
                match settings_error(
                    self.settings,
                    self.found.audio_exists,
                    self.found.custom_is_positive,
                ) {
                    Some(why) => self.fail(why),
                    None => self.to(
                        Phase::LookingForModel,
                        Seq::empty(),
                        NextView::LookForModel(
                            joined_path(
                                self.platform,
                                stripped(self.settings.diarization_models_dir),
                                SORTFORMER_MODEL_FILE@,
                            ),
                        ),
                    ),
                }
            },
            TranscribeEvent::ModelLookedFor(there) => {
                let t = TranscriptionView {
                    found: Found { model_exists: there, ..self.found },
                    ..self
                };
                match diarization_error(self.platform, self.settings, there) {
                    Some(why) => t.fail(why),
                    None => t.to(
                        Phase::LoadingEngine,
                        seq!["loading runtime + bridge"],
                        NextView::LoadEngine,
                    ),
                }
            },
            TranscribeEvent::EngineLoaded(Err(why)) => self.fail(why@),
            TranscribeEvent::EngineLoaded(Ok(devices)) => {
                let t = TranscriptionView { found: Found { devices, ..self.found }, ..self };
                match transcription_error(self.platform, self.settings, t.found) {
                    Some(why) => t.fail(why),
                    None => TranscriptionView {
                        plan: Some(plan_of(self.platform, self.settings, self.audio, t.found)),
                        ..t
                    }.to(Phase::ReadingAudio, seq!["reading audio bytes"], NextView::ReadAudio),
                }
            },
            TranscribeEvent::AudioRead(read) => if read {
                self.to(
                    Phase::RunningEngine,
                    stages(tells_speakers(self.settings)),
                    NextView::RunEngine,
                )
            } else {
                self.fail("failed to read audio '"@ + self.audio.text() + "'"@)
            },
            TranscribeEvent::Answered(Err(why)) => self.fail(why@),
            TranscribeEvent::Answered(Ok(response)) => TranscriptionView {
                response: Some(response),
                output: Some(
                    output_of(self.platform, response, self.audio, self.settings.mode),
                ),
                ..self
            }.to(
                Phase::ReadingOutput,
                seq!["bridge pipeline stage: complete", "loading generated output text"],
                NextView::ReadOutput,
            ),
            TranscribeEvent::OutputRead(read) => if read {
                self.to(Phase::Over, Seq::empty(), NextView::Finish)
            } else {
                self.fail(
                    "failed to read output '"@ + (match self.output {
                        Some(p) => p.text(),
                        None => Seq::empty(),
                    }) + "'"@,
                )
            },
        }
    }
}

/// The transcription of the recording that the settings name, before it begins.
pub open spec fn new_transcription(platform: Platform, settings: SettingsView) -> TranscriptionView {
    TranscriptionView {
        platform,
        settings,
        audio: file_path_at(platform, stripped(settings.audio_file)),
        phase: Phase::Ready,
        found: Found {
            audio_exists: false,
            custom_is_positive: false,
            model_exists: false,
            offset_is_number: false,
            devices: None,
            default_threads: None,
        },
        plan: None,
        response: None,
        output: None,
    }
}

impl Transcription {
    /// The transcription of the recording that the settings name, before it begins.
    pub fn new(platform: Platform, settings: &AppSettings) -> (r: Transcription)
        ensures
            r@ == new_transcription(platform, settings@),
    {
        Transcription {
            platform,
            settings: settings.copy(),
            audio: file_path(platform, trim(settings.audio_file.as_str())),
            phase: Phase::Ready,
            found: Found {
                audio_exists: false,
                custom_is_positive: false,
                model_exists: false,
                offset_is_number: false,
                devices: None,
                default_threads: None,
            },
            plan: None,
            response: None,
            output: None,
        }
    }

    /// Whether an event is what a transcription waits for.
    pub fn waits_for(&self, event: &TranscribeEvent) -> (r: bool)
        ensures
            r == self@.waits_for(*event),
    {
        match event {
            TranscribeEvent::Begun => self.phase == Phase::Ready,
            TranscribeEvent::Looked(_) => self.phase == Phase::Looking,
            TranscribeEvent::FolderMade(_) => self.phase == Phase::MakingFolder,
            TranscribeEvent::ModelLookedFor(_) => self.phase == Phase::LookingForModel,
            TranscribeEvent::EngineLoaded(_) => self.phase == Phase::LoadingEngine,
            TranscribeEvent::AudioRead(_) => self.phase == Phase::ReadingAudio,
            TranscribeEvent::Answered(_) => self.phase == Phase::RunningEngine,
            TranscribeEvent::OutputRead(_) => self.phase == Phase::ReadingOutput,
        }
    }

    /// Ends a transcription that failed.
    fn fail(&mut self, why: String) -> (r: (Vec<&'static str>, TranscribeAction))
        ensures
            final(self)@ == old(self)@.fail(why@).after,
            r.0@ == Seq::<&'static str>::empty(),
            r.1@ == NextView::Fail(why@),
    {
        self.phase = Phase::Over;
        (Vec::new(), TranscribeAction::Fail(why))
    }

    /// Goes on where it is known what is there.
    fn looked(&mut self, l: Looked) -> (r: (Vec<&'static str>, TranscribeAction))
        ensures
            ({
                let step = old(self)@.step(TranscribeEvent::Looked(l));
                final(self)@ == step.after && r.0@ == step.stages && r.1@ == step.action
            }),
    {
        self.found.audio_exists = l.audio_exists;
        self.found.custom_is_positive = l.custom_is_positive;
        self.found.offset_is_number = l.offset_is_number;
        self.found.default_threads = l.default_threads;
        match check_settings(&self.settings, l.audio_exists, true) {
            Err(why) => self.fail(why),
            Ok(_) => {
                self.phase = Phase::MakingFolder;
                let text: String = self.audio.text();
                let dir: String = path_folder(self.platform, text.as_str());
                (Vec::new(), TranscribeAction::MakeFolder(dir))
            },
        }
    }

    /// Goes on where the folder of the output could be made.
    fn folder_made(&mut self, made: bool) -> (r: (Vec<&'static str>, TranscribeAction))
        ensures
            ({
                let step = old(self)@.step(TranscribeEvent::FolderMade(made));
                final(self)@ == step.after && r.0@ == step.stages && r.1@ == step.action
            }),
    {
        if !made {
            let text: String = self.audio.text();
            let dir: String = path_folder(self.platform, text.as_str());
            let why: String = cat3("failed to create output dir '", dir.as_str(), "'");
            return self.fail(why);
        }
        match check_settings(
            &self.settings,
            self.found.audio_exists,
            self.found.custom_is_positive,
        ) {
            Err(why) => self.fail(why),
            Ok(_) => {
                self.phase = Phase::LookingForModel;
                proof {
                    reveal_strlit("");
                    if stripped(self@.settings.diarization_models_dir).len() == 0 {
                        assert(stripped(self@.settings.diarization_models_dir) =~= ""@);
                    }
                }
                let path: String = sortformer_model_path_from_settings(
                    self.platform,
                    "",
                    &self.settings,
                );
                (Vec::new(), TranscribeAction::LookForModel(path))
            },
        }
    }

    /// Goes on where the diarization model is there or not needed.
    fn model_looked_for(&mut self, there: bool) -> (r: (Vec<&'static str>, TranscribeAction))
        ensures
            ({
                let step = old(self)@.step(TranscribeEvent::ModelLookedFor(there));
                final(self)@ == step.after && r.0@ == step.stages && r.1@ == step.action
            }),
    {
        self.found.model_exists = there;
        match check_diarization(self.platform, &self.settings, there) {
            Err(why) => self.fail(why),
            Ok(_) => {
                self.phase = Phase::LoadingEngine;
                let told: Vec<&'static str> = vec!["loading runtime + bridge"];
                assert(told@ =~= seq!["loading runtime + bridge"]);
                (told, TranscribeAction::LoadEngine)
            },
        }
    }

    /// Goes on where the engine could be loaded and has the device that is asked for.
    fn engine_loaded(&mut self, loaded: Result<Option<Vec<BridgeDevice>>, String>) -> (r: (Vec<&'static str>, TranscribeAction))
        ensures
            ({
                let step = old(self)@.step(TranscribeEvent::EngineLoaded(loaded));
                final(self)@ == step.after && r.0@ == step.stages && r.1@ == step.action
            }),
    {
        let devices: Option<Vec<BridgeDevice>> = match loaded {
            Ok(devices) => devices,
            Err(why) => {
                return self.fail(why);
            },
        };
        self.found.devices = devices;
        match plan_transcription(self.platform, &self.settings, &self.audio, &self.found) {
            Err(why) => self.fail(why),
            Ok(plan) => {
                self.plan = Some(plan);
                self.phase = Phase::ReadingAudio;
                let told: Vec<&'static str> = vec!["reading audio bytes"];
                assert(told@ =~= seq!["reading audio bytes"]);
                (told, TranscribeAction::ReadAudio)
            },
        }
    }

    /// Goes on where the recording could be read.
    fn audio_read(&mut self, read: bool) -> (r: (Vec<&'static str>, TranscribeAction))
        ensures
            ({
                let step = old(self)@.step(TranscribeEvent::AudioRead(read));
                final(self)@ == step.after && r.0@ == step.stages && r.1@ == step.action
            }),
    {
        if !read {
            let text: String = self.audio.text();
            let why: String = cat3("failed to read audio '", text.as_str(), "'");
            return self.fail(why);
        }
        self.phase = Phase::RunningEngine;
        let told: Vec<&'static str> = engine_stages(is_transcript_mode(&self.settings));
        (told, TranscribeAction::RunEngine)
    }

    /// Goes on where the engine answered.
    fn answered(&mut self, answer: Result<Value, String>) -> (r: (Vec<&'static str>, TranscribeAction))
        ensures
            ({
                let step = old(self)@.step(TranscribeEvent::Answered(answer));
                final(self)@ == step.after && r.0@ == step.stages && r.1@ == step.action
            }),
    {
        let response: Value = match answer {
            Ok(response) => response,
            Err(why) => {
                return self.fail(why);
            },
        };
        self.output = Some(
            output_of_transcription(
                self.platform,
                &response,
                &self.audio,
                self.settings.mode.as_str(),
            ),
        );
        self.response = Some(response);
        self.phase = Phase::ReadingOutput;
        let told: Vec<&'static str> =
            vec!["bridge pipeline stage: complete", "loading generated output text"];
        assert(told@ =~= seq![
            "bridge pipeline stage: complete",
            "loading generated output text",
        ]);
        (told, TranscribeAction::ReadOutput)
    }

    /// Ends where the output could be read or could not.
    fn output_read(&mut self, read: bool) -> (r: (Vec<&'static str>, TranscribeAction))
        ensures
            ({
                let step = old(self)@.step(TranscribeEvent::OutputRead(read));
                final(self)@ == step.after && r.0@ == step.stages && r.1@ == step.action
            }),
    {
        if read {
            self.phase = Phase::Over;
            return (Vec::new(), TranscribeAction::Finish);
        }
        let text: String = match &self.output {
            Some(p) => p.text(),
            None => String::new(),
        };
        assert(text@ =~= match self@.output {
            Some(p) => p.text(),
            None => Seq::empty(),
        });
        let why: String = cat3("failed to read output '", text.as_str(), "'");
        self.fail(why)
    }

    /// The next step after an event: the stages that are reported, and what is done.
    pub fn next_step(&mut self, event: TranscribeEvent) -> (r: (
        Vec<&'static str>,
        TranscribeAction,
    ))
        requires
            old(self)@.waits_for(event),
        ensures
            final(self)@ == old(self)@.step(event).after,
            r.0@ == old(self)@.step(event).stages,
            r.1@ == old(self)@.step(event).action,
    {
        match event {
            TranscribeEvent::Begun => {
                self.phase = Phase::Looking;
                let told: Vec<&'static str> = vec!["validating input"];
                assert(told@ =~= seq!["validating input"]);
                (told, TranscribeAction::Look)
            },
            TranscribeEvent::Looked(l) => self.looked(l),
            TranscribeEvent::FolderMade(made) => self.folder_made(made),
            TranscribeEvent::ModelLookedFor(there) => self.model_looked_for(there),
            TranscribeEvent::EngineLoaded(loaded) => self.engine_loaded(loaded),
            TranscribeEvent::AudioRead(read) => self.audio_read(read),
            TranscribeEvent::Answered(answer) => self.answered(answer),
            TranscribeEvent::OutputRead(read) => self.output_read(read),
        }
    }
}

/// The stages of a transcription, from first to last.
pub open spec fn all_stages(speakers: bool) -> Seq<&'static str> {
    told_by(Phase::ReadingOutput, speakers)
}

/// The stages that are reported until a transcription comes to a phase.
pub open spec fn told_by(phase: Phase, speakers: bool) -> Seq<&'static str> {
    match phase {
        Phase::Ready => Seq::empty(),
        Phase::Looking | Phase::MakingFolder | Phase::LookingForModel => seq!["validating input"],
        Phase::LoadingEngine => seq!["validating input", "loading runtime + bridge"],
        Phase::ReadingAudio => seq![
            "validating input",
            "loading runtime + bridge",
            "reading audio bytes",
        ],
        Phase::RunningEngine => told_by_reading() + stages(speakers),
        Phase::ReadingOutput | Phase::Over => told_by_reading() + stages(speakers) + seq![
            "bridge pipeline stage: complete",
            "loading generated output text",
        ],
    }
}

/// The stages that are reported until the recording is read.
pub open spec fn told_by_reading() -> Seq<&'static str> {
    seq!["validating input", "loading runtime + bridge", "reading audio bytes"]
}

impl TranscriptionView {
    /// Whether a transcription waits for each of the events when it comes.
    pub open spec fn can_take(self, events: Seq<TranscribeEvent>) -> bool
        decreases events.len(),
    {
        events.len() == 0 || (self.can_take(events.drop_last()) && self.after(
            events.drop_last(),
        ).waits_for(events.last()))
    }

    /// What a transcription knows after events.
    pub open spec fn after(self, events: Seq<TranscribeEvent>) -> TranscriptionView
        decreases events.len(),
    {
        if events.len() == 0 {
            self
        } else {
            self.after(events.drop_last()).step(events.last()).after
        }
    }

    /// The stages that are reported in the course of events.
    pub open spec fn told_in(self, events: Seq<TranscribeEvent>) -> Seq<&'static str>
        decreases events.len(),
    {
        if events.len() == 0 {
            Seq::empty()
        } else {
            self.told_in(events.drop_last()) + self.after(events.drop_last()).step(
                events.last(),
            ).stages
        }
    }

    /// What is known for sure in each phase: the settings that were checked so far are in order, and
    /// the engine is told what they and what was found ask for.
    pub open spec fn in_order(self) -> bool {
        let checked = settings_error(
            self.settings,
            self.found.audio_exists,
            self.found.custom_is_positive,
        ) is None;
        let planned = transcription_error(self.platform, self.settings, self.found) is None
            && self.plan == Some(
            plan_of(self.platform, self.settings, self.audio, self.found),
        );
        match self.phase {
            Phase::LookingForModel => checked,
            Phase::LoadingEngine => checked && diarization_error(
                self.platform,
                self.settings,
                self.found.model_exists,
            ) is None,
            Phase::ReadingAudio | Phase::RunningEngine => planned,
            Phase::ReadingOutput => planned && (self.response matches Some(response) && self.output
                == Some(output_of(self.platform, response, self.audio, self.settings.mode))),
            _ => true,
        }
    }
}

/// One step adds the stages that lead to the next phase.
proof fn lemma_step_stages(t: TranscriptionView, event: TranscribeEvent)
    requires
        t.waits_for(event),
    ensures
        ({
            let step = t.step(event);
            let speakers = tells_speakers(t.settings);
            &&& step.after.settings == t.settings
            &&& step.after.phase !is Over ==> told_by(t.phase, speakers) + step.stages == told_by(
                step.after.phase,
                speakers,
            )
            &&& step.after.phase is Over ==> step.stages == Seq::<&'static str>::empty()
            &&& step.action is Finish ==> t.phase is ReadingOutput && step.after.phase is Over
        }),
{
    let step = t.step(event);
    let speakers = tells_speakers(t.settings);
    match event {
        TranscribeEvent::Looked(_) => {
            assert(told_by(t.phase, speakers) + Seq::empty() =~= told_by(t.phase, speakers));
        },
        TranscribeEvent::FolderMade(_) => {
            assert(told_by(t.phase, speakers) + Seq::empty() =~= told_by(t.phase, speakers));
        },
        _ => {
            if step.after.phase !is Over {
                assert(told_by(t.phase, speakers) + step.stages =~= told_by(
                    step.after.phase,
                    speakers,
                ));
            }
        },
    }
}

/// What is reported until a phase is the beginning of all stages.
proof fn lemma_told_by(phase: Phase, speakers: bool)
    ensures
        told_by(phase, speakers).len() <= all_stages(speakers).len(),
        told_by(phase, speakers) == all_stages(speakers).take(
            told_by(phase, speakers).len() as int,
        ),
{
    assert(told_by(phase, speakers) =~= all_stages(speakers).take(
        told_by(phase, speakers).len() as int,
    ));
}

/// The phase until which the stages of events were reported.
pub open spec fn last_phase(t: TranscriptionView, events: Seq<TranscribeEvent>) -> Phase {
    if events.len() > 0 && t.after(events).phase is Over {
        t.after(events.drop_last()).phase
    } else {
        t.after(events).phase
    }
}

/// The stages are reported in their order: those that lead to the last phase before the end, which
/// are all of them where a transcription finishes, and the first of them where it fails.
pub proof fn lemma_stages_in_order(t: TranscriptionView, events: Seq<TranscribeEvent>)
    requires
        t.phase is Ready,
        t.can_take(events),
    ensures
        ({
            let speakers = tells_speakers(t.settings);
            let told = t.told_in(events);
            let all = all_stages(speakers);
            &&& told == told_by(last_phase(t, events), speakers)
            &&& told.len() <= all.len()
            &&& told == all.take(told.len() as int)
            &&& t.after(events).settings == t.settings
            &&& events.len() > 0 && t.after(events.drop_last()).step(events.last()).action is Finish
                ==> told == all
        }),
    decreases events.len(),
{
    let speakers = tells_speakers(t.settings);
    if events.len() > 0 {
        let before = events.drop_last();
        lemma_stages_in_order(t, before);
        lemma_step_stages(t.after(before), events.last());
        let old_told = t.told_in(before);
        assert(old_told + Seq::empty() =~= old_told);
        assert(t.after(before).phase !is Over);
    }
    lemma_told_by(last_phase(t, events), speakers);
}

/// One step keeps what is known in order.
proof fn lemma_step_in_order(t: TranscriptionView, event: TranscribeEvent)
    requires
        t.waits_for(event),
        t.in_order(),
    ensures
        t.step(event).after.in_order(),
{
    match event {
        TranscribeEvent::Begun => {},
        TranscribeEvent::Looked(_) => {},
        TranscribeEvent::FolderMade(_) => {},
        TranscribeEvent::ModelLookedFor(_) => {},
        TranscribeEvent::EngineLoaded(_) => {},
        TranscribeEvent::AudioRead(_) => {},
        TranscribeEvent::Answered(_) => {},
        TranscribeEvent::OutputRead(_) => {},
    }
}

/// The engine runs only where nothing stands against it, and it is then told what the settings and
/// what was found ask for; the output that is read at last is the one that its answer names.
pub proof fn lemma_engine_is_told_the_plan(t: TranscriptionView, events: Seq<TranscribeEvent>)
    requires
        t.phase is Ready,
        t.can_take(events),
    ensures
        t.after(events).in_order(),
    decreases events.len(),
{
    if events.len() > 0 {
        lemma_engine_is_told_the_plan(t, events.drop_last());
        lemma_step_in_order(t.after(events.drop_last()), events.last());
    }
}

/// What ends a transcription: whatever it waits for and does not get. The reason names what could not be
/// made or read, or is the one that the engine gave; and what was known before is not forgotten.
pub proof fn lemma_failure_ends(t: TranscriptionView, why: String)
    ensures
        ({
            let folder = t.step(TranscribeEvent::FolderMade(false));
            let loaded = t.step(TranscribeEvent::EngineLoaded(Err(why)));
            let read = t.step(TranscribeEvent::AudioRead(false));
            let answered = t.step(TranscribeEvent::Answered(Err(why)));
            let output = t.step(TranscribeEvent::OutputRead(false));
            &&& folder.action == NextView::Fail(
                "failed to create output dir '"@ + folder_of(t.platform, t.audio.text()) + "'"@,
            )
            &&& loaded.action == NextView::Fail(why@)
            &&& read.action == NextView::Fail("failed to read audio '"@ + t.audio.text() + "'"@)
            &&& answered.action == NextView::Fail(why@)
            &&& t.output matches Some(p) ==> output.action == NextView::Fail(
                "failed to read output '"@ + p.text() + "'"@,
            )
            &&& folder.after == (TranscriptionView { phase: Phase::Over, ..t })
            &&& loaded.after == folder.after
            &&& read.after == folder.after
            &&& answered.after == folder.after
            &&& output.after == folder.after
        }),
{
}

/// What a transcription does while all goes well: it looks at the recording, makes the folder that the
/// recording lies in, looks for the model in the folder of the settings, loads the engine, reads the
/// recording, runs the engine, reads the output and finishes.
pub proof fn lemma_steps_in_turn(t: TranscriptionView, l: Looked, response: Value)
    ensures
        t.step(TranscribeEvent::Begun).action is Look,
        settings_error(t.settings, l.audio_exists, true) is None ==> t.step(
            TranscribeEvent::Looked(l),
        ).action == NextView::MakeFolder(folder_of(t.platform, t.audio.text())),
        settings_error(
            t.settings,
            t.found.audio_exists,
            t.found.custom_is_positive,
        ) is None ==> t.step(TranscribeEvent::FolderMade(true)).action == NextView::LookForModel(
            joined_path(
                t.platform,
                stripped(t.settings.diarization_models_dir),
                SORTFORMER_MODEL_FILE@,
            ),
        ),
        diarization_error(t.platform, t.settings, true) is None ==> t.step(
            TranscribeEvent::ModelLookedFor(true),
        ).action is LoadEngine,
        lowered(stripped(t.settings.mode)) != "transcript"@ ==> t.step(
            TranscribeEvent::ModelLookedFor(false),
        ).action is LoadEngine,
        t.step(TranscribeEvent::AudioRead(true)).action is RunEngine,
        t.step(TranscribeEvent::Answered(Ok(response))).action is ReadOutput,
        t.step(TranscribeEvent::Answered(Ok(response))).after.response == Some(response),
        t.step(TranscribeEvent::OutputRead(true)).action is Finish,
{
}

} // verus!
