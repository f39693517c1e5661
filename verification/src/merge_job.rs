//! A job that merges two transcripts that are there already.
use vstd::prelude::*;

use crate::artifacts::Artifact;
use crate::events::{add_event, fail, go_on, joined_text, no_events, Turn};
use crate::trim::trim;
use crate::youtube_job::{hybrid_ready_text, push_hybrid, MergeCounts};
#[allow(unused_imports)]
use crate::artifacts::Output;
#[allow(unused_imports)]
use crate::events::{event, events_of, fails, goes_on, Event, Reply};
#[allow(unused_imports)]
use crate::text::text_view;
#[allow(unused_imports)]
use crate::trim::trimmed;
#[allow(unused_imports)]
use crate::youtube_job::{hybrid_files, hybrid_ready, named_artifacts};

verus! {

/// What a user asks of a merge.
#[derive(Debug)]
pub struct MergeJobRequest {
    pub whisper_srt: String,
    pub youtube_srt: String,
    pub info_json: Option<String>,
    pub output_dir: String,
    pub output_base: Option<String>,
}

/// The files of a merge, trimmed; metadata without a name is none.
#[derive(Debug)]
pub struct MergeInputs {
    pub whisper_srt: String,
    pub youtube_srt: String,
    pub info_json: Option<String>,
    pub output_dir: String,
}

/// A text that may be absent, trimmed; one without characters is absent.
pub open spec fn trimmed_or_none(s: Option<Seq<char>>) -> Option<Seq<char>> {
    match s {
        Some(t) => if trimmed(t).len() > 0 {
            Some(trimmed(t))
        } else {
            None
        },
        None => None,
    }
}

/// The files of a merge.
pub fn merge_inputs(request: &MergeJobRequest) -> (r: MergeInputs)
    ensures
        r.whisper_srt@ == trimmed(request.whisper_srt@),
        r.youtube_srt@ == trimmed(request.youtube_srt@),
        text_view(r.info_json) == trimmed_or_none(text_view(request.info_json)),
        r.output_dir@ == trimmed(request.output_dir@),
{
    let info_json = match &request.info_json {
        Some(s) => {
            let t = trim(s.as_str());
            if t.as_str().is_empty() {
                None
            } else {
                Some(t)
            }
        },
        None => None,
    };
    MergeInputs {
        whisper_srt: trim(request.whisper_srt.as_str()),
        youtube_srt: trim(request.youtube_srt.as_str()),
        info_json,
        output_dir: trim(request.output_dir.as_str()),
    }
}

/// What the job waits for.
#[derive(Debug, Clone, Copy, PartialEq, Eq, Structural)]
pub enum MergePhase {
    WhisperSrt,
    YoutubeSrt,
    InfoJson,
    OutputDir,
    Names,
    Hybrid,
    Done,
}

/// A job that merges two transcripts: what it waits for, and what there is so far.
#[derive(Debug, Clone, Copy, PartialEq, Eq, Structural)]
pub struct MergeJob {
    pub phase: MergePhase,
    pub merged: Option<bool>,
}

/// How an action of the job ended.
#[derive(Debug)]
pub enum MergeEvent {
    Checked(bool),
    OutputDir(Result<(), String>),
    Named(String),
    Hybrid(Result<MergeCounts, String>),
}

/// An action of the job.
#[derive(Debug, Clone, Copy, PartialEq, Eq, Structural)]
pub enum MergeAction {
    CheckWhisperSrt,
    CheckYoutubeSrt,
    CheckInfoJson,
    CreateOutputDir,
    NameOutputs,
    BuildHybrid,
    Finish,
}

impl MergeJob {
    /// The job in another phase.
    pub open spec fn at(self, phase: MergePhase) -> MergeJob {
        MergeJob { phase, ..self }
    }

    /// The outputs of the job, in the order in which they are listed.
    pub open spec fn outputs(self) -> Seq<Artifact> {
        named_artifacts(hybrid_files(self.merged))
    }

    /// The job waits for this event; metadata is checked only where some is named.
    pub open spec fn expects(self, inputs: MergeInputs, e: MergeEvent) -> bool {
        match e {
            MergeEvent::Checked(_) => {
                ||| self.phase == MergePhase::WhisperSrt
                ||| self.phase == MergePhase::YoutubeSrt
                ||| self.phase == MergePhase::InfoJson && inputs.info_json is Some
            },
            MergeEvent::OutputDir(_) => self.phase == MergePhase::OutputDir,
            MergeEvent::Named(_) => self.phase == MergePhase::Names,
            MergeEvent::Hybrid(_) => self.phase == MergePhase::Hybrid,
        }
    }

    /// Whether the job waits for this event.
    pub fn awaits(&self, inputs: &MergeInputs, e: &MergeEvent) -> (r: bool)
        ensures
            r == self.expects(*inputs, *e),
    {
        match e {
            MergeEvent::Checked(_) => self.phase == MergePhase::WhisperSrt || self.phase
                == MergePhase::YoutubeSrt || (self.phase == MergePhase::InfoJson
                && inputs.info_json.is_some()),
            MergeEvent::OutputDir(_) => self.phase == MergePhase::OutputDir,
            MergeEvent::Named(_) => self.phase == MergePhase::Names,
            MergeEvent::Hybrid(_) => self.phase == MergePhase::Hybrid,
        }
    }

    /// The job, failed.
    pub open spec fn failed(self, error: Seq<char>) -> (MergeJob, Reply<MergeAction>) {
        (self.at(MergePhase::Done), fails(Seq::empty(), error))
    }

    /// The job going on in another phase, with nothing to say.
    pub open spec fn next(self, phase: MergePhase, action: MergeAction) -> (
        MergeJob,
        Reply<MergeAction>,
    ) {
        (self.at(phase), goes_on(Seq::empty(), action))
    }

    /// The job after one of its inputs was checked.
    pub open spec fn checked(self, inputs: MergeInputs, is_file: bool) -> (
        MergeJob,
        Reply<MergeAction>,
    ) {
        match self.phase {
            MergePhase::WhisperSrt => if is_file {
                self.next(MergePhase::YoutubeSrt, MergeAction::CheckYoutubeSrt)
            } else {
                self.failed("Whisper SRT was not found: "@ + inputs.whisper_srt@)
            },
            MergePhase::YoutubeSrt => if !is_file {
                self.failed("YouTube captions SRT was not found: "@ + inputs.youtube_srt@)
            } else if inputs.info_json is Some {
                self.next(MergePhase::InfoJson, MergeAction::CheckInfoJson)
            } else {
                self.next(MergePhase::OutputDir, MergeAction::CreateOutputDir)
            },
            _ => if is_file {
                self.next(MergePhase::OutputDir, MergeAction::CreateOutputDir)
            } else {
                self.failed("info.json was not found: "@ + inputs.info_json->0@)
            },
        }
    }

    /// The job after an event, and what it does then.
    pub open spec fn turn(self, inputs: MergeInputs, e: MergeEvent) -> (
        MergeJob,
        Reply<MergeAction>,
    ) {
        match e {
            MergeEvent::Checked(is_file) => self.checked(inputs, is_file),
            MergeEvent::OutputDir(Ok(_)) => self.next(MergePhase::Names, MergeAction::NameOutputs),
            MergeEvent::OutputDir(Err(error)) => self.failed(
                "Could not create output folder: "@ + error@,
            ),
            MergeEvent::Named(base) => (
                self.at(MergePhase::Hybrid),
                goes_on(
                    seq![
                        event("stage"@, "setup"@, "Preparing hybrid merge"@),
                        event("info"@, "setup"@, "Output prefix: "@ + base@),
                        event(
                            "stage"@,
                            "hybrid"@,
                            "Merging Whisper prose with YouTube proper nouns"@,
                        ),
                    ],
                    MergeAction::BuildHybrid,
                ),
            ),
            MergeEvent::Hybrid(Ok(c)) => (
                MergeJob { phase: MergePhase::Done, merged: Some(c.flagged) },
                goes_on(
                    seq![
                        event("stage"@, "hybrid"@, hybrid_ready(c)),
                        event("stage"@, "done"@, "Job complete"@),
                    ],
                    MergeAction::Finish,
                ),
            ),
            MergeEvent::Hybrid(Err(error)) => self.failed("Hybrid merge failed: "@ + error@),
        }
    }

    /// A new job, with its first action.
    pub fn start() -> (r: (MergeJob, MergeAction))
        ensures
            r.0 == (MergeJob { phase: MergePhase::WhisperSrt, merged: None }),
            r.1 == MergeAction::CheckWhisperSrt,
    {
        (MergeJob { phase: MergePhase::WhisperSrt, merged: None }, MergeAction::CheckWhisperSrt)
    }

    /// The outputs of the job, in the order in which they are listed.
    pub fn list_outputs(&self) -> (r: Vec<Artifact>)
        ensures
            r@ == self.outputs(),
    {
        let mut list: Vec<Artifact> = Vec::new();
        push_hybrid(&mut list, self.merged);
        assert(list@ =~= self.outputs());
        list
    }

    fn give_up(&mut self, error: String) -> (r: Turn<MergeAction>)
        ensures
            (*final(self), r@) == old(self).failed(error@),
    {
        self.phase = MergePhase::Done;
        fail(no_events(), error)
    }

    fn proceed(&mut self, phase: MergePhase, action: MergeAction) -> (r: Turn<MergeAction>)
        ensures
            (*final(self), r@) == old(self).next(phase, action),
    {
        self.phase = phase;
        go_on(no_events(), action)
    }

    fn check(&mut self, inputs: &MergeInputs, is_file: bool) -> (r: Turn<MergeAction>)
        requires
            old(self).expects(*inputs, MergeEvent::Checked(is_file)),
        ensures
            (*final(self), r@) == old(self).checked(*inputs, is_file),
    {
        match self.phase {
            MergePhase::WhisperSrt => {
                if is_file {
                    self.proceed(MergePhase::YoutubeSrt, MergeAction::CheckYoutubeSrt)
                } else {
                    self.give_up(
                        joined_text("Whisper SRT was not found: ", inputs.whisper_srt.as_str()),
                    )
                }
            },
            MergePhase::YoutubeSrt => {
                if !is_file {
                    self.give_up(
                        joined_text(
                            "YouTube captions SRT was not found: ",
                            inputs.youtube_srt.as_str(),
                        ),
                    )
                } else if inputs.info_json.is_some() {
                    self.proceed(MergePhase::InfoJson, MergeAction::CheckInfoJson)
                } else {
                    self.proceed(MergePhase::OutputDir, MergeAction::CreateOutputDir)
                }
            },
            _ => {
                if is_file {
                    return self.proceed(MergePhase::OutputDir, MergeAction::CreateOutputDir);
                }
                let mut text = "info.json was not found: ".to_string();
                if let Some(path) = &inputs.info_json {
                    text.append(path.as_str());
                }
                self.give_up(text)
            },
        }
    }

    /// Tells the job how its action ended, and gives what it does next.
    pub fn step(&mut self, inputs: &MergeInputs, e: MergeEvent) -> (r: Turn<MergeAction>)
        requires
            old(self).expects(*inputs, e),
        ensures
            (*final(self), r@) == old(self).turn(*inputs, e),
    {
        match e {
            MergeEvent::Checked(is_file) => self.check(inputs, is_file),
            MergeEvent::OutputDir(Ok(_)) => self.proceed(
                MergePhase::Names,
                MergeAction::NameOutputs,
            ),
            MergeEvent::OutputDir(Err(error)) => self.give_up(
                joined_text("Could not create output folder: ", error.as_str()),
            ),
            MergeEvent::Named(base) => {
                self.phase = MergePhase::Hybrid;
                let mut said = no_events();
                add_event(&mut said, "stage", "setup", "Preparing hybrid merge");
                let prefix = joined_text("Output prefix: ", base.as_str());
                add_event(&mut said, "info", "setup", prefix.as_str());
                add_event(
                    &mut said,
                    "stage",
                    "hybrid",
                    "Merging Whisper prose with YouTube proper nouns",
                );
                assert(events_of(said@) =~= old(self).turn(*inputs, e).1.events);
                go_on(said, MergeAction::BuildHybrid)
            },
            MergeEvent::Hybrid(Ok(c)) => {
                self.phase = MergePhase::Done;
                self.merged = Some(c.flagged);
                let mut said = no_events();
                let ready = hybrid_ready_text(c);
                add_event(&mut said, "stage", "hybrid", ready.as_str());
                add_event(&mut said, "stage", "done", "Job complete");
                assert(events_of(said@) =~= old(self).turn(*inputs, e).1.events);
                go_on(said, MergeAction::Finish)
            },
            MergeEvent::Hybrid(Err(error)) => self.give_up(
                joined_text("Hybrid merge failed: ", error.as_str()),
            ),
        }
    }
}

/// How far a job in this phase is from its end, at most.
pub open spec fn steps_left(p: MergePhase) -> nat {
    match p {
        MergePhase::WhisperSrt => 6,
        MergePhase::YoutubeSrt => 5,
        MergePhase::InfoJson => 4,
        MergePhase::OutputDir => 3,
        MergePhase::Names => 2,
        MergePhase::Hybrid => 1,
        MergePhase::Done => 0,
    }
}

/// Every event brings the job nearer to its end, and it ends well only with a hybrid among its
/// outputs.
pub proof fn law_merge_job_ends(job: MergeJob, inputs: MergeInputs, e: MergeEvent)
    requires
        job.expects(inputs, e),
    ensures
        steps_left(job.turn(inputs, e).0.phase) < steps_left(job.phase),
        job.turn(inputs, e).1.next is Err ==> job.turn(inputs, e).0.phase is Done,
        job.turn(inputs, e).1.next == Ok::<MergeAction, Seq<char>>(MergeAction::Finish) ==> {
            let outputs = job.turn(inputs, e).0.outputs();
            &&& outputs.contains(Artifact::Named(Output::HybridSrt))
            &&& outputs.contains(Artifact::Named(Output::HybridTxt))
        },
{
    let after = job.turn(inputs, e).0;
    if after.merged is Some {
        assert(after.outputs()[0] == Artifact::Named(Output::HybridSrt));
        assert(after.outputs()[1] == Artifact::Named(Output::HybridTxt));
    }
}

} // verus!
