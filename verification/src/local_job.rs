//! A job for a local file: its sound as Whisper reads it, its transcript, or both.
use vstd::prelude::*;

use crate::artifacts::{Artifact, Output, WhisperFiles};
use crate::events::{add_event, fail, go_on, joined_text, no_events, JobEvent, Turn};
use crate::text::same_text;
use crate::youtube_job::push_whisper;
#[allow(unused_imports)]
use crate::artifacts::whisper_files;
#[allow(unused_imports)]
use crate::events::{event, events_of, fails, goes_on, Event, Reply};
#[allow(unused_imports)]
use crate::youtube_job::named_artifacts;

verus! {

/// What a user asks of a job for a local file.
#[derive(Debug)]
pub struct LocalJobRequest {
    pub input_file: String,
    pub output_dir: String,
    pub mode: String,
    pub model_path: Option<String>,
    pub whisper_prompt: Option<String>,
    pub max_len: Option<u32>,
}

/// What is done with a local file. A request that names no known mode only converts.
#[derive(Debug, Clone, Copy, PartialEq, Eq, Structural)]
pub enum LocalMode {
    ConvertTranscribe,
    TranscribeOnly,
    ConvertOnly,
}

impl LocalMode {
    /// The mode that a request names.
    pub open spec fn named(name: Seq<char>) -> LocalMode {
        if name == "transcribe_only"@ {
            LocalMode::TranscribeOnly
        } else if name == "convert_transcribe"@ {
            LocalMode::ConvertTranscribe
        } else {
            LocalMode::ConvertOnly
        }
    }

    /// The mode that a request names.
    pub fn parse(name: &str) -> (r: LocalMode)
        ensures
            r == LocalMode::named(name@),
    {
        if same_text(name, "transcribe_only") {
            LocalMode::TranscribeOnly
        } else if same_text(name, "convert_transcribe") {
            LocalMode::ConvertTranscribe
        } else {
            LocalMode::ConvertOnly
        }
    }

    /// The file is converted.
    pub open spec fn converts(self) -> bool {
        !(self is TranscribeOnly)
    }

    /// Whisper is run.
    pub open spec fn transcribes(self) -> bool {
        !(self is ConvertOnly)
    }
}

/// What the job waits for.
#[derive(Debug, Clone, Copy, PartialEq, Eq, Structural)]
pub enum LocalPhase {
    Input,
    OutputDir,
    Tools,
    Wav,
    Model,
    Whisper,
    Done,
}

/// A job for a local file: what was asked for, what it waits for, and what there is so far.
#[derive(Debug, Clone, Copy, PartialEq, Eq, Structural)]
pub struct LocalJob {
    pub phase: LocalPhase,
    pub mode: LocalMode,
    pub has_whisper_cli: bool,
    pub wav: bool,
    pub whisper: WhisperFiles,
}

/// How an action of the job ended. `Input` says whether the input is a file, and how it is named.
#[derive(Debug)]
pub enum LocalEvent {
    Input { is_file: bool, path: String },
    OutputDir(Result<(), String>),
    Tools { ffmpeg: bool, whisper_cli: bool },
    Wav(Result<(), String>),
    Model(Result<(), String>),
    Whisper(Result<WhisperFiles, String>),
}

/// An action of the job. Whisper reads the converted file if there is one, else the input itself.
#[derive(Debug, Clone, Copy, PartialEq, Eq, Structural)]
pub enum LocalAction {
    CheckInput,
    CreateOutputDir,
    DetectTools,
    ConvertToWav,
    CheckModel,
    RunWhisper { converted: bool },
    Finish,
}

impl LocalJob {
    /// The job in another phase.
    pub open spec fn at(self, phase: LocalPhase) -> LocalJob {
        LocalJob { phase, ..self }
    }

    /// The outputs of the job, in the order in which they are listed.
    pub open spec fn outputs(self) -> Seq<Artifact> {
        (if self.wav {
            seq![Artifact::Named(Output::Converted)]
        } else {
            Seq::empty()
        }) + named_artifacts(whisper_files(self.whisper))
    }

    /// The job waits for this event.
    pub open spec fn expects(self, e: LocalEvent) -> bool {
        match e {
            LocalEvent::Input { .. } => self.phase == LocalPhase::Input,
            LocalEvent::OutputDir(_) => self.phase == LocalPhase::OutputDir,
            LocalEvent::Tools { .. } => self.phase == LocalPhase::Tools,
            LocalEvent::Wav(_) => self.phase == LocalPhase::Wav,
            LocalEvent::Model(_) => self.phase == LocalPhase::Model,
            LocalEvent::Whisper(_) => self.phase == LocalPhase::Whisper,
        }
    }

    /// Whether the job waits for this event.
    pub fn awaits(&self, e: &LocalEvent) -> (r: bool)
        ensures
            r == self.expects(*e),
    {
        match e {
            LocalEvent::Input { .. } => self.phase == LocalPhase::Input,
            LocalEvent::OutputDir(_) => self.phase == LocalPhase::OutputDir,
            LocalEvent::Tools { .. } => self.phase == LocalPhase::Tools,
            LocalEvent::Wav(_) => self.phase == LocalPhase::Wav,
            LocalEvent::Model(_) => self.phase == LocalPhase::Model,
            LocalEvent::Whisper(_) => self.phase == LocalPhase::Whisper,
        }
    }

    /// The job, done.
    pub open spec fn finishing(self) -> (LocalJob, Reply<LocalAction>) {
        (
            self.at(LocalPhase::Done),
            goes_on(seq![event("stage"@, "done"@, "Job complete"@)], LocalAction::Finish),
        )
    }

    /// The job, failed.
    pub open spec fn failed(self, said: Seq<Event>, error: Seq<char>) -> (
        LocalJob,
        Reply<LocalAction>,
    ) {
        (self.at(LocalPhase::Done), fails(said, error))
    }

    /// The job once its sound is there: a model is needed if it is transcribed.
    pub open spec fn transcribing(self, said: Seq<Event>) -> (LocalJob, Reply<LocalAction>) {
        if self.has_whisper_cli {
            (self.at(LocalPhase::Model), goes_on(said, LocalAction::CheckModel))
        } else {
            self.failed(said, "whisper-cli was not found"@)
        }
    }

    /// The job after an event, and what it does then.
    pub open spec fn turn(self, e: LocalEvent) -> (LocalJob, Reply<LocalAction>) {
        match e {
            LocalEvent::Input { is_file, path } => if is_file {
                (
                    self.at(LocalPhase::OutputDir),
                    goes_on(Seq::empty(), LocalAction::CreateOutputDir),
                )
            } else {
                self.failed(Seq::empty(), "Input file was not found: "@ + path@)
            },
            LocalEvent::OutputDir(Ok(_)) => (
                self.at(LocalPhase::Tools),
                goes_on(Seq::empty(), LocalAction::DetectTools),
            ),
            LocalEvent::OutputDir(Err(error)) => self.failed(
                Seq::empty(),
                "Could not create output folder: "@ + error@,
            ),
            LocalEvent::Tools { ffmpeg, whisper_cli } => {
                let said = seq![event("stage"@, "setup"@, "Preparing local media job"@)];
                let job = LocalJob { has_whisper_cli: whisper_cli, ..self };
                if !self.mode.converts() {
                    job.transcribing(said)
                } else if ffmpeg {
                    (job.at(LocalPhase::Wav), goes_on(said, LocalAction::ConvertToWav))
                } else {
                    job.failed(said, "ffmpeg was not found"@)
                }
            },
            LocalEvent::Wav(Ok(_)) => {
                let job = LocalJob { wav: true, ..self };
                if self.mode.transcribes() {
                    job.transcribing(Seq::empty())
                } else {
                    job.finishing()
                }
            },
            LocalEvent::Wav(Err(error)) => self.failed(Seq::empty(), error@),
            LocalEvent::Model(Ok(_)) => (
                self.at(LocalPhase::Whisper),
                goes_on(Seq::empty(), LocalAction::RunWhisper { converted: self.wav }),
            ),
            LocalEvent::Model(Err(error)) => self.failed(Seq::empty(), error@),
            LocalEvent::Whisper(Ok(w)) => LocalJob { whisper: w, ..self }.finishing(),
            LocalEvent::Whisper(Err(error)) => self.failed(Seq::empty(), error@),
        }
    }

    /// A new job, with its first action.
    pub fn start(request: &LocalJobRequest) -> (r: (LocalJob, LocalAction))
        ensures
            r.0 == (LocalJob {
                phase: LocalPhase::Input,
                mode: LocalMode::named(request.mode@),
                has_whisper_cli: false,
                wav: false,
                whisper: WhisperFiles { txt: false, srt: false },
            }),
            consistent(r.0),
            r.1 == LocalAction::CheckInput,
    {
        let job = LocalJob {
            phase: LocalPhase::Input,
            mode: LocalMode::parse(request.mode.as_str()),
            has_whisper_cli: false,
            wav: false,
            whisper: WhisperFiles { txt: false, srt: false },
        };
        (job, LocalAction::CheckInput)
    }

    /// The outputs of the job, in the order in which they are listed.
    pub fn list_outputs(&self) -> (r: Vec<Artifact>)
        ensures
            r@ == self.outputs(),
    {
        let mut list: Vec<Artifact> = Vec::new();
        if self.wav {
            list.push(Artifact::Named(Output::Converted));
        }
        assert(list@ =~= (if self.wav {
            seq![Artifact::Named(Output::Converted)]
        } else {
            Seq::empty()
        }));
        push_whisper(&mut list, self.whisper);
        list
    }

    fn finish(&mut self) -> (r: Turn<LocalAction>)
        ensures
            (*final(self), r@) == old(self).finishing(),
    {
        self.phase = LocalPhase::Done;
        let mut events = no_events();
        add_event(&mut events, "stage", "done", "Job complete");
        assert(events_of(events@) =~= seq![event("stage"@, "done"@, "Job complete"@)]);
        go_on(events, LocalAction::Finish)
    }

    fn give_up(&mut self, events: Vec<JobEvent>, error: String) -> (r: Turn<LocalAction>)
        ensures
            (*final(self), r@) == old(self).failed(events_of(events@), error@),
    {
        self.phase = LocalPhase::Done;
        fail(events, error)
    }

    fn transcribe(&mut self, events: Vec<JobEvent>) -> (r: Turn<LocalAction>)
        ensures
            (*final(self), r@) == old(self).transcribing(events_of(events@)),
    {
        if self.has_whisper_cli {
            self.phase = LocalPhase::Model;
            go_on(events, LocalAction::CheckModel)
        } else {
            self.give_up(events, "whisper-cli was not found".to_string())
        }
    }

    /// Tells the job how its action ended, and gives what it does next.
    pub fn step(&mut self, e: LocalEvent) -> (r: Turn<LocalAction>)
        requires
            old(self).expects(e),
        ensures
            (*final(self), r@) == old(self).turn(e),
            consistent(*old(self)) ==> consistent(*final(self)),
    {
        match e {
            LocalEvent::Input { is_file, path } => {
                if is_file {
                    self.phase = LocalPhase::OutputDir;
                    go_on(no_events(), LocalAction::CreateOutputDir)
                } else {
                    self.give_up(
                        no_events(),
                        joined_text("Input file was not found: ", path.as_str()),
                    )
                }
            },
            LocalEvent::OutputDir(Ok(_)) => {
                self.phase = LocalPhase::Tools;
                go_on(no_events(), LocalAction::DetectTools)
            },
            LocalEvent::OutputDir(Err(error)) => self.give_up(
                no_events(),
                joined_text("Could not create output folder: ", error.as_str()),
            ),
            LocalEvent::Tools { ffmpeg, whisper_cli } => {
                let mut said = no_events();
                add_event(&mut said, "stage", "setup", "Preparing local media job");
                assert(events_of(said@) =~= seq![
                    event("stage"@, "setup"@, "Preparing local media job"@),
                ]);
                self.has_whisper_cli = whisper_cli;
                match self.mode {
                    LocalMode::TranscribeOnly => self.transcribe(said),
                    _ => {
                        if ffmpeg {
                            self.phase = LocalPhase::Wav;
                            go_on(said, LocalAction::ConvertToWav)
                        } else {
                            self.give_up(said, "ffmpeg was not found".to_string())
                        }
                    },
                }
            },
            LocalEvent::Wav(Ok(_)) => {
                self.wav = true;
                match self.mode {
                    LocalMode::ConvertOnly => self.finish(),
                    _ => self.transcribe(no_events()),
                }
            },
            LocalEvent::Wav(Err(error)) => self.give_up(no_events(), error),
            LocalEvent::Model(Ok(_)) => {
                self.phase = LocalPhase::Whisper;
                let converted = self.wav;
                go_on(no_events(), LocalAction::RunWhisper { converted })
            },
            LocalEvent::Model(Err(error)) => self.give_up(no_events(), error),
            LocalEvent::Whisper(Ok(w)) => {
                self.whisper = w;
                self.finish()
            },
            LocalEvent::Whisper(Err(error)) => self.give_up(no_events(), error),
        }
    }
}

// ---------------------------------------------------------------------------
// Laws
// ---------------------------------------------------------------------------

/// What holds of a job at any time: it has only what its mode makes.
pub open spec fn consistent(job: LocalJob) -> bool {
    &&& job.wav ==> job.mode.converts()
    &&& job.whisper.txt || job.whisper.srt ==> job.mode.transcribes()
    &&& job.phase is Wav ==> job.mode.converts() && !job.wav
    &&& (job.phase is Model || job.phase is Whisper) ==> job.mode.transcribes()
        && job.has_whisper_cli && job.wav == job.mode.converts()
    &&& (job.phase is Input || job.phase is OutputDir || job.phase is Tools) ==> !job.wav
}

/// How far a job in this phase is from its end, at most.
pub open spec fn steps_left(p: LocalPhase) -> nat {
    match p {
        LocalPhase::Input => 6,
        LocalPhase::OutputDir => 5,
        LocalPhase::Tools => 4,
        LocalPhase::Wav => 3,
        LocalPhase::Model => 2,
        LocalPhase::Whisper => 1,
        LocalPhase::Done => 0,
    }
}

/// Every event brings the job nearer to its end; it then waits for the end of the action that it
/// asked for, and after a failure for nothing.
pub proof fn law_local_job_ends(job: LocalJob, e: LocalEvent)
    requires
        job.expects(e),
    ensures
        steps_left(job.turn(e).0.phase) < steps_left(job.phase),
        match job.turn(e).1.next {
            Ok(a) => job.turn(e).0.phase == match a {
                LocalAction::CheckInput => LocalPhase::Input,
                LocalAction::CreateOutputDir => LocalPhase::OutputDir,
                LocalAction::DetectTools => LocalPhase::Tools,
                LocalAction::ConvertToWav => LocalPhase::Wav,
                LocalAction::CheckModel => LocalPhase::Model,
                LocalAction::RunWhisper { .. } => LocalPhase::Whisper,
                LocalAction::Finish => LocalPhase::Done,
            },
            Err(_) => job.turn(e).0.phase is Done,
        },
{
}

/// A job that ends well has converted and transcribed as its mode says, and nothing else: a file
/// that is only converted has no transcript, one that is only transcribed is not converted.
pub proof fn law_local_job_does_what_its_mode_says(job: LocalJob, e: LocalEvent)
    requires
        consistent(job),
        job.expects(e),
        job.turn(e).1.next == Ok::<LocalAction, Seq<char>>(LocalAction::Finish),
        e matches LocalEvent::Whisper(Ok(w)) ==> w.txt || w.srt,
    ensures
        ({
            let after = job.turn(e).0;
            &&& after.wav == after.mode.converts()
            &&& (after.whisper.txt || after.whisper.srt) == after.mode.transcribes()
        }),
{
}

} // verus!
