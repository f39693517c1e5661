//! Saving the captions of a video: what is done after what, and what is said.
//!
//! The job is told how each action ended and answers with the next. It looks at no file itself.
use vstd::prelude::*;

use crate::artifacts::Sidecars;
use crate::captions::captions_to_txt;
use crate::events::{add_event, joined_text, no_events, JobEvent};
#[allow(unused_imports)]
use crate::artifacts::Output;
#[allow(unused_imports)]
use crate::captions::caption_lines;
#[allow(unused_imports)]
use crate::events::{event, events_of, fails, goes_on, Event, Reply};
#[allow(unused_imports)]
use crate::find::joined;

verus! {

/// What the job waits for.
#[derive(Debug, Clone, Copy, PartialEq, Eq, Structural)]
pub enum CaptionPhase {
    Tool,
    Sidecars,
    Search,
    Copy,
    Read,
    Write,
    Done,
}

/// The job that saves the captions of a video. `srt` says whether the captions came as a SubRip
/// file.
#[derive(Debug, Clone, Copy, PartialEq, Eq, Structural)]
pub struct CaptionJob {
    pub phase: CaptionPhase,
    pub metadata: Sidecars,
    pub srt: bool,
}

/// How an action of the job ended. `Found` says whether a caption file was found, and whether its
/// extension is that of SubRip; `Read` gives its text.
#[derive(Debug)]
pub enum CaptionEvent {
    ToolEnded(Result<(), String>),
    Collected(Sidecars),
    Found(Option<bool>),
    Copied(Result<(), String>),
    Read(Result<String, String>),
    Written(Result<(), String>),
}

/// What the job saved: whether there are captions, and which files with metadata there are.
#[derive(Debug, Clone, Copy, PartialEq, Eq, Structural)]
pub struct CaptionDownload {
    pub saved: bool,
    pub metadata: Sidecars,
}

/// An action of the job.
#[derive(Debug)]
pub enum CaptionAction {
    RunTool,
    CollectSidecars,
    FindCaptions,
    CopyCaptions,
    ReadCaptions,
    WriteText(String),
    Finish(CaptionDownload),
}

/// An action of the job as mathematical values.
pub enum CaptionStep {
    RunTool,
    CollectSidecars,
    FindCaptions,
    CopyCaptions,
    ReadCaptions,
    WriteText(Seq<char>),
    Finish(CaptionDownload),
}

impl View for CaptionAction {
    type V = CaptionStep;

    open spec fn view(&self) -> CaptionStep {
        match *self {
            CaptionAction::RunTool => CaptionStep::RunTool,
            CaptionAction::CollectSidecars => CaptionStep::CollectSidecars,
            CaptionAction::FindCaptions => CaptionStep::FindCaptions,
            CaptionAction::CopyCaptions => CaptionStep::CopyCaptions,
            CaptionAction::ReadCaptions => CaptionStep::ReadCaptions,
            CaptionAction::WriteText(s) => CaptionStep::WriteText(s@),
            CaptionAction::Finish(d) => CaptionStep::Finish(d),
        }
    }
}

/// What the job does next: notices, and then an action or its failure.
#[derive(Debug)]
pub struct CaptionTurn {
    pub events: Vec<JobEvent>,
    pub next: Result<CaptionAction, String>,
}

impl View for CaptionTurn {
    type V = Reply<CaptionStep>;

    open spec fn view(&self) -> Reply<CaptionStep> {
        Reply {
            events: events_of(self.events@),
            next: match self.next {
                Ok(a) => Ok(a@),
                Err(e) => Err(e@),
            },
        }
    }
}

fn turn(events: Vec<JobEvent>, action: CaptionAction) -> (r: CaptionTurn)
    ensures
        r@ == goes_on(events_of(events@), action@),
{
    CaptionTurn { events, next: Ok(action) }
}

fn failure(text: String) -> (r: CaptionTurn)
    ensures
        r@ == fails::<CaptionStep>(Seq::empty(), text@),
{
    CaptionTurn { events: no_events(), next: Err(text) }
}

/// A SubRip file is copied before it is read, any other file after its text was written.
pub open spec fn phase_after_search(srt: bool) -> CaptionPhase {
    if srt {
        CaptionPhase::Copy
    } else {
        CaptionPhase::Read
    }
}

impl CaptionJob {
    /// The job waits for this event.
    pub open spec fn expects(self, e: CaptionEvent) -> bool {
        match e {
            CaptionEvent::ToolEnded(_) => self.phase == CaptionPhase::Tool,
            CaptionEvent::Collected(_) => self.phase == CaptionPhase::Sidecars,
            CaptionEvent::Found(_) => self.phase == CaptionPhase::Search,
            CaptionEvent::Copied(_) => self.phase == CaptionPhase::Copy,
            CaptionEvent::Read(_) => self.phase == CaptionPhase::Read,
            CaptionEvent::Written(_) => self.phase == CaptionPhase::Write,
        }
    }

    /// Whether the job waits for this event.
    pub fn awaits(&self, e: &CaptionEvent) -> (r: bool)
        ensures
            r == self.expects(*e),
    {
        match e {
            CaptionEvent::ToolEnded(_) => self.phase == CaptionPhase::Tool,
            CaptionEvent::Collected(_) => self.phase == CaptionPhase::Sidecars,
            CaptionEvent::Found(_) => self.phase == CaptionPhase::Search,
            CaptionEvent::Copied(_) => self.phase == CaptionPhase::Copy,
            CaptionEvent::Read(_) => self.phase == CaptionPhase::Read,
            CaptionEvent::Written(_) => self.phase == CaptionPhase::Write,
        }
    }

    /// The job in another phase.
    pub open spec fn at(self, phase: CaptionPhase) -> CaptionJob {
        CaptionJob { phase, ..self }
    }

    /// What the job has saved when it ends.
    pub open spec fn download(self, saved: bool) -> CaptionDownload {
        CaptionDownload { saved, metadata: self.metadata }
    }

    /// The job after an event.
    pub open spec fn after(self, e: CaptionEvent) -> CaptionJob {
        match e {
            CaptionEvent::ToolEnded(_) => self.at(CaptionPhase::Sidecars),
            CaptionEvent::Collected(s) => CaptionJob {
                phase: CaptionPhase::Search,
                metadata: s,
                ..self
            },
            CaptionEvent::Found(None) => self.at(CaptionPhase::Done),
            CaptionEvent::Found(Some(srt)) => CaptionJob {
                phase: phase_after_search(srt),
                srt,
                ..self
            },
            CaptionEvent::Copied(r) => self.at(
                if r is Ok && self.srt {
                    CaptionPhase::Read
                } else {
                    CaptionPhase::Done
                },
            ),
            CaptionEvent::Read(r) => self.at(
                if r is Ok {
                    CaptionPhase::Write
                } else {
                    CaptionPhase::Done
                },
            ),
            CaptionEvent::Written(r) => self.at(
                if r is Ok && !self.srt {
                    CaptionPhase::Copy
                } else {
                    CaptionPhase::Done
                },
            ),
        }
    }

    /// What the job does after an event. A download that did not end well is only reported: what it
    /// left is still looked for.
    pub open spec fn reply(self, e: CaptionEvent) -> Reply<CaptionStep> {
        match e {
            CaptionEvent::ToolEnded(Ok(_)) => goes_on(Seq::empty(), CaptionStep::CollectSidecars),
            CaptionEvent::ToolEnded(Err(error)) => goes_on(
                seq![
                    event(
                        "warn"@,
                        "captions"@,
                        "Caption download did not complete cleanly: "@ + error@,
                    ),
                ],
                CaptionStep::CollectSidecars,
            ),
            CaptionEvent::Collected(_) => goes_on(Seq::empty(), CaptionStep::FindCaptions),
            CaptionEvent::Found(None) => goes_on(
                seq![event("info"@, "captions"@, "No YouTube captions were saved"@)],
                CaptionStep::Finish(self.download(false)),
            ),
            CaptionEvent::Found(Some(true)) => goes_on(Seq::empty(), CaptionStep::CopyCaptions),
            CaptionEvent::Found(Some(false)) => goes_on(Seq::empty(), CaptionStep::ReadCaptions),
            CaptionEvent::Copied(Ok(_)) => if self.srt {
                goes_on(Seq::empty(), CaptionStep::ReadCaptions)
            } else {
                goes_on(
                    seq![event("stage"@, "captions"@, "Saved YouTube captions"@)],
                    CaptionStep::Finish(self.download(true)),
                )
            },
            CaptionEvent::Copied(Err(error)) => fails(
                Seq::empty(),
                (if self.srt {
                    "Could not save SRT captions: "@
                } else {
                    "Could not save caption file: "@
                }) + error@,
            ),
            CaptionEvent::Read(Ok(content)) => goes_on(
                Seq::empty(),
                CaptionStep::WriteText(joined(caption_lines(content@), "\n"@)),
            ),
            CaptionEvent::Read(Err(error)) => fails(
                Seq::empty(),
                "Could not read captions: "@ + error@,
            ),
            CaptionEvent::Written(Ok(_)) => if self.srt {
                goes_on(
                    seq![event("stage"@, "captions"@, "Saved YouTube captions as TXT and SRT"@)],
                    CaptionStep::Finish(self.download(true)),
                )
            } else {
                goes_on(Seq::empty(), CaptionStep::CopyCaptions)
            },
            CaptionEvent::Written(Err(error)) => fails(
                Seq::empty(),
                "Could not save TXT captions: "@ + error@,
            ),
        }
    }

    /// A new job, with its first action.
    pub fn start() -> (r: (CaptionJob, CaptionTurn))
        ensures
            r.0 == (CaptionJob {
                phase: CaptionPhase::Tool,
                metadata: Sidecars { description: false, info_json: false },
                srt: false,
            }),
            r.1@ == goes_on(
                seq![
                    event("stage"@, "captions"@, "Checking for existing YouTube captions"@),
                ],
                CaptionStep::RunTool,
            ),
    {
        let mut events = no_events();
        add_event(&mut events, "stage", "captions", "Checking for existing YouTube captions");
        assert(events_of(events@) =~= seq![
            event("stage"@, "captions"@, "Checking for existing YouTube captions"@),
        ]);
        (
            CaptionJob {
                phase: CaptionPhase::Tool,
                metadata: Sidecars { description: false, info_json: false },
                srt: false,
            },
            turn(events, CaptionAction::RunTool),
        )
    }

    fn finish(&self, level: &str, message: &str, saved: bool) -> (r: CaptionTurn)
        ensures
            r@ == goes_on(
                seq![event(level@, "captions"@, message@)],
                CaptionStep::Finish(self.download(saved)),
            ),
    {
        let mut events = no_events();
        add_event(&mut events, level, "captions", message);
        assert(events_of(events@) =~= seq![event(level@, "captions"@, message@)]);
        let download = CaptionDownload { saved, metadata: self.metadata };
        turn(events, CaptionAction::Finish(download))
    }

    /// Tells the job how its action ended, and gives what it does next.
    pub fn step(&mut self, e: CaptionEvent) -> (r: CaptionTurn)
        requires
            old(self).expects(e),
        ensures
            *final(self) == old(self).after(e),
            r@ == old(self).reply(e),
    {
        match e {
            CaptionEvent::ToolEnded(result) => {
                self.phase = CaptionPhase::Sidecars;
                let mut events = no_events();
                if let Err(error) = result {
                    let text = joined_text(
                        "Caption download did not complete cleanly: ",
                        error.as_str(),
                    );
                    add_event(&mut events, "warn", "captions", text.as_str());
                }
                assert(events_of(events@) =~= old(self).reply(e).events);
                turn(events, CaptionAction::CollectSidecars)
            },
            CaptionEvent::Collected(s) => {
                self.phase = CaptionPhase::Search;
                self.metadata = s;
                turn(no_events(), CaptionAction::FindCaptions)
            },
            CaptionEvent::Found(None) => {
                self.phase = CaptionPhase::Done;
                self.finish("info", "No YouTube captions were saved", false)
            },
            CaptionEvent::Found(Some(srt)) => {
                self.srt = srt;
                if srt {
                    self.phase = CaptionPhase::Copy;
                    turn(no_events(), CaptionAction::CopyCaptions)
                } else {
                    self.phase = CaptionPhase::Read;
                    turn(no_events(), CaptionAction::ReadCaptions)
                }
            },
            CaptionEvent::Copied(Ok(_)) => {
                if self.srt {
                    self.phase = CaptionPhase::Read;
                    turn(no_events(), CaptionAction::ReadCaptions)
                } else {
                    self.phase = CaptionPhase::Done;
                    self.finish("stage", "Saved YouTube captions", true)
                }
            },
            CaptionEvent::Copied(Err(error)) => {
                self.phase = CaptionPhase::Done;
                if self.srt {
                    failure(joined_text("Could not save SRT captions: ", error.as_str()))
                } else {
                    failure(joined_text("Could not save caption file: ", error.as_str()))
                }
            },
            CaptionEvent::Read(Ok(content)) => {
                self.phase = CaptionPhase::Write;
                let text = captions_to_txt(content.as_str());
                turn(no_events(), CaptionAction::WriteText(text))
            },
            CaptionEvent::Read(Err(error)) => {
                self.phase = CaptionPhase::Done;
                failure(joined_text("Could not read captions: ", error.as_str()))
            },
            CaptionEvent::Written(Ok(_)) => {
                if self.srt {
                    self.phase = CaptionPhase::Done;
                    self.finish("stage", "Saved YouTube captions as TXT and SRT", true)
                } else {
                    self.phase = CaptionPhase::Copy;
                    turn(no_events(), CaptionAction::CopyCaptions)
                }
            },
            CaptionEvent::Written(Err(error)) => {
                self.phase = CaptionPhase::Done;
                failure(joined_text("Could not save TXT captions: ", error.as_str()))
            },
        }
    }
}

/// The captions that a download lists among its outputs.
pub open spec fn caption_files(saved: bool) -> Seq<Output> {
    if saved {
        seq![Output::CaptionSrt, Output::CaptionTxt]
    } else {
        Seq::empty()
    }
}

/// The action that ends with an event of this kind, and the phase in which it is awaited.
pub open spec fn awaited(step: CaptionStep) -> CaptionPhase {
    match step {
        CaptionStep::RunTool => CaptionPhase::Tool,
        CaptionStep::CollectSidecars => CaptionPhase::Sidecars,
        CaptionStep::FindCaptions => CaptionPhase::Search,
        CaptionStep::CopyCaptions => CaptionPhase::Copy,
        CaptionStep::ReadCaptions => CaptionPhase::Read,
        CaptionStep::WriteText(_) => CaptionPhase::Write,
        CaptionStep::Finish(_) => CaptionPhase::Done,
    }
}

/// The job always waits for the end of the action that it asked for, and after a failure for
/// nothing.
pub proof fn law_caption_job_waits_for_its_action(job: CaptionJob, e: CaptionEvent)
    requires
        job.expects(e),
    ensures
        match job.reply(e).next {
            Ok(step) => job.after(e).phase == awaited(step),
            Err(_) => job.after(e).phase == CaptionPhase::Done,
        },
{
}

/// How far a job in this phase is from its end, at most.
pub open spec fn steps_left(job: CaptionJob) -> nat {
    match job.phase {
        CaptionPhase::Tool => 6,
        CaptionPhase::Sidecars => 5,
        CaptionPhase::Search => 4,
        CaptionPhase::Copy => if job.srt {
            3
        } else {
            1
        },
        CaptionPhase::Read => if job.srt {
            2
        } else {
            3
        },
        CaptionPhase::Write => if job.srt {
            1
        } else {
            2
        },
        CaptionPhase::Done => 0,
    }
}

/// Every event brings the job nearer to its end, and it says that captions were saved only when
/// both the file and its text were.
pub proof fn law_caption_job_ends(job: CaptionJob, e: CaptionEvent)
    requires
        job.expects(e),
    ensures
        steps_left(job.after(e)) < steps_left(job),
        job.reply(e).next matches Ok(CaptionStep::Finish(d)) ==> d.saved ==> (job.srt && e
            matches CaptionEvent::Written(Ok(_))) || (!job.srt && e matches CaptionEvent::Copied(
            Ok(_),
        )),
{
}

} // verus!
