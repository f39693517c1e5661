//! Downloading the media of a video: one format after another, until one succeeds.
use vstd::prelude::*;

use crate::arguments::format_attempts;
use crate::events::{add_event, fail, go_on, joined_text, no_events, Turn};
#[allow(unused_imports)]
use crate::arguments::formats;
#[allow(unused_imports)]
use crate::events::{event, events_of, fails, goes_on, Event, Reply};
#[allow(unused_imports)]
use crate::text::texts;

verus! {

/// What the job waits for.
#[derive(Debug, Clone, Copy, PartialEq, Eq, Structural)]
pub enum MediaPhase {
    Attempt,
    Files,
    Done,
}

/// The job that downloads the media of a video, and which format it tries.
#[derive(Debug, Clone, Copy, PartialEq, Eq, Structural)]
pub struct MediaJob {
    pub phase: MediaPhase,
    pub video: bool,
    pub attempt: usize,
}

/// How an action of the job ended. `Listed` says how many finished files there are, if their folder
/// could be read.
#[derive(Debug)]
pub enum MediaEvent {
    Ended(Result<(), String>),
    Listed(Option<usize>),
}

/// An action of the job: to run yt-dlp with a format and remove the single streams that it left, to
/// list the finished files, or to end with that many files.
#[derive(Debug, Clone, Copy, PartialEq, Eq, Structural)]
pub enum MediaAction {
    Attempt(usize),
    ListFiles,
    Finish(usize),
}

impl MediaJob {
    /// The job is within the formats that there are.
    pub open spec fn wf(self) -> bool {
        self.attempt < formats(self.video).len()
    }

    /// The job waits for this event.
    pub open spec fn expects(self, e: MediaEvent) -> bool {
        match e {
            MediaEvent::Ended(_) => self.phase == MediaPhase::Attempt,
            MediaEvent::Listed(_) => self.phase == MediaPhase::Files,
        }
    }

    /// Whether the job waits for this event.
    pub fn awaits(&self, e: &MediaEvent) -> (r: bool)
        ensures
            r == self.expects(*e),
    {
        match e {
            MediaEvent::Ended(_) => self.phase == MediaPhase::Attempt,
            MediaEvent::Listed(_) => self.phase == MediaPhase::Files,
        }
    }

    /// There is another format to try.
    pub open spec fn has_more(self) -> bool {
        self.attempt + 1 < formats(self.video).len()
    }

    /// The job after an event.
    pub open spec fn after(self, e: MediaEvent) -> MediaJob {
        match e {
            MediaEvent::Ended(Ok(_)) => MediaJob { phase: MediaPhase::Files, ..self },
            MediaEvent::Ended(Err(_)) => if self.has_more() {
                MediaJob { attempt: (self.attempt + 1) as usize, ..self }
            } else {
                MediaJob { phase: MediaPhase::Done, ..self }
            },
            MediaEvent::Listed(_) => MediaJob { phase: MediaPhase::Done, ..self },
        }
    }

    /// What the job does after an event: it tries the next format as long as there is one, and fails
    /// as the last one did.
    pub open spec fn reply(self, e: MediaEvent) -> Reply<MediaAction> {
        match e {
            MediaEvent::Ended(Ok(_)) => goes_on(Seq::empty(), MediaAction::ListFiles),
            MediaEvent::Ended(Err(error)) => if self.has_more() {
                goes_on(
                    seq![
                        event(
                            "warn"@,
                            "download"@,
                            "Retrying download with fallback format: "@ + formats(
                                self.video,
                            )[self.attempt + 1],
                        ),
                    ],
                    MediaAction::Attempt((self.attempt + 1) as usize),
                )
            } else {
                fails(Seq::empty(), error@)
            },
            MediaEvent::Listed(files) => match files {
                Some(n) => if n > 0 {
                    goes_on(Seq::empty(), MediaAction::Finish(n))
                } else {
                    fails(Seq::empty(), "yt-dlp finished but no media file was found"@)
                },
                None => fails(Seq::empty(), "yt-dlp finished but no media file was found"@),
            },
        }
    }

    /// A new job, with its first action.
    pub fn start(video: bool) -> (r: (MediaJob, Turn<MediaAction>))
        ensures
            r.0 == (MediaJob { phase: MediaPhase::Attempt, video, attempt: 0 }),
            r.0.wf(),
            r.1@ == goes_on(
                seq![event("stage"@, "download"@, "Downloading YouTube media"@)],
                MediaAction::Attempt(0),
            ),
    {
        let mut events = no_events();
        add_event(&mut events, "stage", "download", "Downloading YouTube media");
        assert(events_of(events@) =~= seq![
            event("stage"@, "download"@, "Downloading YouTube media"@),
        ]);
        (
            MediaJob { phase: MediaPhase::Attempt, video, attempt: 0 },
            go_on(events, MediaAction::Attempt(0)),
        )
    }

    /// Tells the job how its action ended, and gives what it does next.
    pub fn step(&mut self, e: MediaEvent) -> (r: Turn<MediaAction>)
        requires
            old(self).expects(e),
            old(self).wf(),
        ensures
            *final(self) == old(self).after(e),
            final(self).wf(),
            r@ == old(self).reply(e),
    {
        match e {
            MediaEvent::Ended(Ok(_)) => {
                self.phase = MediaPhase::Files;
                go_on(no_events(), MediaAction::ListFiles)
            },
            MediaEvent::Ended(Err(error)) => {
                let all = format_attempts(self.video);
                assert(texts(all@).len() == all@.len());
                if self.attempt + 1 < all.len() {
                    let next: usize = self.attempt + 1;
                    assert(texts(all@)[next as int] == all@[next as int]@);
                    self.attempt = next;
                    let text = joined_text(
                        "Retrying download with fallback format: ",
                        all[next].as_str(),
                    );
                    let mut events = no_events();
                    add_event(&mut events, "warn", "download", text.as_str());
                    assert(events_of(events@) =~= old(self).reply(e).events);
                    go_on(events, MediaAction::Attempt(next))
                } else {
                    self.phase = MediaPhase::Done;
                    fail(no_events(), error)
                }
            },
            MediaEvent::Listed(files) => {
                self.phase = MediaPhase::Done;
                match files {
                    Some(n) => if n > 0 {
                        go_on(no_events(), MediaAction::Finish(n))
                    } else {
                        fail(
                            no_events(),
                            "yt-dlp finished but no media file was found".to_string(),
                        )
                    },
                    None => fail(
                        no_events(),
                        "yt-dlp finished but no media file was found".to_string(),
                    ),
                }
            },
        }
    }
}

/// How far the job is from its end, at most.
pub open spec fn attempts_left(job: MediaJob) -> int {
    match job.phase {
        MediaPhase::Attempt => formats(job.video).len() - job.attempt + 1,
        MediaPhase::Files => 1,
        MediaPhase::Done => 0,
    }
}

/// Every event brings the job nearer to its end; it fails only when the last format failed or
/// nothing was found, and whenever it succeeds there is a file.
pub proof fn law_media_job_ends(job: MediaJob, e: MediaEvent)
    requires
        job.wf(),
        job.expects(e),
    ensures
        0 <= attempts_left(job.after(e)) < attempts_left(job),
        job.reply(e).next is Err ==> e is Listed || job.attempt == formats(job.video).len() - 1,
        job.reply(e).next matches Ok(MediaAction::Finish(n)) ==> n > 0,
{
}

} // verus!
