//! What a running job tells its user.
use vstd::prelude::*;

verus! {

/// A notice to the user of a job: how grave it is, which phase of the job it belongs to, and what
/// it says.
#[derive(Debug, Clone)]
pub struct JobEvent {
    pub level: String,
    pub stage: String,
    pub message: String,
}

/// A notice as mathematical values.
pub struct Event {
    pub level: Seq<char>,
    pub stage: Seq<char>,
    pub message: Seq<char>,
}

impl View for JobEvent {
    type V = Event;

    open spec fn view(&self) -> Event {
        Event { level: self.level@, stage: self.stage@, message: self.message@ }
    }
}

/// The notices of a list.
pub open spec fn events_of(v: Seq<JobEvent>) -> Seq<Event> {
    v.map_values(|e: JobEvent| e@)
}

/// A notice with this level, stage and message.
pub open spec fn event(level: Seq<char>, stage: Seq<char>, message: Seq<char>) -> Event {
    Event { level, stage, message }
}

/// A notice with this level, stage and message.
pub fn job_event(level: &str, stage: &str, message: &str) -> (r: JobEvent)
    ensures
        r@ == event(level@, stage@, message@),
{
    JobEvent {
        level: level.to_string(),
        stage: stage.to_string(),
        message: message.to_string(),
    }
}

pub proof fn lemma_events_push(v: Seq<JobEvent>, e: JobEvent)
    ensures
        events_of(v.push(e)) == events_of(v).push(e@),
{
    assert(events_of(v.push(e)) =~= events_of(v).push(e@));
}

/// Adds a notice to a list.
pub fn add_event(events: &mut Vec<JobEvent>, level: &str, stage: &str, message: &str)
    ensures
        events_of(final(events)@) == events_of(old(events)@).push(event(level@, stage@, message@)),
{
    let e = job_event(level, stage, message);
    proof {
        lemma_events_push(events@, e);
    }
    events.push(e);
}

/// No notices.
pub fn no_events() -> (r: Vec<JobEvent>)
    ensures
        events_of(r@) == Seq::<Event>::empty(),
{
    let r: Vec<JobEvent> = Vec::new();
    assert(events_of(r@) =~= Seq::empty());
    r
}

/// Two texts, one after the other.
pub fn joined_text(a: &str, b: &str) -> (r: String)
    ensures
        r@ == a@ + b@,
{
    let mut r = a.to_string();
    r.append(b);
    r
}

/// What a job does next: notices to its user, and then an action, or its failure.
#[derive(Debug)]
pub struct Turn<A> {
    pub events: Vec<JobEvent>,
    pub next: Result<A, String>,
}

/// What a job does next, as mathematical values.
pub struct Reply<A> {
    pub events: Seq<Event>,
    pub next: Result<A, Seq<char>>,
}

impl<A> View for Turn<A> {
    type V = Reply<A>;

    open spec fn view(&self) -> Reply<A> {
        Reply {
            events: events_of(self.events@),
            next: match self.next {
                Ok(a) => Ok(a),
                Err(e) => Err(e@),
            },
        }
    }
}

/// The job goes on with an action.
pub open spec fn goes_on<A>(events: Seq<Event>, action: A) -> Reply<A> {
    Reply { events, next: Ok(action) }
}

/// The job fails.
pub open spec fn fails<A>(events: Seq<Event>, error: Seq<char>) -> Reply<A> {
    Reply { events, next: Err(error) }
}

/// The job goes on with an action.
pub fn go_on<A>(events: Vec<JobEvent>, action: A) -> (r: Turn<A>)
    ensures
        r@ == goes_on(events_of(events@), action),
{
    Turn { events, next: Ok(action) }
}

/// The job fails.
pub fn fail<A>(events: Vec<JobEvent>, error: String) -> (r: Turn<A>)
    ensures
        r@ == fails::<A>(events_of(events@), error@),
{
    Turn { events, next: Err(error) }
}

/// The notice before sound is extracted from media.
pub fn extracting_event() -> (r: JobEvent)
    ensures
        r@ == event("stage"@, "ffmpeg"@, "Extracting 16 kHz mono WAV with ffmpeg"@),
{
    job_event("stage", "ffmpeg", "Extracting 16 kHz mono WAV with ffmpeg")
}

/// The notice before Whisper runs.
pub fn transcribing_event() -> (r: JobEvent)
    ensures
        r@ == event("stage"@, "whisper"@, "Running whisper.cpp locally"@),
{
    job_event("stage", "whisper", "Running whisper.cpp locally")
}

/// What the user of a job gets when it ended well: the outputs, and what was removed.
#[derive(Debug)]
pub struct JobResult {
    pub status: String,
    pub outputs: Vec<String>,
    pub cleaned: Vec<String>,
}

/// The result of a job that ended well.
pub fn complete(outputs: Vec<String>, cleaned: Vec<String>) -> (r: JobResult)
    ensures
        r.status@ == "complete"@,
        r.outputs == outputs,
        r.cleaned == cleaned,
{
    JobResult { status: "complete".to_string(), outputs, cleaned }
}

} // verus!
