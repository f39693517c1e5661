//! What holds of every job for a video, whatever becomes of its actions.
use vstd::prelude::*;

#[allow(unused_imports)]
use crate::artifacts::{sidecar_files, whisper_files, Artifact, Output, Sidecars, WhisperFiles};
#[allow(unused_imports)]
use crate::caption_job::caption_files;
#[allow(unused_imports)]
use crate::youtube_job::{
    hybrid_files, media_artifacts, named_artifacts, TranscriptSource, YoutubeAction, YoutubeEvent,
    YoutubeJob, YoutubePhase,
};

verus! {

// ---------------------------------------------------------------------------
// The states of a job
// ---------------------------------------------------------------------------

/// The captions are not settled yet.
pub open spec fn before_captions(p: YoutubePhase) -> bool {
    p is OutputDir || p is Tools || p is TempDir || p is Title || p is Captions
}

/// The media is not there yet.
pub open spec fn before_media(p: YoutubePhase) -> bool {
    before_captions(p) || p is NoCaptions || p is Media
}

/// The job has come as far as it will, but for tidying up.
pub open spec fn has_all(p: YoutubePhase) -> bool {
    p is Hybrid || p is Cleanup
}

/// What an action can give: a download that ended well gave a file, and so did Whisper.
pub open spec fn possible(e: YoutubeEvent) -> bool {
    match e {
        YoutubeEvent::Media(Ok(n)) => n > 0,
        YoutubeEvent::Whisper(Ok(w)) => w.txt || w.srt,
        _ => true,
    }
}

/// No output of Whisper.
pub open spec fn no_whisper(w: WhisperFiles) -> bool {
    !w.txt && !w.srt
}

/// What holds of a job at any time: what it has is what it was to fetch, and it has come no further
/// than it may.
pub open spec fn consistent(job: YoutubeJob) -> bool {
    &&& job.captions ==> job.source.wants_captions() && !before_captions(job.phase)
    &&& before_media(job.phase) ==> job.media == 0 && no_whisper(job.whisper) && !job.wav
        && job.merged is None
    &&& job.media > 0 ==> job.downloads()
    &&& job.wav ==> job.runs_whisper()
    &&& !no_whisper(job.whisper) ==> job.runs_whisper()
    &&& job.merged is Some ==> job.source is Hybrid && job.captions && job.whisper.srt
    &&& job.phase is Captions ==> job.source.wants_captions()
    &&& job.phase is NoCaptions ==> job.source is CaptionsOnly && !job.captions
    &&& job.phase is Media ==> job.downloads()
    &&& job.phase is Sidecars ==> job.downloads() && job.media > 0 && no_whisper(job.whisper)
        && job.merged is None
    &&& (job.phase is Model || job.phase is Audio || job.phase is Wav || job.phase is Whisper) ==> {
        &&& job.runs_whisper()
        &&& job.has_ffmpeg
        &&& job.has_whisper_cli
        &&& job.media > 0
        &&& no_whisper(job.whisper)
        &&& job.merged is None
    }
    &&& job.phase is Hybrid ==> job.source is Hybrid && job.captions && job.whisper.srt
        && job.merged is None
    &&& !before_captions(job.phase) && !(job.phase is NoCaptions) && !(job.phase is Done)
        && job.source is CaptionsOnly ==> job.captions
    &&& has_all(job.phase) ==> (job.downloads() ==> job.media > 0) && (job.runs_whisper()
        ==> !no_whisper(job.whisper))
}

/// An event keeps a job consistent, as it is when it starts.
pub proof fn law_job_stays_consistent(job: YoutubeJob, e: YoutubeEvent)
    requires
        consistent(job),
        job.expects(e),
        possible(e),
    ensures
        consistent(job.turn(e).0),
{
}

/// The phase in which the end of an action is awaited.
pub open spec fn awaited(job: YoutubeJob, a: YoutubeAction) -> YoutubePhase {
    match a {
        YoutubeAction::CreateOutputDir => YoutubePhase::OutputDir,
        YoutubeAction::DetectTools => YoutubePhase::Tools,
        YoutubeAction::CreateTempDir => YoutubePhase::TempDir,
        YoutubeAction::FetchTitle => YoutubePhase::Title,
        YoutubeAction::DownloadCaptions => YoutubePhase::Captions,
        YoutubeAction::DownloadMedia { .. } => YoutubePhase::Media,
        YoutubeAction::CollectSidecars { .. } => YoutubePhase::Sidecars,
        YoutubeAction::CheckModel => YoutubePhase::Model,
        YoutubeAction::FindAudio => YoutubePhase::Audio,
        YoutubeAction::ConvertToWav(_) => YoutubePhase::Wav,
        YoutubeAction::RunWhisper => YoutubePhase::Whisper,
        YoutubeAction::BuildHybrid { .. } => YoutubePhase::Hybrid,
        YoutubeAction::Clean => if job.phase is NoCaptions {
            YoutubePhase::NoCaptions
        } else {
            YoutubePhase::Cleanup
        },
        YoutubeAction::Finish => YoutubePhase::Done,
    }
}

/// How far a job in this phase is from its end, at most.
pub open spec fn steps_left(p: YoutubePhase) -> nat {
    match p {
        YoutubePhase::OutputDir => 14,
        YoutubePhase::Tools => 13,
        YoutubePhase::TempDir => 12,
        YoutubePhase::Title => 11,
        YoutubePhase::Captions => 10,
        YoutubePhase::Media => 9,
        YoutubePhase::Sidecars => 8,
        YoutubePhase::Model => 7,
        YoutubePhase::Audio => 6,
        YoutubePhase::Wav => 5,
        YoutubePhase::Whisper => 4,
        YoutubePhase::Hybrid => 3,
        YoutubePhase::Cleanup => 2,
        YoutubePhase::NoCaptions => 1,
        YoutubePhase::Done => 0,
    }
}

/// Every event brings the job nearer to its end; it then waits for the end of the action that it
/// asked for, and after a failure for nothing.
pub proof fn law_job_ends(job: YoutubeJob, e: YoutubeEvent)
    requires
        job.expects(e),
    ensures
        steps_left(job.turn(e).0.phase) < steps_left(job.phase),
        match job.turn(e).1.next {
            Ok(a) => job.turn(e).0.phase == awaited(job.turn(e).0, a),
            Err(_) => job.turn(e).0.phase is Done,
        },
{
}

/// The job after events, one after the other.
pub open spec fn after_all(job: YoutubeJob, events: Seq<YoutubeEvent>) -> YoutubeJob
    decreases events.len(),
{
    if events.len() == 0 {
        job
    } else {
        after_all(job, events.drop_last()).turn(events.last()).0
    }
}

/// Each of the events can happen, and is what the job waits for when it comes.
pub open spec fn is_history(job: YoutubeJob, events: Seq<YoutubeEvent>) -> bool
    decreases events.len(),
{
    events.len() > 0 ==> {
        &&& is_history(job, events.drop_last())
        &&& after_all(job, events.drop_last()).expects(events.last())
        &&& possible(events.last())
    }
}

/// Whatever happens, a job stays consistent, and it ends after as many events as it has steps.
pub proof fn law_every_history_ends(job: YoutubeJob, events: Seq<YoutubeEvent>)
    requires
        consistent(job),
        is_history(job, events),
    ensures
        consistent(after_all(job, events)),
        steps_left(after_all(job, events).phase) + events.len() <= steps_left(job.phase),
    decreases events.len(),
{
    if events.len() > 0 {
        law_every_history_ends(job, events.drop_last());
        law_job_stays_consistent(after_all(job, events.drop_last()), events.last());
        law_job_ends(after_all(job, events.drop_last()), events.last());
    }
}

// ---------------------------------------------------------------------------
// What a job does
// ---------------------------------------------------------------------------

/// Captions are asked for only where the source of the transcript needs them: never for Whisper
/// alone, nor where only media is wanted.
pub proof fn law_captions_only_where_wanted(job: YoutubeJob, e: YoutubeEvent)
    requires
        job.expects(e),
        job.turn(e).1.next == Ok::<YoutubeAction, Seq<char>>(YoutubeAction::DownloadCaptions),
    ensures
        job.source.wants_captions(),
        !(job.source is WhisperOnly),
        !(job.source is Media),
{
}

/// Whisper runs only where it is needed: where captions were to spare it and were saved, it does
/// not run, nor where only captions or only media are wanted.
pub proof fn law_whisper_only_where_needed(job: YoutubeJob, e: YoutubeEvent)
    requires
        consistent(job),
        job.expects(e),
        job.turn(e).1.next == Ok::<YoutubeAction, Seq<char>>(YoutubeAction::RunWhisper),
    ensures
        job.source is WhisperOnly || job.source is Both || job.source is Hybrid || (
        job.source is CaptionsFallback && !job.captions),
        job.has_ffmpeg,
        job.has_whisper_cli,
{
}

/// A hybrid is made only where one is asked for and there are both transcripts.
pub proof fn law_hybrid_only_of_both(job: YoutubeJob, e: YoutubeEvent, info_json: bool)
    requires
        consistent(job),
        job.expects(e),
        job.turn(e).1.next == Ok::<YoutubeAction, Seq<char>>(
            YoutubeAction::BuildHybrid { info_json },
        ),
    ensures
        ({
            let after = job.turn(e).0;
            after.source is Hybrid && after.captions && after.whisper.srt && info_json
                == after.has_info_json()
        }),
{
}

/// A job for captions alone fails where there are none, once its temporary folder was removed.
pub proof fn law_captions_only_fails_without_captions(
    job: YoutubeJob,
    found: YoutubeEvent,
    cleaned: usize,
)
    requires
        job.phase is Captions,
        job.source is CaptionsOnly,
        found matches YoutubeEvent::Captions(Ok(d)) && !d.saved,
    ensures
        ({
            let (tidying, reply) = job.turn(found);
            &&& reply.next == Ok::<YoutubeAction, Seq<char>>(YoutubeAction::Clean)
            &&& tidying.leftovers() == job.leftovers()
            &&& tidying.expects(YoutubeEvent::Cleaned(cleaned))
            &&& tidying.turn(YoutubeEvent::Cleaned(cleaned)).1.next is Err
        }),
{
}

/// Where captions are preferred, Whisper stands in for them exactly if none were saved.
pub proof fn law_fallback_runs_whisper_iff_no_captions(job: YoutubeJob, found: YoutubeEvent)
    requires
        job.phase is Captions,
        job.source is CaptionsFallback,
        found matches YoutubeEvent::Captions(Ok(_)),
    ensures
        ({
            let after = job.turn(found).0;
            &&& after.captions == found->Captions_0->Ok_0.saved
            &&& after.runs_whisper() == !after.captions
            &&& !after.captions ==> after.phase is Media
        }),
{
}

/// A job that ends well has what was asked for: the transcript of Whisper where it was to run,
/// captions where only they were wanted, one of the two where captions were preferred, and the
/// media where it was wanted.
pub proof fn law_finished_job_has_what_was_asked(job: YoutubeJob, e: YoutubeEvent)
    requires
        consistent(job),
        job.expects(e),
        job.turn(e).1.next == Ok::<YoutubeAction, Seq<char>>(YoutubeAction::Finish),
    ensures
        job.source is WhisperOnly || job.source is Both || job.source is Hybrid ==> !no_whisper(
            job.whisper,
        ),
        job.source is CaptionsOnly ==> job.captions,
        job.source is CaptionsFallback ==> job.captions || !no_whisper(job.whisper),
        job.keep_media || job.source is Media ==> job.media > 0,
{
}

/// Where only media is wanted, no transcript is among the outputs.
pub proof fn law_media_job_makes_no_transcript(job: YoutubeJob, o: Output)
    requires
        consistent(job),
        job.source is Media,
        job.outputs().contains(Artifact::Named(o)),
    ensures
        o is Description || o is InfoJson,
{
    lemma_outputs(job);
    assert(may_be_output(job, Artifact::Named(o)));
}

// ---------------------------------------------------------------------------
// What a job leaves
// ---------------------------------------------------------------------------

/// All of the list is so.
pub open spec fn all_of(s: Seq<Artifact>, p: spec_fn(Artifact) -> bool) -> bool {
    forall|i: int| 0 <= i < s.len() ==> p(#[trigger] s[i])
}

proof fn lemma_all_of_both(a: Seq<Artifact>, b: Seq<Artifact>, p: spec_fn(Artifact) -> bool)
    requires
        all_of(a, p),
        all_of(b, p),
    ensures
        all_of(a + b, p),
{
    assert forall|i: int| 0 <= i < (a + b).len() implies p(#[trigger] (a + b)[i]) by {
        if i < a.len() {
            assert((a + b)[i] == a[i]);
        } else {
            assert((a + b)[i] == b[i - a.len()]);
        }
    }
}

/// The file can be among the outputs of the job.
pub open spec fn may_be_output(job: YoutubeJob, x: Artifact) -> bool {
    match x {
        Artifact::TempDir => false,
        Artifact::Media(_) => job.keeps_media(),
        Artifact::Named(o) => match o {
            Output::CaptionSrt | Output::CaptionTxt => job.captions,
            Output::Description | Output::InfoJson => true,
            Output::WhisperInput | Output::Converted => false,
            Output::WhisperTxt | Output::WhisperSrt => !no_whisper(job.whisper),
            Output::HybridSrt | Output::HybridTxt | Output::HybridFlagged => job.merged is Some,
        },
    }
}

/// What can be among the outputs is all that is.
proof fn lemma_outputs(job: YoutubeJob)
    ensures
        forall|x: Artifact| job.outputs().contains(x) ==> #[trigger] may_be_output(job, x),
{
    let p = |x: Artifact| may_be_output(job, x);
    let a = named_artifacts(caption_files(job.captions));
    let b = named_artifacts(sidecar_files(job.caption_sidecars));
    let c = named_artifacts(sidecar_files(job.further_sidecars()));
    let d = if job.keeps_media() {
        media_artifacts(job.media as nat)
    } else {
        Seq::empty()
    };
    let w = named_artifacts(whisper_files(job.whisper));
    let h = named_artifacts(hybrid_files(job.merged));
    lemma_all_of_both(a, b, p);
    lemma_all_of_both(a + b, c, p);
    lemma_all_of_both(a + b + c, d, p);
    lemma_all_of_both(a + b + c + d, w, p);
    lemma_all_of_both(a + b + c + d + w, h, p);
    assert forall|x: Artifact| job.outputs().contains(x) implies #[trigger] may_be_output(job, x) by {
        let k = choose|k: int| 0 <= k < job.outputs().len() && job.outputs()[k] == x;
        assert(p(job.outputs()[k]));
    }
}

/// What can be removed is all that is.
proof fn lemma_leftovers(job: YoutubeJob, x: Artifact)
    requires
        job.leftovers().contains(x),
    ensures
        match x {
            Artifact::TempDir => true,
            Artifact::Media(_) => !job.keeps_media(),
            Artifact::Named(o) => o is WhisperInput,
        },
{
}

/// Nothing that the job lists among its outputs is removed.
pub proof fn law_no_output_is_removed(job: YoutubeJob, x: Artifact)
    ensures
        !(job.outputs().contains(x) && job.leftovers().contains(x)),
{
    if job.outputs().contains(x) && job.leftovers().contains(x) {
        lemma_outputs(job);
        assert(may_be_output(job, x));
        lemma_leftovers(job, x);
    }
}

/// The temporary folder is always removed, and so is media that is not kept and the sound that was
/// made for Whisper.
pub proof fn law_temporary_things_are_removed(job: YoutubeJob)
    ensures
        job.leftovers().contains(Artifact::TempDir),
        !job.keeps_media() ==> forall|i: int|
            0 <= i < job.media ==> #[trigger] job.leftovers().contains(
                Artifact::Media(i as usize),
            ),
        job.wav ==> job.leftovers().contains(Artifact::Named(Output::WhisperInput)),
{
    let all = job.leftovers();
    assert(all[0] == Artifact::TempDir);
    if !job.keeps_media() {
        assert forall|i: int| 0 <= i < job.media implies #[trigger] all.contains(
            Artifact::Media(i as usize),
        ) by {
            assert(all[i + 1] == Artifact::Media(i as usize));
        }
    }
    if job.wav {
        assert(all[all.len() - 1] == Artifact::Named(Output::WhisperInput));
    }
}

} // verus!
