//! What a job for a video promises for each request: what it fetches, what it keeps, and what it
//! says where an action failed.
use vstd::prelude::*;

#[allow(unused_imports)]
use crate::artifacts::{sidecar_files, whisper_files, Artifact, Output, Sidecars, WhisperFiles};
#[allow(unused_imports)]
use crate::caption_job::{caption_files, CaptionDownload};
#[allow(unused_imports)]
use crate::youtube_job::{
    hybrid_files, hybrid_ready, media_artifacts, named_artifacts, MergeCounts, TranscriptSource,
    YoutubeAction, YoutubeEvent, YoutubeJob, YoutubePhase,
};
#[allow(unused_imports)]
use crate::number::decimal;
#[allow(unused_imports)]
use crate::youtube_laws::after_all;

verus! {

// ---------------------------------------------------------------------------
// Requests
// ---------------------------------------------------------------------------

/// A request names its source by one of six words; every other word is none of them.
pub proof fn law_sources_have_names(name: Seq<char>)
    ensures
        TranscriptSource::named("captions_fallback"@) is CaptionsFallback,
        TranscriptSource::named("captions_only"@) is CaptionsOnly,
        TranscriptSource::named("whisper_only"@) is WhisperOnly,
        TranscriptSource::named("both"@) is Both,
        TranscriptSource::named("hybrid"@) is Hybrid,
        TranscriptSource::named("none"@) is Media,
        name != "captions_fallback"@ && name != "captions_only"@ && name != "whisper_only"@ && name
            != "both"@ && name != "hybrid"@ && name != "none"@ ==> TranscriptSource::named(
            name,
        ) is Unknown,
{
    reveal_strlit("captions_fallback");
    reveal_strlit("captions_only");
    reveal_strlit("whisper_only");
    reveal_strlit("both");
    reveal_strlit("hybrid");
    reveal_strlit("none");
    assert("captions_only"@.len() == 13);
    assert("captions_fallback"@.len() == 17);
    assert("whisper_only"@.len() == 12);
    assert("both"@.len() == 4);
    assert("hybrid"@.len() == 6);
    assert("none"@[0] != "both"@[0]);
}

/// What was asked for stays as it is, whatever happens.
pub proof fn law_request_stays(job: YoutubeJob, events: Seq<YoutubeEvent>)
    ensures
        after_all(job, events).source == job.source,
        after_all(job, events).keep_media == job.keep_media,
        after_all(job, events).video == job.video,
    decreases events.len(),
{
    if events.len() > 0 {
        law_request_stays(job, events.drop_last());
        lemma_request_stays(after_all(job, events.drop_last()), events.last());
    }
}

proof fn lemma_request_stays(job: YoutubeJob, e: YoutubeEvent)
    ensures
        job.turn(e).0.source == job.source,
        job.turn(e).0.keep_media == job.keep_media,
        job.turn(e).0.video == job.video,
{
}

/// The transcript is made with Whisper: always for Whisper alone, for both and for a hybrid, and
/// where captions are preferred if there are none.
pub open spec fn needs_whisper(source: TranscriptSource, captions: bool) -> bool {
    match source {
        TranscriptSource::WhisperOnly => true,
        TranscriptSource::Both => true,
        TranscriptSource::Hybrid => true,
        TranscriptSource::CaptionsFallback => !captions,
        TranscriptSource::CaptionsOnly => false,
        TranscriptSource::Media => false,
        TranscriptSource::Unknown => false,
    }
}

// ---------------------------------------------------------------------------
// Media
// ---------------------------------------------------------------------------

/// A download goes to the folder of the outputs whenever the media is to be kept, or is all that is
/// asked for, and else to the temporary folder; this holds for every source, and whether or not
/// captions were saved. It is a video exactly if one was asked for.
pub proof fn law_kept_media_goes_to_the_outputs(job: YoutubeJob, e: YoutubeEvent)
    ensures
        job.turn(e).1.next matches Ok(YoutubeAction::DownloadMedia { kept, video }) ==> kept == (
        job.keep_media || job.source == TranscriptSource::Media) && video == job.video,
        job.turn(e).1.next matches Ok(YoutubeAction::CollectSidecars { kept }) ==> kept == (
        job.keep_media || job.source == TranscriptSource::Media),
{
}

proof fn lemma_media_listed(s: Seq<Artifact>, n: nat, i: usize)
    requires
        n <= usize::MAX,
        s == media_artifacts(n),
    ensures
        s.contains(Artifact::Media(i)) <==> i < n,
{
    if i < n {
        assert(s[i as int] == Artifact::Media(i));
    }
    if s.contains(Artifact::Media(i)) {
        let k = choose|k: int| 0 <= k < s.len() && s[k] == Artifact::Media(i);
        assert(k as usize == i);
    }
}

pub proof fn lemma_add_contains(a: Seq<Artifact>, b: Seq<Artifact>, x: Artifact)
    ensures
        (a + b).contains(x) <==> a.contains(x) || b.contains(x),
{
    if a.contains(x) {
        let k = choose|k: int| 0 <= k < a.len() && a[k] == x;
        assert((a + b)[k] == x);
    }
    if b.contains(x) {
        let k = choose|k: int| 0 <= k < b.len() && b[k] == x;
        assert((a + b)[a.len() + k] == x);
    }
    if (a + b).contains(x) {
        let k = choose|k: int| 0 <= k < (a + b).len() && (a + b)[k] == x;
        if k < a.len() {
            assert(a[k] == x);
        } else {
            assert(b[k - a.len()] == x);
        }
    }
}

pub proof fn lemma_named_contains(s: Seq<Output>, o: Output, i: usize)
    ensures
        named_artifacts(s).contains(Artifact::Named(o)) <==> s.contains(o),
        !named_artifacts(s).contains(Artifact::Media(i)),
        !named_artifacts(s).contains(Artifact::TempDir),
{
    let t = named_artifacts(s);
    if s.contains(o) {
        let k = choose|k: int| 0 <= k < s.len() && s[k] == o;
        assert(t[k] == Artifact::Named(o));
    }
    if t.contains(Artifact::Named(o)) {
        let k = choose|k: int| 0 <= k < t.len() && t[k] == Artifact::Named(o);
        assert(t[k] == Artifact::Named(s[k]));
    }
}

/// What the outputs are made of.
proof fn lemma_parts(job: YoutubeJob, x: Artifact)
    ensures
        job.outputs().contains(x) <==> {
            ||| named_artifacts(caption_files(job.captions)).contains(x)
            ||| named_artifacts(sidecar_files(job.caption_sidecars)).contains(x)
            ||| named_artifacts(sidecar_files(job.further_sidecars())).contains(x)
            ||| job.keeps_media() && media_artifacts(job.media as nat).contains(x)
            ||| named_artifacts(whisper_files(job.whisper)).contains(x)
            ||| named_artifacts(hybrid_files(job.merged)).contains(x)
        },
{
    let a = named_artifacts(caption_files(job.captions));
    let b = named_artifacts(sidecar_files(job.caption_sidecars));
    let c = named_artifacts(sidecar_files(job.further_sidecars()));
    let d = if job.keeps_media() {
        media_artifacts(job.media as nat)
    } else {
        Seq::empty()
    };
    let w = named_artifacts(whisper_files(job.whisper));
    let h = named_artifacts(hybrid_files(job.merged));
    lemma_add_contains(a, b, x);
    lemma_add_contains(a + b, c, x);
    lemma_add_contains(a + b + c, d, x);
    lemma_add_contains(a + b + c + d, w, x);
    lemma_add_contains(a + b + c + d + w, h, x);
}

/// Every media file of a job that keeps its media is among the outputs and none is removed; every
/// media file of any other job is removed and none is among the outputs. This holds for every
/// source, with and without captions.
pub proof fn law_media_is_kept_or_removed(job: YoutubeJob, i: usize)
    ensures
        job.outputs().contains(Artifact::Media(i)) <==> i < job.media && (job.keep_media || job.source
            == TranscriptSource::Media),
        job.leftovers().contains(Artifact::Media(i)) <==> i < job.media && !job.keep_media
            && job.source != TranscriptSource::Media,
{
    let x = Artifact::Media(i);
    let o = Output::InfoJson;
    lemma_parts(job, x);
    lemma_named_contains(caption_files(job.captions), o, i);
    lemma_named_contains(sidecar_files(job.caption_sidecars), o, i);
    lemma_named_contains(sidecar_files(job.further_sidecars()), o, i);
    lemma_named_contains(whisper_files(job.whisper), o, i);
    lemma_named_contains(hybrid_files(job.merged), o, i);
    lemma_media_listed(media_artifacts(job.media as nat), job.media as nat, i);
    let t = seq![Artifact::TempDir];
    let m = if job.keeps_media() {
        Seq::empty()
    } else {
        media_artifacts(job.media as nat)
    };
    let w = if job.wav {
        seq![Artifact::Named(Output::WhisperInput)]
    } else {
        Seq::empty()
    };
    lemma_add_contains(t, m, x);
    lemma_add_contains(t + m, w, x);
}

/// Which files the outputs name: both caption files if captions were saved, the metadata that came
/// with the captions or with the media, what Whisper wrote, and the files of a hybrid, with its
/// report if there is one. Neither the sound that was made for Whisper nor the temporary folder is
/// among them.
pub proof fn law_outputs_are_what_there_is(job: YoutubeJob)
    ensures
        job.outputs().contains(Artifact::Named(Output::CaptionSrt)) <==> job.captions,
        job.outputs().contains(Artifact::Named(Output::CaptionTxt)) <==> job.captions,
        job.outputs().contains(Artifact::Named(Output::Description)) <==> (
        job.caption_sidecars.description || job.media_sidecars.description),
        job.outputs().contains(Artifact::Named(Output::InfoJson)) <==> (
        job.caption_sidecars.info_json || job.media_sidecars.info_json),
        job.outputs().contains(Artifact::Named(Output::WhisperTxt)) <==> job.whisper.txt,
        job.outputs().contains(Artifact::Named(Output::WhisperSrt)) <==> job.whisper.srt,
        job.outputs().contains(Artifact::Named(Output::HybridSrt)) <==> job.merged is Some,
        job.outputs().contains(Artifact::Named(Output::HybridTxt)) <==> job.merged is Some,
        job.outputs().contains(Artifact::Named(Output::HybridFlagged)) <==> job.merged == Some(true),
        !job.outputs().contains(Artifact::Named(Output::WhisperInput)),
        !job.outputs().contains(Artifact::Named(Output::Converted)),
        !job.outputs().contains(Artifact::TempDir),
{
    lemma_named_output(job, Output::CaptionSrt);
    lemma_named_output(job, Output::CaptionTxt);
    lemma_named_output(job, Output::Description);
    lemma_named_output(job, Output::InfoJson);
    lemma_named_output(job, Output::WhisperTxt);
    lemma_named_output(job, Output::WhisperSrt);
    lemma_named_output(job, Output::HybridSrt);
    lemma_named_output(job, Output::HybridTxt);
    lemma_named_output(job, Output::HybridFlagged);
    lemma_named_output(job, Output::WhisperInput);
    lemma_named_output(job, Output::Converted);
}

proof fn lemma_named_output(job: YoutubeJob, o: Output)
    ensures
        job.outputs().contains(Artifact::Named(o)) <==> match o {
            Output::CaptionSrt => job.captions,
            Output::CaptionTxt => job.captions,
            Output::Description => job.caption_sidecars.description || job.media_sidecars.description,
            Output::InfoJson => job.caption_sidecars.info_json || job.media_sidecars.info_json,
            Output::WhisperInput => false,
            Output::Converted => false,
            Output::WhisperTxt => job.whisper.txt,
            Output::WhisperSrt => job.whisper.srt,
            Output::HybridSrt => job.merged is Some,
            Output::HybridTxt => job.merged is Some,
            Output::HybridFlagged => job.merged == Some(true),
        },
        !job.outputs().contains(Artifact::TempDir),
{
    lemma_parts(job, Artifact::Named(o));
    lemma_parts(job, Artifact::TempDir);
    lemma_named_contains(caption_files(job.captions), o, 0);
    lemma_named_contains(sidecar_files(job.caption_sidecars), o, 0);
    lemma_named_contains(sidecar_files(job.further_sidecars()), o, 0);
    lemma_named_contains(whisper_files(job.whisper), o, 0);
    lemma_named_contains(hybrid_files(job.merged), o, 0);
    lemma_caption_files(job.captions, o);
    lemma_sidecar_files(job.caption_sidecars, o);
    lemma_sidecar_files(job.further_sidecars(), o);
    lemma_whisper_files(job.whisper, o);
    lemma_hybrid_files(job.merged, o);
    let m = media_artifacts(job.media as nat);
    assert forall|k: int| 0 <= k < m.len() implies #[trigger] m[k] is Media by {}
}

proof fn lemma_caption_files(saved: bool, o: Output)
    ensures
        caption_files(saved).contains(o) <==> saved && (o == Output::CaptionSrt || o
            == Output::CaptionTxt),
{
    let s = caption_files(saved);
    if saved {
        assert(s[0] == Output::CaptionSrt);
        assert(s[1] == Output::CaptionTxt);
    }
}

proof fn lemma_sidecar_files(c: Sidecars, o: Output)
    ensures
        sidecar_files(c).contains(o) <==> (c.description && o == Output::Description) || (c.info_json
            && o == Output::InfoJson),
{
    let s = sidecar_files(c);
    if c.description {
        assert(s[0] == Output::Description);
    }
    if c.info_json {
        assert(s[s.len() - 1] == Output::InfoJson);
    }
}

pub proof fn lemma_whisper_files(w: WhisperFiles, o: Output)
    ensures
        whisper_files(w).contains(o) <==> (w.txt && o == Output::WhisperTxt) || (w.srt && o
            == Output::WhisperSrt),
{
    let s = whisper_files(w);
    if w.txt {
        assert(s[0] == Output::WhisperTxt);
    }
    if w.srt {
        assert(s[s.len() - 1] == Output::WhisperSrt);
    }
}

pub proof fn lemma_hybrid_files(merged: Option<bool>, o: Output)
    ensures
        hybrid_files(merged).contains(o) <==> (merged is Some && (o == Output::HybridSrt || o
            == Output::HybridTxt)) || (merged == Some(true) && o == Output::HybridFlagged),
{
    let s = hybrid_files(merged);
    if merged is Some {
        assert(s[0] == Output::HybridSrt);
        assert(s[1] == Output::HybridTxt);
        if merged == Some(true) {
            assert(s[2] == Output::HybridFlagged);
        }
    }
}

/// What is removed is the temporary folder, the media that is not kept, the sound that was made for
/// Whisper, and nothing else.
pub proof fn law_only_temporary_things_are_removed(job: YoutubeJob, o: Output)
    ensures
        job.leftovers().contains(Artifact::TempDir),
        job.leftovers().contains(Artifact::Named(o)) <==> job.wav && o == Output::WhisperInput,
{
    let t = seq![Artifact::TempDir];
    let m = if job.keeps_media() {
        Seq::empty()
    } else {
        media_artifacts(job.media as nat)
    };
    let w = if job.wav {
        seq![Artifact::Named(Output::WhisperInput)]
    } else {
        Seq::empty()
    };
    let x = Artifact::Named(o);
    assert(t[0] == Artifact::TempDir);
    lemma_add_contains(t, m, Artifact::TempDir);
    lemma_add_contains(t + m, w, Artifact::TempDir);
    lemma_add_contains(t, m, x);
    lemma_add_contains(t + m, w, x);
    assert forall|k: int| 0 <= k < m.len() implies #[trigger] m[k] is Media by {}
    if job.wav {
        assert(w[0] == Artifact::Named(Output::WhisperInput));
    }
}

// ---------------------------------------------------------------------------
// What follows what
// ---------------------------------------------------------------------------

/// Once the title is known, captions are asked for exactly if the source is one that has captions:
/// captions with Whisper to fall back on, captions alone, both, or a hybrid.
pub proof fn law_captions_are_fetched_where_wanted(job: YoutubeJob, base: String)
    ensures
        (job.turn(YoutubeEvent::Title(base)).1.next matches Ok(YoutubeAction::DownloadCaptions))
            <==> job.source == TranscriptSource::CaptionsFallback || job.source
            == TranscriptSource::CaptionsOnly || job.source == TranscriptSource::Both || job.source
            == TranscriptSource::Hybrid,
{
}

/// What captions there are, and their metadata, is noted; and then media is downloaded exactly if it
/// is to be kept, is all that is asked for, or is needed by Whisper. A job for captions alone that
/// has none downloads nothing.
pub proof fn law_media_is_fetched_where_needed(job: YoutubeJob, d: CaptionDownload)
    ensures
        ({
            let (after, reply) = job.turn(YoutubeEvent::Captions(Ok(d)));
            let none = job.source == TranscriptSource::CaptionsOnly && !d.saved;
            &&& after.captions == d.saved
            &&& after.caption_sidecars == d.metadata
            &&& reply.next is Ok
            &&& (reply.next matches Ok(YoutubeAction::DownloadMedia { .. })) <==> !none && (
            job.keep_media || job.source == TranscriptSource::Media || needs_whisper(
                job.source,
                d.saved,
            ))
        }),
{
}

/// Where no captions are wanted, the same holds once the title is known.
pub proof fn law_media_is_fetched_without_captions(job: YoutubeJob, base: String)
    requires
        job.source == TranscriptSource::WhisperOnly || job.source == TranscriptSource::Media
            || job.source == TranscriptSource::Unknown,
    ensures
        (job.turn(YoutubeEvent::Title(base)).1.next matches Ok(YoutubeAction::DownloadMedia { .. }))
            <==> job.keep_media || job.source != TranscriptSource::Unknown,
{
}

/// Once the media is there, Whisper is made ready exactly if the transcript needs it; it then fails
/// if one of its tools is missing, and a missing tool that is not needed does no harm.
pub proof fn law_whisper_runs_where_needed(job: YoutubeJob, s: Sidecars)
    ensures
        ({
            let (after, reply) = job.turn(YoutubeEvent::Collected(s));
            let needed = needs_whisper(job.source, job.captions);
            &&& after.media_sidecars == s
            &&& (reply.next matches Ok(YoutubeAction::CheckModel)) <==> needed && job.has_whisper_cli
                && job.has_ffmpeg
            &&& reply.next is Err <==> needed && !(job.has_whisper_cli && job.has_ffmpeg)
            &&& needed && !job.has_whisper_cli ==> reply.next == Err::<YoutubeAction, Seq<char>>(
                "whisper-cli was not found"@,
            )
            &&& needed && job.has_whisper_cli && !job.has_ffmpeg ==> reply.next == Err::<
                YoutubeAction,
                Seq<char>,
            >("ffmpeg was not found"@)
        }),
{
}

/// Whisper is run on the sound of the file in which sound was found, after its model was checked and
/// the sound was converted.
pub proof fn law_whisper_reads_the_sound_that_was_found(job: YoutubeJob, i: usize)
    ensures
        job.turn(YoutubeEvent::Model(Ok(()))).1.next == Ok::<YoutubeAction, Seq<char>>(
            YoutubeAction::FindAudio,
        ),
        job.turn(YoutubeEvent::Audio(Some(i))).1.next == Ok::<YoutubeAction, Seq<char>>(
            YoutubeAction::ConvertToWav(i),
        ),
        job.turn(YoutubeEvent::Wav(Ok(()))).1.next == Ok::<YoutubeAction, Seq<char>>(
            YoutubeAction::RunWhisper,
        ),
        job.turn(YoutubeEvent::Wav(Ok(()))).0.wav,
        job.turn(YoutubeEvent::Audio(None)).1.next is Err,
{
}

/// With the transcript of Whisper, a hybrid is made exactly if one is asked for and there are both
/// subtitle files; it is told of the metadata if any came. Every other job tidies up.
pub proof fn law_hybrid_is_made_of_both(job: YoutubeJob, w: WhisperFiles)
    ensures
        ({
            let (after, reply) = job.turn(YoutubeEvent::Whisper(Ok(w)));
            &&& after.whisper == w
            &&& job.source == TranscriptSource::Hybrid && w.srt && job.captions ==> reply.next == Ok::<
                YoutubeAction,
                Seq<char>,
            >(
                YoutubeAction::BuildHybrid {
                    info_json: job.caption_sidecars.info_json || job.media_sidecars.info_json,
                },
            )
            &&& !(job.source == TranscriptSource::Hybrid && w.srt && job.captions) ==> reply.next
                == Ok::<YoutubeAction, Seq<char>>(YoutubeAction::Clean)
        }),
{
}

/// A job for captions that needs no media tidies up as soon as they are saved.
pub proof fn law_captions_suffice(job: YoutubeJob, d: CaptionDownload)
    requires
        d.saved,
        !job.keep_media,
        job.source == TranscriptSource::CaptionsFallback || job.source
            == TranscriptSource::CaptionsOnly,
    ensures
        job.turn(YoutubeEvent::Captions(Ok(d))).1.next == Ok::<YoutubeAction, Seq<char>>(
            YoutubeAction::Clean,
        ),
{
}

/// Whether or not a hybrid could be made, the job goes on to tidy up and then ends well; a hybrid
/// that was made is noted, and one that failed is not.
pub proof fn law_failed_hybrid_is_no_failure(job: YoutubeJob, r: Result<MergeCounts, String>)
    ensures
        ({
            let (after, reply) = job.turn(YoutubeEvent::Hybrid(r));
            &&& reply.next == Ok::<YoutubeAction, Seq<char>>(YoutubeAction::Clean)
            &&& after.merged == (match r {
                Ok(c) => Some(c.flagged),
                Err(_) => job.merged,
            })
            &&& after.turn(YoutubeEvent::Cleaned(0)).1.next == Ok::<YoutubeAction, Seq<char>>(
                YoutubeAction::Finish,
            )
        }),
{
}

/// Any other action that fails ends the job, with what was said of it at the end of its error.
pub proof fn law_failed_action_ends_the_job(job: YoutubeJob, error: String)
    ensures
        ({
            let failed = |e: YoutubeEvent|
                job.turn(e).0.phase is Done && (job.turn(e).1.next matches Err(said)
                    && error@.is_suffix_of(said));
            &&& failed(YoutubeEvent::OutputDir(Err(error)))
            &&& failed(YoutubeEvent::TempDir(Err(error)))
            &&& failed(YoutubeEvent::Captions(Err(error)))
            &&& failed(YoutubeEvent::Media(Err(error)))
            &&& failed(YoutubeEvent::Model(Err(error)))
            &&& failed(YoutubeEvent::Wav(Err(error)))
            &&& failed(YoutubeEvent::Whisper(Err(error)))
        }),
{
    let e = error@;
    let lead = "Could not create output folder: "@;
    assert((lead + e).subrange(lead.len() as int, (lead + e).len() as int) =~= e);
    assert(e.subrange(0, e.len() as int) =~= e);
}

/// A job cannot begin without yt-dlp, and begins with it, whatever else is missing; what there is is
/// noted.
pub proof fn law_only_yt_dlp_is_always_needed(job: YoutubeJob, ffmpeg: bool, whisper_cli: bool)
    ensures
        ({
            let without = job.turn(YoutubeEvent::Tools { yt_dlp: false, ffmpeg, whisper_cli });
            let (after, reply) = job.turn(YoutubeEvent::Tools { yt_dlp: true, ffmpeg, whisper_cli });
            &&& without.1.next == Err::<YoutubeAction, Seq<char>>("yt-dlp was not found"@)
            &&& reply.next == Ok::<YoutubeAction, Seq<char>>(YoutubeAction::CreateTempDir)
            &&& after.has_ffmpeg == ffmpeg
            &&& after.has_whisper_cli == whisper_cli
        }),
{
}

/// Each event notes what it tells, and nothing else.
pub proof fn law_events_note_only_what_they_tell(job: YoutubeJob, e: YoutubeEvent)
    ensures
        ({
            let after = job.turn(e).0;
            &&& !(e matches YoutubeEvent::Tools { .. }) ==> after.has_ffmpeg == job.has_ffmpeg
                && after.has_whisper_cli == job.has_whisper_cli
            &&& !(e matches YoutubeEvent::Captions(Ok(_))) ==> after.captions == job.captions
                && after.caption_sidecars == job.caption_sidecars
            &&& after.media == (match e {
                YoutubeEvent::Media(Ok(n)) => n,
                _ => job.media,
            })
            &&& after.media_sidecars == (match e {
                YoutubeEvent::Collected(s) => s,
                _ => job.media_sidecars,
            })
            &&& after.wav == (job.wav || e matches YoutubeEvent::Wav(Ok(_)))
            &&& after.whisper == (match e {
                YoutubeEvent::Whisper(Ok(w)) => w,
                _ => job.whisper,
            })
            &&& after.merged == (match e {
                YoutubeEvent::Hybrid(Ok(c)) => Some(c.flagged),
                _ => job.merged,
            })
        }),
{
}

// ---------------------------------------------------------------------------
// What is expected, and what is told
// ---------------------------------------------------------------------------

/// In each phase the job expects the end of one kind of action, and nothing else; when it is done it
/// expects nothing.
pub proof fn law_events_come_in_their_phase(job: YoutubeJob, e: YoutubeEvent)
    ensures
        job.expects(e) <==> match job.phase {
            YoutubePhase::OutputDir => e is OutputDir,
            YoutubePhase::Tools => e is Tools,
            YoutubePhase::TempDir => e is TempDir,
            YoutubePhase::Title => e is Title,
            YoutubePhase::Captions => e is Captions,
            YoutubePhase::NoCaptions => e is Cleaned,
            YoutubePhase::Media => e is Media,
            YoutubePhase::Sidecars => e is Collected,
            YoutubePhase::Model => e is Model,
            YoutubePhase::Audio => e is Audio,
            YoutubePhase::Wav => e is Wav,
            YoutubePhase::Whisper => e is Whisper,
            YoutubePhase::Hybrid => e is Hybrid,
            YoutubePhase::Cleanup => e is Cleaned,
            YoutubePhase::Done => false,
        },
{
}

/// The user is told how the job is named, that captions are missing for a hybrid, that one of its
/// transcripts is missing, how a hybrid ended, that the job tidies up, and that it is done.
pub proof fn law_users_are_told(
    job: YoutubeJob,
    base: String,
    d: CaptionDownload,
    w: WhisperFiles,
    error: String,
    n: usize,
)
    ensures
        ({
            let named = job.turn(YoutubeEvent::Title(base)).1.events;
            let fetched = job.turn(YoutubeEvent::Captions(Ok(d))).1.events;
            let heard = job.turn(YoutubeEvent::Whisper(Ok(w))).1.events;
            let failed = job.turn(YoutubeEvent::Hybrid(Err(error))).1.events;
            let done = job.turn(YoutubeEvent::Cleaned(n)).1.events;
            let hybrid = job.source == TranscriptSource::Hybrid;
            &&& named.len() > 0
            &&& named[0].level == "info"@
            &&& base@.is_suffix_of(named[0].message)
            &&& hybrid && !d.saved ==> fetched.len() > 0 && fetched[0].level == "warn"@
                && fetched[0].stage == "hybrid"@
            &&& hybrid && job.captions && w.srt ==> heard.len() == 1 && heard[0].level == "stage"@
                && heard[0].stage == "hybrid"@
            &&& hybrid && job.captions && !w.srt ==> heard.len() == 2 && heard[0].level == "warn"@
                && heard[0].stage == "hybrid"@ && heard[1].stage == "cleanup"@
            &&& !hybrid || !job.captions ==> heard.len() == 1 && heard[0].stage == "cleanup"@
            &&& failed.len() == 2 && failed[0].level == "warn"@ && error@.is_suffix_of(
                failed[0].message,
            ) && failed[1].stage == "cleanup"@
            &&& job.phase is Cleanup ==> done.len() == 1 && done[0].stage == "done"@
            &&& job.phase is NoCaptions ==> done.len() == 1 && done[0].level == "error"@
        }),
{
    let b = base@;
    let lead = "Output prefix: "@;
    assert((lead + b).subrange(lead.len() as int, (lead + b).len() as int) =~= b);
    let e = error@;
    let start = "Could not build hybrid transcript: "@;
    assert((start + e).subrange(start.len() as int, (start + e).len() as int) =~= e);
}

/// What is said of a hybrid tells how many words were replaced, and then how many runs are reported.
pub proof fn law_hybrid_is_announced_with_its_counts(c: MergeCounts)
    ensures
        hybrid_ready(c) == "Hybrid transcript ready: "@ + decimal(c.replacements as nat)
            + " proper-noun replacement(s), "@ + decimal(c.flagged_segments as nat)
            + " flagged segment(s)"@,
{
}

// ---------------------------------------------------------------------------
// The order of the outputs
// ---------------------------------------------------------------------------

/// Where an output is listed: captions first, then metadata, media, what Whisper wrote, and the
/// hybrid with its report at the end.
pub open spec fn listed_at(x: Artifact) -> int {
    match x {
        Artifact::Named(Output::CaptionSrt) => 0,
        Artifact::Named(Output::CaptionTxt) => 1,
        Artifact::Named(Output::Description) => 2,
        Artifact::Named(Output::InfoJson) => 2,
        Artifact::Media(_) => 3,
        Artifact::Named(Output::WhisperTxt) => 4,
        Artifact::Named(Output::WhisperSrt) => 5,
        Artifact::Named(Output::HybridSrt) => 6,
        Artifact::Named(Output::HybridTxt) => 7,
        Artifact::Named(Output::HybridFlagged) => 8,
        _ => 9,
    }
}

/// The list is in order, and lies between two places.
spec fn in_place(s: Seq<Artifact>, low: int, high: int) -> bool {
    &&& forall|i: int| 0 <= i < s.len() ==> low <= listed_at(#[trigger] s[i]) <= high
    &&& forall|i: int, j: int|
        0 <= i < j < s.len() ==> listed_at(#[trigger] s[i]) <= listed_at(#[trigger] s[j])
    &&& s.no_duplicates()
}

proof fn lemma_in_place_both(
    a: Seq<Artifact>,
    b: Seq<Artifact>,
    low: int,
    cut: int,
    high: int,
)
    requires
        in_place(a, low, cut),
        in_place(b, cut + 1, high),
        low <= cut < high,
    ensures
        in_place(a + b, low, high),
{
    let s = a + b;
    assert forall|i: int| 0 <= i < s.len() implies low <= listed_at(#[trigger] s[i]) <= high && (i
        < a.len() ==> listed_at(s[i]) <= cut) && (i >= a.len() ==> listed_at(s[i]) > cut) by {
        if i < a.len() {
            assert(s[i] == a[i]);
        } else {
            assert(s[i] == b[i - a.len()]);
        }
    }
    assert forall|i: int, j: int| 0 <= i < j < s.len() implies listed_at(#[trigger] s[i])
        <= listed_at(#[trigger] s[j]) && s[i] != s[j] by {
        if j < a.len() {
            assert(s[i] == a[i] && s[j] == a[j]);
        } else if i >= a.len() {
            assert(s[i] == b[i - a.len()] && s[j] == b[j - a.len()]);
        } else {
            assert(listed_at(s[i]) <= cut && listed_at(s[j]) > cut);
        }
    }
}

/// The outputs are listed in order, and each once.
pub proof fn law_outputs_are_listed_in_order(job: YoutubeJob)
    ensures
        job.outputs().no_duplicates(),
        forall|i: int, j: int|
            0 <= i < j < job.outputs().len() ==> listed_at(#[trigger] job.outputs()[i]) <= listed_at(
                #[trigger] job.outputs()[j],
            ),
{
    let a = named_artifacts(caption_files(job.captions));
    let b = named_artifacts(sidecar_files(job.caption_sidecars));
    let c = named_artifacts(sidecar_files(job.further_sidecars()));
    let d = if job.keeps_media() {
        media_artifacts(job.media as nat)
    } else {
        Seq::empty()
    };
    let w = named_artifacts(whisper_files(job.whisper));
    let h = named_artifacts(hybrid_files(job.merged));
    assert(in_place(a, 0, 1));
    assert(in_place(b + c, 2, 2));
    assert(in_place(d, 3, 3));
    assert(in_place(w, 4, 5));
    assert(in_place(h, 6, 8));
    lemma_in_place_both(a, b + c, 0, 1, 2);
    lemma_in_place_both(a + (b + c), d, 0, 2, 3);
    lemma_in_place_both(a + (b + c) + d, w, 0, 3, 5);
    lemma_in_place_both(a + (b + c) + d + w, h, 0, 5, 8);
    assert(a + b + c =~= a + (b + c));
    assert(job.outputs() =~= a + (b + c) + d + w + h);
}

/// A job for captions alone that has none tells how many things it removed when it fails.
pub proof fn law_missing_captions_are_told(job: YoutubeJob, n: usize)
    requires
        job.phase is NoCaptions,
    ensures
        job.turn(YoutubeEvent::Cleaned(n)).1.next == Err::<YoutubeAction, Seq<char>>(
            "No YouTube captions were available. Cleaned "@ + decimal(n as nat)
                + " temporary item(s)."@,
        ),
{
}

} // verus!
