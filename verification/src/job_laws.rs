//! What the jobs for local files, merges, captions and media do after each event.
use vstd::prelude::*;

#[allow(unused_imports)]
use crate::arguments::formats;
#[allow(unused_imports)]
use crate::artifacts::{whisper_files, Artifact, Output, Sidecars, WhisperFiles};
#[allow(unused_imports)]
use crate::caption_job::{CaptionDownload, CaptionEvent, CaptionJob, CaptionPhase, CaptionStep};
#[allow(unused_imports)]
use crate::captions::caption_lines;
#[allow(unused_imports)]
use crate::find::joined;
#[allow(unused_imports)]
use crate::local_job::{LocalAction, LocalEvent, LocalJob, LocalMode, LocalPhase};
#[allow(unused_imports)]
use crate::media_job::{MediaAction, MediaEvent, MediaJob, MediaPhase};
#[allow(unused_imports)]
use crate::merge_job::{trimmed_or_none, MergeAction, MergeEvent, MergeInputs, MergeJob, MergePhase};
#[allow(unused_imports)]
use crate::moving::{action_after, MoveAction};
#[allow(unused_imports)]
use crate::text_laws::{all_white, framed, law_white_space_around_is_cut};
#[allow(unused_imports)]
use crate::youtube_job::{hybrid_files, named_artifacts, MergeCounts};
#[allow(unused_imports)]
use crate::youtube_promises::{
    lemma_add_contains, lemma_hybrid_files, lemma_named_contains, lemma_whisper_files,
};

verus! {

/// What is said ends with the error.
pub open spec fn tells(said: Seq<char>, error: Seq<char>) -> bool {
    error.is_suffix_of(said)
}

proof fn lemma_tells(lead: Seq<char>, error: Seq<char>)
    ensures
        tells(lead + error, error),
        tells(error, error),
{
    let said = lead + error;
    assert(said.subrange(lead.len() as int, said.len() as int) =~= error);
    assert(error.subrange(0, error.len() as int) =~= error);
}

// ---------------------------------------------------------------------------
// Local files
// ---------------------------------------------------------------------------

/// A request names one of two modes that transcribe, or else the file is only converted.
pub proof fn law_modes_have_names(name: Seq<char>)
    ensures
        LocalMode::named("transcribe_only"@) is TranscribeOnly,
        LocalMode::named("convert_transcribe"@) is ConvertTranscribe,
        name != "transcribe_only"@ && name != "convert_transcribe"@ ==> LocalMode::named(
            name,
        ) is ConvertOnly,
{
    reveal_strlit("transcribe_only");
    reveal_strlit("convert_transcribe");
    assert("transcribe_only"@.len() == 15);
    assert("convert_transcribe"@.len() == 18);
}

/// A job for a file begins only if there is one; it then makes its folder and looks for its tools.
pub proof fn law_local_job_needs_its_file(job: LocalJob, path: String)
    ensures
        job.turn(LocalEvent::Input { is_file: true, path }).1.next == Ok::<LocalAction, Seq<char>>(
            LocalAction::CreateOutputDir,
        ),
        job.turn(LocalEvent::Input { is_file: false, path }).1.next matches Err(said) && tells(
            said,
            path@,
        ),
        job.turn(LocalEvent::OutputDir(Ok(()))).1.next == Ok::<LocalAction, Seq<char>>(
            LocalAction::DetectTools,
        ),
{
    lemma_tells("Input file was not found: "@, path@);
}

/// A file that is to be converted needs ffmpeg, and one that is only transcribed does not; that one
/// needs Whisper at once.
pub proof fn law_local_job_needs_the_tools_of_its_mode(
    job: LocalJob,
    ffmpeg: bool,
    whisper_cli: bool,
)
    ensures
        ({
            let (after, reply) = job.turn(LocalEvent::Tools { ffmpeg, whisper_cli });
            &&& after.has_whisper_cli == whisper_cli
            &&& after.mode == job.mode
            &&& reply.next == (if job.mode == LocalMode::TranscribeOnly {
                if whisper_cli {
                    Ok(LocalAction::CheckModel)
                } else {
                    Err("whisper-cli was not found"@)
                }
            } else {
                if ffmpeg {
                    Ok(LocalAction::ConvertToWav)
                } else {
                    Err("ffmpeg was not found"@)
                }
            })
        }),
{
}

/// A file that was converted is an output; the job then ends if that was all, and else goes on to
/// transcribe, for which it needs Whisper.
pub proof fn law_converted_file_is_transcribed_if_asked(job: LocalJob)
    ensures
        ({
            let (after, reply) = job.turn(LocalEvent::Wav(Ok(())));
            &&& after.wav
            &&& after.mode == job.mode
            &&& after.whisper == job.whisper
            &&& reply.next == (if job.mode == LocalMode::ConvertOnly {
                Ok(LocalAction::Finish)
            } else if job.has_whisper_cli {
                Ok(LocalAction::CheckModel)
            } else {
                Err("whisper-cli was not found"@)
            })
        }),
{
}

/// Whisper reads the converted file exactly if there is one, and what it wrote is noted when the job
/// ends.
pub proof fn law_whisper_reads_the_converted_file(job: LocalJob, w: WhisperFiles)
    ensures
        job.turn(LocalEvent::Model(Ok(()))).1.next == Ok::<LocalAction, Seq<char>>(
            LocalAction::RunWhisper { converted: job.wav },
        ),
        job.turn(LocalEvent::Whisper(Ok(w))).1.next == Ok::<LocalAction, Seq<char>>(
            LocalAction::Finish,
        ),
        job.turn(LocalEvent::Whisper(Ok(w))).0.whisper == w,
        job.turn(LocalEvent::Whisper(Ok(w))).0.wav == job.wav,
{
}

/// An action that fails ends the job with its error.
pub proof fn law_failed_action_ends_the_local_job(job: LocalJob, error: String)
    ensures
        ({
            let failed = |e: LocalEvent|
                job.turn(e).0.phase is Done && (job.turn(e).1.next matches Err(said) && tells(
                    said,
                    error@,
                ));
            &&& failed(LocalEvent::OutputDir(Err(error)))
            &&& failed(LocalEvent::Wav(Err(error)))
            &&& failed(LocalEvent::Model(Err(error)))
            &&& failed(LocalEvent::Whisper(Err(error)))
        }),
{
    lemma_tells("Could not create output folder: "@, error@);
}

/// The outputs of a job for a file are the converted file and what Whisper wrote, as far as there
/// are any, and nothing else.
pub proof fn law_local_outputs_are_what_there_is(job: LocalJob, x: Artifact)
    ensures
        job.outputs().contains(x) <==> {
            ||| job.wav && x == Artifact::Named(Output::Converted)
            ||| job.whisper.txt && x == Artifact::Named(Output::WhisperTxt)
            ||| job.whisper.srt && x == Artifact::Named(Output::WhisperSrt)
        },
{
    let a = if job.wav {
        seq![Artifact::Named(Output::Converted)]
    } else {
        Seq::empty()
    };
    let b = named_artifacts(whisper_files(job.whisper));
    lemma_add_contains(a, b, x);
    if job.wav {
        assert(a[0] == Artifact::Named(Output::Converted));
    }
    match x {
        Artifact::Named(o) => {
            lemma_named_contains(whisper_files(job.whisper), o, 0);
            lemma_whisper_files(job.whisper, o);
        },
        Artifact::Media(i) => {
            lemma_named_contains(whisper_files(job.whisper), Output::Converted, i);
        },
        Artifact::TempDir => {
            lemma_named_contains(whisper_files(job.whisper), Output::Converted, 0);
        },
    }
}

// ---------------------------------------------------------------------------
// Merges
// ---------------------------------------------------------------------------

/// Metadata that is named by white space alone is none, and else its name is meant without the
/// white space around it.
pub proof fn law_metadata_without_a_name_is_none(
    before: Seq<char>,
    name: Seq<char>,
    after: Seq<char>,
)
    requires
        all_white(before),
        all_white(after),
        name.len() == 0 || framed(name),
    ensures
        trimmed_or_none(Some(before + name + after)) == (if name.len() == 0 {
            None
        } else {
            Some(name)
        }),
        trimmed_or_none(None) is None,
{
    law_white_space_around_is_cut(before, name, after);
}

/// A merge checks the transcript, then the captions, then the metadata if some is named, and then
/// makes its folder; each that is missing ends it, and is named.
pub proof fn law_merge_needs_its_files(inputs: MergeInputs, merged: Option<bool>)
    ensures
        ({
            let at = |p: MergePhase, yes: bool|
                (MergeJob { phase: p, merged }).turn(inputs, MergeEvent::Checked(yes)).1.next;
            &&& at(MergePhase::WhisperSrt, true) == Ok::<MergeAction, Seq<char>>(
                MergeAction::CheckYoutubeSrt,
            )
            &&& at(MergePhase::YoutubeSrt, true) == Ok::<MergeAction, Seq<char>>(
                if inputs.info_json is Some {
                    MergeAction::CheckInfoJson
                } else {
                    MergeAction::CreateOutputDir
                },
            )
            &&& at(MergePhase::InfoJson, true) == Ok::<MergeAction, Seq<char>>(
                MergeAction::CreateOutputDir,
            )
            &&& at(MergePhase::WhisperSrt, false) matches Err(said) && tells(
                said,
                inputs.whisper_srt@,
            )
            &&& at(MergePhase::YoutubeSrt, false) matches Err(said) && tells(
                said,
                inputs.youtube_srt@,
            )
            &&& inputs.info_json is Some ==> (at(MergePhase::InfoJson, false) matches Err(said)
                && tells(said, inputs.info_json->0@))
        }),
{
    lemma_tells("Whisper SRT was not found: "@, inputs.whisper_srt@);
    lemma_tells("YouTube captions SRT was not found: "@, inputs.youtube_srt@);
    if inputs.info_json is Some {
        lemma_tells("info.json was not found: "@, inputs.info_json->0@);
    }
}

/// With its folder and its names a merge makes the hybrid, and ends with it, or with the error.
pub proof fn law_merge_makes_the_hybrid(
    job: MergeJob,
    inputs: MergeInputs,
    base: String,
    c: MergeCounts,
    error: String,
)
    ensures
        job.turn(inputs, MergeEvent::OutputDir(Ok(()))).1.next == Ok::<MergeAction, Seq<char>>(
            MergeAction::NameOutputs,
        ),
        job.turn(inputs, MergeEvent::Named(base)).1.next == Ok::<MergeAction, Seq<char>>(
            MergeAction::BuildHybrid,
        ),
        job.turn(inputs, MergeEvent::Hybrid(Ok(c))).1.next == Ok::<MergeAction, Seq<char>>(
            MergeAction::Finish,
        ),
        job.turn(inputs, MergeEvent::Hybrid(Ok(c))).0.merged == Some(c.flagged),
        job.turn(inputs, MergeEvent::Hybrid(Err(error))).1.next matches Err(said) && tells(
            said,
            error@,
        ),
        job.turn(inputs, MergeEvent::OutputDir(Err(error))).1.next matches Err(said) && tells(
            said,
            error@,
        ),
{
    lemma_tells("Hybrid merge failed: "@, error@);
    lemma_tells("Could not create output folder: "@, error@);
}

/// The outputs of a merge are both files of the hybrid, with its report if there is one.
pub proof fn law_merge_outputs_are_what_there_is(job: MergeJob, o: Output)
    ensures
        job.outputs().contains(Artifact::Named(o)) <==> {
            ||| job.merged is Some && (o == Output::HybridSrt || o == Output::HybridTxt)
            ||| job.merged == Some(true) && o == Output::HybridFlagged
        },
{
    lemma_named_contains(hybrid_files(job.merged), o, 0);
    lemma_hybrid_files(job.merged, o);
}

// ---------------------------------------------------------------------------
// Captions
// ---------------------------------------------------------------------------

/// Whether or not the download ended well, what it left is looked for: first the metadata, which is
/// noted, and then the captions.
pub proof fn law_captions_are_looked_for_after_any_download(
    job: CaptionJob,
    r: Result<(), String>,
    s: Sidecars,
)
    ensures
        job.reply(CaptionEvent::ToolEnded(r)).next == Ok::<CaptionStep, Seq<char>>(
            CaptionStep::CollectSidecars,
        ),
        job.reply(CaptionEvent::ToolEnded(r)).events.len() == (if r is Ok {
            0nat
        } else {
            1nat
        }),
        job.reply(CaptionEvent::Collected(s)).next == Ok::<CaptionStep, Seq<char>>(
            CaptionStep::FindCaptions,
        ),
        job.after(CaptionEvent::Collected(s)).metadata == s,
{
}

/// Without captions the job ends well, having saved none, and with its metadata.
pub proof fn law_no_captions_are_no_failure(job: CaptionJob)
    ensures
        job.reply(CaptionEvent::Found(None)).next == Ok::<CaptionStep, Seq<char>>(
            CaptionStep::Finish(CaptionDownload { saved: false, metadata: job.metadata }),
        ),
{
}

/// Captions in SubRip form are copied, then read, and then their plain text is written; captions in
/// another form are read, then their plain text is written, and then they are copied. Either way
/// they are saved once both is done.
pub proof fn law_captions_are_saved_with_their_text(job: CaptionJob, content: String)
    ensures
        job.reply(CaptionEvent::Found(Some(true))).next == Ok::<CaptionStep, Seq<char>>(
            CaptionStep::CopyCaptions,
        ),
        job.reply(CaptionEvent::Found(Some(false))).next == Ok::<CaptionStep, Seq<char>>(
            CaptionStep::ReadCaptions,
        ),
        job.after(CaptionEvent::Found(Some(true))).srt,
        !job.after(CaptionEvent::Found(Some(false))).srt,
        job.reply(CaptionEvent::Copied(Ok(()))).next == Ok::<CaptionStep, Seq<char>>(
            if job.srt {
                CaptionStep::ReadCaptions
            } else {
                CaptionStep::Finish(CaptionDownload { saved: true, metadata: job.metadata })
            },
        ),
        job.reply(CaptionEvent::Read(Ok(content))).next == Ok::<CaptionStep, Seq<char>>(
            CaptionStep::WriteText(joined(caption_lines(content@), seq!['\n'])),
        ),
        job.reply(CaptionEvent::Written(Ok(()))).next == Ok::<CaptionStep, Seq<char>>(
            if job.srt {
                CaptionStep::Finish(CaptionDownload { saved: true, metadata: job.metadata })
            } else {
                CaptionStep::CopyCaptions
            },
        ),
{
    reveal_strlit("\n");
    assert("\n"@ =~= seq!['\n']);
}

/// Captions that could not be copied, read or written end the job with the error; and what the job
/// has noted changes only by what it is told.
pub proof fn law_captions_that_cannot_be_saved_fail(job: CaptionJob, error: String, e: CaptionEvent)
    ensures
        job.reply(CaptionEvent::Copied(Err(error))).next matches Err(said) && tells(said, error@),
        job.reply(CaptionEvent::Read(Err(error))).next matches Err(said) && tells(said, error@),
        job.reply(CaptionEvent::Written(Err(error))).next matches Err(said) && tells(said, error@),
        !(e is Collected) ==> job.after(e).metadata == job.metadata,
        !(e is Found) ==> job.after(e).srt == job.srt,
{
    lemma_tells("Could not save SRT captions: "@, error@);
    lemma_tells("Could not save caption file: "@, error@);
    lemma_tells("Could not read captions: "@, error@);
    lemma_tells("Could not save TXT captions: "@, error@);
}

// ---------------------------------------------------------------------------
// Media
// ---------------------------------------------------------------------------

/// A format that succeeds is the last that is tried; one that fails is followed by the next, of
/// which the user is told, and the error of the last one is that of the job. A video has five
/// formats, sound has four.
pub proof fn law_formats_are_tried_in_order(job: MediaJob, error: String)
    requires
        job.wf(),
    ensures
        formats(true).len() == 5,
        formats(false).len() == 4,
        job.reply(MediaEvent::Ended(Ok(()))).next == Ok::<MediaAction, Seq<char>>(
            MediaAction::ListFiles,
        ),
        ({
            let reply = job.reply(MediaEvent::Ended(Err(error)));
            let after = job.after(MediaEvent::Ended(Err(error)));
            if job.attempt + 1 < formats(job.video).len() {
                &&& reply.next == Ok::<MediaAction, Seq<char>>(
                    MediaAction::Attempt((job.attempt + 1) as usize),
                )
                &&& after.attempt == job.attempt + 1
                &&& after.video == job.video
                &&& reply.events.len() == 1
                &&& tells(reply.events[0].message, formats(job.video)[job.attempt + 1])
            } else {
                reply.next == Err::<MediaAction, Seq<char>>(error@)
            }
        }),
{
    if job.attempt + 1 < formats(job.video).len() {
        lemma_tells(
            "Retrying download with fallback format: "@,
            formats(job.video)[job.attempt + 1],
        );
    }
}

/// A download ends well exactly if there is a file, with all that there are.
pub proof fn law_download_needs_a_file(job: MediaJob, files: Option<usize>)
    ensures
        job.reply(MediaEvent::Listed(files)).next == (match files {
            Some(n) => if n > 0 {
                Ok(MediaAction::Finish(n))
            } else {
                Err("yt-dlp finished but no media file was found"@)
            },
            None => Err("yt-dlp finished but no media file was found"@),
        }),
{
}

// ---------------------------------------------------------------------------
// Moves
// ---------------------------------------------------------------------------

/// A move removes what stands at its target, and only then renames; it is done if that works, and
/// else copies, and then removes its source, whether or not that works.
pub proof fn law_move_renames_or_copies(yes: bool)
    ensures
        action_after(MoveAction::CheckTarget, true) is RemoveTarget,
        action_after(MoveAction::CheckTarget, false) is Rename,
        action_after(MoveAction::RemoveTarget, yes) is Rename,
        action_after(MoveAction::Rename, true) is Finish,
        action_after(MoveAction::Rename, false) is Copy,
        action_after(MoveAction::Copy, true) is RemoveSource,
        action_after(MoveAction::Copy, false) is Fail,
        action_after(MoveAction::RemoveSource, yes) is Finish,
{
}

// ---------------------------------------------------------------------------
// What is expected
// ---------------------------------------------------------------------------

/// In each phase a job expects the end of one kind of action, and nothing else.
pub proof fn law_other_events_come_in_their_phase(
    local: LocalJob,
    local_event: LocalEvent,
    caption: CaptionJob,
    caption_event: CaptionEvent,
    media: MediaJob,
    media_event: MediaEvent,
)
    ensures
        local.expects(local_event) <==> match local.phase {
            LocalPhase::Input => local_event is Input,
            LocalPhase::OutputDir => local_event is OutputDir,
            LocalPhase::Tools => local_event is Tools,
            LocalPhase::Wav => local_event is Wav,
            LocalPhase::Model => local_event is Model,
            LocalPhase::Whisper => local_event is Whisper,
            LocalPhase::Done => false,
        },
        caption.expects(caption_event) <==> match caption.phase {
            CaptionPhase::Tool => caption_event is ToolEnded,
            CaptionPhase::Sidecars => caption_event is Collected,
            CaptionPhase::Search => caption_event is Found,
            CaptionPhase::Copy => caption_event is Copied,
            CaptionPhase::Read => caption_event is Read,
            CaptionPhase::Write => caption_event is Written,
            CaptionPhase::Done => false,
        },
        media.expects(media_event) <==> match media.phase {
            MediaPhase::Attempt => media_event is Ended,
            MediaPhase::Files => media_event is Listed,
            MediaPhase::Done => false,
        },
{
}

/// A merge expects its checks, of metadata only where some is named, then its folder, its names and
/// its hybrid; and it waits for the end of the action that it asked for.
pub proof fn law_merge_events_come_in_their_phase(
    job: MergeJob,
    inputs: MergeInputs,
    e: MergeEvent,
)
    ensures
        job.expects(inputs, e) <==> match job.phase {
            MergePhase::WhisperSrt => e is Checked,
            MergePhase::YoutubeSrt => e is Checked,
            MergePhase::InfoJson => e is Checked && inputs.info_json is Some,
            MergePhase::OutputDir => e is OutputDir,
            MergePhase::Names => e is Named,
            MergePhase::Hybrid => e is Hybrid,
            MergePhase::Done => false,
        },
        job.expects(inputs, e) ==> match job.turn(inputs, e).1.next {
            Ok(a) => job.turn(inputs, e).0.phase == match a {
                MergeAction::CheckWhisperSrt => MergePhase::WhisperSrt,
                MergeAction::CheckYoutubeSrt => MergePhase::YoutubeSrt,
                MergeAction::CheckInfoJson => MergePhase::InfoJson,
                MergeAction::CreateOutputDir => MergePhase::OutputDir,
                MergeAction::NameOutputs => MergePhase::Names,
                MergeAction::BuildHybrid => MergePhase::Hybrid,
                MergeAction::Finish => MergePhase::Done,
            },
            Err(_) => job.turn(inputs, e).0.phase is Done,
        },
{
}

/// A download waits for the end of the attempt or of the listing that it asked for.
pub proof fn law_media_job_waits_for_its_action(job: MediaJob, e: MediaEvent)
    requires
        job.expects(e),
    ensures
        match job.reply(e).next {
            Ok(a) => job.after(e).phase == match a {
                MediaAction::Attempt(_) => MediaPhase::Attempt,
                MediaAction::ListFiles => MediaPhase::Files,
                MediaAction::Finish(_) => MediaPhase::Done,
            },
            Err(_) => job.after(e).phase is Done,
        },
        job.reply(e).next matches Ok(MediaAction::Attempt(k)) ==> job.after(e).attempt == k,
        job.after(e).video == job.video,
{
}

} // verus!
