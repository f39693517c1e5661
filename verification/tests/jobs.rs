use youtube_transcribe::artifacts::{Artifact, Output, Sidecars, WhisperFiles};
use youtube_transcribe::caption_job::{
    CaptionAction, CaptionDownload, CaptionEvent, CaptionJob, CaptionPhase, CaptionTurn,
};
use youtube_transcribe::events::{complete, extracting_event, transcribing_event, JobEvent, Turn};
use youtube_transcribe::local_job::{LocalAction, LocalEvent, LocalJob, LocalJobRequest};
use youtube_transcribe::media_job::{MediaAction, MediaEvent, MediaJob};
use youtube_transcribe::merge_job::{
    merge_inputs, MergeAction, MergeEvent, MergeInputs, MergeJob, MergeJobRequest,
};
use youtube_transcribe::youtube_job::{
    should_download_media, MergeCounts, TranscriptSource, YoutubeAction, YoutubeEvent, YoutubeJob,
    YoutubeJobRequest,
};

const NONE: Sidecars = Sidecars { description: false, info_json: false };
const BOTH: Sidecars = Sidecars { description: true, info_json: true };
const WHISPER: WhisperFiles = WhisperFiles { txt: true, srt: true };

fn told(events: &[JobEvent]) -> Vec<String> {
    events.iter().map(|e| format!("{}/{}: {}", e.level, e.stage, e.message)).collect()
}

fn request(source: &str, media_action: &str, keep_media: bool) -> YoutubeJobRequest {
    YoutubeJobRequest {
        url: "u".to_string(),
        output_dir: "/out".to_string(),
        media_action: media_action.to_string(),
        transcript_source: source.to_string(),
        keep_media,
        model_path: None,
        whisper_prompt: None,
        max_len: None,
    }
}

fn tell(job: &mut YoutubeJob, e: YoutubeEvent) -> Turn<YoutubeAction> {
    assert!(job.awaits(&e));
    job.step(e)
}

fn goes(job: &mut YoutubeJob, e: YoutubeEvent) -> YoutubeAction {
    tell(job, e).next.unwrap()
}

fn fails(job: &mut YoutubeJob, e: YoutubeEvent) -> String {
    tell(job, e).next.unwrap_err()
}

fn tools() -> YoutubeEvent {
    YoutubeEvent::Tools { yt_dlp: true, ffmpeg: true, whisper_cli: true }
}

/// A job that is about to learn the title of its video.
fn titled(source: &str, media_action: &str, keep_media: bool) -> YoutubeJob {
    let (mut job, first) = YoutubeJob::start(&request(source, media_action, keep_media));
    assert_eq!(first, YoutubeAction::CreateOutputDir);
    assert_eq!(goes(&mut job, YoutubeEvent::OutputDir(Ok(()))), YoutubeAction::DetectTools);
    assert_eq!(goes(&mut job, tools()), YoutubeAction::CreateTempDir);
    let turn = tell(&mut job, YoutubeEvent::TempDir(Ok(())));
    assert_eq!(told(&turn.events), vec!["stage/setup: Preparing YouTube job"]);
    assert_eq!(turn.next.unwrap(), YoutubeAction::FetchTitle);
    job
}

fn title() -> YoutubeEvent {
    YoutubeEvent::Title("v".to_string())
}

fn captions(saved: bool, metadata: Sidecars) -> YoutubeEvent {
    YoutubeEvent::Captions(Ok(CaptionDownload { saved, metadata }))
}

fn named(outputs: &[Output]) -> Vec<Artifact> {
    outputs.iter().map(|o| Artifact::Named(*o)).collect()
}

/// Ends a job that is tidying up, which removes no output.
fn finish(job: &mut YoutubeJob) {
    let outputs = job.list_outputs();
    let leftovers = job.list_leftovers();
    assert_eq!(leftovers[0], Artifact::TempDir);
    assert!(outputs.iter().all(|a| !leftovers.contains(a)));
    let turn = tell(job, YoutubeEvent::Cleaned(1));
    assert_eq!(told(&turn.events), vec!["stage/done: Job complete"]);
    assert_eq!(turn.next.unwrap(), YoutubeAction::Finish);
}

/// Brings a job from its downloaded media to the end of Whisper.
fn transcribe(job: &mut YoutubeJob, kept: bool) -> Turn<YoutubeAction> {
    assert_eq!(
        goes(job, YoutubeEvent::Media(Ok(2))),
        YoutubeAction::CollectSidecars { kept }
    );
    assert_eq!(goes(job, YoutubeEvent::Collected(BOTH)), YoutubeAction::CheckModel);
    assert_eq!(goes(job, YoutubeEvent::Model(Ok(()))), YoutubeAction::FindAudio);
    assert_eq!(goes(job, YoutubeEvent::Audio(Some(1))), YoutubeAction::ConvertToWav(1));
    assert_eq!(goes(job, YoutubeEvent::Wav(Ok(()))), YoutubeAction::RunWhisper);
    tell(job, YoutubeEvent::Whisper(Ok(WHISPER)))
}

// Jobs for videos

#[test]
fn downloads_media_when_user_keeps_media_after_captions() {
    assert!(should_download_media(false, true, false));
}

#[test]
fn downloads_media_only_where_it_is_needed() {
    assert!(should_download_media(true, false, false));
    assert!(should_download_media(false, false, true));
    assert!(!should_download_media(false, false, false));
}

#[test]
fn reads_the_source_of_a_transcript() {
    assert_eq!(TranscriptSource::parse("captions_fallback"), TranscriptSource::CaptionsFallback);
    assert_eq!(TranscriptSource::parse("captions_only"), TranscriptSource::CaptionsOnly);
    assert_eq!(TranscriptSource::parse("whisper_only"), TranscriptSource::WhisperOnly);
    assert_eq!(TranscriptSource::parse("both"), TranscriptSource::Both);
    assert_eq!(TranscriptSource::parse("hybrid"), TranscriptSource::Hybrid);
    assert_eq!(TranscriptSource::parse("none"), TranscriptSource::Media);
    assert_eq!(TranscriptSource::parse("None"), TranscriptSource::Unknown);
}

#[test]
fn fallback_with_captions_needs_no_media() {
    let mut job = titled("captions_fallback", "audio", false);
    let turn = tell(&mut job, title());
    assert_eq!(told(&turn.events), vec!["info/setup: Output prefix: v"]);
    assert_eq!(turn.next.unwrap(), YoutubeAction::DownloadCaptions);
    let turn = tell(&mut job, captions(true, BOTH));
    assert_eq!(told(&turn.events), vec!["stage/cleanup: Cleaning temporary files"]);
    assert_eq!(turn.next.unwrap(), YoutubeAction::Clean);
    assert_eq!(job.list_leftovers(), vec![Artifact::TempDir]);
    finish(&mut job);
    assert_eq!(
        job.list_outputs(),
        named(&[Output::CaptionSrt, Output::CaptionTxt, Output::Description, Output::InfoJson])
    );
}

#[test]
fn fallback_without_captions_runs_whisper() {
    let mut job = titled("captions_fallback", "audio", false);
    goes(&mut job, title());
    let turn = tell(&mut job, captions(false, Sidecars { description: true, info_json: false }));
    assert!(turn.events.is_empty());
    assert_eq!(turn.next.unwrap(), YoutubeAction::DownloadMedia { kept: false, video: false });
    assert_eq!(transcribe(&mut job, false).next.unwrap(), YoutubeAction::Clean);
    assert_eq!(
        job.list_leftovers(),
        vec![
            Artifact::TempDir,
            Artifact::Media(0),
            Artifact::Media(1),
            Artifact::Named(Output::WhisperInput),
        ]
    );
    finish(&mut job);
    assert_eq!(
        job.list_outputs(),
        named(&[Output::Description, Output::InfoJson, Output::WhisperTxt, Output::WhisperSrt])
    );
}

#[test]
fn captions_only_fails_without_captions() {
    let mut job = titled("captions_only", "audio", false);
    assert_eq!(goes(&mut job, title()), YoutubeAction::DownloadCaptions);
    assert_eq!(goes(&mut job, captions(false, NONE)), YoutubeAction::Clean);
    assert_eq!(job.list_leftovers(), vec![Artifact::TempDir]);
    let turn = tell(&mut job, YoutubeEvent::Cleaned(1));
    assert_eq!(
        told(&turn.events),
        vec!["error/captions: No YouTube captions were available for this URL"]
    );
    assert_eq!(
        turn.next.unwrap_err(),
        "No YouTube captions were available. Cleaned 1 temporary item(s)."
    );
}

#[test]
fn media_job_makes_no_transcript() {
    let mut job = titled("none", "video", false);
    assert_eq!(
        goes(&mut job, title()),
        YoutubeAction::DownloadMedia { kept: true, video: true }
    );
    assert_eq!(
        goes(&mut job, YoutubeEvent::Media(Ok(1))),
        YoutubeAction::CollectSidecars { kept: true }
    );
    assert_eq!(goes(&mut job, YoutubeEvent::Collected(NONE)), YoutubeAction::Clean);
    finish(&mut job);
    assert_eq!(job.list_outputs(), vec![Artifact::Media(0)]);
    assert_eq!(job.list_leftovers(), vec![Artifact::TempDir]);
}

#[test]
fn whisper_only_ignores_captions() {
    let mut job = titled("whisper_only", "audio", true);
    assert_eq!(
        goes(&mut job, title()),
        YoutubeAction::DownloadMedia { kept: true, video: false }
    );
    assert_eq!(transcribe(&mut job, true).next.unwrap(), YoutubeAction::Clean);
    finish(&mut job);
    let mut expected = named(&[Output::Description, Output::InfoJson]);
    expected.extend([Artifact::Media(0), Artifact::Media(1)]);
    expected.extend(named(&[Output::WhisperTxt, Output::WhisperSrt]));
    assert_eq!(job.list_outputs(), expected);
    assert_eq!(
        job.list_leftovers(),
        vec![Artifact::TempDir, Artifact::Named(Output::WhisperInput)]
    );
}

#[test]
fn unknown_source_makes_nothing() {
    let mut job = titled("later", "audio", false);
    assert_eq!(goes(&mut job, title()), YoutubeAction::Clean);
    finish(&mut job);
    assert!(job.list_outputs().is_empty());
}

#[test]
fn hybrid_job_merges_both_transcripts() {
    let mut job = titled("hybrid", "audio", false);
    goes(&mut job, title());
    goes(&mut job, captions(true, NONE));
    let turn = transcribe(&mut job, false);
    assert_eq!(
        told(&turn.events),
        vec!["stage/hybrid: Merging Whisper prose with YouTube proper nouns"]
    );
    assert_eq!(turn.next.unwrap(), YoutubeAction::BuildHybrid { info_json: true });
    let counts = MergeCounts { flagged: true, replacements: 12, flagged_segments: 3 };
    let turn = tell(&mut job, YoutubeEvent::Hybrid(Ok(counts)));
    assert_eq!(
        told(&turn.events),
        vec![
            "stage/hybrid: Hybrid transcript ready: 12 proper-noun replacement(s), 3 flagged segment(s)",
            "stage/cleanup: Cleaning temporary files",
        ]
    );
    finish(&mut job);
    assert_eq!(
        job.list_outputs(),
        named(&[
            Output::CaptionSrt,
            Output::CaptionTxt,
            Output::Description,
            Output::InfoJson,
            Output::WhisperTxt,
            Output::WhisperSrt,
            Output::HybridSrt,
            Output::HybridTxt,
            Output::HybridFlagged,
        ])
    );
}

#[test]
fn hybrid_job_survives_a_failed_merge() {
    let mut job = titled("hybrid", "audio", false);
    goes(&mut job, title());
    goes(&mut job, captions(true, NONE));
    transcribe(&mut job, false);
    let turn = tell(&mut job, YoutubeEvent::Hybrid(Err("no".to_string())));
    assert_eq!(
        told(&turn.events),
        vec![
            "warn/hybrid: Could not build hybrid transcript: no",
            "stage/cleanup: Cleaning temporary files",
        ]
    );
    assert_eq!(turn.next.unwrap(), YoutubeAction::Clean);
    assert!(!job.list_outputs().contains(&Artifact::Named(Output::HybridSrt)));
}

#[test]
fn hybrid_job_without_captions_falls_back() {
    let mut job = titled("hybrid", "audio", false);
    goes(&mut job, title());
    let turn = tell(&mut job, captions(false, NONE));
    assert_eq!(
        told(&turn.events),
        vec![
            "warn/hybrid: No YouTube captions found — falling back to Whisper-only; no merge will be produced"
        ]
    );
    let turn = transcribe(&mut job, false);
    assert_eq!(told(&turn.events), vec!["stage/cleanup: Cleaning temporary files"]);
    assert_eq!(turn.next.unwrap(), YoutubeAction::Clean);
}

#[test]
fn hybrid_job_without_subtitles_of_whisper_skips_the_merge() {
    let mut job = titled("hybrid", "audio", false);
    goes(&mut job, title());
    goes(&mut job, captions(true, NONE));
    goes(&mut job, YoutubeEvent::Media(Ok(1)));
    goes(&mut job, YoutubeEvent::Collected(NONE));
    goes(&mut job, YoutubeEvent::Model(Ok(())));
    goes(&mut job, YoutubeEvent::Audio(Some(0)));
    goes(&mut job, YoutubeEvent::Wav(Ok(())));
    let only_text = WhisperFiles { txt: true, srt: false };
    let turn = tell(&mut job, YoutubeEvent::Whisper(Ok(only_text)));
    assert_eq!(
        told(&turn.events),
        vec![
            "warn/hybrid: Missing one of the source transcripts — skipping merge",
            "stage/cleanup: Cleaning temporary files",
        ]
    );
}

#[test]
fn video_job_fails_as_its_actions_do() {
    let start = |source: &str| YoutubeJob::start(&request(source, "audio", false)).0;
    let e = || "e".to_string();
    assert_eq!(
        fails(&mut start("both"), YoutubeEvent::OutputDir(Err(e()))),
        "Could not create output folder: e"
    );
    let mut job = start("both");
    goes(&mut job, YoutubeEvent::OutputDir(Ok(())));
    let missing = YoutubeEvent::Tools { yt_dlp: false, ffmpeg: true, whisper_cli: true };
    assert_eq!(fails(&mut job, missing), "yt-dlp was not found");
    let mut job = start("both");
    goes(&mut job, YoutubeEvent::OutputDir(Ok(())));
    goes(&mut job, tools());
    assert_eq!(fails(&mut job, YoutubeEvent::TempDir(Err(e()))), "e");
    let mut job = titled("both", "audio", false);
    goes(&mut job, title());
    assert_eq!(fails(&mut job, YoutubeEvent::Captions(Err(e()))), "e");
    let mut job = titled("whisper_only", "audio", false);
    goes(&mut job, title());
    let mut later = job;
    assert_eq!(fails(&mut job, YoutubeEvent::Media(Err(e()))), "e");
    goes(&mut later, YoutubeEvent::Media(Ok(1)));
    goes(&mut later, YoutubeEvent::Collected(NONE));
    let mut job = later;
    assert_eq!(fails(&mut job, YoutubeEvent::Model(Err(e()))), "e");
    goes(&mut later, YoutubeEvent::Model(Ok(())));
    let mut job = later;
    assert_eq!(
        fails(&mut job, YoutubeEvent::Audio(None)),
        "Downloaded media did not contain an audio stream for Whisper"
    );
    goes(&mut later, YoutubeEvent::Audio(Some(0)));
    let mut job = later;
    assert_eq!(fails(&mut job, YoutubeEvent::Wav(Err(e()))), "e");
    goes(&mut later, YoutubeEvent::Wav(Ok(())));
    assert_eq!(fails(&mut later, YoutubeEvent::Whisper(Err(e()))), "e");
}

#[test]
fn video_job_needs_tools_for_whisper() {
    let with = |ffmpeg: bool, whisper_cli: bool| {
        let (mut job, _) = YoutubeJob::start(&request("whisper_only", "audio", false));
        goes(&mut job, YoutubeEvent::OutputDir(Ok(())));
        goes(&mut job, YoutubeEvent::Tools { yt_dlp: true, ffmpeg, whisper_cli });
        goes(&mut job, YoutubeEvent::TempDir(Ok(())));
        goes(&mut job, title());
        goes(&mut job, YoutubeEvent::Media(Ok(1)));
        fails(&mut job, YoutubeEvent::Collected(NONE))
    };
    assert_eq!(with(false, false), "whisper-cli was not found");
    assert_eq!(with(true, false), "whisper-cli was not found");
    assert_eq!(with(false, true), "ffmpeg was not found");
}

#[test]
fn jobs_know_what_they_wait_for() {
    let (job, _) = YoutubeJob::start(&request("both", "audio", false));
    assert!(job.awaits(&YoutubeEvent::OutputDir(Ok(()))));
    assert!(!job.awaits(&YoutubeEvent::Cleaned(0)));
}

// Captions

fn captions_told(job: &mut CaptionJob, e: CaptionEvent) -> CaptionTurn {
    assert!(job.awaits(&e));
    job.step(e)
}

fn searching() -> CaptionJob {
    let (mut job, turn) = CaptionJob::start();
    assert_eq!(
        told(&turn.events),
        vec!["stage/captions: Checking for existing YouTube captions"]
    );
    assert!(matches!(turn.next, Ok(CaptionAction::RunTool)));
    captions_told(&mut job, CaptionEvent::ToolEnded(Ok(())));
    let turn = captions_told(&mut job, CaptionEvent::Collected(BOTH));
    assert!(matches!(turn.next, Ok(CaptionAction::FindCaptions)));
    job
}

#[test]
fn caption_job_saves_subtitles() {
    let mut job = searching();
    let turn = captions_told(&mut job, CaptionEvent::Found(Some(true)));
    assert!(matches!(turn.next, Ok(CaptionAction::CopyCaptions)));
    let turn = captions_told(&mut job, CaptionEvent::Copied(Ok(())));
    assert!(matches!(turn.next, Ok(CaptionAction::ReadCaptions)));
    let turn = captions_told(&mut job, CaptionEvent::Read(Ok("1\nhi\nhi\n".to_string())));
    match turn.next {
        Ok(CaptionAction::WriteText(text)) => assert_eq!(text, "hi"),
        _ => panic!("no text"),
    }
    let turn = captions_told(&mut job, CaptionEvent::Written(Ok(())));
    assert_eq!(
        told(&turn.events),
        vec!["stage/captions: Saved YouTube captions as TXT and SRT"]
    );
    match turn.next {
        Ok(CaptionAction::Finish(d)) => {
            assert_eq!(d, CaptionDownload { saved: true, metadata: BOTH })
        }
        _ => panic!("not finished"),
    }
    assert_eq!(job.phase, CaptionPhase::Done);
}

#[test]
fn caption_job_saves_other_files() {
    let mut job = searching();
    let turn = captions_told(&mut job, CaptionEvent::Found(Some(false)));
    assert!(matches!(turn.next, Ok(CaptionAction::ReadCaptions)));
    captions_told(&mut job, CaptionEvent::Read(Ok("hi".to_string())));
    let turn = captions_told(&mut job, CaptionEvent::Written(Ok(())));
    assert!(matches!(turn.next, Ok(CaptionAction::CopyCaptions)));
    let turn = captions_told(&mut job, CaptionEvent::Copied(Ok(())));
    assert_eq!(told(&turn.events), vec!["stage/captions: Saved YouTube captions"]);
    assert!(matches!(turn.next, Ok(CaptionAction::Finish(CaptionDownload { saved: true, .. }))));
}

#[test]
fn caption_job_without_captions_ends_well() {
    let (mut job, _) = CaptionJob::start();
    let turn = captions_told(&mut job, CaptionEvent::ToolEnded(Err("e".to_string())));
    assert_eq!(
        told(&turn.events),
        vec!["warn/captions: Caption download did not complete cleanly: e"]
    );
    assert!(matches!(turn.next, Ok(CaptionAction::CollectSidecars)));
    captions_told(&mut job, CaptionEvent::Collected(NONE));
    let turn = captions_told(&mut job, CaptionEvent::Found(None));
    assert_eq!(told(&turn.events), vec!["info/captions: No YouTube captions were saved"]);
    assert!(matches!(turn.next, Ok(CaptionAction::Finish(CaptionDownload { saved: false, .. }))));
}

#[test]
fn caption_job_fails_as_its_actions_do() {
    let e = || "e".to_string();
    let mut job = searching();
    captions_told(&mut job, CaptionEvent::Found(Some(true)));
    let mut later = job;
    let error = captions_told(&mut job, CaptionEvent::Copied(Err(e()))).next.unwrap_err();
    assert_eq!(error, "Could not save SRT captions: e");
    captions_told(&mut later, CaptionEvent::Copied(Ok(())));
    let mut job = later;
    let error = captions_told(&mut job, CaptionEvent::Read(Err(e()))).next.unwrap_err();
    assert_eq!(error, "Could not read captions: e");
    captions_told(&mut later, CaptionEvent::Read(Ok(e())));
    let error = captions_told(&mut later, CaptionEvent::Written(Err(e()))).next.unwrap_err();
    assert_eq!(error, "Could not save TXT captions: e");
    let mut job = searching();
    captions_told(&mut job, CaptionEvent::Found(Some(false)));
    captions_told(&mut job, CaptionEvent::Read(Ok(e())));
    captions_told(&mut job, CaptionEvent::Written(Ok(())));
    let error = captions_told(&mut job, CaptionEvent::Copied(Err(e()))).next.unwrap_err();
    assert_eq!(error, "Could not save caption file: e");
}

// Media

#[test]
fn media_job_tries_one_format_after_another() {
    let (mut job, turn) = MediaJob::start(false);
    assert_eq!(told(&turn.events), vec!["stage/download: Downloading YouTube media"]);
    assert_eq!(turn.next.unwrap(), MediaAction::Attempt(0));
    let turn = job.step(MediaEvent::Ended(Err("first".to_string())));
    assert_eq!(
        told(&turn.events),
        vec!["warn/download: Retrying download with fallback format: ba[ext=m4a]/ba/b"]
    );
    assert_eq!(turn.next.unwrap(), MediaAction::Attempt(1));
    assert_eq!(job.step(MediaEvent::Ended(Ok(()))).next.unwrap(), MediaAction::ListFiles);
    assert!(job.awaits(&MediaEvent::Listed(None)));
    assert_eq!(job.step(MediaEvent::Listed(Some(2))).next.unwrap(), MediaAction::Finish(2));
}

#[test]
fn media_job_fails_as_its_last_attempt() {
    for video in [true, false] {
        let attempts = if video { 5 } else { 4 };
        let (mut job, _) = MediaJob::start(video);
        for k in 1..attempts {
            let next = job.step(MediaEvent::Ended(Err(format!("e{}", k)))).next;
            assert_eq!(next.unwrap(), MediaAction::Attempt(k));
        }
        let next = job.step(MediaEvent::Ended(Err("last".to_string()))).next;
        assert_eq!(next.unwrap_err(), "last");
    }
}

#[test]
fn media_job_needs_a_file() {
    for files in [Some(0), None] {
        let (mut job, _) = MediaJob::start(true);
        job.step(MediaEvent::Ended(Ok(()))).next.unwrap();
        let error = job.step(MediaEvent::Listed(files)).next.unwrap_err();
        assert_eq!(error, "yt-dlp finished but no media file was found");
    }
}

// Local files

fn local(mode: &str) -> LocalJob {
    let (mut job, first) = LocalJob::start(&LocalJobRequest {
        input_file: "/in.mp4".to_string(),
        output_dir: "/out".to_string(),
        mode: mode.to_string(),
        model_path: None,
        whisper_prompt: None,
        max_len: None,
    });
    assert_eq!(first, LocalAction::CheckInput);
    let input = LocalEvent::Input { is_file: true, path: "/in.mp4".to_string() };
    assert_eq!(job.step(input).next.unwrap(), LocalAction::CreateOutputDir);
    assert_eq!(job.step(LocalEvent::OutputDir(Ok(()))).next.unwrap(), LocalAction::DetectTools);
    job
}

const TOOLS: LocalEvent = LocalEvent::Tools { ffmpeg: true, whisper_cli: true };

#[test]
fn local_job_converts_and_transcribes() {
    let mut job = local("convert_transcribe");
    let turn = job.step(TOOLS);
    assert_eq!(told(&turn.events), vec!["stage/setup: Preparing local media job"]);
    assert_eq!(turn.next.unwrap(), LocalAction::ConvertToWav);
    assert_eq!(job.step(LocalEvent::Wav(Ok(()))).next.unwrap(), LocalAction::CheckModel);
    assert_eq!(
        job.step(LocalEvent::Model(Ok(()))).next.unwrap(),
        LocalAction::RunWhisper { converted: true }
    );
    let turn = job.step(LocalEvent::Whisper(Ok(WHISPER)));
    assert_eq!(told(&turn.events), vec!["stage/done: Job complete"]);
    assert_eq!(turn.next.unwrap(), LocalAction::Finish);
    assert_eq!(
        job.list_outputs(),
        named(&[Output::Converted, Output::WhisperTxt, Output::WhisperSrt])
    );
}

#[test]
fn local_job_only_converts_or_only_transcribes() {
    for mode in ["convert_only", "something"] {
        let mut job = local(mode);
        job.step(LocalEvent::Tools { ffmpeg: true, whisper_cli: false }).next.unwrap();
        assert_eq!(job.step(LocalEvent::Wav(Ok(()))).next.unwrap(), LocalAction::Finish);
        assert_eq!(job.list_outputs(), named(&[Output::Converted]));
    }
    let mut job = local("transcribe_only");
    let tools = LocalEvent::Tools { ffmpeg: false, whisper_cli: true };
    assert_eq!(job.step(tools).next.unwrap(), LocalAction::CheckModel);
    assert_eq!(
        job.step(LocalEvent::Model(Ok(()))).next.unwrap(),
        LocalAction::RunWhisper { converted: false }
    );
    job.step(LocalEvent::Whisper(Ok(WHISPER))).next.unwrap();
    assert_eq!(job.list_outputs(), named(&[Output::WhisperTxt, Output::WhisperSrt]));
}

#[test]
fn local_job_fails_as_its_actions_do() {
    let e = || "e".to_string();
    let (mut job, _) = LocalJob::start(&LocalJobRequest {
        input_file: "/in.mp4".to_string(),
        output_dir: "/out".to_string(),
        mode: "convert_only".to_string(),
        model_path: None,
        whisper_prompt: None,
        max_len: None,
    });
    let mut later = job;
    let missing = LocalEvent::Input { is_file: false, path: "/in.mp4".to_string() };
    assert!(job.awaits(&missing));
    assert_eq!(job.step(missing).next.unwrap_err(), "Input file was not found: /in.mp4");
    later.step(LocalEvent::Input { is_file: true, path: e() }).next.unwrap();
    assert_eq!(
        later.step(LocalEvent::OutputDir(Err(e()))).next.unwrap_err(),
        "Could not create output folder: e"
    );
    let no_ffmpeg = LocalEvent::Tools { ffmpeg: false, whisper_cli: true };
    let turn = local("convert_only").step(no_ffmpeg);
    assert_eq!(turn.next.unwrap_err(), "ffmpeg was not found");
    assert_eq!(told(&turn.events), vec!["stage/setup: Preparing local media job"]);
    let no_whisper = LocalEvent::Tools { ffmpeg: true, whisper_cli: false };
    assert_eq!(
        local("transcribe_only").step(no_whisper).next.unwrap_err(),
        "whisper-cli was not found"
    );
    let mut job = local("convert_transcribe");
    job.step(LocalEvent::Tools { ffmpeg: true, whisper_cli: false }).next.unwrap();
    assert_eq!(
        job.step(LocalEvent::Wav(Ok(()))).next.unwrap_err(),
        "whisper-cli was not found"
    );
    let mut job = local("convert_transcribe");
    job.step(TOOLS).next.unwrap();
    let mut later = job;
    assert_eq!(job.step(LocalEvent::Wav(Err(e()))).next.unwrap_err(), "e");
    later.step(LocalEvent::Wav(Ok(()))).next.unwrap();
    let mut job = later;
    assert_eq!(job.step(LocalEvent::Model(Err(e()))).next.unwrap_err(), "e");
    later.step(LocalEvent::Model(Ok(()))).next.unwrap();
    assert_eq!(later.step(LocalEvent::Whisper(Err(e()))).next.unwrap_err(), "e");
}

// Merging

fn inputs(info_json: Option<&str>) -> MergeInputs {
    merge_inputs(&MergeJobRequest {
        whisper_srt: " /w.srt ".to_string(),
        youtube_srt: "/y.srt\n".to_string(),
        info_json: info_json.map(|s| s.to_string()),
        output_dir: " /out".to_string(),
        output_base: None,
    })
}

#[test]
fn trims_the_inputs_of_a_merge() {
    let all = inputs(Some(" /i.json "));
    assert_eq!(all.whisper_srt, "/w.srt");
    assert_eq!(all.youtube_srt, "/y.srt");
    assert_eq!(all.info_json.as_deref(), Some("/i.json"));
    assert_eq!(all.output_dir, "/out");
    assert_eq!(inputs(Some("  ")).info_json, None);
    assert_eq!(inputs(None).info_json, None);
}

#[test]
fn merge_job_merges() {
    let all = inputs(Some("/i.json"));
    let (mut job, first) = MergeJob::start();
    assert_eq!(first, MergeAction::CheckWhisperSrt);
    assert!(job.awaits(&all, &MergeEvent::Checked(true)));
    let next = job.step(&all, MergeEvent::Checked(true)).next;
    assert_eq!(next.unwrap(), MergeAction::CheckYoutubeSrt);
    let next = job.step(&all, MergeEvent::Checked(true)).next;
    assert_eq!(next.unwrap(), MergeAction::CheckInfoJson);
    let next = job.step(&all, MergeEvent::Checked(true)).next;
    assert_eq!(next.unwrap(), MergeAction::CreateOutputDir);
    let next = job.step(&all, MergeEvent::OutputDir(Ok(()))).next;
    assert_eq!(next.unwrap(), MergeAction::NameOutputs);
    let turn = job.step(&all, MergeEvent::Named("v".to_string()));
    assert_eq!(
        told(&turn.events),
        vec![
            "stage/setup: Preparing hybrid merge",
            "info/setup: Output prefix: v",
            "stage/hybrid: Merging Whisper prose with YouTube proper nouns",
        ]
    );
    assert_eq!(turn.next.unwrap(), MergeAction::BuildHybrid);
    let counts = MergeCounts { flagged: false, replacements: 0, flagged_segments: 0 };
    let turn = job.step(&all, MergeEvent::Hybrid(Ok(counts)));
    assert_eq!(
        told(&turn.events),
        vec![
            "stage/hybrid: Hybrid transcript ready: 0 proper-noun replacement(s), 0 flagged segment(s)",
            "stage/done: Job complete",
        ]
    );
    assert_eq!(turn.next.unwrap(), MergeAction::Finish);
    assert_eq!(job.list_outputs(), named(&[Output::HybridSrt, Output::HybridTxt]));
}

#[test]
fn merge_job_fails_as_its_actions_do() {
    let all = inputs(Some("/i.json"));
    let (mut job, _) = MergeJob::start();
    let mut later = job;
    assert_eq!(
        job.step(&all, MergeEvent::Checked(false)).next.unwrap_err(),
        "Whisper SRT was not found: /w.srt"
    );
    later.step(&all, MergeEvent::Checked(true)).next.unwrap();
    let mut job = later;
    assert_eq!(
        job.step(&all, MergeEvent::Checked(false)).next.unwrap_err(),
        "YouTube captions SRT was not found: /y.srt"
    );
    later.step(&all, MergeEvent::Checked(true)).next.unwrap();
    assert_eq!(
        later.step(&all, MergeEvent::Checked(false)).next.unwrap_err(),
        "info.json was not found: /i.json"
    );
    let none = inputs(None);
    let (mut job, _) = MergeJob::start();
    job.step(&none, MergeEvent::Checked(true)).next.unwrap();
    let next = job.step(&none, MergeEvent::Checked(true)).next;
    assert_eq!(next.unwrap(), MergeAction::CreateOutputDir);
    let mut later = job;
    assert_eq!(
        job.step(&none, MergeEvent::OutputDir(Err("e".to_string()))).next.unwrap_err(),
        "Could not create output folder: e"
    );
    later.step(&none, MergeEvent::OutputDir(Ok(()))).next.unwrap();
    later.step(&none, MergeEvent::Named("v".to_string())).next.unwrap();
    assert_eq!(
        later.step(&none, MergeEvent::Hybrid(Err("e".to_string()))).next.unwrap_err(),
        "Hybrid merge failed: e"
    );
}

#[test]
fn notices_and_results() {
    assert_eq!(
        told(&[extracting_event(), transcribing_event()]),
        vec![
            "stage/ffmpeg: Extracting 16 kHz mono WAV with ffmpeg",
            "stage/whisper: Running whisper.cpp locally",
        ]
    );
    let result = complete(vec!["o".to_string()], vec!["c".to_string()]);
    assert_eq!(result.status, "complete");
    assert_eq!(result.outputs, vec!["o"]);
    assert_eq!(result.cleaned, vec!["c"]);
}
