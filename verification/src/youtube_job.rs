//! A job for a video: captions, media, Whisper, the hybrid of both transcripts, and tidying up.
//!
//! The job is told how each action ended and answers with the next. It touches no file and runs no
//! tool itself; what it knows of files is which of them there are.
use vstd::prelude::*;

use crate::artifacts::{Artifact, Output, Sidecars, WhisperFiles};
use crate::caption_job::CaptionDownload;
use crate::events::{add_event, fail, go_on, joined_text, no_events, JobEvent, Turn};
use crate::number::push_decimal;
use crate::text::same_text;
#[allow(unused_imports)]
use crate::artifacts::{sidecar_files, whisper_files};
#[allow(unused_imports)]
use crate::caption_job::caption_files;
#[allow(unused_imports)]
use crate::events::{event, events_of, fails, goes_on, Event, Reply};
#[allow(unused_imports)]
use crate::number::decimal;
#[allow(unused_imports)]
use crate::youtube_laws::{consistent, law_job_stays_consistent, possible};

verus! {

// ---------------------------------------------------------------------------
// Requests
// ---------------------------------------------------------------------------

/// What a user asks of a job for a video.
#[derive(Debug)]
pub struct YoutubeJobRequest {
    pub url: String,
    pub output_dir: String,
    pub media_action: String,
    pub transcript_source: String,
    pub keep_media: bool,
    pub model_path: Option<String>,
    pub whisper_prompt: Option<String>,
    pub max_len: Option<u32>,
}

/// Where the transcript of a video comes from. `Media` asks for no transcript; a request that names
/// no known source is `Unknown`, and gets neither captions nor Whisper.
#[derive(Debug, Clone, Copy, PartialEq, Eq, Structural)]
pub enum TranscriptSource {
    CaptionsFallback,
    CaptionsOnly,
    WhisperOnly,
    Both,
    Hybrid,
    Media,
    Unknown,
}

impl TranscriptSource {
    /// The source that a request names.
    pub open spec fn named(name: Seq<char>) -> TranscriptSource {
        if name == "captions_fallback"@ {
            TranscriptSource::CaptionsFallback
        } else if name == "captions_only"@ {
            TranscriptSource::CaptionsOnly
        } else if name == "whisper_only"@ {
            TranscriptSource::WhisperOnly
        } else if name == "both"@ {
            TranscriptSource::Both
        } else if name == "hybrid"@ {
            TranscriptSource::Hybrid
        } else if name == "none"@ {
            TranscriptSource::Media
        } else {
            TranscriptSource::Unknown
        }
    }

    /// The source that a request names.
    pub fn parse(name: &str) -> (r: TranscriptSource)
        ensures
            r == TranscriptSource::named(name@),
    {
        if same_text(name, "captions_fallback") {
            TranscriptSource::CaptionsFallback
        } else if same_text(name, "captions_only") {
            TranscriptSource::CaptionsOnly
        } else if same_text(name, "whisper_only") {
            TranscriptSource::WhisperOnly
        } else if same_text(name, "both") {
            TranscriptSource::Both
        } else if same_text(name, "hybrid") {
            TranscriptSource::Hybrid
        } else if same_text(name, "none") {
            TranscriptSource::Media
        } else {
            TranscriptSource::Unknown
        }
    }

    /// The source needs the captions of the video.
    pub open spec fn wants_captions(self) -> bool {
        self is CaptionsFallback || self is CaptionsOnly || self is Both || self is Hybrid
    }

    /// The source needs Whisper, given whether captions were saved.
    pub open spec fn wants_whisper(self, captions: bool) -> bool {
        ||| self is WhisperOnly
        ||| self is Both
        ||| self is Hybrid
        ||| self is CaptionsFallback && !captions
    }

    fn captions_requested(self) -> (r: bool)
        ensures
            r == self.wants_captions(),
    {
        match self {
            TranscriptSource::CaptionsFallback => true,
            TranscriptSource::CaptionsOnly => true,
            TranscriptSource::Both => true,
            TranscriptSource::Hybrid => true,
            _ => false,
        }
    }

    fn whisper_requested(self, captions: bool) -> (r: bool)
        ensures
            r == self.wants_whisper(captions),
    {
        match self {
            TranscriptSource::WhisperOnly => true,
            TranscriptSource::Both => true,
            TranscriptSource::Hybrid => true,
            TranscriptSource::CaptionsFallback => !captions,
            _ => false,
        }
    }
}

/// Media is downloaded when it is all that is asked for, when it is kept, or when Whisper needs it.
pub fn should_download_media(media_only: bool, keep_media: bool, whisper_requested: bool) -> (r:
    bool)
    ensures
        r == (media_only || keep_media || whisper_requested),
{
    media_only || keep_media || whisper_requested
}

// ---------------------------------------------------------------------------
// The job
// ---------------------------------------------------------------------------

/// What the job waits for.
#[derive(Debug, Clone, Copy, PartialEq, Eq, Structural)]
pub enum YoutubePhase {
    OutputDir,
    Tools,
    TempDir,
    Title,
    Captions,
    NoCaptions,
    Media,
    Sidecars,
    Model,
    Audio,
    Wav,
    Whisper,
    Hybrid,
    Cleanup,
    Done,
}

/// A job for a video: what was asked for, what it waits for, and what there is so far. `media`
/// counts the media files; `merged` says whether there is a hybrid, and then whether there is a
/// report with it.
#[derive(Debug, Clone, Copy, PartialEq, Eq, Structural)]
pub struct YoutubeJob {
    pub phase: YoutubePhase,
    pub source: TranscriptSource,
    pub keep_media: bool,
    pub video: bool,
    pub has_ffmpeg: bool,
    pub has_whisper_cli: bool,
    pub captions: bool,
    pub caption_sidecars: Sidecars,
    pub media: usize,
    pub media_sidecars: Sidecars,
    pub wav: bool,
    pub whisper: WhisperFiles,
    pub merged: Option<bool>,
}

/// What a merge gave: whether there is a report, how many words were replaced, and how many runs
/// are reported.
#[derive(Debug, Clone, Copy, PartialEq, Eq, Structural)]
pub struct MergeCounts {
    pub flagged: bool,
    pub replacements: usize,
    pub flagged_segments: usize,
}

/// How an action of the job ended.
#[derive(Debug)]
pub enum YoutubeEvent {
    OutputDir(Result<(), String>),
    Tools { yt_dlp: bool, ffmpeg: bool, whisper_cli: bool },
    TempDir(Result<(), String>),
    Title(String),
    Captions(Result<CaptionDownload, String>),
    Media(Result<usize, String>),
    Collected(Sidecars),
    Model(Result<(), String>),
    Audio(Option<usize>),
    Wav(Result<(), String>),
    Whisper(Result<WhisperFiles, String>),
    Hybrid(Result<MergeCounts, String>),
    Cleaned(usize),
}

/// An action of the job. Media goes to the folder of the outputs if it is kept, else to the
/// temporary folder; the files with its metadata are collected from there. A merge is told whether
/// there is metadata.
#[derive(Debug, Clone, Copy, PartialEq, Eq, Structural)]
pub enum YoutubeAction {
    CreateOutputDir,
    DetectTools,
    CreateTempDir,
    FetchTitle,
    DownloadCaptions,
    DownloadMedia { kept: bool, video: bool },
    CollectSidecars { kept: bool },
    CheckModel,
    FindAudio,
    ConvertToWav(usize),
    RunWhisper,
    BuildHybrid { info_json: bool },
    Clean,
    Finish,
}

/// What is said of a hybrid that was made.
pub open spec fn hybrid_ready(c: MergeCounts) -> Seq<char> {
    "Hybrid transcript ready: "@ + decimal(c.replacements as nat)
        + " proper-noun replacement(s), "@ + decimal(c.flagged_segments as nat)
        + " flagged segment(s)"@
}

/// What is said of a hybrid that was made.
pub fn hybrid_ready_text(c: MergeCounts) -> (r: String)
    ensures
        r@ == hybrid_ready(c),
{
    let mut text = "Hybrid transcript ready: ".to_string();
    push_decimal(&mut text, c.replacements as u128);
    text.append(" proper-noun replacement(s), ");
    push_decimal(&mut text, c.flagged_segments as u128);
    text.append(" flagged segment(s)");
    text
}

/// The positions of media files, as files of the job.
pub open spec fn media_artifacts(n: nat) -> Seq<Artifact> {
    Seq::new(n, |i: int| Artifact::Media(i as usize))
}

/// Files that are named after the source, as files of the job.
pub open spec fn named_artifacts(outputs: Seq<Output>) -> Seq<Artifact> {
    outputs.map_values(|o: Output| Artifact::Named(o))
}

/// The files of a hybrid, if there is one.
pub open spec fn hybrid_files(merged: Option<bool>) -> Seq<Output> {
    match merged {
        Some(true) => seq![Output::HybridSrt, Output::HybridTxt, Output::HybridFlagged],
        Some(false) => seq![Output::HybridSrt, Output::HybridTxt],
        None => Seq::empty(),
    }
}

impl YoutubeJob {
    /// The job in another phase.
    pub open spec fn at(self, phase: YoutubePhase) -> YoutubeJob {
        YoutubeJob { phase, ..self }
    }

    /// Only media is asked for.
    pub open spec fn media_only(self) -> bool {
        self.source is Media
    }

    /// The media files stay.
    pub open spec fn keeps_media(self) -> bool {
        self.keep_media || self.media_only()
    }

    /// Whisper is run.
    pub open spec fn runs_whisper(self) -> bool {
        self.source.wants_whisper(self.captions)
    }

    /// Media is downloaded.
    pub open spec fn downloads(self) -> bool {
        self.media_only() || self.keep_media || self.runs_whisper()
    }

    /// There is metadata of the video.
    pub open spec fn has_info_json(self) -> bool {
        self.caption_sidecars.info_json || self.media_sidecars.info_json
    }

    /// The files with metadata that came with the media and not already with the captions.
    pub open spec fn further_sidecars(self) -> Sidecars {
        Sidecars {
            description: self.media_sidecars.description && !self.caption_sidecars.description,
            info_json: self.media_sidecars.info_json && !self.caption_sidecars.info_json,
        }
    }

    /// The outputs of the job, in the order in which they are listed: captions and their metadata,
    /// further metadata, the media if it is kept, what Whisper wrote, and the hybrid.
    pub open spec fn outputs(self) -> Seq<Artifact> {
        named_artifacts(caption_files(self.captions)) + named_artifacts(
            sidecar_files(self.caption_sidecars),
        ) + named_artifacts(sidecar_files(self.further_sidecars())) + (if self.keeps_media() {
            media_artifacts(self.media as nat)
        } else {
            Seq::empty()
        }) + named_artifacts(whisper_files(self.whisper)) + named_artifacts(
            hybrid_files(self.merged),
        )
    }

    /// What the job removes at its end: its temporary folder, the media if it is not kept, and the
    /// sound that was made for Whisper.
    pub open spec fn leftovers(self) -> Seq<Artifact> {
        seq![Artifact::TempDir] + (if self.keeps_media() {
            Seq::empty()
        } else {
            media_artifacts(self.media as nat)
        }) + (if self.wav {
            seq![Artifact::Named(Output::WhisperInput)]
        } else {
            Seq::empty()
        })
    }

    /// The job waits for this event.
    pub open spec fn expects(self, e: YoutubeEvent) -> bool {
        match e {
            YoutubeEvent::OutputDir(_) => self.phase == YoutubePhase::OutputDir,
            YoutubeEvent::Tools { .. } => self.phase == YoutubePhase::Tools,
            YoutubeEvent::TempDir(_) => self.phase == YoutubePhase::TempDir,
            YoutubeEvent::Title(_) => self.phase == YoutubePhase::Title,
            YoutubeEvent::Captions(_) => self.phase == YoutubePhase::Captions,
            YoutubeEvent::Media(_) => self.phase == YoutubePhase::Media,
            YoutubeEvent::Collected(_) => self.phase == YoutubePhase::Sidecars,
            YoutubeEvent::Model(_) => self.phase == YoutubePhase::Model,
            YoutubeEvent::Audio(_) => self.phase == YoutubePhase::Audio,
            YoutubeEvent::Wav(_) => self.phase == YoutubePhase::Wav,
            YoutubeEvent::Whisper(_) => self.phase == YoutubePhase::Whisper,
            YoutubeEvent::Hybrid(_) => self.phase == YoutubePhase::Hybrid,
            YoutubeEvent::Cleaned(_) => self.phase == YoutubePhase::NoCaptions || self.phase
                == YoutubePhase::Cleanup,
        }
    }

    /// Whether the job waits for this event.
    pub fn awaits(&self, e: &YoutubeEvent) -> (r: bool)
        ensures
            r == self.expects(*e),
    {
        match e {
            YoutubeEvent::OutputDir(_) => self.phase == YoutubePhase::OutputDir,
            YoutubeEvent::Tools { .. } => self.phase == YoutubePhase::Tools,
            YoutubeEvent::TempDir(_) => self.phase == YoutubePhase::TempDir,
            YoutubeEvent::Title(_) => self.phase == YoutubePhase::Title,
            YoutubeEvent::Captions(_) => self.phase == YoutubePhase::Captions,
            YoutubeEvent::Media(_) => self.phase == YoutubePhase::Media,
            YoutubeEvent::Collected(_) => self.phase == YoutubePhase::Sidecars,
            YoutubeEvent::Model(_) => self.phase == YoutubePhase::Model,
            YoutubeEvent::Audio(_) => self.phase == YoutubePhase::Audio,
            YoutubeEvent::Wav(_) => self.phase == YoutubePhase::Wav,
            YoutubeEvent::Whisper(_) => self.phase == YoutubePhase::Whisper,
            YoutubeEvent::Hybrid(_) => self.phase == YoutubePhase::Hybrid,
            YoutubeEvent::Cleaned(_) => self.phase == YoutubePhase::NoCaptions || self.phase
                == YoutubePhase::Cleanup,
        }
    }

    // What follows what.

    /// The job, tidying up.
    pub open spec fn tidying(self, said: Seq<Event>) -> (YoutubeJob, Reply<YoutubeAction>) {
        (
            self.at(YoutubePhase::Cleanup),
            goes_on(
                said.push(event("stage"@, "cleanup"@, "Cleaning temporary files"@)),
                YoutubeAction::Clean,
            ),
        )
    }

    /// The job once it has its transcripts: a hybrid is made of them if it is asked for and there
    /// are both.
    pub open spec fn merging(self, said: Seq<Event>) -> (YoutubeJob, Reply<YoutubeAction>) {
        if self.source is Hybrid && self.whisper.srt && self.captions {
            (
                self.at(YoutubePhase::Hybrid),
                goes_on(
                    said.push(
                        event(
                            "stage"@,
                            "hybrid"@,
                            "Merging Whisper prose with YouTube proper nouns"@,
                        ),
                    ),
                    YoutubeAction::BuildHybrid { info_json: self.has_info_json() },
                ),
            )
        } else if self.source is Hybrid && self.captions {
            self.tidying(
                said.push(
                    event(
                        "warn"@,
                        "hybrid"@,
                        "Missing one of the source transcripts — skipping merge"@,
                    ),
                ),
            )
        } else {
            self.tidying(said)
        }
    }

    /// The job once its captions are settled: media is downloaded if it is needed.
    pub open spec fn fetching(self, said: Seq<Event>) -> (YoutubeJob, Reply<YoutubeAction>) {
        if self.downloads() {
            (
                self.at(YoutubePhase::Media),
                goes_on(
                    said,
                    YoutubeAction::DownloadMedia { kept: self.keeps_media(), video: self.video },
                ),
            )
        } else {
            self.merging(said)
        }
    }

    /// The job, failed.
    pub open spec fn failed(self, said: Seq<Event>, error: Seq<char>) -> (
        YoutubeJob,
        Reply<YoutubeAction>,
    ) {
        (self.at(YoutubePhase::Done), fails(said, error))
    }

    /// The job going on in another phase, with nothing to say.
    pub open spec fn next(self, phase: YoutubePhase, action: YoutubeAction) -> (
        YoutubeJob,
        Reply<YoutubeAction>,
    ) {
        (self.at(phase), goes_on(Seq::empty(), action))
    }

    /// The job after its captions were downloaded.
    pub open spec fn with_captions(self, d: CaptionDownload) -> (YoutubeJob, Reply<YoutubeAction>) {
        let job = YoutubeJob { captions: d.saved, caption_sidecars: d.metadata, ..self };
        if self.source is CaptionsOnly && !d.saved {
            job.next(YoutubePhase::NoCaptions, YoutubeAction::Clean)
        } else if self.source is Hybrid && !d.saved {
            job.fetching(
                seq![
                    event(
                        "warn"@,
                        "hybrid"@,
                        "No YouTube captions found — falling back to Whisper-only; no merge will be produced"@,
                    ),
                ],
            )
        } else {
            job.fetching(Seq::empty())
        }
    }

    /// The job after its media and their metadata are there.
    pub open spec fn with_media(self, s: Sidecars) -> (YoutubeJob, Reply<YoutubeAction>) {
        let job = YoutubeJob { media_sidecars: s, ..self };
        if !job.runs_whisper() {
            job.merging(Seq::empty())
        } else if !job.has_whisper_cli {
            job.failed(Seq::empty(), "whisper-cli was not found"@)
        } else if !job.has_ffmpeg {
            job.failed(Seq::empty(), "ffmpeg was not found"@)
        } else {
            job.next(YoutubePhase::Model, YoutubeAction::CheckModel)
        }
    }

    /// The job after an event, and what it does then.
    pub open spec fn turn(self, e: YoutubeEvent) -> (YoutubeJob, Reply<YoutubeAction>) {
        match e {
            YoutubeEvent::OutputDir(Ok(_)) => self.next(
                YoutubePhase::Tools,
                YoutubeAction::DetectTools,
            ),
            YoutubeEvent::OutputDir(Err(error)) => self.failed(
                Seq::empty(),
                "Could not create output folder: "@ + error@,
            ),
            YoutubeEvent::Tools { yt_dlp, ffmpeg, whisper_cli } => if yt_dlp {
                YoutubeJob { has_ffmpeg: ffmpeg, has_whisper_cli: whisper_cli, ..self }.next(
                    YoutubePhase::TempDir,
                    YoutubeAction::CreateTempDir,
                )
            } else {
                self.failed(Seq::empty(), "yt-dlp was not found"@)
            },
            YoutubeEvent::TempDir(Ok(_)) => (
                self.at(YoutubePhase::Title),
                goes_on(
                    seq![event("stage"@, "setup"@, "Preparing YouTube job"@)],
                    YoutubeAction::FetchTitle,
                ),
            ),
            YoutubeEvent::TempDir(Err(error)) => self.failed(Seq::empty(), error@),
            YoutubeEvent::Title(base) => {
                let said = seq![event("info"@, "setup"@, "Output prefix: "@ + base@)];
                if self.source.wants_captions() {
                    (
                        self.at(YoutubePhase::Captions),
                        goes_on(said, YoutubeAction::DownloadCaptions),
                    )
                } else {
                    self.fetching(said)
                }
            },
            YoutubeEvent::Captions(Ok(d)) => self.with_captions(d),
            YoutubeEvent::Captions(Err(error)) => self.failed(Seq::empty(), error@),
            YoutubeEvent::Media(Ok(n)) => YoutubeJob { media: n, ..self }.next(
                YoutubePhase::Sidecars,
                YoutubeAction::CollectSidecars { kept: self.keeps_media() },
            ),
            YoutubeEvent::Media(Err(error)) => self.failed(Seq::empty(), error@),
            YoutubeEvent::Collected(s) => self.with_media(s),
            YoutubeEvent::Model(Ok(_)) => self.next(YoutubePhase::Audio, YoutubeAction::FindAudio),
            YoutubeEvent::Model(Err(error)) => self.failed(Seq::empty(), error@),
            YoutubeEvent::Audio(Some(i)) => self.next(
                YoutubePhase::Wav,
                YoutubeAction::ConvertToWav(i),
            ),
            YoutubeEvent::Audio(None) => self.failed(
                Seq::empty(),
                "Downloaded media did not contain an audio stream for Whisper"@,
            ),
            YoutubeEvent::Wav(Ok(_)) => YoutubeJob { wav: true, ..self }.next(
                YoutubePhase::Whisper,
                YoutubeAction::RunWhisper,
            ),
            YoutubeEvent::Wav(Err(error)) => self.failed(Seq::empty(), error@),
            YoutubeEvent::Whisper(Ok(w)) => YoutubeJob { whisper: w, ..self }.merging(Seq::empty()),
            YoutubeEvent::Whisper(Err(error)) => self.failed(Seq::empty(), error@),
            YoutubeEvent::Hybrid(Ok(c)) => YoutubeJob { merged: Some(c.flagged), ..self }.tidying(
                seq![event("stage"@, "hybrid"@, hybrid_ready(c))],
            ),
            YoutubeEvent::Hybrid(Err(error)) => self.tidying(
                seq![
                    event("warn"@, "hybrid"@, "Could not build hybrid transcript: "@ + error@),
                ],
            ),
            YoutubeEvent::Cleaned(n) => if self.phase == YoutubePhase::NoCaptions {
                self.failed(
                    seq![
                        event(
                            "error"@,
                            "captions"@,
                            "No YouTube captions were available for this URL"@,
                        ),
                    ],
                    "No YouTube captions were available. Cleaned "@ + decimal(n as nat)
                        + " temporary item(s)."@,
                )
            } else {
                (
                    self.at(YoutubePhase::Done),
                    goes_on(
                        seq![event("stage"@, "done"@, "Job complete"@)],
                        YoutubeAction::Finish,
                    ),
                )
            },
        }
    }
}

// ---------------------------------------------------------------------------
// Running the job
// ---------------------------------------------------------------------------

fn one_event(level: &str, stage: &str, message: &str) -> (r: Vec<JobEvent>)
    ensures
        events_of(r@) == seq![event(level@, stage@, message@)],
{
    let mut events = no_events();
    add_event(&mut events, level, stage, message);
    assert(events_of(events@) =~= seq![event(level@, stage@, message@)]);
    events
}

fn push_media(list: &mut Vec<Artifact>, n: usize)
    ensures
        final(list)@ == old(list)@ + media_artifacts(n as nat),
{
    let ghost before = list@;
    let mut i: usize = 0;
    assert(list@ =~= before + media_artifacts(0));
    while i < n
        invariant
            i <= n,
            list@ == before + media_artifacts(i as nat),
        decreases n - i,
    {
        list.push(Artifact::Media(i));
        assert(list@ =~= before + media_artifacts((i + 1) as nat));
        i += 1;
    }
}

fn push_sidecars(list: &mut Vec<Artifact>, s: Sidecars)
    ensures
        final(list)@ == old(list)@ + named_artifacts(sidecar_files(s)),
{
    let ghost before = list@;
    if s.description {
        list.push(Artifact::Named(Output::Description));
    }
    if s.info_json {
        list.push(Artifact::Named(Output::InfoJson));
    }
    assert(list@ =~= before + named_artifacts(sidecar_files(s)));
}

fn push_captions(list: &mut Vec<Artifact>, saved: bool)
    ensures
        final(list)@ == old(list)@ + named_artifacts(caption_files(saved)),
{
    let ghost before = list@;
    if saved {
        list.push(Artifact::Named(Output::CaptionSrt));
        list.push(Artifact::Named(Output::CaptionTxt));
    }
    assert(list@ =~= before + named_artifacts(caption_files(saved)));
}

/// Adds the outputs of Whisper to a list.
pub fn push_whisper(list: &mut Vec<Artifact>, w: WhisperFiles)
    ensures
        final(list)@ == old(list)@ + named_artifacts(whisper_files(w)),
{
    let ghost before = list@;
    if w.txt {
        list.push(Artifact::Named(Output::WhisperTxt));
    }
    if w.srt {
        list.push(Artifact::Named(Output::WhisperSrt));
    }
    assert(list@ =~= before + named_artifacts(whisper_files(w)));
}

/// Adds the files of a hybrid to a list, if there is one.
pub fn push_hybrid(list: &mut Vec<Artifact>, merged: Option<bool>)
    ensures
        final(list)@ == old(list)@ + named_artifacts(hybrid_files(merged)),
{
    let ghost before = list@;
    if let Some(flagged) = merged {
        list.push(Artifact::Named(Output::HybridSrt));
        list.push(Artifact::Named(Output::HybridTxt));
        if flagged {
            list.push(Artifact::Named(Output::HybridFlagged));
        }
    }
    assert(list@ =~= before + named_artifacts(hybrid_files(merged)));
}

impl YoutubeJob {
    /// A new job, with its first action.
    pub fn start(request: &YoutubeJobRequest) -> (r: (YoutubeJob, YoutubeAction))
        ensures
            r.0 == (YoutubeJob {
                phase: YoutubePhase::OutputDir,
                source: TranscriptSource::named(request.transcript_source@),
                keep_media: request.keep_media,
                video: request.media_action@ == "video"@,
                has_ffmpeg: false,
                has_whisper_cli: false,
                captions: false,
                caption_sidecars: Sidecars { description: false, info_json: false },
                media: 0,
                media_sidecars: Sidecars { description: false, info_json: false },
                wav: false,
                whisper: WhisperFiles { txt: false, srt: false },
                merged: None,
            }),
            consistent(r.0),
            r.1 == YoutubeAction::CreateOutputDir,
    {
        let none = Sidecars { description: false, info_json: false };
        let job = YoutubeJob {
            phase: YoutubePhase::OutputDir,
            source: TranscriptSource::parse(request.transcript_source.as_str()),
            keep_media: request.keep_media,
            video: same_text(request.media_action.as_str(), "video"),
            has_ffmpeg: false,
            has_whisper_cli: false,
            captions: false,
            caption_sidecars: none,
            media: 0,
            media_sidecars: none,
            wav: false,
            whisper: WhisperFiles { txt: false, srt: false },
            merged: None,
        };
        (job, YoutubeAction::CreateOutputDir)
    }

    /// The outputs of the job, in the order in which they are listed.
    pub fn list_outputs(&self) -> (r: Vec<Artifact>)
        ensures
            r@ == self.outputs(),
    {
        let mut list: Vec<Artifact> = Vec::new();
        push_captions(&mut list, self.captions);
        assert(list@ =~= named_artifacts(caption_files(self.captions)));
        push_sidecars(&mut list, self.caption_sidecars);
        let further = Sidecars {
            description: self.media_sidecars.description && !self.caption_sidecars.description,
            info_json: self.media_sidecars.info_json && !self.caption_sidecars.info_json,
        };
        push_sidecars(&mut list, further);
        let ghost before = list@;
        if self.keeps() {
            push_media(&mut list, self.media);
        } else {
            assert(before + Seq::<Artifact>::empty() =~= before);
        }
        push_whisper(&mut list, self.whisper);
        push_hybrid(&mut list, self.merged);
        list
    }

    /// What the job removes, in this order.
    pub fn list_leftovers(&self) -> (r: Vec<Artifact>)
        ensures
            r@ == self.leftovers(),
    {
        let mut list: Vec<Artifact> = Vec::new();
        list.push(Artifact::TempDir);
        if !self.keeps() {
            push_media(&mut list, self.media);
        }
        if self.wav {
            list.push(Artifact::Named(Output::WhisperInput));
        }
        assert(list@ =~= self.leftovers());
        list
    }

    fn keeps(&self) -> (r: bool)
        ensures
            r == self.keeps_media(),
    {
        match self.source {
            TranscriptSource::Media => true,
            _ => self.keep_media,
        }
    }

    fn tidy(&mut self, events: Vec<JobEvent>) -> (r: Turn<YoutubeAction>)
        ensures
            (*final(self), r@) == old(self).tidying(events_of(events@)),
    {
        self.phase = YoutubePhase::Cleanup;
        let mut said = events;
        add_event(&mut said, "stage", "cleanup", "Cleaning temporary files");
        go_on(said, YoutubeAction::Clean)
    }

    fn merge(&mut self, events: Vec<JobEvent>) -> (r: Turn<YoutubeAction>)
        ensures
            (*final(self), r@) == old(self).merging(events_of(events@)),
    {
        let mut said = events;
        match self.source {
            TranscriptSource::Hybrid => {
                if self.whisper.srt && self.captions {
                    self.phase = YoutubePhase::Hybrid;
                    add_event(
                        &mut said,
                        "stage",
                        "hybrid",
                        "Merging Whisper prose with YouTube proper nouns",
                    );
                    let info_json = self.caption_sidecars.info_json
                        || self.media_sidecars.info_json;
                    go_on(said, YoutubeAction::BuildHybrid { info_json })
                } else {
                    if self.captions {
                        add_event(
                            &mut said,
                            "warn",
                            "hybrid",
                            "Missing one of the source transcripts — skipping merge",
                        );
                    }
                    self.tidy(said)
                }
            },
            _ => self.tidy(said),
        }
    }

    fn fetch(&mut self, events: Vec<JobEvent>) -> (r: Turn<YoutubeAction>)
        ensures
            (*final(self), r@) == old(self).fetching(events_of(events@)),
    {
        let media_only = match self.source {
            TranscriptSource::Media => true,
            _ => false,
        };
        let whisper = self.source.whisper_requested(self.captions);
        if should_download_media(media_only, self.keep_media, whisper) {
            self.phase = YoutubePhase::Media;
            let kept = self.keep_media || media_only;
            let video = self.video;
            go_on(events, YoutubeAction::DownloadMedia { kept, video })
        } else {
            self.merge(events)
        }
    }

    fn give_up(&mut self, events: Vec<JobEvent>, error: String) -> (r: Turn<YoutubeAction>)
        ensures
            (*final(self), r@) == old(self).failed(events_of(events@), error@),
    {
        self.phase = YoutubePhase::Done;
        fail(events, error)
    }

    fn proceed(&mut self, phase: YoutubePhase, action: YoutubeAction) -> (r: Turn<YoutubeAction>)
        ensures
            (*final(self), r@) == old(self).next(phase, action),
    {
        self.phase = phase;
        go_on(no_events(), action)
    }

    fn take_captions(&mut self, d: CaptionDownload) -> (r: Turn<YoutubeAction>)
        ensures
            (*final(self), r@) == old(self).with_captions(d),
    {
        self.captions = d.saved;
        self.caption_sidecars = d.metadata;
        if d.saved {
            return self.fetch(no_events());
        }
        match self.source {
            TranscriptSource::CaptionsOnly => self.proceed(
                YoutubePhase::NoCaptions,
                YoutubeAction::Clean,
            ),
            TranscriptSource::Hybrid => self.fetch(
                one_event(
                    "warn",
                    "hybrid",
                    "No YouTube captions found — falling back to Whisper-only; no merge will be produced",
                ),
            ),
            _ => self.fetch(no_events()),
        }
    }

    fn take_media(&mut self, s: Sidecars) -> (r: Turn<YoutubeAction>)
        ensures
            (*final(self), r@) == old(self).with_media(s),
    {
        self.media_sidecars = s;
        if !self.source.whisper_requested(self.captions) {
            self.merge(no_events())
        } else if !self.has_whisper_cli {
            self.give_up(no_events(), "whisper-cli was not found".to_string())
        } else if !self.has_ffmpeg {
            self.give_up(no_events(), "ffmpeg was not found".to_string())
        } else {
            self.proceed(YoutubePhase::Model, YoutubeAction::CheckModel)
        }
    }

    fn set_up(&mut self, e: YoutubeEvent) -> (r: Turn<YoutubeAction>)
        requires
            old(self).expects(e),
            e is OutputDir || e is Tools || e is TempDir || e is Title,
        ensures
            (*final(self), r@) == old(self).turn(e),
    {
        match e {
            YoutubeEvent::OutputDir(Ok(_)) => self.proceed(
                YoutubePhase::Tools,
                YoutubeAction::DetectTools,
            ),
            YoutubeEvent::OutputDir(Err(error)) => self.give_up(
                no_events(),
                joined_text("Could not create output folder: ", error.as_str()),
            ),
            YoutubeEvent::Tools { yt_dlp, ffmpeg, whisper_cli } => {
                if !yt_dlp {
                    return self.give_up(no_events(), "yt-dlp was not found".to_string());
                }
                self.has_ffmpeg = ffmpeg;
                self.has_whisper_cli = whisper_cli;
                self.proceed(YoutubePhase::TempDir, YoutubeAction::CreateTempDir)
            },
            YoutubeEvent::TempDir(Ok(_)) => {
                self.phase = YoutubePhase::Title;
                go_on(
                    one_event("stage", "setup", "Preparing YouTube job"),
                    YoutubeAction::FetchTitle,
                )
            },
            YoutubeEvent::TempDir(Err(error)) => self.give_up(no_events(), error),
            YoutubeEvent::Title(base) => {
                let text = joined_text("Output prefix: ", base.as_str());
                let said = one_event("info", "setup", text.as_str());
                if self.source.captions_requested() {
                    self.phase = YoutubePhase::Captions;
                    go_on(said, YoutubeAction::DownloadCaptions)
                } else {
                    self.fetch(said)
                }
            },
            // No other event is handed on.
            _ => self.give_up(no_events(), String::new()),
        }
    }

    fn gather(&mut self, e: YoutubeEvent) -> (r: Turn<YoutubeAction>)
        requires
            old(self).expects(e),
            e is Captions || e is Media || e is Collected,
        ensures
            (*final(self), r@) == old(self).turn(e),
    {
        match e {
            YoutubeEvent::Captions(Ok(d)) => self.take_captions(d),
            YoutubeEvent::Captions(Err(error)) => self.give_up(no_events(), error),
            YoutubeEvent::Media(Ok(n)) => {
                let kept = self.keeps();
                self.media = n;
                self.proceed(YoutubePhase::Sidecars, YoutubeAction::CollectSidecars { kept })
            },
            YoutubeEvent::Media(Err(error)) => self.give_up(no_events(), error),
            YoutubeEvent::Collected(s) => self.take_media(s),
            // No other event is handed on.
            _ => self.give_up(no_events(), String::new()),
        }
    }

    fn transcribe(&mut self, e: YoutubeEvent) -> (r: Turn<YoutubeAction>)
        requires
            old(self).expects(e),
            e is Model || e is Audio || e is Wav || e is Whisper,
        ensures
            (*final(self), r@) == old(self).turn(e),
    {
        match e {
            YoutubeEvent::Model(Ok(_)) => self.proceed(
                YoutubePhase::Audio,
                YoutubeAction::FindAudio,
            ),
            YoutubeEvent::Model(Err(error)) => self.give_up(no_events(), error),
            YoutubeEvent::Audio(Some(i)) => self.proceed(
                YoutubePhase::Wav,
                YoutubeAction::ConvertToWav(i),
            ),
            YoutubeEvent::Audio(None) => self.give_up(
                no_events(),
                "Downloaded media did not contain an audio stream for Whisper".to_string(),
            ),
            YoutubeEvent::Wav(Ok(_)) => {
                self.wav = true;
                self.proceed(YoutubePhase::Whisper, YoutubeAction::RunWhisper)
            },
            YoutubeEvent::Wav(Err(error)) => self.give_up(no_events(), error),
            YoutubeEvent::Whisper(Ok(w)) => {
                self.whisper = w;
                self.merge(no_events())
            },
            YoutubeEvent::Whisper(Err(error)) => self.give_up(no_events(), error),
            // No other event is handed on.
            _ => self.give_up(no_events(), String::new()),
        }
    }

    fn wind_up(&mut self, e: YoutubeEvent) -> (r: Turn<YoutubeAction>)
        requires
            old(self).expects(e),
            e is Hybrid || e is Cleaned,
        ensures
            (*final(self), r@) == old(self).turn(e),
    {
        match e {
            YoutubeEvent::Hybrid(Ok(c)) => {
                self.merged = Some(c.flagged);
                let text = hybrid_ready_text(c);
                self.tidy(one_event("stage", "hybrid", text.as_str()))
            },
            YoutubeEvent::Hybrid(Err(error)) => {
                let text = joined_text("Could not build hybrid transcript: ", error.as_str());
                self.tidy(one_event("warn", "hybrid", text.as_str()))
            },
            YoutubeEvent::Cleaned(n) => {
                if self.phase == YoutubePhase::NoCaptions {
                    let mut text = "No YouTube captions were available. Cleaned ".to_string();
                    push_decimal(&mut text, n as u128);
                    text.append(" temporary item(s).");
                    self.give_up(
                        one_event(
                            "error",
                            "captions",
                            "No YouTube captions were available for this URL",
                        ),
                        text,
                    )
                } else {
                    self.phase = YoutubePhase::Done;
                    go_on(one_event("stage", "done", "Job complete"), YoutubeAction::Finish)
                }
            },
            // No other event is handed on.
            _ => self.give_up(no_events(), String::new()),
        }
    }

    /// Tells the job how its action ended, and gives what it does next.
    pub fn step(&mut self, e: YoutubeEvent) -> (r: Turn<YoutubeAction>)
        requires
            old(self).expects(e),
        ensures
            (*final(self), r@) == old(self).turn(e),
            consistent(*old(self)) && possible(e) ==> consistent(*final(self)),
    {
        proof {
            if consistent(*self) && possible(e) {
                law_job_stays_consistent(*self, e);
            }
        }
        match self.phase {
            YoutubePhase::OutputDir => self.set_up(e),
            YoutubePhase::Tools => self.set_up(e),
            YoutubePhase::TempDir => self.set_up(e),
            YoutubePhase::Title => self.set_up(e),
            YoutubePhase::Captions => self.gather(e),
            YoutubePhase::Media => self.gather(e),
            YoutubePhase::Sidecars => self.gather(e),
            YoutubePhase::Model => self.transcribe(e),
            YoutubePhase::Audio => self.transcribe(e),
            YoutubePhase::Wav => self.transcribe(e),
            YoutubePhase::Whisper => self.transcribe(e),
            YoutubePhase::Hybrid => self.wind_up(e),
            YoutubePhase::NoCaptions => self.wind_up(e),
            YoutubePhase::Cleanup => self.wind_up(e),
            YoutubePhase::Done => self.wind_up(e),
        }
    }
}

} // verus!
