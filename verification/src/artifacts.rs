//! The files and folders that a job makes, by what they are: their names, and what becomes of them.
use vstd::prelude::*;

use crate::events::{add_event, job_event, joined_text, no_events, JobEvent};
use crate::find::join;
#[allow(unused_imports)]
use crate::events::{event, events_of, Event};
#[allow(unused_imports)]
use crate::find::joined;
#[allow(unused_imports)]
use crate::text::{lemma_texts_push, texts};

verus! {

// ---------------------------------------------------------------------------
// Names
// ---------------------------------------------------------------------------

/// A file that a job names after its source.
#[derive(Debug, Clone, Copy, PartialEq, Eq, Structural)]
pub enum Output {
    CaptionSrt,
    CaptionTxt,
    Description,
    InfoJson,
    WhisperInput,
    Converted,
    WhisperTxt,
    WhisperSrt,
    HybridSrt,
    HybridTxt,
    HybridFlagged,
}

impl Output {
    /// What follows the name of the source.
    pub open spec fn suffix(self) -> Seq<char> {
        match self {
            Output::CaptionSrt => ".youtube-captions.srt"@,
            Output::CaptionTxt => ".youtube-captions.txt"@,
            Output::Description => ".description"@,
            Output::InfoJson => ".info.json"@,
            Output::WhisperInput => ".whisper-input.wav"@,
            Output::Converted => ".converted.wav"@,
            Output::WhisperTxt => ".whisper.txt"@,
            Output::WhisperSrt => ".whisper.srt"@,
            Output::HybridSrt => ".hybrid.srt"@,
            Output::HybridTxt => ".hybrid.txt"@,
            Output::HybridFlagged => ".hybrid.flagged.txt"@,
        }
    }

    /// The name of the file for a source that is named `base`.
    pub open spec fn name(self, base: Seq<char>) -> Seq<char> {
        base + self.suffix()
    }

    /// The name of the file for a source that is named `base`.
    pub fn file_name(self, base: &str) -> (r: String)
        ensures
            r@ == self.name(base@),
    {
        let suffix = match self {
            Output::CaptionSrt => ".youtube-captions.srt",
            Output::CaptionTxt => ".youtube-captions.txt",
            Output::Description => ".description",
            Output::InfoJson => ".info.json",
            Output::WhisperInput => ".whisper-input.wav",
            Output::Converted => ".converted.wav",
            Output::WhisperTxt => ".whisper.txt",
            Output::WhisperSrt => ".whisper.srt",
            Output::HybridSrt => ".hybrid.srt",
            Output::HybridTxt => ".hybrid.txt",
            Output::HybridFlagged => ".hybrid.flagged.txt",
        };
        joined_text(base, suffix)
    }
}

/// What Whisper is told to start the names of its outputs with.
pub fn whisper_prefix(base: &str) -> (r: String)
    ensures
        r@ == base@ + ".whisper"@,
{
    joined_text(base, ".whisper")
}

/// The template by which yt-dlp names the media of a video.
pub fn media_template(base: &str) -> (r: String)
    ensures
        r@ == base@ + ".%(ext)s"@,
{
    joined_text(base, ".%(ext)s")
}

/// The stem of the files that yt-dlp writes with the captions of a video.
pub fn caption_stem() -> (r: String)
    ensures
        r@ == "captions"@,
{
    "captions".to_string()
}

/// Where the suffixes differ: in their length, their first letter, or the middle letter of their
/// extension.
proof fn lemma_suffixes()
    ensures
        forall|o: Output| o.suffix().len() == match o {
            Output::CaptionSrt => 21int,
            Output::CaptionTxt => 21,
            Output::Description => 12,
            Output::InfoJson => 10,
            Output::WhisperInput => 18,
            Output::Converted => 14,
            Output::WhisperTxt => 12,
            Output::WhisperSrt => 12,
            Output::HybridSrt => 11,
            Output::HybridTxt => 11,
            Output::HybridFlagged => 19,
        },
        forall|o: Output| #[trigger] o.suffix()[1] == match o {
            Output::CaptionSrt => 'y',
            Output::CaptionTxt => 'y',
            Output::Description => 'd',
            Output::InfoJson => 'i',
            Output::WhisperInput => 'w',
            Output::Converted => 'c',
            Output::WhisperTxt => 'w',
            Output::WhisperSrt => 'w',
            Output::HybridSrt => 'h',
            Output::HybridTxt => 'h',
            Output::HybridFlagged => 'h',
        },
        Output::CaptionSrt.suffix()[19] == 'r',
        Output::CaptionTxt.suffix()[19] == 'x',
        Output::WhisperSrt.suffix()[10] == 'r',
        Output::WhisperTxt.suffix()[10] == 'x',
        Output::HybridSrt.suffix()[9] == 'r',
        Output::HybridTxt.suffix()[9] == 'x',
{
    reveal_strlit(".youtube-captions.srt");
    reveal_strlit(".youtube-captions.txt");
    reveal_strlit(".description");
    reveal_strlit(".info.json");
    reveal_strlit(".whisper-input.wav");
    reveal_strlit(".converted.wav");
    reveal_strlit(".whisper.txt");
    reveal_strlit(".whisper.srt");
    reveal_strlit(".hybrid.srt");
    reveal_strlit(".hybrid.txt");
    reveal_strlit(".hybrid.flagged.txt");
}

/// Different outputs of a source have different names.
pub proof fn law_output_names_differ(a: Output, b: Output, base: Seq<char>)
    requires
        a != b,
    ensures
        a.name(base) != b.name(base),
{
    lemma_suffixes();
    if a.name(base) == b.name(base) {
        assert(a.name(base).skip(base.len() as int) =~= a.suffix());
        assert(b.name(base).skip(base.len() as int) =~= b.suffix());
        assert(a.suffix().len() == b.suffix().len());
        assert(a.suffix()[1] == b.suffix()[1]);
    }
}

/// What Whisper writes, its prefix with an extension, has the names under which its outputs are
/// looked for.
pub proof fn law_whisper_writes_what_is_looked_for(base: Seq<char>)
    ensures
        Output::WhisperTxt.name(base) == base + ".whisper"@ + ".txt"@,
        Output::WhisperSrt.name(base) == base + ".whisper"@ + ".srt"@,
{
    reveal_strlit(".whisper.txt");
    reveal_strlit(".whisper.srt");
    reveal_strlit(".whisper");
    reveal_strlit(".txt");
    reveal_strlit(".srt");
    assert(".whisper.txt"@ =~= ".whisper"@ + ".txt"@);
    assert(".whisper.srt"@ =~= ".whisper"@ + ".srt"@);
    assert(Output::WhisperTxt.name(base) =~= base + ".whisper"@ + ".txt"@);
    assert(Output::WhisperSrt.name(base) =~= base + ".whisper"@ + ".srt"@);
}

/// A file or a folder of a job: its temporary folder, one of the media files that it downloaded,
/// or a file that is named after the source.
#[derive(Debug, Clone, Copy, PartialEq, Eq, Structural)]
pub enum Artifact {
    TempDir,
    Media(usize),
    Named(Output),
}

// ---------------------------------------------------------------------------
// Metadata
// ---------------------------------------------------------------------------

/// Which files with metadata of a video were saved.
#[derive(Debug, Clone, Copy, PartialEq, Eq, Structural)]
pub struct Sidecars {
    pub description: bool,
    pub info_json: bool,
}

/// What became of a file with metadata: it could not be saved, or it is, or is not, in the folder
/// of the outputs.
#[derive(Debug)]
pub enum SidecarOutcome {
    NotSaved(String),
    Checked(bool),
}

impl SidecarOutcome {
    /// The file is in the folder of the outputs.
    pub open spec fn saved(self) -> bool {
        self matches SidecarOutcome::Checked(true)
    }

    /// What is said if the file could not be saved.
    pub open spec fn warning(self, ext: Seq<char>) -> Seq<Event> {
        match self {
            SidecarOutcome::NotSaved(e) => seq![
                event("warn"@, "metadata"@, "Could not save "@ + ext + ": "@ + e@),
            ],
            SidecarOutcome::Checked(_) => Seq::empty(),
        }
    }

    fn is_saved(&self) -> (r: bool)
        ensures
            r == self.saved(),
    {
        match self {
            SidecarOutcome::NotSaved(_) => false,
            SidecarOutcome::Checked(b) => *b,
        }
    }

    fn warn(&self, ext: &str, events: &mut Vec<JobEvent>)
        ensures
            events_of(final(events)@) == events_of(old(events)@) + self.warning(ext@),
    {
        match self {
            SidecarOutcome::NotSaved(e) => {
                let mut text = "Could not save ".to_string();
                text.append(ext);
                text.append(": ");
                text.append(e.as_str());
                add_event(events, "warn", "metadata", text.as_str());
            },
            SidecarOutcome::Checked(_) => {},
        }
        assert(events_of(final(events)@) =~= events_of(old(events)@) + self.warning(ext@));
    }
}

/// The files with metadata that were saved, in the order in which they are listed.
pub open spec fn sidecar_files(s: Sidecars) -> Seq<Output> {
    (if s.description {
        seq![Output::Description]
    } else {
        Seq::empty()
    }) + (if s.info_json {
        seq![Output::InfoJson]
    } else {
        Seq::empty()
    })
}

/// What is said of the files with metadata that were saved, if any were.
pub open spec fn saved_sidecars(base: Seq<char>, s: Sidecars) -> Seq<Event> {
    if s.description || s.info_json {
        seq![
            event(
                "stage"@,
                "metadata"@,
                "Saved metadata sidecar(s): "@ + joined(
                    sidecar_files(s).map_values(|o: Output| o.name(base)),
                    ", "@,
                ),
            ),
        ]
    } else {
        Seq::empty()
    }
}

/// Which files with metadata of a video were saved, and what is said of that. The description is
/// dealt with before the metadata proper.
pub fn collect_metadata_sidecars(
    base: &str,
    description: &SidecarOutcome,
    info_json: &SidecarOutcome,
) -> (r: (Sidecars, Vec<JobEvent>))
    ensures
        r.0 == (Sidecars { description: description.saved(), info_json: info_json.saved() }),
        events_of(r.1@) == description.warning("description"@) + info_json.warning("info.json"@)
            + saved_sidecars(base@, r.0),
{
    let mut events = no_events();
    description.warn("description", &mut events);
    info_json.warn("info.json", &mut events);
    assert(events_of(events@) =~= description.warning("description"@) + info_json.warning(
        "info.json"@,
    ));
    let s = Sidecars { description: description.is_saved(), info_json: info_json.is_saved() };
    if s.description || s.info_json {
        let mut names: Vec<String> = Vec::new();
        if s.description {
            names.push(Output::Description.file_name(base));
        }
        if s.info_json {
            names.push(Output::InfoJson.file_name(base));
        }
        assert(texts(names@) =~= sidecar_files(s).map_values(|o: Output| o.name(base@)));
        let text = joined_text("Saved metadata sidecar(s): ", join(&names, ", ").as_str());
        add_event(&mut events, "stage", "metadata", text.as_str());
    }
    assert(events_of(events@) =~= description.warning("description"@) + info_json.warning(
        "info.json"@,
    ) + saved_sidecars(base@, s));
    (s, events)
}

// ---------------------------------------------------------------------------
// Whisper
// ---------------------------------------------------------------------------

/// Which outputs of Whisper there are.
#[derive(Debug, Clone, Copy, PartialEq, Eq, Structural)]
pub struct WhisperFiles {
    pub txt: bool,
    pub srt: bool,
}

/// The outputs of Whisper that there are, in the order in which they are listed.
pub open spec fn whisper_files(w: WhisperFiles) -> Seq<Output> {
    (if w.txt {
        seq![Output::WhisperTxt]
    } else {
        Seq::empty()
    }) + (if w.srt {
        seq![Output::WhisperSrt]
    } else {
        Seq::empty()
    })
}

/// What a run of Whisper gave, by which of its outputs are files: at least one has to be.
pub fn whisper_outcome(txt: bool, srt: bool) -> (r: Result<WhisperFiles, String>)
    ensures
        match r {
            Ok(w) => (txt || srt) && w == (WhisperFiles { txt, srt }),
            Err(e) => !txt && !srt && e@
                == "whisper.cpp finished but no TXT or SRT output was found"@,
        },
{
    if txt || srt {
        Ok(WhisperFiles { txt, srt })
    } else {
        Err("whisper.cpp finished but no TXT or SRT output was found".to_string())
    }
}

// ---------------------------------------------------------------------------
// Removing
// ---------------------------------------------------------------------------

/// What became of something that was to be removed.
#[derive(Debug)]
pub enum CleanOutcome {
    Absent,
    Removed,
    Failed(String),
}

/// What is said of something that was to be removed; nothing if it was not there.
pub open spec fn clean_event(path: Seq<char>, outcome: CleanOutcome) -> Option<Event> {
    match outcome {
        CleanOutcome::Absent => None,
        CleanOutcome::Removed => Some(event("stage"@, "cleanup"@, "Removed "@ + path)),
        CleanOutcome::Failed(e) => Some(
            event("warn"@, "cleanup"@, "Could not remove "@ + path + ": "@ + e@),
        ),
    }
}

/// A notice that may be absent.
pub open spec fn event_view(e: Option<JobEvent>) -> Option<Event> {
    match e {
        Some(x) => Some(x@),
        None => None,
    }
}

/// Notes that something was to be removed: what was removed is added to the list.
pub fn clean_path(path: &str, outcome: &CleanOutcome, cleaned: &mut Vec<String>) -> (r: Option<
    JobEvent,
>)
    ensures
        event_view(r) == clean_event(path@, *outcome),
        texts(final(cleaned)@) == (if outcome is Removed {
            texts(old(cleaned)@).push(path@)
        } else {
            texts(old(cleaned)@)
        }),
{
    match outcome {
        CleanOutcome::Absent => None,
        CleanOutcome::Removed => {
            let p = path.to_string();
            proof {
                lemma_texts_push(cleaned@, p);
            }
            cleaned.push(p);
            let text = joined_text("Removed ", path);
            Some(job_event("stage", "cleanup", text.as_str()))
        },
        CleanOutcome::Failed(e) => {
            let mut text = "Could not remove ".to_string();
            text.append(path);
            text.append(": ");
            text.append(e.as_str());
            Some(job_event("warn", "cleanup", text.as_str()))
        },
    }
}

} // verus!
