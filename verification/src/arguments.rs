//! The arguments that the command-line tools are called with.
use vstd::prelude::*;

use crate::number::decimal_text;
use crate::trim::trim;
#[allow(unused_imports)]
use crate::number::decimal;
#[allow(unused_imports)]
use crate::text::{lemma_texts_push, str_view, texts};
#[allow(unused_imports)]
use crate::trim::trimmed;

verus! {

/// The arguments that ask yt-dlp for the title of a video.
pub fn title_args(url: &str) -> (r: Vec<String>)
    ensures
        texts(r@) == seq!["--no-playlist"@, "--print"@, "title"@, url@],
{
    let r = vec![
        "--no-playlist".to_string(),
        "--print".to_string(),
        "title".to_string(),
        url.to_string(),
    ];
    assert(texts(r@) =~= seq!["--no-playlist"@, "--print"@, "title"@, url@]);
    r
}

/// The arguments that ask yt-dlp for the English captions of a video, made by people or not, as
/// SubRip files, with its description and its metadata.
pub open spec fn caption_arguments(template: Seq<char>, url: Seq<char>) -> Seq<Seq<char>> {
    seq![
        "--skip-download"@,
        "--write-subs"@,
        "--write-auto-subs"@,
        "--write-description"@,
        "--write-info-json"@,
        "--sub-langs"@,
        "en.*"@,
        "--sub-format"@,
        "srt/vtt/best"@,
        "--convert-subs"@,
        "srt"@,
        "-o"@,
        template,
        url,
    ]
}

/// The arguments that ask yt-dlp for the captions of a video.
pub fn caption_args(template: &str, url: &str) -> (r: Vec<String>)
    ensures
        texts(r@) == caption_arguments(template@, url@),
{
    let r = vec![
        "--skip-download".to_string(),
        "--write-subs".to_string(),
        "--write-auto-subs".to_string(),
        "--write-description".to_string(),
        "--write-info-json".to_string(),
        "--sub-langs".to_string(),
        "en.*".to_string(),
        "--sub-format".to_string(),
        "srt/vtt/best".to_string(),
        "--convert-subs".to_string(),
        "srt".to_string(),
        "-o".to_string(),
        template.to_string(),
        url.to_string(),
    ];
    assert(texts(r@) =~= caption_arguments(template@, url@));
    r
}

/// The formats that a download tries, the best first: for a video H.264 with AAC in MP4, for sound
/// AAC in M4A.
pub open spec fn formats(video: bool) -> Seq<Seq<char>> {
    if video {
        seq![
            "bv*[ext=mp4][vcodec^=avc1]+ba[ext=m4a][acodec^=mp4a]/b[ext=mp4][vcodec^=avc1][acodec^=mp4a]"@,
            "bv*[ext=mp4][vcodec^=avc1]+ba[ext=m4a]/b[ext=mp4][vcodec^=avc1]"@,
            "bv*[ext=mp4]+ba[ext=m4a]/b[ext=mp4]/bv*+ba/b"@,
            "bv*+ba/b"@,
            "best"@,
        ]
    } else {
        seq![
            "ba[ext=m4a][acodec^=mp4a]/ba[ext=m4a]/ba[acodec^=mp4a]/ba/b"@,
            "ba[ext=m4a]/ba/b"@,
            "ba/b"@,
            "best"@,
        ]
    }
}

/// The formats that a download tries, the best first.
pub fn format_attempts(video: bool) -> (r: Vec<String>)
    ensures
        texts(r@) == formats(video),
{
    let r = if video {
        vec![
            "bv*[ext=mp4][vcodec^=avc1]+ba[ext=m4a][acodec^=mp4a]/b[ext=mp4][vcodec^=avc1][acodec^=mp4a]".to_string(),
            "bv*[ext=mp4][vcodec^=avc1]+ba[ext=m4a]/b[ext=mp4][vcodec^=avc1]".to_string(),
            "bv*[ext=mp4]+ba[ext=m4a]/b[ext=mp4]/bv*+ba/b".to_string(),
            "bv*+ba/b".to_string(),
            "best".to_string(),
        ]
    } else {
        vec![
            "ba[ext=m4a][acodec^=mp4a]/ba[ext=m4a]/ba[acodec^=mp4a]/ba/b".to_string(),
            "ba[ext=m4a]/ba/b".to_string(),
            "ba/b".to_string(),
            "best".to_string(),
        ]
    };
    assert(texts(r@) =~= formats(video));
    r
}

/// The arguments that ask yt-dlp for the media of a video in a format. Where ffmpeg is known,
/// yt-dlp is told of it, and a video is merged into MP4.
pub open spec fn media_arguments(
    format: Seq<char>,
    video: bool,
    ffmpeg: Option<Seq<char>>,
    template: Seq<char>,
    url: Seq<char>,
) -> Seq<Seq<char>> {
    seq![
        "--no-playlist"@,
        "--no-keep-video"@,
        "--write-description"@,
        "--write-info-json"@,
        "--embed-metadata"@,
        "-f"@,
        format,
    ] + (match ffmpeg {
        Some(path) => seq!["--ffmpeg-location"@, path] + (if video {
            seq!["--merge-output-format"@, "mp4"@]
        } else {
            Seq::empty()
        }),
        None => Seq::empty(),
    }) + seq!["-o"@, template, url]
}

/// The arguments that ask yt-dlp for the media of a video in a format.
pub fn media_args(format: &str, video: bool, ffmpeg: Option<&str>, template: &str, url: &str) -> (r:
    Vec<String>)
    ensures
        texts(r@) == media_arguments(format@, video, str_view(ffmpeg), template@, url@),
{
    let mut args = vec![
        "--no-playlist".to_string(),
        "--no-keep-video".to_string(),
        "--write-description".to_string(),
        "--write-info-json".to_string(),
        "--embed-metadata".to_string(),
        "-f".to_string(),
        format.to_string(),
    ];
    if let Some(path) = ffmpeg {
        args.push("--ffmpeg-location".to_string());
        args.push(path.to_string());
        if video {
            args.push("--merge-output-format".to_string());
            args.push("mp4".to_string());
        }
    }
    args.push("-o".to_string());
    args.push(template.to_string());
    args.push(url.to_string());
    assert(texts(args@) =~= media_arguments(format@, video, str_view(ffmpeg), template@, url@));
    args
}

/// The arguments that ask ffmpeg what a file holds.
pub fn probe_args(path: &str) -> (r: Vec<String>)
    ensures
        texts(r@) == seq!["-hide_banner"@, "-i"@, path@],
{
    let r = vec!["-hide_banner".to_string(), "-i".to_string(), path.to_string()];
    assert(texts(r@) =~= seq!["-hide_banner"@, "-i"@, path@]);
    r
}

/// The arguments that make ffmpeg write the sound of a file as 16-bit samples, 16 kHz, one channel,
/// which is what Whisper reads.
pub open spec fn wav_arguments(input: Seq<char>, output: Seq<char>) -> Seq<Seq<char>> {
    seq![
        "-y"@,
        "-i"@,
        input,
        "-vn"@,
        "-acodec"@,
        "pcm_s16le"@,
        "-ar"@,
        "16000"@,
        "-ac"@,
        "1"@,
        output,
    ]
}

/// The arguments that make ffmpeg write the sound of a file as Whisper reads it.
pub fn wav_args(input: &str, output: &str) -> (r: Vec<String>)
    ensures
        texts(r@) == wav_arguments(input@, output@),
{
    let r = vec![
        "-y".to_string(),
        "-i".to_string(),
        input.to_string(),
        "-vn".to_string(),
        "-acodec".to_string(),
        "pcm_s16le".to_string(),
        "-ar".to_string(),
        "16000".to_string(),
        "-ac".to_string(),
        "1".to_string(),
        output.to_string(),
    ];
    assert(texts(r@) =~= wav_arguments(input@, output@));
    r
}

/// The arguments that make Whisper transcribe a file as text and as subtitles. A length of zero is
/// none, and so is a prompt without characters.
pub open spec fn whisper_arguments(
    model: Seq<char>,
    wav: Seq<char>,
    prefix: Seq<char>,
    prompt: Option<Seq<char>>,
    max_len: Option<u32>,
) -> Seq<Seq<char>> {
    seq!["-m"@, model, "-f"@, wav, "-otxt"@, "-osrt"@, "-of"@, prefix] + (match max_len {
        Some(n) => if n > 0 {
            seq!["--max-len"@, decimal(n as nat)]
        } else {
            Seq::empty()
        },
        None => Seq::empty(),
    }) + (match prompt {
        Some(p) => if trimmed(p).len() > 0 {
            seq!["--prompt"@, trimmed(p)]
        } else {
            Seq::empty()
        },
        None => Seq::empty(),
    })
}

/// The arguments that make Whisper transcribe a file as text and as subtitles.
pub fn whisper_args(
    model: &str,
    wav: &str,
    prefix: &str,
    prompt: Option<&str>,
    max_len: Option<u32>,
) -> (r: Vec<String>)
    ensures
        texts(r@) == whisper_arguments(model@, wav@, prefix@, str_view(prompt), max_len),
{
    let mut args = vec![
        "-m".to_string(),
        model.to_string(),
        "-f".to_string(),
        wav.to_string(),
        "-otxt".to_string(),
        "-osrt".to_string(),
        "-of".to_string(),
        prefix.to_string(),
    ];
    if let Some(n) = max_len {
        if n > 0 {
            args.push("--max-len".to_string());
            args.push(decimal_text(n as u128));
        }
    }
    if let Some(p) = prompt {
        let words = trim(p);
        if !words.as_str().is_empty() {
            args.push("--prompt".to_string());
            args.push(words);
        }
    }
    assert(texts(args@) =~= whisper_arguments(model@, wav@, prefix@, str_view(prompt), max_len));
    args
}

} // verus!
