use std::path::Path;

use youtube_transcribe::arguments::{
    caption_args, format_attempts, media_args, probe_args, title_args, wav_args, whisper_args,
};
use youtube_transcribe::artifacts::{
    clean_path, collect_metadata_sidecars, media_template, whisper_outcome, whisper_prefix,
    CleanOutcome, Output, SidecarOutcome, Sidecars,
};
use youtube_transcribe::captions::{caption_to_plain, captions_to_txt};
use youtube_transcribe::commands::{
    command_event, command_line, command_output, command_result, media_has_audio, mentions_audio,
    output_text, require_model, require_path, run_failure, shell_quote, start_failure, stderr_event,
    stdout_event, wait_failure, ErrorTail,
};
use youtube_transcribe::files::{
    downloaded_media_files, eq_ignore_ascii_case, find_sidecar, is_subrip,
    media_file_is_format_artifact, media_file_matches_base, media_files, newest_captions,
    newest_file_with_exts, newest_first, sidecar_name, yt_dlp_format_artifacts, FileEntry,
    SidecarPlace,
};
use youtube_transcribe::models::{
    is_model_name, is_plausible_whisper_model, model_dirs, model_rank, rank_lowercase, scan_models,
    ModelFile,
};
use youtube_transcribe::moving::{copy_failure, next_move, start_move, MoveAction};
use youtube_transcribe::names::{
    base_from_input, get_youtube_title, merge_base, sanitize, temp_dir_failure, temp_dir_name,
};
use youtube_transcribe::tools::{
    check_environment, detect_tools, find_audio_media, find_executable, path_entries, same_place,
    standard_dirs, Candidate, Place, Search, ToolPaths,
};

fn stem(path: &Path) -> Option<&str> {
    path.file_stem().and_then(|s| s.to_str())
}

fn entry(name: &str, modified: Option<i128>) -> FileEntry {
    let path = Path::new(name);
    FileEntry {
        is_file: true,
        name: Some(name.to_string()),
        stem: stem(path).map(|s| s.to_string()),
        extension: path.extension().and_then(|s| s.to_str()).map(|s| s.to_string()),
        modified,
    }
}

fn place(path: &str) -> Place {
    Place {
        parts: Path::new(path)
            .components()
            .map(|c| c.as_os_str().as_encoded_bytes().to_vec())
            .collect(),
    }
}

fn model(dir: &str, name: &str, size: u64) -> ModelFile {
    let path = format!("{}/{}", dir, name);
    ModelFile {
        place: place(&path),
        path,
        extension: Path::new(name).extension().and_then(|s| s.to_str()).map(|s| s.to_string()),
        name: Some(name.to_string()),
        size: Some(size),
    }
}

// Media files

#[test]
fn matches_finished_media_file_for_base() {
    let path = Path::new("/tmp/Video.Title.mp4");
    assert!(media_file_matches_base(stem(path), "Video.Title"));
}

#[test]
fn rejects_yt_dlp_format_artifact_as_finished_media() {
    let path = Path::new("/tmp/Video.Title.f234.mp4");
    assert!(!media_file_matches_base(stem(path), "Video.Title"));
    assert!(media_file_is_format_artifact(stem(path), "Video.Title"));
}

#[test]
fn tells_streams_from_other_files() {
    assert!(!media_file_is_format_artifact(Some("Video.f"), "Video"));
    assert!(!media_file_is_format_artifact(Some("Video.f12a"), "Video"));
    assert!(!media_file_is_format_artifact(Some("Video.g12"), "Video"));
    assert!(!media_file_is_format_artifact(Some("Other.f12"), "Video"));
    assert!(!media_file_is_format_artifact(None, "Video"));
    assert!(!media_file_matches_base(None, "Video"));
}

#[test]
fn lists_media_and_streams() {
    let mut folder = vec![
        entry("a.MP4", None),
        entry("a.f137.mp4", None),
        entry("a.txt", None),
        entry("b.ogg", None),
        entry("a.m4a", None),
        entry("noext", None),
    ];
    folder.push(FileEntry { is_file: false, ..entry("a.webm", None) });
    assert_eq!(media_files(&folder), vec![0, 1, 3, 4]);
    assert_eq!(downloaded_media_files(Some(&folder), "a"), Some(vec![0, 4]));
    assert_eq!(yt_dlp_format_artifacts(Some(&folder), "a"), Some(vec![1]));
    assert_eq!(downloaded_media_files(None, "a"), None);
    assert_eq!(yt_dlp_format_artifacts(None, "a"), None);
}

#[test]
fn ignores_the_case_of_letters() {
    assert!(eq_ignore_ascii_case("Mp4", "mP4"));
    assert!(!eq_ignore_ascii_case("mp4", "mp3"));
    assert!(!eq_ignore_ascii_case("É", "é"));
}

#[test]
fn finds_the_newest_file() {
    let folder = vec![
        entry("a.srt", Some(5)),
        entry("b.VTT", Some(7)),
        entry("c.srt", Some(7)),
        entry("d.srt", None),
        entry("e.txt", Some(9)),
    ];
    assert_eq!(newest_file_with_exts(Some(&folder), &["srt", "vtt"]), Some(2));
    assert_eq!(newest_file_with_exts(Some(&folder), &["vtt"]), Some(1));
    assert_eq!(newest_file_with_exts(Some(&folder), &["doc"]), None);
    assert_eq!(newest_file_with_exts(None, &["srt"]), None);
    assert_eq!(newest_captions(Some(&folder)), Some(2));
    assert_eq!(newest_captions(Some(&folder[4..])), None);
    assert!(is_subrip(Some("srt")) && !is_subrip(Some("SRT")) && !is_subrip(None));
}

#[test]
fn sorts_the_newest_first() {
    assert_eq!(newest_first(&[Some(1), Some(3), None, Some(3), Some(2)]), vec![3, 1, 4, 0, 2]);
    assert_eq!(newest_first(&[None, None]), vec![1, 0]);
    assert!(newest_first(&[]).is_empty());
}

#[test]
fn finds_sidecars() {
    let mut folder = vec![entry("x.info.json", None), entry("captions.en.info.json", None)];
    folder.insert(0, FileEntry { is_file: false, ..entry("captions.info.json", None) });
    assert_eq!(sidecar_name("captions", "info.json"), "captions.info.json");
    assert_eq!(
        find_sidecar(true, Some(&folder), "captions", "info.json"),
        Some(SidecarPlace::Direct)
    );
    assert_eq!(
        find_sidecar(false, Some(&folder), "captions", "info.json"),
        Some(SidecarPlace::Listed(2))
    );
    assert_eq!(find_sidecar(false, Some(&folder), "captions", "description"), None);
    assert_eq!(find_sidecar(false, None, "captions", "info.json"), None);
}

// Names

#[test]
fn cleans_names() {
    assert_eq!(sanitize("a/b: c?"), "a_b_ c_");
    assert_eq!(sanitize("  ..hidden..  "), "hidden");
    assert_eq!(sanitize("日本 語/"), "日本 語_");
    assert_eq!(sanitize("..."), "transcript");
    assert_eq!(sanitize(""), "transcript");
    assert_eq!(sanitize(". a"), " a");
    assert_eq!(sanitize("good-name_1.x"), "good-name_1.x");
}

#[test]
fn names_outputs() {
    assert_eq!(base_from_input(Some("lecture-04")), "lecture-04");
    assert_eq!(base_from_input(None), "transcript");
    assert_eq!(get_youtube_title(Some("My: Title\nsecond")), "My_ Title");
    assert_eq!(get_youtube_title(Some("")), "youtube-transcript");
    assert_eq!(get_youtube_title(None), "youtube-transcript");
    assert_eq!(merge_base(Some("  x/y "), Some("talk.whisper")), "x_y");
    assert_eq!(merge_base(Some("  "), Some("talk.whisper")), "talk");
    assert_eq!(merge_base(None, Some("talk")), "talk");
    assert_eq!(merge_base(None, None), "hybrid-transcript");
}

#[test]
fn names_temporary_folders() {
    assert_eq!(temp_dir_name(1_700_000_000_000), ".yt-transcribe-tmp-1700000000000");
    assert_eq!(temp_dir_name(0), ".yt-transcribe-tmp-0");
    assert_ne!(temp_dir_name(10), temp_dir_name(11));
    assert_eq!(temp_dir_failure("e"), "Could not create temp folder: e");
}

#[test]
fn names_files_of_a_job() {
    let names: Vec<String> = [
        Output::CaptionSrt,
        Output::CaptionTxt,
        Output::Description,
        Output::InfoJson,
        Output::WhisperInput,
        Output::Converted,
        Output::WhisperTxt,
        Output::WhisperSrt,
        Output::HybridSrt,
        Output::HybridTxt,
        Output::HybridFlagged,
    ]
    .iter()
    .map(|o| o.file_name("video-title"))
    .collect();
    assert_eq!(
        names,
        vec![
            "video-title.youtube-captions.srt",
            "video-title.youtube-captions.txt",
            "video-title.description",
            "video-title.info.json",
            "video-title.whisper-input.wav",
            "video-title.converted.wav",
            "video-title.whisper.txt",
            "video-title.whisper.srt",
            "video-title.hybrid.srt",
            "video-title.hybrid.txt",
            "video-title.hybrid.flagged.txt",
        ]
    );
    assert_eq!(whisper_prefix("v"), "v.whisper");
    assert_eq!(media_template("v"), "v.%(ext)s");
}

// Captions

#[test]
fn makes_text_of_captions() {
    let vtt = "WEBVTT\nKind: captions\nLanguage: en\n\n1\n00:00:00.000 --> 00:00:01.000\n <c>Hello</c> &amp; bye\nHello & bye\nNOTE x\n\n12\nnext\r\n";
    assert_eq!(captions_to_txt(vtt), "Hello & bye\nnext");
    assert_eq!(captions_to_txt("a\nb\na\na\n"), "a\nb\na");
    assert_eq!(captions_to_txt("<c></c>\nx\n<c></c>\ny"), "x\n\ny");
    assert_eq!(captions_to_txt("&amp;lt;"), "<");
    assert_eq!(captions_to_txt("1\n00:00:00,000 --> 00:00:01,000\n<i>hello</i>\n"), "hello");
    assert_eq!(
        captions_to_txt("<00:00:00.500><c.colorE5E5E5>so</c> <b>we</b> &lt;go&gt;"),
        "so we <go>"
    );
    assert_eq!(captions_to_txt(""), "");
}

#[test]
fn keeps_brackets_that_are_no_tags() {
    assert_eq!(captions_to_txt("i <3 you"), "i <3 you");
    assert_eq!(captions_to_txt("i <3 you > me"), "i <3 you > me");
    assert_eq!(captions_to_txt("a < b and c > d"), "a < b and c > d");
    assert_eq!(captions_to_txt("see <i"), "see <i");
    assert_eq!(captions_to_txt("<> <:> </> <7>"), "<> <:> </> <7>");
    assert_eq!(captions_to_txt("x <<i>y</i>> z"), "x <y> z");
    assert_eq!(captions_to_txt("x <<c>y</c>> z"), "x <y> z");
    assert_eq!(captions_to_txt("</<c>c>hi"), "hi");
}

#[test]
fn drops_tags_of_captions() {
    assert_eq!(caption_to_plain("<v Bob>one<br/>two</v>"), "onetwo");
    assert_eq!(caption_to_plain("<FONT color=\"#fff\">hi</FONT>"), "hi");
    assert_eq!(caption_to_plain("so<00:00:01.500> far"), "so far");
    assert_eq!(caption_to_plain("&lt;i&gt;"), "<i>");
}

// Models

#[test]
fn ranks_models() {
    assert_eq!(model_rank("/m/GGML-Large-v3.bin"), 0);
    assert_eq!(model_rank("/m/ggml-medium.bin"), 1);
    assert_eq!(model_rank("/m/ggml-base.bin"), 2);
    assert_eq!(model_rank("/m/ggml-large.en.bin"), 3);
    assert_eq!(rank_lowercase("ggml-medium.en.bin"), 3);
    assert_eq!(rank_lowercase("ggml-large-medium.bin"), 0);
}

#[test]
fn recognises_models() {
    let size = Some(10 * 1024 * 1024);
    assert!(is_plausible_whisper_model(Some("bin"), Some("GGML-base.bin"), size));
    assert!(!is_plausible_whisper_model(Some("BIN"), Some("ggml-base.BIN"), size));
    assert!(!is_plausible_whisper_model(Some("bin"), Some("base.bin"), size));
    assert!(!is_plausible_whisper_model(Some("bin"), Some("ggml-for-tests.bin"), size));
    assert!(!is_plausible_whisper_model(Some("bin"), Some("ggml-silero.bin"), size));
    assert!(!is_plausible_whisper_model(Some("bin"), Some("ggml-base.bin"), Some(10_485_759)));
    assert!(!is_plausible_whisper_model(Some("bin"), Some("ggml-base.bin"), None));
    assert!(!is_plausible_whisper_model(Some("bin"), None, size));
    assert!(!is_plausible_whisper_model(None, Some("ggml-base"), size));
    assert!(is_model_name("ggml-base.bin") && !is_model_name("x-ggml-base.bin"));
}

#[test]
fn scans_models() {
    let big = 20_000_000;
    let found = vec![
        model("/m", "ggml-base.en.bin", big),
        model("/m", "ggml-tiny.bin", big),
        model("/m", "ggml-medium.bin", big),
        model("/m", "ggml-small.bin", 1),
        model("/n", "ggml-large.bin", big),
        model("/m//", "ggml-tiny.bin", big),
        model("/m", "ggml-base.bin", big),
    ];
    assert_eq!(
        scan_models(&found),
        vec![
            "/n/ggml-large.bin",
            "/m/ggml-medium.bin",
            "/m/ggml-base.bin",
            "/m/ggml-tiny.bin",
            "/m/ggml-base.en.bin",
        ]
    );
    assert!(scan_models(&[]).is_empty());
}

#[test]
fn knows_the_folders_of_models() {
    assert_eq!(model_dirs(true), vec!["whisper.cpp/models", "Downloads/whisper.cpp/models"]);
    assert!(model_dirs(false).is_empty());
}

// Tools

#[test]
fn searches_each_folder_once() {
    let folders: Vec<Place> =
        ["/usr/bin", "/bin", "/usr//bin/", "/opt", "/bin"].iter().map(|p| place(p)).collect();
    assert_eq!(path_entries(&folders), vec![0, 1, 3]);
    assert!(same_place(&folders[0], &folders[2]));
    assert_eq!(
        standard_dirs(),
        vec!["/opt/homebrew/bin", "/usr/local/bin", "/usr/bin", "/bin"]
    );
}

#[test]
fn searches_for_executables() {
    assert_eq!(find_executable(2, 3, &[]), Search::Probe(Candidate::Extra(0)));
    assert_eq!(find_executable(2, 3, &[false, false]), Search::Probe(Candidate::Dir(0)));
    assert_eq!(find_executable(2, 3, &[false, true]), Search::Found(Candidate::Extra(1)));
    assert_eq!(
        find_executable(2, 3, &[false, false, false, true]),
        Search::Found(Candidate::Dir(1))
    );
    assert_eq!(find_executable(2, 3, &[false; 5]), Search::Missing);
    assert_eq!(find_executable(0, 0, &[]), Search::Missing);
}

#[test]
fn searches_for_sound() {
    assert_eq!(find_audio_media(2, &[]), Search::Probe(0));
    assert_eq!(find_audio_media(2, &[false]), Search::Probe(1));
    assert_eq!(find_audio_media(2, &[false, true]), Search::Found(1));
    assert_eq!(find_audio_media(2, &[false, false]), Search::Missing);
}

#[test]
fn knows_the_tools() {
    let tools = detect_tools();
    let names: Vec<&str> = tools.iter().map(|t| t.name.as_str()).collect();
    assert_eq!(names, vec!["yt-dlp", "ffmpeg", "whisper-cli"]);
    assert!(tools[0].below_home.is_empty() && tools[1].below_home.is_empty());
    assert_eq!(
        tools[2].below_home,
        vec![
            "whisper.cpp/build/bin/whisper-cli",
            "Downloads/whisper.cpp/build/bin/whisper-cli",
        ]
    );
}

#[test]
fn reports_the_environment() {
    let report = check_environment(
        ToolPaths { yt_dlp: Some("/bin/yt-dlp".to_string()), ffmpeg: None, whisper_cli: None },
        vec!["m.bin".to_string()],
    );
    let found: Vec<(&str, bool, Option<&str>)> = report
        .dependencies
        .iter()
        .map(|d| (d.name.as_str(), d.found, d.path.as_deref()))
        .collect();
    assert_eq!(
        found,
        vec![("yt-dlp", true, Some("/bin/yt-dlp")), ("ffmpeg", false, None), ("whisper-cli", false, None)]
    );
    assert_eq!(report.models, vec!["m.bin"]);
}

// Commands

#[test]
fn shows_commands() {
    assert_eq!(shell_quote("plain-1=x:/y_z."), "plain-1=x:/y_z.");
    assert_eq!(shell_quote("a b"), "\"a b\"");
    assert_eq!(shell_quote("it's [here]*"), "\"it's [here]*\"");
    assert_eq!(shell_quote("a\\b\n"), "\"a\\\\b\\n\"");
    assert_eq!(shell_quote("a\"b"), "\"a\\\"b\"");
    assert_eq!(shell_quote(""), "");
    let args = vec!["-f".to_string(), "best video".to_string(), "é".to_string()];
    assert_eq!(command_line("/bin/yt-dlp", &args), "/bin/yt-dlp -f \"best video\" é");
    assert_eq!(command_line("x", &[]), "x ");
    let e = command_event("download", "x", &args[..1]);
    assert_eq!((e.level.as_str(), e.stage.as_str(), e.message.as_str()), ("command", "download", "x -f"));
    let e = stdout_event("s", "l");
    assert_eq!((e.level.as_str(), e.stage.as_str(), e.message.as_str()), ("stdout", "s", "l"));
    let e = stderr_event("s", "l");
    assert_eq!((e.level.as_str(), e.stage.as_str(), e.message.as_str()), ("stderr", "s", "l"));
}

#[test]
fn keeps_the_end_of_errors() {
    let mut tail = ErrorTail::new();
    assert_eq!(tail.text(), "");
    for i in 0..25 {
        tail.push(format!("line {}", i));
    }
    let expected: Vec<String> = (5..25).map(|i| format!("line {}", i)).collect();
    assert_eq!(tail.text(), expected.join("\n"));
}

#[test]
fn tells_how_a_command_ended() {
    let mut tail = ErrorTail::new();
    tail.push("bad".to_string());
    tail.push("worse".to_string());
    assert_eq!(command_result(true, Some(0), &tail), Ok(()));
    assert_eq!(
        command_result(false, Some(2), &tail),
        Err("Command failed with exit code 2.\nbad\nworse".to_string())
    );
    assert_eq!(
        command_result(false, None, &ErrorTail::new()),
        Err("Command failed with exit code -1.\n".to_string())
    );
    assert_eq!(
        command_result(false, Some(i32::MIN), &ErrorTail::new()),
        Err("Command failed with exit code -2147483648.\n".to_string())
    );
    assert_eq!(start_failure("p", "e"), "Failed to start p: e");
    assert_eq!(wait_failure("e"), "Failed while waiting for command: e");
    assert_eq!(run_failure("p", "e"), "Failed to run p: e");
}

#[test]
fn reads_what_a_command_printed() {
    assert_eq!(command_output(true, b" hi \n", b"no"), Ok("hi".to_string()));
    assert_eq!(command_output(false, b"hi", b" no\n"), Err("no".to_string()));
    assert_eq!(command_output(true, &[0xff, 0x41], b""), Ok("\u{FFFD}A".to_string()));
    assert_eq!(output_text(true, " a ", " b "), Ok("a".to_string()));
    assert_eq!(output_text(false, " a ", " b "), Err("b".to_string()));
}

#[test]
fn hears_sound() {
    assert!(media_has_audio(Some(b"Stream #0:1: Audio: aac")));
    assert!(!media_has_audio(Some(b"Stream #0:0: Video: h264")));
    assert!(!media_has_audio(None));
    assert!(mentions_audio("Audio:") && !mentions_audio("audio:"));
}

#[test]
fn requires_paths() {
    assert_eq!(
        require_path(None, false, "Whisper model"),
        Err("Whisper model is required".to_string())
    );
    assert_eq!(
        require_path(Some("/m".to_string()), false, "Whisper model"),
        Err("Whisper model was not found: /m".to_string())
    );
    assert_eq!(require_path(Some("/m".to_string()), true, "Whisper model"), Ok("/m".to_string()));
    assert_eq!(require_model(None, true), Err("Whisper model is required".to_string()));
    assert_eq!(require_model(Some("/m".to_string()), true), Ok("/m".to_string()));
}

#[test]
fn moves_files() {
    assert_eq!(start_move(true), MoveAction::Finish);
    assert_eq!(start_move(false), MoveAction::CheckTarget);
    assert_eq!(next_move(MoveAction::CheckTarget, true), MoveAction::RemoveTarget);
    assert_eq!(next_move(MoveAction::CheckTarget, false), MoveAction::Rename);
    assert_eq!(next_move(MoveAction::RemoveTarget, false), MoveAction::Rename);
    assert_eq!(next_move(MoveAction::Rename, true), MoveAction::Finish);
    assert_eq!(next_move(MoveAction::Rename, false), MoveAction::Copy);
    assert_eq!(next_move(MoveAction::Copy, true), MoveAction::RemoveSource);
    assert_eq!(next_move(MoveAction::Copy, false), MoveAction::Fail);
    assert_eq!(next_move(MoveAction::RemoveSource, false), MoveAction::Finish);
    assert_eq!(copy_failure("a", "b", "e"), "Could not copy a → b: e");
}

// Arguments

#[test]
fn asks_for_titles_captions_and_probes() {
    assert_eq!(title_args("u"), vec!["--no-playlist", "--print", "title", "u"]);
    assert_eq!(
        caption_args("t", "u"),
        vec![
            "--skip-download",
            "--write-subs",
            "--write-auto-subs",
            "--write-description",
            "--write-info-json",
            "--sub-langs",
            "en.*",
            "--sub-format",
            "srt/vtt/best",
            "--convert-subs",
            "srt",
            "-o",
            "t",
            "u",
        ]
    );
    assert_eq!(probe_args("p"), vec!["-hide_banner", "-i", "p"]);
}

#[test]
fn asks_for_media() {
    assert_eq!(format_attempts(true).len(), 5);
    assert_eq!(format_attempts(false).len(), 4);
    assert_eq!(format_attempts(true)[3], "bv*+ba/b");
    assert_eq!(format_attempts(false)[1], "ba[ext=m4a]/ba/b");
    let start = vec![
        "--no-playlist",
        "--no-keep-video",
        "--write-description",
        "--write-info-json",
        "--embed-metadata",
        "-f",
        "best",
    ];
    let with = |middle: &[&'static str]| {
        let mut all = start.clone();
        all.extend_from_slice(middle);
        all.extend_from_slice(&["-o", "t", "u"]);
        all
    };
    assert_eq!(media_args("best", true, None, "t", "u"), with(&[]));
    assert_eq!(
        media_args("best", true, Some("ff"), "t", "u"),
        with(&["--ffmpeg-location", "ff", "--merge-output-format", "mp4"])
    );
    assert_eq!(media_args("best", false, Some("ff"), "t", "u"), with(&["--ffmpeg-location", "ff"]));
}

#[test]
fn asks_for_sound_and_transcripts() {
    assert_eq!(
        wav_args("in", "out"),
        vec!["-y", "-i", "in", "-vn", "-acodec", "pcm_s16le", "-ar", "16000", "-ac", "1", "out"]
    );
    let start = vec!["-m", "m", "-f", "w", "-otxt", "-osrt", "-of", "p"];
    assert_eq!(whisper_args("m", "w", "p", Some("  "), Some(0)), start);
    assert_eq!(whisper_args("m", "w", "p", None, None), start);
    let mut full = start.clone();
    full.extend_from_slice(&["--max-len", "42", "--prompt", "Kasie Hunt"]);
    assert_eq!(whisper_args("m", "w", "p", Some(" Kasie Hunt\n"), Some(42)), full);
}

// What becomes of files

#[test]
fn collects_sidecars() {
    let (saved, events) = collect_metadata_sidecars(
        "v",
        &SidecarOutcome::Checked(true),
        &SidecarOutcome::Checked(true),
    );
    assert_eq!(saved, Sidecars { description: true, info_json: true });
    assert_eq!(events.len(), 1);
    assert_eq!(events[0].level, "stage");
    assert_eq!(events[0].stage, "metadata");
    assert_eq!(events[0].message, "Saved metadata sidecar(s): v.description, v.info.json");
    let (saved, events) = collect_metadata_sidecars(
        "v",
        &SidecarOutcome::NotSaved("full".to_string()),
        &SidecarOutcome::Checked(true),
    );
    assert_eq!(saved, Sidecars { description: false, info_json: true });
    assert_eq!(events[0].level, "warn");
    assert_eq!(events[0].message, "Could not save description: full");
    assert_eq!(events[1].message, "Saved metadata sidecar(s): v.info.json");
    let (saved, events) = collect_metadata_sidecars(
        "v",
        &SidecarOutcome::Checked(false),
        &SidecarOutcome::NotSaved("e".to_string()),
    );
    assert_eq!(saved, Sidecars { description: false, info_json: false });
    assert_eq!(events.len(), 1);
    assert_eq!(events[0].message, "Could not save info.json: e");
}

#[test]
fn notes_what_was_removed() {
    let mut cleaned: Vec<String> = Vec::new();
    let e = clean_path("/t", &CleanOutcome::Removed, &mut cleaned).unwrap();
    assert_eq!((e.level.as_str(), e.stage.as_str()), ("stage", "cleanup"));
    assert_eq!(e.message, "Removed /t");
    let e = clean_path("/u", &CleanOutcome::Failed("busy".to_string()), &mut cleaned).unwrap();
    assert_eq!(e.level, "warn");
    assert_eq!(e.message, "Could not remove /u: busy");
    assert!(clean_path("/v", &CleanOutcome::Absent, &mut cleaned).is_none());
    assert_eq!(cleaned, vec!["/t"]);
}

#[test]
fn needs_an_output_of_whisper() {
    let w = whisper_outcome(true, false).unwrap();
    assert!(w.txt && !w.srt);
    assert_eq!(
        whisper_outcome(false, false).unwrap_err(),
        "whisper.cpp finished but no TXT or SRT output was found"
    );
}
