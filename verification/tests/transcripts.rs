use youtube_transcribe::align::{needleman_wunsch, AlignOp};
use youtube_transcribe::edit::edit_distance;
use youtube_transcribe::hybrid::{build_hybrid, merge_block, HybridFile, HybridTranscript};
use youtube_transcribe::metadata::{extract_string_field, metadata_proper_nouns};
use youtube_transcribe::replacement::{
    replace_word_in_raw, should_replace_with_youtube, title_case,
};
use youtube_transcribe::srt::{
    build_block, format_ts, parse_srt, parse_timing, parse_ts, render_srt, render_txt,
    timestamps_fit, SrtBlock,
};
use youtube_transcribe::tokens::{
    collect_yt_tokens, rebuild_lines, strip_caption_tags, strip_to_word, tokenize_line, yt_window,
    WhisperToken, YtToken,
};
use youtube_transcribe::vocab::{stopwords, WordSet};

fn block(text: &[&str], start_ms: u64, end_ms: u64) -> SrtBlock {
    SrtBlock {
        index: "1".to_string(),
        timing: "00:00:01,000 --> 00:00:03,000".to_string(),
        start_ms,
        end_ms,
        text_lines: text.iter().map(|s| s.to_string()).collect(),
    }
}

fn caption(word: &str, start_ms: u64, end_ms: u64) -> YtToken {
    YtToken { word_lower: word.to_string(), start_ms, end_ms }
}

fn captions(words: &str) -> Vec<YtToken> {
    words.split(' ').map(|w| caption(w, 1_000, 3_000)).collect()
}

fn merged(text: &[&str], words: &str) -> (Vec<String>, usize, Vec<String>) {
    let mut replacements = 0usize;
    let mut flagged: Vec<String> = Vec::new();
    let lines = merge_block(
        &block(text, 1_000, 3_000),
        &captions(words),
        &WordSet::new(),
        &stopwords(),
        &mut replacements,
        &mut flagged,
    );
    (lines, replacements, flagged)
}

fn srt(text: &str) -> String {
    format!("1\n00:00:01,000 --> 00:00:03,000\n{}\n\n", text)
}

fn hybrid(whisper: &str, youtube: &str, info: Option<&str>) -> HybridTranscript {
    assert!(timestamps_fit(whisper) && timestamps_fit(youtube));
    build_hybrid(whisper, youtube, info).unwrap()
}

// Subtitle files

#[test]
fn parses_basic_srt() {
    let src = "1\n00:00:01,000 --> 00:00:03,000\nHello world\n\n2\n00:00:03,000 --> 00:00:05,000\nSecond line\n";
    let blocks = parse_srt(src);
    assert_eq!(blocks.len(), 2);
    assert_eq!(blocks[0].text_lines, vec!["Hello world".to_string()]);
    assert_eq!(blocks[0].start_ms, 1000);
    assert_eq!(blocks[1].end_ms, 5000);
}

#[test]
fn reads_times() {
    assert_eq!(parse_ts("00:00:01,000"), Some(1_000));
    assert_eq!(parse_ts(" 1:02:03.5 "), Some(3_723_005));
    assert_eq!(parse_ts("00:00:01"), Some(1_000));
    assert_eq!(parse_ts("+1:00:00"), Some(3_600_000));
    assert_eq!(parse_ts("01:02"), None);
    assert_eq!(parse_ts("a:b:c"), None);
    assert_eq!(parse_ts("00:00:01,"), None);
    assert_eq!(parse_ts(""), None);
}

#[test]
fn reads_timing_lines() {
    assert_eq!(parse_timing("00:00:01,000 --> 00:00:03,250"), Some((1_000, 3_250)));
    assert_eq!(parse_timing("00:00:01,000-->00:00:03.250"), Some((1_000, 3_250)));
    assert_eq!(parse_timing("00:00:01,000"), None);
    assert_eq!(parse_timing("00:00:01,000 --> 00:00:02,000 --> 00:00:03,000"), None);
    assert_eq!(parse_timing("00:00:01,000 --> 00:00:02,000 align:start"), None);
}

#[test]
fn builds_blocks_from_paragraphs() {
    let lines = vec![
        "7".to_string(),
        "00:00:01,000 --> 00:00:02,000".to_string(),
        "one".to_string(),
        "two".to_string(),
    ];
    let b = build_block(&lines).unwrap();
    assert_eq!(b.index, "7");
    assert_eq!(b.timing, "00:00:01,000 --> 00:00:02,000");
    assert_eq!((b.start_ms, b.end_ms), (1_000, 2_000));
    assert_eq!(b.text_lines, vec!["one", "two"]);
    assert!(build_block(&lines[..1]).is_none());
    assert!(build_block(&lines[2..]).is_none());
    assert!(build_block(&[]).is_none());
}

#[test]
fn reads_files_with_carriage_returns_and_bad_paragraphs() {
    let src = "\r\n\r\n1\r\n00:00:01,000 --> 00:00:03,000\r\nHi\r\n\r\nWEBVTT\r\n\r\n2\r\nno time\r\n";
    let blocks = parse_srt(src);
    assert_eq!(blocks.len(), 1);
    assert_eq!(blocks[0].text_lines, vec!["Hi"]);
    assert!(parse_srt("").is_empty());
}

#[test]
fn tells_times_that_do_not_fit() {
    assert!(timestamps_fit("1\n00:00:01,000 --> 00:00:03,000\nHi\n"));
    assert!(!timestamps_fit("1\n18446744073709551615:00:00,000 --> 00:00:03,000\nHi\n"));
    assert!(timestamps_fit("1\n99999999999999999999:00:00,000 --> 00:00:03,000\nHi\n"));
}

#[test]
fn writes_times() {
    assert_eq!(format_ts(0), "00:00:00.000");
    assert_eq!(format_ts(3_723_004), "01:02:03.004");
    assert_eq!(format_ts(360_000_000), "100:00:00.000");
    assert_eq!(format_ts(u64::MAX), "5124095576030:25:51.615");
}

#[test]
fn written_time_is_read_back() {
    assert_eq!(parse_ts(&format_ts(3_723_004)), Some(3_723_004));
}

#[test]
fn writes_subtitles_and_text() {
    let blocks = vec![block(&["one ", "", "  two"], 0, 1), block(&["three"], 0, 1)];
    assert_eq!(
        render_srt(&blocks),
        "1\n00:00:01,000 --> 00:00:03,000\none \n\n  two\n\n1\n00:00:01,000 --> 00:00:03,000\nthree\n\n"
    );
    assert_eq!(render_txt(&blocks), "one\ntwo\nthree\n");
    assert_eq!(render_srt(&[]), "");
}

#[test]
fn written_subtitles_are_read_back() {
    let text = "1\n00:00:01,000 --> 00:00:03,000\none\ntwo\n\n2\n00:00:03,000 --> 00:00:04,000\n\n";
    let again = render_srt(&parse_srt(text));
    assert_eq!(again, "1\n00:00:01,000 --> 00:00:03,000\none\ntwo\n\n2\n00:00:03,000 --> 00:00:04,000\n\n");
    assert_eq!(render_srt(&parse_srt(&again)), again);
}

// Words

#[test]
fn dedupes_consecutive_yt_words() {
    let blocks = vec![SrtBlock {
        index: "1".into(),
        timing: "00:00:00,000 --> 00:00:02,000".into(),
        start_ms: 0,
        end_ms: 2000,
        text_lines: vec!["hello hello world".into()],
    }];
    let tokens = collect_yt_tokens(&blocks);
    let words: Vec<&str> = tokens.iter().map(|t| t.word_lower.as_str()).collect();
    assert_eq!(words, vec!["hello", "world"]);
}

#[test]
fn collects_words_across_subtitles() {
    let blocks = vec![block(&["<c>HELLO</c> -- there"], 0, 10), block(&["There, It's"], 10, 20)];
    let tokens = collect_yt_tokens(&blocks);
    let words: Vec<(&str, u64, u64)> =
        tokens.iter().map(|t| (t.word_lower.as_str(), t.start_ms, t.end_ms)).collect();
    assert_eq!(words, vec![("hello", 0, 10), ("there", 0, 10), ("it's", 10, 20)]);
}

#[test]
fn strips_tags_and_escapes() {
    assert_eq!(strip_caption_tags("<c>Tom &amp; Jerry</c> &lt;3"), "Tom & Jerry <3");
    assert_eq!(strip_caption_tags("a <b c"), "a ");
    assert_eq!(strip_caption_tags("a > b"), "a > b");
    assert_eq!(strip_caption_tags("&amp;lt;"), "<");
}

#[test]
fn strips_to_the_word() {
    assert_eq!(strip_to_word("don't!"), "don't");
    assert_eq!(strip_to_word("--"), "");
    assert_eq!(strip_to_word("(Überall)"), "Überall");
}

#[test]
fn takes_lines_apart() {
    let tokens = tokenize_line("  Hi There! ", 2);
    let parts: Vec<(&str, &str, &str, usize)> = tokens
        .iter()
        .map(|t| (t.leading_ws.as_str(), t.raw.as_str(), t.word_lower.as_str(), t.line_idx))
        .collect();
    assert_eq!(
        parts,
        vec![("  ", "Hi", "hi", 2), (" ", "There!", "there", 2), (" ", "", "", 2)]
    );
    assert!(tokenize_line("", 0).is_empty());
}

#[test]
fn windows_captions_by_time() {
    let tokens = vec![
        caption("early", 0, 999),
        caption("edge", 0, 1_000),
        caption("late", 11_000, 12_000),
        caption("later", 11_001, 12_000),
    ];
    let words: Vec<&str> =
        yt_window(&tokens, 5_000, 7_000).iter().map(|t| t.word_lower.as_str()).collect();
    assert_eq!(words, vec!["edge", "late"]);
    assert_eq!(yt_window(&tokens, 0, u64::MAX).len(), 4);
}

#[test]
fn puts_lines_together() {
    let token = |ws: &str, raw: &str, line_idx: usize| WhisperToken {
        leading_ws: ws.to_string(),
        raw: raw.to_string(),
        word_lower: raw.to_string(),
        line_idx,
    };
    let tokens = vec![token("", "a", 0), token(" ", "b", 0), token("  ", "c", 1), token(" ", "d", 9)];
    let raws: Vec<String> = vec!["A".into(), "B".into(), "C ".into(), "D ".into()];
    assert_eq!(rebuild_lines(&tokens, &raws, 2), vec!["A B", "  C  D"]);
    assert_eq!(rebuild_lines(&tokens, &raws[..1], 2), vec!["A", ""]);
    assert_eq!(rebuild_lines(&[], &[], 0), vec![""]);
}

#[test]
fn unchanged_words_give_the_lines() {
    let tokens = tokenize_line(" a  b\tc ", 0);
    let raws: Vec<String> = tokens.iter().map(|t| t.raw.clone()).collect();
    assert_eq!(rebuild_lines(&tokens, &raws, 1), vec![" a  b\tc"]);
}

// Alignment

#[test]
fn aligns_identical_streams() {
    let a = vec!["hello", "world"];
    let b = vec!["hello", "world"];
    let ops = needleman_wunsch(&a, &b);
    assert_eq!(ops.len(), 2);
    assert!(matches!(ops[0], AlignOp::Match(0, 0)));
}

#[test]
fn detects_substitution() {
    let a = vec!["the", "beejing", "report"];
    let b = vec!["the", "beijing", "report"];
    let ops = needleman_wunsch(&a, &b);
    assert!(matches!(ops[1], AlignOp::Sub(1, 1)));
}

#[test]
fn aligns_streams_of_different_length() {
    let ops = needleman_wunsch(&["a", "x", "b"], &["a", "b"]);
    assert!(matches!(
        ops[..],
        [AlignOp::Match(0, 0), AlignOp::InsertA(1), AlignOp::Match(2, 1)]
    ));
    let ops = needleman_wunsch(&["a"], &["x", "a"]);
    assert!(matches!(ops[..], [AlignOp::InsertB(0), AlignOp::Match(0, 1)]));
    let ops = needleman_wunsch(&[], &["x"]);
    assert!(matches!(ops[..], [AlignOp::InsertB(0)]));
    assert!(needleman_wunsch(&[], &[]).is_empty());
}

#[test]
fn counts_edits() {
    assert_eq!(edit_distance("kitten", "sitting"), 3);
    assert_eq!(edit_distance("field", "fuel"), 2);
    assert_eq!(edit_distance("beejing", "beijing"), 1);
    assert_eq!(edit_distance("", "abc"), 3);
    assert_eq!(edit_distance("abc", ""), 3);
    assert_eq!(edit_distance("naïve", "naive"), 1);
    assert_eq!(edit_distance("same", "same"), 0);
}

// Replacement

#[test]
fn replaces_proper_noun_when_edit_distance_high() {
    let stopwords = stopwords();
    let meta = WordSet::new();
    assert!(should_replace_with_youtube("field", "fuel", &meta, &stopwords));
}

#[test]
fn keeps_whisper_for_single_character_typo_without_metadata() {
    let stopwords = stopwords();
    let meta = WordSet::new();
    assert!(!should_replace_with_youtube("beejing", "beijing", &meta, &stopwords));
}

#[test]
fn keeps_whisper_when_word_is_stopword() {
    let stopwords = stopwords();
    let meta = WordSet::new();
    assert!(!should_replace_with_youtube("in", "on", &meta, &stopwords));
}

#[test]
fn metadata_vocab_overrides_low_edit_distance() {
    let stopwords = stopwords();
    let mut meta = WordSet::new();
    meta.insert("kasie");
    assert!(should_replace_with_youtube("casey", "kasie", &meta, &stopwords));
}

#[test]
fn keeps_whisper_for_numbers_short_words_and_equal_words() {
    let stopwords = stopwords();
    let meta = WordSet::new();
    assert!(!should_replace_with_youtube("covert", "covid19", &meta, &stopwords));
    assert!(!should_replace_with_youtube("ohio", "oh", &meta, &stopwords));
    assert!(!should_replace_with_youtube("same", "same", &meta, &stopwords));
    assert!(!should_replace_with_youtube("", "beijing", &meta, &stopwords));
    assert!(!should_replace_with_youtube("beijing", "", &meta, &stopwords));
    assert!(!should_replace_with_youtube("something", "yours", &meta, &stopwords));
}

#[test]
fn knows_common_words() {
    let words = stopwords();
    assert!(words.contains("a") && words.contains("lets") && words.contains("yours"));
    assert!(!words.contains("beijing") && !words.contains(""));
}

#[test]
fn title_cases_words() {
    assert_eq!(title_case("beijing"), "Beijing");
    assert_eq!(title_case("bEIJING"), "Beijing");
    assert_eq!(title_case("ßeta"), "SSeta");
    assert_eq!(title_case(""), "");
}

#[test]
fn replaces_word_preserving_punctuation() {
    assert_eq!(replace_word_in_raw("beejing,", "Beijing"), "Beijing,");
    assert_eq!(replace_word_in_raw("\"beejing\"", "Beijing"), "\"Beijing\"");
}

#[test]
fn replaces_word_preserving_possessive() {
    assert_eq!(replace_word_in_raw("ryan's,", "Bryan"), "Bryan's,");
    assert_eq!(replace_word_in_raw("--", "X"), "--X");
    assert_eq!(replace_word_in_raw("", "X"), "X");
    assert_eq!(replace_word_in_raw("(o'neil's)", "Neal"), "(Neal'neil's)");
}

// Metadata

#[test]
fn extracts_string_field_from_json() {
    let json = r#"{ "title": "Sec. Rubio meets Kasie Hunt", "view_count": 12 }"#;
    let title = extract_string_field(json, "title").unwrap();
    assert_eq!(title, "Sec. Rubio meets Kasie Hunt");
    let vocab = metadata_proper_nouns(json);
    assert!(vocab.contains("rubio"));
    assert!(vocab.contains("kasie"));
    assert!(vocab.contains("hunt"));
}

#[test]
fn reads_string_fields_with_escapes() {
    let json = r#"{"title" : "a\"b\\\n\u00e9\/"}"#;
    assert_eq!(extract_string_field(json, "title").unwrap(), "a\"b\\\nu00e9/");
    assert_eq!(extract_string_field(r#"{"title": "open"#, "title").unwrap(), "open");
    assert_eq!(extract_string_field(r#"{"title": 5, "title": "x"}"#, "title").unwrap(), "x");
    assert_eq!(extract_string_field(r#"["title", {"title": "x"}]"#, "title"), None);
    assert_eq!(extract_string_field("{}", "title"), None);
}

#[test]
fn finds_names_in_metadata() {
    let json = r#"{"channel": "the News-Hour", "uploader": "Al O'Brien", "tags": "Other"}"#;
    let vocab = metadata_proper_nouns(json);
    assert!(vocab.contains("news") && vocab.contains("hour") && vocab.contains("o'brien"));
    assert!(!vocab.contains("the") && !vocab.contains("al") && !vocab.contains("other"));
}

// Merging

#[test]
fn corrects_a_word() {
    let (lines, replacements, flagged) =
        merged(&["The real field,", "  affordability."], "the real fuel affordability");
    assert_eq!(lines, vec!["The real Fuel,", "  affordability."]);
    assert_eq!(replacements, 1);
    assert!(flagged.is_empty());
}

#[test]
fn agreeing_captions_change_nothing() {
    let (lines, replacements, flagged) = merged(&["Hello, World! ", "again"], "hello world  again");
    assert_eq!(lines, vec!["Hello, World!", "again"]);
    assert_eq!(replacements, 0);
    assert!(flagged.is_empty());
}

#[test]
fn reports_a_run_without_captions() {
    let (lines, replacements, flagged) = merged(&["alpha one two three omega"], "alpha omega");
    assert_eq!(lines, vec!["alpha one two three omega"]);
    assert_eq!(replacements, 0);
    assert_eq!(flagged, vec!["[00:00:01.000 --> 00:00:03.000] one two three"]);
}

#[test]
fn reports_no_short_run_and_no_punctuation() {
    assert!(merged(&["alpha one two omega"], "alpha omega").2.is_empty());
    assert!(merged(&["alpha one -- two omega"], "alpha omega").2.is_empty());
}

#[test]
fn reports_a_run_at_the_end() {
    assert_eq!(
        merged(&["alpha omega one two three"], "alpha omega").2,
        vec!["[00:00:01.000 --> 00:00:03.000] one two three"]
    );
    assert_eq!(
        merged(&["one two three alpha four five six"], "alpha").2,
        vec![
            "[00:00:01.000 --> 00:00:03.000] one two three",
            "[00:00:01.000 --> 00:00:03.000] four five six",
        ]
    );
    let (lines, replacements, flagged) = merged(&["Extra hello alpha beta gamma"], "hello");
    assert_eq!(lines, vec!["Extra hello alpha beta gamma"]);
    assert_eq!(replacements, 0);
    assert_eq!(flagged, vec!["[00:00:01.000 --> 00:00:03.000] alpha beta gamma"]);
    assert!(merged(&["Extra hello alpha beta"], "hello").2.is_empty());
}

#[test]
fn keeps_lines_without_captions_about_their_time() {
    let mut replacements = 7usize;
    let mut flagged = vec!["before".to_string()];
    let lines = merge_block(
        &block(&["kept "], 1_000, 3_000),
        &[caption("other", 90_000, 91_000)],
        &WordSet::new(),
        &stopwords(),
        &mut replacements,
        &mut flagged,
    );
    assert_eq!(lines, vec!["kept "]);
    assert_eq!(replacements, 7);
    assert_eq!(flagged, vec!["before"]);
}

#[test]
fn builds_a_hybrid() {
    let h = hybrid(
        &srt("the real field affordability report"),
        &srt("THE REAL FUEL AFFORDABILITY REPORT"),
        None,
    );
    assert_eq!(h.srt, srt("the real Fuel affordability report"));
    assert_eq!(h.txt, "the real Fuel affordability report\n");
    assert_eq!(h.flagged, None);
    assert_eq!((h.replacements, h.flagged_segments), (1, 0));
}

#[test]
fn builds_a_hybrid_with_names_of_the_metadata() {
    let whisper = srt("hello casey hunt");
    let youtube = srt("HELLO KASIE HUNT");
    let info = r#"{"title": "Kasie Hunt"}"#;
    assert_eq!(hybrid(&srt("in beejing today"), &srt("in beijing today"), None).replacements, 0);
    assert_eq!(
        hybrid(
            &srt("in beejing today"),
            &srt("in beijing today"),
            Some(r#"{"title": "Beijing"}"#)
        )
        .txt,
        "in Beijing today\n"
    );
    assert_eq!(hybrid(&whisper, &youtube, Some(info)).txt, "hello Kasie hunt\n");
}

#[test]
fn builds_a_hybrid_with_a_report() {
    let h = hybrid(&srt("alpha one two three omega"), &srt("alpha omega"), None);
    assert_eq!(h.flagged_segments, 1);
    assert_eq!(
        h.flagged.as_deref(),
        Some(
            "Potential hallucinations or low-confidence merges.\nEach section shows a run of Whisper words with no aligned YouTube caption.\n---\n\n[00:00:01.000 --> 00:00:03.000] one two three\n"
        )
    );
    let r = h.result("t", "s", "f");
    assert_eq!((r.out_txt, r.out_srt, r.out_flagged), ("t", "s", Some("f")));
    assert_eq!((r.replacements, r.flagged_segments), (0, 1));
}

#[test]
fn hybrid_keeps_the_structure() {
    let whisper = "9\n00:00:01,000 --> 00:00:03,000\nthe field\nreport\n\n10\n00:00:03,000 --> 00:00:04,000\n\n";
    let h = hybrid(whisper, &srt("the fuel report"), None);
    assert_eq!(
        h.srt,
        "9\n00:00:01,000 --> 00:00:03,000\nthe Fuel\nreport\n\n10\n00:00:03,000 --> 00:00:04,000\n\n"
    );
    let r = h.result("t", "s", "f");
    assert_eq!(r.out_flagged, None);
}

#[test]
fn hybrid_without_captions_is_the_transcript() {
    let h = hybrid(&srt("the real field "), "", None);
    assert_eq!(h.srt, srt("the real field "));
    assert_eq!((h.replacements, h.flagged_segments), (0, 0));
}

#[test]
fn hybrid_needs_subtitles() {
    let e = build_hybrid("no subtitles", &srt("the fuel"), None).unwrap_err();
    assert_eq!(e, "Whisper SRT had no usable blocks");
}

#[test]
fn hybrid_is_read_back() {
    let whisper = "9\n00:00:01,000 --> 00:00:03,000\nthe field\n report\n\n10\n00:00:03,500 --> 00:00:04,000\nlater\n\n";
    let before = parse_srt(whisper);
    let after = parse_srt(&hybrid(whisper, &srt("the fuel report"), None).srt);
    assert_eq!(after.len(), before.len());
    for (a, b) in after.iter().zip(&before) {
        assert_eq!((&a.index, &a.timing), (&b.index, &b.timing));
        assert_eq!((a.start_ms, a.end_ms), (b.start_ms, b.end_ms));
    }
    assert_eq!(after[0].text_lines, vec!["the Fuel", " report"]);
}

#[test]
fn hybrid_knows_letters_beyond_ascii() {
    let h = hybrid(&srt("die welt in zürich heute"), &srt("DIE WELT IN ÖRLIKON HEUTE"), None);
    assert_eq!(h.txt, "die welt in Örlikon heute\n");
    let tokens = collect_yt_tokens(&[block(&["ÜBER Straße"], 0, 1)]);
    let words: Vec<&str> = tokens.iter().map(|t| t.word_lower.as_str()).collect();
    assert_eq!(words, vec!["über", "straße"]);
    assert!(metadata_proper_nouns(r#"{"title": "Österreich"}"#).contains("österreich"));
}

#[test]
fn says_which_file_of_a_merge_failed() {
    let said: Vec<String> = [
        HybridFile::ReadWhisper,
        HybridFile::ReadYoutube,
        HybridFile::WriteSrt,
        HybridFile::WriteTxt,
        HybridFile::WriteFlagged,
    ]
    .iter()
    .map(|f| f.failure("e"))
    .collect();
    assert_eq!(
        said,
        vec![
            "Could not read whisper SRT: e",
            "Could not read youtube SRT: e",
            "Could not write hybrid SRT: e",
            "Could not write hybrid TXT: e",
            "Could not write flagged segments: e",
        ]
    );
}

#[test]
fn distance_is_a_measure() {
    for (a, b) in [("abc", "abd"), ("", "x"), ("kitten", "sitting")] {
        assert_eq!(edit_distance(a, b), edit_distance(b, a));
        assert_ne!(edit_distance(a, b), 0);
    }
}

#[test]
fn own_word_changes_nothing() {
    assert_eq!(replace_word_in_raw("\"don't,\"", "don"), "\"don't,\"");
    assert_eq!(replace_word_in_raw("(Beijing)", "Beijing"), "(Beijing)");
}

#[test]
fn escaped_field_is_read_back() {
    let value = "He said \"no\\yes\" /\tnow\n";
    let escaped = value
        .replace('\\', "\\\\")
        .replace('"', "\\\"")
        .replace('\n', "\\n")
        .replace('\t', "\\t");
    let json = format!("{{\"id\": 1, \"channel\": \"{}\"}}", escaped);
    assert_eq!(extract_string_field(&json, "channel").unwrap(), value);
}
