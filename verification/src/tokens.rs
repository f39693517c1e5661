//! The words of a transcript and of its captions.
use vstd::prelude::*;

use crate::find::replace;
use crate::srt::SrtBlock;
use crate::text::{chars_of, same_text, text_between, text_of};
use crate::trim::{split_words, trim_end};
#[allow(unused_imports)]
use crate::find::replaced;
#[allow(unused_imports)]
use crate::srt::{blocks_of, Block};
#[allow(unused_imports)]
use crate::text::{alphanumeric, lemma_texts_push, lowercase, texts, white_space};
#[allow(unused_imports)]
use crate::trim::{trimmed_end, words};

verus! {

/// A word of a transcript line, with the white space before it, as it is written, in its normal
/// form, and with the number of its line.
#[derive(Debug, Clone)]
pub struct WhisperToken {
    pub leading_ws: String,
    pub raw: String,
    pub word_lower: String,
    pub line_idx: usize,
}

/// A word of a transcript line as a mathematical value.
pub struct Token {
    pub leading_ws: Seq<char>,
    pub raw: Seq<char>,
    pub word: Seq<char>,
    pub line_idx: int,
}

impl View for WhisperToken {
    type V = Token;

    open spec fn view(&self) -> Token {
        Token {
            leading_ws: self.leading_ws@,
            raw: self.raw@,
            word: self.word_lower@,
            line_idx: self.line_idx as int,
        }
    }
}

/// A caption word in its normal form, with the time that its caption is shown.
#[derive(Debug, Clone)]
pub struct YtToken {
    pub word_lower: String,
    pub start_ms: u64,
    pub end_ms: u64,
}

/// A caption word as a mathematical value.
pub struct Caption {
    pub word: Seq<char>,
    pub start_ms: nat,
    pub end_ms: nat,
}

impl View for YtToken {
    type V = Caption;

    open spec fn view(&self) -> Caption {
        Caption {
            word: self.word_lower@,
            start_ms: self.start_ms as nat,
            end_ms: self.end_ms as nat,
        }
    }
}

pub open spec fn tokens_of(v: Seq<WhisperToken>) -> Seq<Token> {
    v.map_values(|t: WhisperToken| t@)
}

pub open spec fn captions_of(v: Seq<YtToken>) -> Seq<Caption> {
    v.map_values(|t: YtToken| t@)
}

// ---------------------------------------------------------------------------
// Normal form
// ---------------------------------------------------------------------------

/// The characters that a word keeps in its normal form: letters, digits and the apostrophe.
pub open spec fn word_char(c: char) -> bool {
    alphanumeric(c) || c == '\''
}

/// `s` without the characters that belong to no word.
pub open spec fn word_part(s: Seq<char>) -> Seq<char> {
    s.filter(|c: char| word_char(c))
}

/// The normal form of a word: its letters, digits and apostrophes, in lower case.
pub open spec fn normal_form(s: Seq<char>) -> Seq<char> {
    lowercase(word_part(s))
}

/// The letters, digits and apostrophes of a word.
pub fn strip_to_word(token: &str) -> (r: String)
    ensures
        r@ == word_part(token@),
{
    let v = chars_of(token);
    let ghost keep = |c: char| word_char(c);
    let mut out: Vec<char> = Vec::new();
    let mut i: usize = 0;
    proof {
        reveal(Seq::filter);
    }
    assert(v@.take(0).filter(keep) =~= Seq::empty());
    while i < v.len()
        invariant
            i <= v@.len(),
            keep == (|c: char| word_char(c)),
            out@ == v@.take(i as int).filter(keep),
        decreases v@.len() - i,
    {
        proof {
            assert(v@.take(i + 1) =~= v@.take(i as int).push(v@[i as int]));
            v@.take(i as int).lemma_filter_push(v@[i as int], keep);
        }
        if v[i].is_alphanumeric() || v[i] == '\'' {
            out.push(v[i]);
        }
        i += 1;
    }
    assert(v@.take(v@.len() as int) =~= v@);
    text_of(&out)
}

/// The normal form of a word.
pub fn normalize(token: &str) -> (r: String)
    ensures
        r@ == normal_form(token@),
{
    strip_to_word(token).as_str().to_lowercase()
}

// ---------------------------------------------------------------------------
// Captions
// ---------------------------------------------------------------------------

/// What stands outside of tags: a tag reaches from `<` to the next `>` or to the end.
pub open spec fn outside_tags(s: Seq<char>, in_tag: bool) -> Seq<char>
    decreases s.len(),
{
    if s.len() == 0 {
        Seq::empty()
    } else if in_tag {
        outside_tags(s.skip(1), s[0] != '>')
    } else if s[0] == '<' {
        outside_tags(s.skip(1), true)
    } else {
        seq![s[0]] + outside_tags(s.skip(1), false)
    }
}

/// Nothing of a tag is left: no angle bracket that opens one stands outside tags.
pub proof fn law_no_tag_is_left(s: Seq<char>, in_tag: bool)
    ensures
        !outside_tags(s, in_tag).contains('<'),
    decreases s.len(),
{
    if s.len() > 0 {
        law_no_tag_is_left(s.skip(1), true);
        law_no_tag_is_left(s.skip(1), false);
        if !in_tag && s[0] != '<' {
            let rest = outside_tags(s.skip(1), false);
            assert forall|i: int| 0 <= i < outside_tags(s, in_tag).len() implies #[trigger]
                outside_tags(s, in_tag)[i] != '<' by {
                if i > 0 {
                    assert(outside_tags(s, in_tag)[i] == rest[i - 1]);
                }
            }
        }
    }
}

/// `s` with the escapes for `&`, `<` and `>` undone, in this order.
pub open spec fn unescaped(s: Seq<char>) -> Seq<char> {
    replaced(replaced(replaced(s, "&amp;"@, "&"@), "&lt;"@, "<"@), "&gt;"@, ">"@)
}

/// A caption line without its tags and escapes.
pub open spec fn caption_text(s: Seq<char>) -> Seq<char> {
    unescaped(outside_tags(s, false))
}

/// `s` with the escapes for `&`, `<` and `>` undone, in this order.
pub fn unescape(s: &str) -> (r: String)
    ensures
        r@ == unescaped(s@),
{
    proof {
        reveal_strlit("&amp;");
        reveal_strlit("&lt;");
        reveal_strlit("&gt;");
    }
    let a = replace(s, "&amp;", "&");
    let b = replace(a.as_str(), "&lt;", "<");
    replace(b.as_str(), "&gt;", ">")
}

/// A caption line without its tags and escapes.
pub fn strip_caption_tags(line: &str) -> (r: String)
    ensures
        r@ == caption_text(line@),
{
    let v = chars_of(line);
    let mut out = String::new();
    let mut in_tag = false;
    let mut i: usize = 0;
    assert(v@.skip(0) =~= v@);
    assert(out@ + outside_tags(v@, false) =~= outside_tags(v@, false));
    while i < v.len()
        invariant
            i <= v@.len(),
            out@ + outside_tags(v@.skip(i as int), in_tag) == outside_tags(v@, false),
        decreases v@.len() - i,
    {
        let ch = v[i];
        let ghost rest = v@.skip(i as int);
        let ghost before = out@;
        assert(rest.skip(1) =~= v@.skip(i + 1));
        if in_tag {
            if ch == '>' {
                in_tag = false;
            }
        } else if ch == '<' {
            in_tag = true;
        } else {
            out.push(ch);
            assert(out@ + outside_tags(rest.skip(1), false) =~= before + (seq![ch] + outside_tags(
                rest.skip(1),
                false,
            )));
        }
        i += 1;
    }
    assert(out@ + outside_tags(v@.skip(i as int), in_tag) =~= out@);
    unescape(out.as_str())
}

/// The normal forms of the words of a caption line, empty ones left out.
pub open spec fn caption_words(line: Seq<char>) -> Seq<Seq<char>> {
    words(caption_text(line)).filter_map(
        |w: Seq<char>|
            if normal_form(w).len() == 0 {
                None
            } else {
                Some(normal_form(w))
            },
    )
}

fn line_words(line: &str) -> (r: Vec<String>)
    ensures
        texts(r@) == caption_words(line@),
{
    let chunks = split_words(strip_caption_tags(line).as_str());
    let ghost all = texts(chunks@);
    let ghost form = |w: Seq<char>|
        if normal_form(w).len() == 0 {
            None
        } else {
            Some(normal_form(w))
        };
    let mut r: Vec<String> = Vec::new();
    let mut i: usize = 0;
    assert(texts(r@) =~= all.take(0).filter_map(form));
    while i < chunks.len()
        invariant
            i <= chunks@.len(),
            all == texts(chunks@),
            form == (|w: Seq<char>|
                if normal_form(w).len() == 0 {
                    None
                } else {
                    Some(normal_form(w))
                }),
            texts(r@) == all.take(i as int).filter_map(form),
        decreases chunks@.len() - i,
    {
        let word = normalize(chunks[i].as_str());
        proof {
            assert(all[i as int] == chunks@[i as int]@);
            all.lemma_filter_map_take_succ(form, i as int);
            lemma_texts_push(r@, word);
            assert(texts(r@) + seq![word@] =~= texts(r@).push(word@));
            assert(texts(r@) + Seq::<Seq<char>>::empty() =~= texts(r@));
        }
        if !word.as_str().is_empty() {
            r.push(word);
        }
        i += 1;
    }
    assert(all.take(all.len() as int) =~= all);
    r
}

/// The words of some lines of a caption that is shown from `start` to `end`.
pub open spec fn shown_words(lines: Seq<Seq<char>>, start: nat, end: nat) -> Seq<Caption>
    decreases lines.len(),
{
    if lines.len() == 0 {
        Seq::empty()
    } else {
        shown_words(lines.drop_last(), start, end) + caption_words(lines.last()).map_values(
            |w: Seq<char>| Caption { word: w, start_ms: start, end_ms: end },
        )
    }
}

/// All words of captions.
pub open spec fn all_caption_words(blocks: Seq<Block>) -> Seq<Caption>
    decreases blocks.len(),
{
    if blocks.len() == 0 {
        Seq::empty()
    } else {
        let b = blocks.last();
        all_caption_words(blocks.drop_last()) + shown_words(b.text_lines, b.start_ms, b.end_ms)
    }
}

/// The captions of `s` without those whose word is that of the caption before.
pub open spec fn without_repeats(s: Seq<Caption>) -> Seq<Caption>
    decreases s.len(),
{
    if s.len() == 0 {
        Seq::empty()
    } else if s.len() > 1 && s.last().word == s[s.len() - 2].word {
        without_repeats(s.drop_last())
    } else {
        without_repeats(s.drop_last()).push(s.last())
    }
}

/// No word that is kept repeats the one before it, and the last word is never lost.
pub proof fn law_no_caption_word_is_repeated(s: Seq<Caption>)
    ensures
        s.len() > 0 ==> without_repeats(s).len() > 0 && without_repeats(s).last().word
            == s.last().word,
        forall|i: int, j: int|
            #![trigger without_repeats(s)[i], without_repeats(s)[j]]
            0 <= i && j == i + 1 && j < without_repeats(s).len() ==> without_repeats(s)[i].word
                != without_repeats(s)[j].word,
    decreases s.len(),
{
    if s.len() > 0 {
        let before = without_repeats(s.drop_last());
        let all = without_repeats(s);
        law_no_caption_word_is_repeated(s.drop_last());
        assert forall|i: int, j: int|
            #![trigger without_repeats(s)[i], without_repeats(s)[j]]
            0 <= i && j == i + 1 && j < all.len() implies all[i].word != all[j].word by {
            assert(all[i] == before[i]);
            if j < before.len() {
                assert(all[j] == before[j]);
            } else {
                assert(before[i] == before.last());
                assert(s.drop_last().last() == s[s.len() - 2]);
            }
        }
    }
}

/// The words of captions in order, each with the time that its caption is shown; a word that
/// repeats the one before is left out.
pub fn collect_yt_tokens(blocks: &[SrtBlock]) -> (r: Vec<YtToken>)
    ensures
        captions_of(r@) == without_repeats(all_caption_words(blocks_of(blocks@))),
{
    let ghost all = blocks_of(blocks@);
    let ghost mut seen: Seq<Caption> = Seq::empty();
    let mut tokens: Vec<YtToken> = Vec::new();
    let mut last_word: Option<String> = None;
    let mut i: usize = 0;
    assert(captions_of(tokens@) =~= without_repeats(seen));
    while i < blocks.len()
        invariant
            i <= blocks@.len(),
            all == blocks_of(blocks@),
            seen == all_caption_words(all.take(i as int)),
            captions_of(tokens@) == without_repeats(seen),
            match last_word {
                Some(w) => seen.len() > 0 && w@ == seen.last().word,
                None => seen.len() == 0,
            },
        decreases blocks@.len() - i,
    {
        let block = &blocks[i];
        let ghost b = all[i as int];
        let ghost before = seen;
        assert(b == block@);
        assert(seen =~= before + shown_words(b.text_lines.take(0), b.start_ms, b.end_ms));
        let mut k: usize = 0;
        while k < block.text_lines.len()
            invariant
                k <= block.text_lines@.len(),
                b == block@,
                seen == before + shown_words(b.text_lines.take(k as int), b.start_ms, b.end_ms),
                captions_of(tokens@) == without_repeats(seen),
                match last_word {
                    Some(w) => seen.len() > 0 && w@ == seen.last().word,
                    None => seen.len() == 0,
                },
            decreases block.text_lines@.len() - k,
        {
            let found = line_words(block.text_lines[k].as_str());
            let ghost line = b.text_lines[k as int];
            let ghost show = |w: Seq<char>|
                Caption { word: w, start_ms: b.start_ms, end_ms: b.end_ms };
            let ghost here = seen;
            let ghost spoken = caption_words(line);
            assert(line == block.text_lines@[k as int]@);
            assert(seen =~= here + spoken.take(0).map_values(show));
            let mut m: usize = 0;
            while m < found.len()
                invariant
                    m <= found@.len(),
                    b == block@,
                    spoken == texts(found@),
                    show == (|w: Seq<char>|
                        Caption { word: w, start_ms: b.start_ms, end_ms: b.end_ms }),
                    seen == here + spoken.take(m as int).map_values(show),
                    captions_of(tokens@) == without_repeats(seen),
                    match last_word {
                        Some(w) => seen.len() > 0 && w@ == seen.last().word,
                        None => seen.len() == 0,
                    },
                decreases found@.len() - m,
            {
                let word = found[m].clone();
                let ghost caption = show(word@);
                proof {
                    assert(spoken[m as int] == word@);
                    assert(spoken.take(m + 1).map_values(show) =~= spoken.take(m as int).map_values(
                        show,
                    ).push(caption));
                    assert(here + spoken.take(m + 1).map_values(show) =~= seen.push(caption));
                    assert(seen.push(caption).drop_last() =~= seen);
                }
                let repeated = match &last_word {
                    Some(w) => same_text(w.as_str(), word.as_str()),
                    None => false,
                };
                proof {
                    seen = seen.push(caption);
                }
                if !repeated {
                    let token = YtToken {
                        word_lower: word.clone(),
                        start_ms: block.start_ms,
                        end_ms: block.end_ms,
                    };
                    assert(captions_of(tokens@.push(token)) =~= captions_of(tokens@).push(token@));
                    tokens.push(token);
                    last_word = Some(word);
                }
                m += 1;
            }
            proof {
                assert(spoken.take(spoken.len() as int) =~= spoken);
                let lines = b.text_lines.take(k + 1);
                assert(lines.drop_last() =~= b.text_lines.take(k as int));
                assert(lines.last() == line);
                assert(seen =~= before + shown_words(lines, b.start_ms, b.end_ms));
            }
            k += 1;
        }
        proof {
            assert(b.text_lines.take(b.text_lines.len() as int) =~= b.text_lines);
            assert(all.take(i + 1).drop_last() =~= all.take(i as int));
            assert(all.take(i + 1).last() == b);
        }
        i += 1;
    }
    assert(all.take(all.len() as int) =~= all);
    tokens
}

/// How far, in milliseconds, a caption may lie outside of a subtitle that it may belong to.
pub const PADDING: u64 = 4_000;

/// A caption that is shown, give or take the padding, at some time between `start` and `end`.
pub open spec fn in_window(c: Caption, start: nat, end: nat) -> bool {
    &&& c.end_ms + PADDING >= start
    &&& c.start_ms <= end + PADDING
}

/// The captions of references to caption words.
pub open spec fn captions_at(v: Seq<&YtToken>) -> Seq<Caption> {
    v.map_values(|t: &YtToken| t@)
}

/// The caption words that are shown, give or take the padding, at some time between `start_ms` and
/// `end_ms`, in order.
pub fn yt_window<'a>(tokens: &'a [YtToken], start_ms: u64, end_ms: u64) -> (r: Vec<&'a YtToken>)
    ensures
        captions_at(r@) == captions_of(tokens@).filter(
            |c: Caption| in_window(c, start_ms as nat, end_ms as nat),
        ),
{
    let lo = start_ms.saturating_sub(PADDING);
    let hi = end_ms.saturating_add(PADDING);
    let ghost all = captions_of(tokens@);
    let ghost keep = |c: Caption| in_window(c, start_ms as nat, end_ms as nat);
    let mut r: Vec<&'a YtToken> = Vec::new();
    let mut i: usize = 0;
    proof {
        reveal(Seq::filter);
    }
    assert(captions_at(r@) =~= all.take(0).filter(keep));
    while i < tokens.len()
        invariant
            i <= tokens@.len(),
            all == captions_of(tokens@),
            keep == (|c: Caption| in_window(c, start_ms as nat, end_ms as nat)),
            lo == if start_ms < PADDING {
                0
            } else {
                start_ms - PADDING
            },
            hi == if end_ms + PADDING > u64::MAX {
                u64::MAX as int
            } else {
                end_ms + PADDING
            },
            captions_at(r@) == all.take(i as int).filter(keep),
        decreases tokens@.len() - i,
    {
        let t = &tokens[i];
        proof {
            assert(all.take(i + 1) =~= all.take(i as int).push(t@));
            all.take(i as int).lemma_filter_push(t@, keep);
            assert(captions_at(r@.push(t)) =~= captions_at(r@).push(t@));
        }
        if t.end_ms >= lo && t.start_ms <= hi {
            r.push(t);
        }
        i += 1;
    }
    assert(all.take(all.len() as int) =~= all);
    r
}

// ---------------------------------------------------------------------------
// Transcript lines
// ---------------------------------------------------------------------------

/// The number of characters at the start of `s` that are (or are not) white space.
pub open spec fn run(s: Seq<char>, white: bool) -> nat
    decreases s.len(),
{
    if s.len() > 0 && white_space(s[0]) == white {
        1 + run(s.skip(1), white)
    } else {
        0
    }
}

pub proof fn lemma_run(s: Seq<char>, white: bool)
    ensures
        run(s, white) <= s.len(),
        run(s, white) < s.len() ==> white_space(s[run(s, white) as int]) != white,
    decreases s.len(),
{
    if s.len() > 0 && white_space(s[0]) == white {
        lemma_run(s.skip(1), white);
    }
}

/// The words of a line, each with the white space before it; white space at the end of the line
/// makes a word without characters.
pub open spec fn line_tokens(line: Seq<char>, line_idx: int) -> Seq<Token>
    decreases line.len(),
{
    if line.len() == 0 {
        Seq::empty()
    } else {
        let w = run(line, true) as int;
        let rest = line.skip(w);
        let r = run(rest, false) as int;
        if w >= line.len() {
            seq![Token { leading_ws: line, raw: Seq::empty(), word: Seq::empty(), line_idx }]
        } else {
            proof {
                lemma_run(line, true);
                lemma_run(rest, false);
                assert(rest[0] == line[w]);
            }
            seq![
                Token {
                    leading_ws: line.take(w),
                    raw: rest.take(r),
                    word: normal_form(rest.take(r)),
                    line_idx,
                },
            ] + line_tokens(rest.skip(r), line_idx)
        }
    }
}

/// The end of the run of white space (or of other characters) that starts at `from`.
fn run_end(v: &Vec<char>, from: usize, white: bool) -> (i: usize)
    requires
        from <= v@.len(),
    ensures
        from <= i <= v.len(),
        i == from + run(v@.skip(from as int), white),
{
    let mut i: usize = from;
    while i < v.len() && v[i].is_whitespace() == white
        invariant
            from <= i <= v.len(),
            from + run(v@.skip(from as int), white) == i + run(v@.skip(i as int), white),
        decreases v.len() - i,
    {
        assert(v@.skip(i as int).skip(1) =~= v@.skip(i + 1));
        i += 1;
    }
    i
}

/// The words of a line of text, each with the white space before it.
pub fn tokenize_line(line: &str, line_idx: usize) -> (r: Vec<WhisperToken>)
    ensures
        tokens_of(r@) == line_tokens(line@, line_idx as int),
{
    let chars = chars_of(line);
    let mut tokens: Vec<WhisperToken> = Vec::new();
    let mut idx: usize = 0;
    assert(chars@.skip(0) =~= chars@);
    assert(tokens_of(tokens@) + line_tokens(line@, line_idx as int) =~= line_tokens(
        line@,
        line_idx as int,
    ));
    while idx < chars.len()
        invariant
            idx <= chars@.len(),
            chars@ == line@,
            tokens_of(tokens@) + line_tokens(chars@.skip(idx as int), line_idx as int)
                == line_tokens(line@, line_idx as int),
        decreases chars@.len() - idx,
    {
        let ghost here = chars@.skip(idx as int);
        let ghost before = tokens_of(tokens@);
        let ws_start = idx;
        let word_start = run_end(&chars, ws_start, true);
        proof {
            lemma_run(here, true);
        }
        let leading_ws = text_between(&chars, ws_start, word_start);
        assert(here.take(word_start - ws_start) =~= chars@.subrange(
            ws_start as int,
            word_start as int,
        ));
        if word_start >= chars.len() {
            let token = WhisperToken {
                leading_ws,
                raw: String::new(),
                word_lower: String::new(),
                line_idx,
            };
            proof {
                assert(here.take(here.len() as int) =~= here);
                assert(tokens_of(tokens@.push(token)) =~= before.push(token@));
                assert(line_tokens(here, line_idx as int) =~= seq![token@]);
                assert(before.push(token@) =~= before + seq![token@]);
            }
            tokens.push(token);
            return tokens;
        }
        let ghost rest = here.skip(word_start - ws_start);
        proof {
            assert(rest =~= chars@.skip(word_start as int));
            lemma_run(rest, false);
            assert(rest[0] == here[word_start - ws_start]);
            assert(run(rest, false) >= 1);
        }
        idx = run_end(&chars, word_start, false);
        let raw = text_between(&chars, word_start, idx);
        let word_lower = normalize(raw.as_str());
        let token = WhisperToken { leading_ws, raw, word_lower, line_idx };
        proof {
            assert(rest.take(idx - word_start) =~= chars@.subrange(word_start as int, idx as int));
            assert(rest.skip(idx - word_start) =~= chars@.skip(idx as int));
            assert(tokens_of(tokens@.push(token)) =~= before.push(token@));
            assert(before + (seq![token@] + line_tokens(chars@.skip(idx as int), line_idx as int))
                =~= before.push(token@) + line_tokens(chars@.skip(idx as int), line_idx as int));
        }
        tokens.push(token);
    }
    assert(tokens_of(tokens@) + line_tokens(chars@.skip(idx as int), line_idx as int) =~= tokens_of(
        tokens@,
    ));
    tokens
}

/// The line that a word is put on when there are `count` lines.
pub open spec fn target_line(t: Token, count: int) -> int {
    if t.line_idx < count {
        t.line_idx
    } else {
        count - 1
    }
}

/// What the words put on line `k` of `count` lines when each is written as `raws` says.
pub open spec fn line_content(
    tokens: Seq<Token>,
    raws: Seq<Seq<char>>,
    count: int,
    k: int,
) -> Seq<char>
    decreases tokens.len(),
{
    if tokens.len() == 0 {
        Seq::empty()
    } else {
        let before = line_content(tokens.drop_last(), raws, count, k);
        if target_line(tokens.last(), count) == k {
            before + tokens.last().leading_ws + raws[tokens.len() - 1]
        } else {
            before
        }
    }
}

/// The lines that the words make when each is written as `raws` says, without trailing white
/// space. There is always at least one line, a word beyond the last line stands on the last, and
/// words for which `raws` says nothing are left out.
pub open spec fn rebuilt(tokens: Seq<Token>, raws: Seq<Seq<char>>, line_count: int) -> Seq<Seq<char>> {
    let count = if line_count < 1 {
        1
    } else {
        line_count
    };
    let written = if tokens.len() <= raws.len() {
        tokens
    } else {
        tokens.take(raws.len() as int)
    };
    Seq::new(count as nat, |k: int| trimmed_end(line_content(written, raws, count, k)))
}

/// The lines that the words make when each is written as `new_raw` says, without trailing white
/// space.
pub fn rebuild_lines(tokens: &[WhisperToken], new_raw: &[String], line_count: usize) -> (r: Vec<String>)
    ensures
        texts(r@) == rebuilt(tokens_of(tokens@), texts(new_raw@), line_count as int),
{
    let count: usize = if line_count < 1 {
        1
    } else {
        line_count
    };
    let written: usize = if tokens.len() <= new_raw.len() {
        tokens.len()
    } else {
        new_raw.len()
    };
    let ghost all = tokens_of(tokens@).take(written as int);
    let ghost raws = texts(new_raw@);
    let mut lines: Vec<String> = Vec::new();
    let mut k: usize = 0;
    while k < count
        invariant
            k <= count,
            1 <= count,
            count == if line_count < 1 {
                1
            } else {
                line_count
            },
            all == tokens_of(tokens@).take(written as int),
            raws == texts(new_raw@),
            written <= tokens@.len(),
            written <= new_raw@.len(),
            lines@.len() == k,
            forall|x: int|
                0 <= x < k ==> (#[trigger] lines@[x])@ == trimmed_end(
                    line_content(all, raws, count as int, x),
                ),
        decreases count - k,
    {
        let mut line = String::new();
        let mut i: usize = 0;
        while i < written
            invariant
                i <= written,
                1 <= count,
                all == tokens_of(tokens@).take(written as int),
                raws == texts(new_raw@),
                written <= tokens@.len(),
                written <= new_raw@.len(),
                line@ == line_content(all.take(i as int), raws, count as int, k as int),
            decreases written - i,
        {
            proof {
                assert(all.take(i + 1).drop_last() =~= all.take(i as int));
                assert(all.take(i + 1).last() == tokens@[i as int]@);
                assert(raws[i as int] == new_raw@[i as int]@);
            }
            let target: usize = if tokens[i].line_idx < count {
                tokens[i].line_idx
            } else {
                count - 1
            };
            if target == k {
                line.append(tokens[i].leading_ws.as_str());
                line.append(new_raw[i].as_str());
            }
            i += 1;
        }
        assert(all.take(written as int) =~= all);
        lines.push(trim_end(line.as_str()));
        k += 1;
    }
    proof {
        let tokens_all = tokens_of(tokens@);
        assert(tokens_all.take(tokens_all.len() as int) =~= tokens_all);
        assert(texts(lines@) =~= rebuilt(tokens_all, raws, line_count as int));
    }
    lines
}

} // verus!
