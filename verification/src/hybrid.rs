//! The hybrid transcript: a Whisper transcript whose words are corrected by the captions.
//!
//! Whisper gives the structure (numbers, timing, lines, punctuation, case). A caption word takes
//! the place of a Whisper word only where the alignment of the two streams pairs them and
//! `replaces` holds. Runs of Whisper words without a partner are reported.
use vstd::prelude::*;

use crate::align::{needleman_wunsch, AlignOp};
use crate::events::joined_text;
use crate::find::join;
use crate::metadata::metadata_proper_nouns;
use crate::replacement::{replace_word_in_raw, should_replace_with_youtube, title_case};
use crate::srt::{format_ts, parse_srt, render_srt, render_txt, SrtBlock};
use crate::text::chars_of;
use crate::tokens::{
    collect_yt_tokens, rebuild_lines, tokenize_line, yt_window, WhisperToken, YtToken,
};
use crate::vocab::{stopwords, WordSet};
#[allow(unused_imports)]
use crate::align::{chosen, lemma_chosen, stream};
#[allow(unused_imports)]
use crate::bounds::{
    blocks_len, lemma_alignment_range, lemma_blocks_len_take, lemma_replaced_bound,
    lemma_srt_blocks_len, lemma_tokens_bound,
};
#[allow(unused_imports)]
use crate::find::joined;
#[allow(unused_imports)]
use crate::metadata::proper_nouns;
#[allow(unused_imports)]
use crate::replacement::{replaces, titled, with_word};
#[allow(unused_imports)]
use crate::srt::{
    blocks_of, lemma_blocks_push, plain_text, srt_blocks, srt_fits, srt_text, stamp_text, Block,
};
#[allow(unused_imports)]
use crate::text::{lemma_texts_push, str_view, text_view, texts};
#[allow(unused_imports)]
use crate::tokens::{
    all_caption_words, captions_at, captions_of, in_window, line_tokens, rebuilt, tokens_of,
    without_repeats, Caption, Token,
};
#[allow(unused_imports)]
use crate::vocab::stopword_set;

verus! {

// ---------------------------------------------------------------------------
// One subtitle
// ---------------------------------------------------------------------------

/// The words of the lines of a subtitle.
pub open spec fn block_tokens(lines: Seq<Seq<char>>) -> Seq<Token>
    decreases lines.len(),
{
    if lines.len() == 0 {
        Seq::empty()
    } else {
        block_tokens(lines.drop_last()) + line_tokens(lines.last(), lines.len() - 1)
    }
}

/// The normal forms of the words of a transcript.
pub open spec fn token_words(tokens: Seq<Token>) -> Seq<Seq<char>> {
    tokens.map_values(|t: Token| t.word)
}

/// The normal forms of the words of captions.
pub open spec fn shown(captions: Seq<Caption>) -> Seq<Seq<char>> {
    captions.map_values(|c: Caption| c.word)
}

/// The words of the transcript as they are written.
pub open spec fn token_raws(tokens: Seq<Token>) -> Seq<Seq<char>> {
    tokens.map_values(|t: Token| t.raw)
}

/// What an alignment is judged by: the two streams, the names of the metadata and the common
/// words.
pub struct Evidence {
    pub tokens: Seq<Token>,
    pub captions: Seq<Caption>,
    pub vocab: Set<Seq<char>>,
    pub stopwords: Set<Seq<char>>,
}

impl Evidence {
    /// Caption word `y` replaces transcript word `x` when the two are paired.
    pub open spec fn corrects(self, x: int, y: int) -> bool {
        replaces(self.tokens[x].word, self.captions[y].word, self.vocab, self.stopwords)
    }

    /// Transcript word `x`, written with caption word `y`.
    pub open spec fn corrected(self, x: int, y: int) -> Seq<char> {
        with_word(self.tokens[x].raw, titled(self.captions[y].word))
    }

    /// How the transcript words are written after the columns of an alignment have been judged.
    pub open spec fn raws_after(self, ops: Seq<AlignOp>) -> Seq<Seq<char>>
        decreases ops.len(),
    {
        if ops.len() == 0 {
            token_raws(self.tokens)
        } else {
            let before = self.raws_after(ops.drop_last());
            match ops.last() {
                AlignOp::Sub(x, y) => if self.corrects(x as int, y as int) {
                    before.update(x as int, self.corrected(x as int, y as int))
                } else {
                    before
                },
                _ => before,
            }
        }
    }

    /// How many columns of an alignment replace a word.
    pub open spec fn corrections(self, ops: Seq<AlignOp>) -> nat
        decreases ops.len(),
    {
        if ops.len() == 0 {
            0
        } else {
            let before = self.corrections(ops.drop_last());
            match ops.last() {
                AlignOp::Sub(x, y) => if self.corrects(x as int, y as int) {
                    before + 1
                } else {
                    before
                },
                _ => before,
            }
        }
    }

    /// The transcript words without a partner since the last pair; those without letters and
    /// digits do not count.
    pub open spec fn open_run(self, ops: Seq<AlignOp>) -> Seq<usize>
        decreases ops.len(),
    {
        if ops.len() == 0 {
            Seq::empty()
        } else {
            let before = self.open_run(ops.drop_last());
            match ops.last() {
                AlignOp::Match(_, _) | AlignOp::Sub(_, _) => Seq::empty(),
                AlignOp::InsertA(x) => if self.tokens[x as int].word.len() > 0 {
                    before.push(x)
                } else {
                    before
                },
                AlignOp::InsertB(_) => before,
            }
        }
    }

    /// The runs of three or more words without a partner that a pair has ended.
    pub open spec fn ended_runs(self, ops: Seq<AlignOp>) -> Seq<Seq<usize>>
        decreases ops.len(),
    {
        if ops.len() == 0 {
            Seq::empty()
        } else {
            let before = self.ended_runs(ops.drop_last());
            let run = self.open_run(ops.drop_last());
            match ops.last() {
                AlignOp::Match(_, _) | AlignOp::Sub(_, _) => if run.len() >= 3 {
                    before.push(run)
                } else {
                    before
                },
                _ => before,
            }
        }
    }

    /// The runs that are reported: those of three or more words without a partner, whether a pair
    /// has ended them or the subtitle has.
    pub open spec fn runs(self, ops: Seq<AlignOp>) -> Seq<Seq<usize>> {
        let last = self.open_run(ops);
        if last.len() >= 3 {
            self.ended_runs(ops).push(last)
        } else {
            self.ended_runs(ops)
        }
    }

    /// The words of a run as they are written, with spaces between them.
    pub open spec fn snippet(self, run: Seq<usize>) -> Seq<char> {
        joined(run.map_values(|x: usize| self.tokens[x as int].raw), " "@)
    }
}

/// The column pairs two words.
pub open spec fn is_pair(op: AlignOp) -> bool {
    op is Match || op is Sub
}

/// What is reported of a run in a subtitle that is shown from `start` to `end`.
pub open spec fn report(start: nat, end: nat, snippet: Seq<char>) -> Seq<char> {
    "["@ + stamp_text(start) + " --> "@ + stamp_text(end) + "] "@ + snippet
}

/// What becomes of a subtitle: its lines, how many words were replaced, and what is reported.
pub struct Merge {
    pub lines: Seq<Seq<char>>,
    pub replacements: nat,
    pub flagged: Seq<Seq<char>>,
}

/// The evidence for a subtitle: its words, and the captions that are shown about its time.
pub open spec fn evidence(
    b: Block,
    captions: Seq<Caption>,
    vocab: Set<Seq<char>>,
    stopwords: Set<Seq<char>>,
) -> Evidence {
    Evidence {
        tokens: block_tokens(b.text_lines),
        captions: captions.filter(|c: Caption| in_window(c, b.start_ms, b.end_ms)),
        vocab,
        stopwords,
    }
}

/// The alignment of the words of a subtitle with its captions.
pub open spec fn alignment(e: Evidence) -> Seq<AlignOp> {
    chosen(token_words(e.tokens), shown(e.captions), e.tokens.len(), e.captions.len())
}

/// What becomes of a subtitle. Without words or without captions about its time it stays as it is.
pub open spec fn merge(
    b: Block,
    captions: Seq<Caption>,
    vocab: Set<Seq<char>>,
    stopwords: Set<Seq<char>>,
) -> Merge {
    let e = evidence(b, captions, vocab, stopwords);
    let ops = alignment(e);
    if e.captions.len() == 0 || e.tokens.len() == 0 {
        Merge { lines: b.text_lines, replacements: 0, flagged: Seq::empty() }
    } else {
        Merge {
            lines: rebuilt(e.tokens, e.raws_after(ops), b.text_lines.len() as int),
            replacements: e.corrections(ops),
            flagged: e.runs(ops).map_values(
                |run: Seq<usize>| report(b.start_ms, b.end_ms, e.snippet(run)),
            ),
        }
    }
}

fn tokenize_block(lines: &Vec<String>) -> (r: Vec<WhisperToken>)
    ensures
        tokens_of(r@) == block_tokens(texts(lines@)),
{
    let ghost all = texts(lines@);
    let mut tokens: Vec<WhisperToken> = Vec::new();
    let mut i: usize = 0;
    assert(tokens_of(tokens@) =~= block_tokens(all.take(0)));
    while i < lines.len()
        invariant
            i <= lines@.len(),
            all == texts(lines@),
            tokens_of(tokens@) == block_tokens(all.take(i as int)),
        decreases lines@.len() - i,
    {
        let mut more = tokenize_line(lines[i].as_str(), i);
        proof {
            assert(all[i as int] == lines@[i as int]@);
            assert(all.take(i + 1).drop_last() =~= all.take(i as int));
            assert(tokens_of(tokens@ + more@) =~= tokens_of(tokens@) + tokens_of(more@));
        }
        tokens.append(&mut more);
        i += 1;
    }
    assert(all.take(all.len() as int) =~= all);
    tokens
}

fn copy_texts(lines: &Vec<String>) -> (r: Vec<String>)
    ensures
        texts(r@) == texts(lines@),
{
    let mut r: Vec<String> = Vec::new();
    let mut i: usize = 0;
    while i < lines.len()
        invariant
            i <= lines@.len(),
            r@.len() == i,
            forall|k: int| 0 <= k < i ==> (#[trigger] r@[k])@ == lines@[k]@,
        decreases lines@.len() - i,
    {
        r.push(lines[i].clone());
        i += 1;
    }
    assert(texts(r@) =~= texts(lines@));
    r
}

/// The runs of a list as mathematical values.
pub open spec fn runs_of(v: Seq<Vec<usize>>) -> Seq<Seq<usize>> {
    v.map_values(|r: Vec<usize>| r@)
}

/// What is reported of a run.
fn report_run(block: &SrtBlock, tokens: &Vec<WhisperToken>, run: &Vec<usize>, Ghost(e): Ghost<Evidence>) -> (r:
    String)
    requires
        tokens_of(tokens@) == e.tokens,
        forall|k: int| 0 <= k < run@.len() ==> #[trigger] run@[k] < tokens@.len(),
    ensures
        r@ == report(block.start_ms as nat, block.end_ms as nat, e.snippet(run@)),
{
    let mut parts: Vec<String> = Vec::new();
    let mut i: usize = 0;
    while i < run.len()
        invariant
            i <= run@.len(),
            tokens_of(tokens@) == e.tokens,
            forall|k: int| 0 <= k < run@.len() ==> #[trigger] run@[k] < tokens@.len(),
            parts@.len() == i,
            forall|k: int|
                0 <= k < i ==> (#[trigger] parts@[k])@ == e.tokens[run@[k] as int].raw,
        decreases run@.len() - i,
    {
        assert(e.tokens[run@[i as int] as int] == tokens@[run@[i as int] as int]@);
        parts.push(tokens[run[i]].raw.clone());
        i += 1;
    }
    assert(texts(parts@) =~= run@.map_values(|x: usize| e.tokens[x as int].raw));
    let snippet = join(&parts, " ");
    let mut out = "[".to_string();
    out.append(format_ts(block.start_ms).as_str());
    out.append(" --> ");
    out.append(format_ts(block.end_ms).as_str());
    out.append("] ");
    out.append(snippet.as_str());
    out
}

/// The lines of a subtitle after the captions about its time have corrected it. Counts the words
/// that were replaced, and reports the runs of words without a partner.
pub fn merge_block(
    block: &SrtBlock,
    yt_tokens: &[YtToken],
    metadata_vocab: &WordSet,
    stopwords: &WordSet,
    replacements: &mut usize,
    flagged: &mut Vec<String>,
) -> (r: Vec<String>)
    requires
        *old(replacements) + merge(
            block@,
            captions_of(yt_tokens@),
            metadata_vocab@,
            stopwords@,
        ).replacements <= usize::MAX,
    ensures
        ({
            let m = merge(block@, captions_of(yt_tokens@), metadata_vocab@, stopwords@);
            &&& texts(r@) == m.lines
            &&& *final(replacements) == *old(replacements) + m.replacements
            &&& texts(final(flagged)@) == texts(old(flagged)@) + m.flagged
        }),
{
    let ghost e = evidence(block@, captions_of(yt_tokens@), metadata_vocab@, stopwords@);
    let ghost m = merge(block@, captions_of(yt_tokens@), metadata_vocab@, stopwords@);
    let tokens = tokenize_block(&block.text_lines);
    let window = yt_window(yt_tokens, block.start_ms, block.end_ms);
    proof {
        assert(e.tokens == tokens_of(tokens@));
        assert(e.captions == captions_at(window@));
        assert(e.tokens.len() == tokens@.len());
        assert(e.captions.len() == window@.len());
    }
    if window.len() == 0 || tokens.len() == 0 {
        assert(texts(flagged@) + m.flagged =~= texts(flagged@));
        return copy_texts(&block.text_lines);
    }
    let mut a: Vec<&str> = Vec::new();
    let mut new_raw: Vec<String> = Vec::new();
    let mut i: usize = 0;
    while i < tokens.len()
        invariant
            i <= tokens@.len(),
            a@.len() == i,
            new_raw@.len() == i,
            forall|k: int| 0 <= k < i ==> (#[trigger] a@[k])@ == tokens@[k]@.word,
            forall|k: int| 0 <= k < i ==> (#[trigger] new_raw@[k])@ == tokens@[k]@.raw,
        decreases tokens@.len() - i,
    {
        a.push(tokens[i].word_lower.as_str());
        new_raw.push(tokens[i].raw.clone());
        i += 1;
    }
    let mut b: Vec<&str> = Vec::new();
    let mut j: usize = 0;
    while j < window.len()
        invariant
            j <= window@.len(),
            b@.len() == j,
            forall|k: int| 0 <= k < j ==> (#[trigger] b@[k])@ == window@[k]@.word,
        decreases window@.len() - j,
    {
        b.push(window[j].word_lower.as_str());
        j += 1;
    }
    let ops = needleman_wunsch(a.as_slice(), b.as_slice());
    proof {
        assert(stream(a@) =~= token_words(e.tokens));
        assert(stream(b@) =~= shown(e.captions));
        assert(ops@ == alignment(e));
        lemma_alignment_range(ops@, stream(a@), stream(b@), a@.len() as int, b@.len() as int);
        assert(texts(new_raw@) =~= token_raws(e.tokens));
    }
    let ghost start = *replacements;
    let mut run: Vec<usize> = Vec::new();
    let mut runs: Vec<Vec<usize>> = Vec::new();
    let mut p: usize = 0;
    proof {
        assert(ops@.take(0) =~= Seq::empty());
        assert(run@ =~= e.open_run(ops@.take(0)));
        assert(runs_of(runs@) =~= e.ended_runs(ops@.take(0)));
        lemma_corrections_grow(e, ops@, 0);
    }
    while p < ops.len()
        invariant
            p <= ops@.len(),
            e.tokens == tokens_of(tokens@),
            e.captions == captions_at(window@),
            e.vocab == metadata_vocab@,
            e.stopwords == stopwords@,
            start + e.corrections(ops@) <= usize::MAX,
            forall|k: int|
                0 <= k < ops@.len() ==> match #[trigger] ops@[k] {
                    AlignOp::Match(x, y) | AlignOp::Sub(x, y) => x < tokens@.len() && y
                        < window@.len(),
                    AlignOp::InsertA(x) => x < tokens@.len(),
                    AlignOp::InsertB(y) => y < window@.len(),
                },
            new_raw@.len() == tokens@.len(),
            texts(new_raw@) == e.raws_after(ops@.take(p as int)),
            *replacements == start + e.corrections(ops@.take(p as int)),
            run@ == e.open_run(ops@.take(p as int)),
            runs_of(runs@) == e.ended_runs(ops@.take(p as int)),
            forall|k: int| 0 <= k < run@.len() ==> #[trigger] run@[k] < tokens@.len(),
            forall|r: int, k: int|
                0 <= r < runs@.len() && 0 <= k < runs@[r]@.len() ==> #[trigger] runs@[r]@[k]
                    < tokens@.len(),
        decreases ops@.len() - p,
    {
        let ghost seen = ops@.take(p as int);
        let ghost next = ops@.take(p + 1);
        proof {
            assert(next.drop_last() =~= seen);
            assert(next.last() == ops@[p as int]);
            lemma_corrections_grow(e, ops@, p + 1);
        }
        match ops[p] {
            AlignOp::Match(_, _) => {
                if run.len() >= 3 {
                    assert(runs_of(runs@.push(run)) =~= runs_of(runs@).push(run@));
                    runs.push(run);
                }
                run = Vec::new();
            },
            AlignOp::Sub(x, y) => {
                assert(e.tokens[x as int] == tokens@[x as int]@);
                assert(e.captions[y as int] == window@[y as int]@);
                if should_replace_with_youtube(
                    tokens[x].word_lower.as_str(),
                    window[y].word_lower.as_str(),
                    metadata_vocab,
                    stopwords,
                ) {
                    let cased = title_case(window[y].word_lower.as_str());
                    let text = replace_word_in_raw(tokens[x].raw.as_str(), cased.as_str());
                    assert(texts(new_raw@.update(x as int, text)) =~= texts(new_raw@).update(
                        x as int,
                        text@,
                    ));
                    new_raw[x] = text;
                    *replacements = *replacements + 1;
                }
                if run.len() >= 3 {
                    assert(runs_of(runs@.push(run)) =~= runs_of(runs@).push(run@));
                    runs.push(run);
                }
                run = Vec::new();
            },
            AlignOp::InsertA(x) => {
                assert(e.tokens[x as int] == tokens@[x as int]@);
                if !tokens[x].word_lower.as_str().is_empty() {
                    run.push(x);
                }
            },
            AlignOp::InsertB(_) => {},
        }
        p += 1;
    }
    assert(ops@.take(ops@.len() as int) =~= ops@);
    if run.len() >= 3 {
        assert(runs_of(runs@.push(run)) =~= runs_of(runs@).push(run@));
        runs.push(run);
    }
    assert(runs_of(runs@) == e.runs(ops@));
    let ghost tell = |run: Seq<usize>|
        report(block.start_ms as nat, block.end_ms as nat, e.snippet(run));
    let ghost told = texts(flagged@);
    let mut q: usize = 0;
    assert(texts(flagged@) =~= told + e.runs(ops@).take(0).map_values(tell));
    while q < runs.len()
        invariant
            q <= runs@.len(),
            e.tokens == tokens_of(tokens@),
            runs_of(runs@) == e.runs(ops@),
            tell == (|run: Seq<usize>|
                report(block.start_ms as nat, block.end_ms as nat, e.snippet(run))),
            forall|r: int, k: int|
                0 <= r < runs@.len() && 0 <= k < runs@[r]@.len() ==> #[trigger] runs@[r]@[k]
                    < tokens@.len(),
            texts(flagged@) == told + e.runs(ops@).take(q as int).map_values(tell),
        decreases runs@.len() - q,
    {
        let text = report_run(block, &tokens, &runs[q], Ghost(e));
        proof {
            assert(e.runs(ops@)[q as int] == runs@[q as int]@);
            lemma_texts_push(flagged@, text);
            assert(e.runs(ops@).take(q + 1).map_values(tell) =~= e.runs(ops@).take(
                q as int,
            ).map_values(tell).push(text@));
            assert(told + e.runs(ops@).take(q + 1).map_values(tell) =~= texts(flagged@).push(text@));
        }
        flagged.push(text);
        q += 1;
    }
    assert(e.runs(ops@).take(runs@.len() as int) =~= e.runs(ops@));
    rebuild_lines(tokens.as_slice(), new_raw.as_slice(), block.text_lines.len())
}

// ---------------------------------------------------------------------------
// A whole transcript
// ---------------------------------------------------------------------------

/// What a transcript is corrected by: the captions, the names of the metadata and the common words.
pub struct Context {
    pub captions: Seq<Caption>,
    pub vocab: Set<Seq<char>>,
    pub stopwords: Set<Seq<char>>,
}

impl Context {
    /// What becomes of a subtitle.
    pub open spec fn merge(self, b: Block) -> Merge {
        merge(b, self.captions, self.vocab, self.stopwords)
    }

    /// The subtitle with its lines corrected.
    pub open spec fn corrected(self, b: Block) -> Block {
        Block { text_lines: self.merge(b).lines, ..b }
    }

    /// The subtitles with their lines corrected.
    pub open spec fn corrected_blocks(self, blocks: Seq<Block>) -> Seq<Block> {
        blocks.map_values(|b: Block| self.corrected(b))
    }

    /// How many words of the subtitles are replaced.
    pub open spec fn replacements(self, blocks: Seq<Block>) -> nat
        decreases blocks.len(),
    {
        if blocks.len() == 0 {
            0
        } else {
            self.replacements(blocks.drop_last()) + self.merge(blocks.last()).replacements
        }
    }

    /// What is reported of the subtitles.
    pub open spec fn flagged(self, blocks: Seq<Block>) -> Seq<Seq<char>>
        decreases blocks.len(),
    {
        if blocks.len() == 0 {
            Seq::empty()
        } else {
            self.flagged(blocks.drop_last()) + self.merge(blocks.last()).flagged
        }
    }
}

/// What a transcript is corrected by, read from a caption file and from the metadata.
pub open spec fn context(youtube: Seq<char>, info_json: Option<Seq<char>>) -> Context {
    Context {
        captions: without_repeats(all_caption_words(srt_blocks(youtube))),
        vocab: match info_json {
            Some(json) => proper_nouns(json),
            None => Set::empty(),
        },
        stopwords: stopword_set(),
    }
}

/// The report on the runs of words without a partner, if there are any.
pub open spec fn flagged_text(flagged: Seq<Seq<char>>) -> Option<Seq<char>> {
    if flagged.len() == 0 {
        None
    } else {
        Some(
            "Potential hallucinations or low-confidence merges.\nEach section shows a run of Whisper words with no aligned YouTube caption.\n---\n\n"@
                + joined(flagged, "\n\n"@) + "\n"@,
        )
    }
}

/// A hybrid transcript as mathematical values.
pub struct Hybrid {
    pub srt: Seq<char>,
    pub txt: Seq<char>,
    pub flagged: Option<Seq<char>>,
    pub replacements: nat,
    pub flagged_segments: nat,
}

/// The hybrid transcript of subtitles.
pub open spec fn hybrid(blocks: Seq<Block>, c: Context) -> Hybrid {
    Hybrid {
        srt: srt_text(c.corrected_blocks(blocks)),
        txt: plain_text(c.corrected_blocks(blocks)),
        flagged: flagged_text(c.flagged(blocks)),
        replacements: c.replacements(blocks),
        flagged_segments: c.flagged(blocks).len(),
    }
}

/// A hybrid transcript: its subtitle file, its plain text, and the report on runs of words
/// without a partner.
#[derive(Debug)]
pub struct HybridTranscript {
    pub srt: String,
    pub txt: String,
    pub flagged: Option<String>,
    pub replacements: usize,
    pub flagged_segments: usize,
}

impl View for HybridTranscript {
    type V = Hybrid;

    open spec fn view(&self) -> Hybrid {
        Hybrid {
            srt: self.srt@,
            txt: self.txt@,
            flagged: text_view(self.flagged),
            replacements: self.replacements as nat,
            flagged_segments: self.flagged_segments as nat,
        }
    }
}

/// Where a hybrid transcript was written, and what it counts. `P` is how a place is named.
#[derive(Debug)]
pub struct HybridResult<P> {
    pub out_txt: P,
    pub out_srt: P,
    pub out_flagged: Option<P>,
    pub replacements: usize,
    pub flagged_segments: usize,
}

impl HybridTranscript {
    /// The result once the transcript has been written. The report has a place only where there
    /// is a report.
    pub fn result<P>(&self, out_txt: P, out_srt: P, out_flagged: P) -> (r: HybridResult<P>)
        ensures
            r.out_txt == out_txt,
            r.out_srt == out_srt,
            r.out_flagged == (if self.flagged is Some {
                Some(out_flagged)
            } else {
                None
            }),
            r.replacements == self.replacements,
            r.flagged_segments == self.flagged_segments,
    {
        HybridResult {
            out_txt,
            out_srt,
            out_flagged: if self.flagged.is_some() {
                Some(out_flagged)
            } else {
                None
            },
            replacements: self.replacements,
            flagged_segments: self.flagged_segments,
        }
    }
}

/// A file of a merge, that is read or written.
#[derive(Debug, Clone, Copy, PartialEq, Eq, Structural)]
pub enum HybridFile {
    ReadWhisper,
    ReadYoutube,
    WriteSrt,
    WriteTxt,
    WriteFlagged,
}

impl HybridFile {
    /// What is said where the file could not be read or written.
    pub open spec fn failed(self, error: Seq<char>) -> Seq<char> {
        (match self {
            HybridFile::ReadWhisper => "Could not read whisper SRT: "@,
            HybridFile::ReadYoutube => "Could not read youtube SRT: "@,
            HybridFile::WriteSrt => "Could not write hybrid SRT: "@,
            HybridFile::WriteTxt => "Could not write hybrid TXT: "@,
            HybridFile::WriteFlagged => "Could not write flagged segments: "@,
        }) + error
    }

    /// What is said where the file could not be read or written.
    pub fn failure(self, error: &str) -> (r: String)
        ensures
            r@ == self.failed(error@),
    {
        let text = match self {
            HybridFile::ReadWhisper => "Could not read whisper SRT: ",
            HybridFile::ReadYoutube => "Could not read youtube SRT: ",
            HybridFile::WriteSrt => "Could not write hybrid SRT: ",
            HybridFile::WriteTxt => "Could not write hybrid TXT: ",
            HybridFile::WriteFlagged => "Could not write flagged segments: ",
        };
        joined_text(text, error)
    }
}

fn render_flagged(flagged: &Vec<String>) -> (r: Option<String>)
    ensures
        text_view(r) == flagged_text(texts(flagged@)),
{
    if flagged.len() == 0 {
        return None;
    }
    let mut body = "Potential hallucinations or low-confidence merges.\nEach section shows a run of Whisper words with no aligned YouTube caption.\n---\n\n".to_string();
    body.append(join(flagged, "\n\n").as_str());
    body.append("\n");
    Some(body)
}

/// The hybrid of a Whisper transcript and a caption file, both in SubRip form, with the names of
/// the metadata. A transcript without subtitles has none.
pub fn build_hybrid(whisper_srt: &str, youtube_srt: &str, info_json: Option<&str>) -> (r: Result<
    HybridTranscript,
    String,
>)
    requires
        srt_fits(whisper_srt@),
        srt_fits(youtube_srt@),
    ensures
        ({
            let blocks = srt_blocks(whisper_srt@);
            match r {
                Ok(h) => blocks.len() > 0 && h@ == hybrid(
                    blocks,
                    context(youtube_srt@, str_view(info_json)),
                ),
                Err(e) => blocks.len() == 0 && e@ == "Whisper SRT had no usable blocks"@,
            }
        }),
{
    let ghost blocks = srt_blocks(whisper_srt@);
    let ghost c = context(youtube_srt@, str_view(info_json));
    let characters = chars_of(whisper_srt);
    let room: usize = characters.len();
    let whisper_blocks = parse_srt(whisper_srt);
    let youtube_blocks = parse_srt(youtube_srt);
    proof {
        assert(blocks_of(whisper_blocks@).len() == whisper_blocks@.len());
        lemma_srt_blocks_len(whisper_srt@);
    }
    if whisper_blocks.len() == 0 {
        return Err("Whisper SRT had no usable blocks".to_string());
    }
    let yt_tokens = collect_yt_tokens(youtube_blocks.as_slice());
    let metadata_vocab = match info_json {
        Some(json) => metadata_proper_nouns(json),
        None => WordSet::new(),
    };
    let stopwords = stopwords();
    let mut replacements: usize = 0;
    let mut flagged: Vec<String> = Vec::new();
    let mut merged: Vec<SrtBlock> = Vec::new();
    let mut i: usize = 0;
    assert(texts(flagged@) =~= c.flagged(blocks.take(0)));
    assert(blocks_of(merged@) =~= c.corrected_blocks(blocks.take(0)));
    while i < whisper_blocks.len()
        invariant
            i <= whisper_blocks@.len(),
            blocks == blocks_of(whisper_blocks@),
            c.captions == captions_of(yt_tokens@),
            c.vocab == metadata_vocab@,
            c.stopwords == stopwords@,
            blocks_len(blocks) <= room,
            replacements == c.replacements(blocks.take(i as int)),
            texts(flagged@) == c.flagged(blocks.take(i as int)),
            blocks_of(merged@) == c.corrected_blocks(blocks.take(i as int)),
        decreases whisper_blocks@.len() - i,
    {
        let block = &whisper_blocks[i];
        let ghost next = blocks.take(i + 1);
        proof {
            assert(next.drop_last() =~= blocks.take(i as int));
            assert(next.last() == block@);
            lemma_blocks_len_take(blocks, i + 1);
            assert(c.captions.len() == yt_tokens.len());
            lemma_replacements_bound(c, next);
        }
        let lines = merge_block(
            block,
            yt_tokens.as_slice(),
            &metadata_vocab,
            &stopwords,
            &mut replacements,
            &mut flagged,
        );
        let done = SrtBlock {
            index: block.index.clone(),
            timing: block.timing.clone(),
            start_ms: block.start_ms,
            end_ms: block.end_ms,
            text_lines: lines,
        };
        proof {
            assert(done@ == c.corrected(block@));
            lemma_blocks_push(merged@, done);
            assert(c.corrected_blocks(next) =~= c.corrected_blocks(blocks.take(i as int)).push(
                done@,
            ));
        }
        merged.push(done);
        i += 1;
    }
    assert(blocks.take(blocks.len() as int) =~= blocks);
    let srt = render_srt(merged.as_slice());
    let txt = render_txt(merged.as_slice());
    let body = render_flagged(&flagged);
    let segments: usize = flagged.len();
    assert(c.flagged(blocks).len() == segments);
    Ok(
        HybridTranscript {
            srt,
            txt,
            flagged: body,
            replacements,
            flagged_segments: segments,
        },
    )
}

/// No more words of subtitles are replaced than they have characters.
proof fn lemma_replacements_bound(c: Context, blocks: Seq<Block>)
    requires
        c.captions.len() <= usize::MAX,
        blocks_len(blocks) <= usize::MAX,
    ensures
        c.replacements(blocks) <= blocks_len(blocks),
    decreases blocks.len(),
{
    if blocks.len() > 0 {
        let b = blocks.last();
        let e = evidence(b, c.captions, c.vocab, c.stopwords);
        let x = token_words(e.tokens);
        let y = shown(e.captions);
        lemma_replacements_bound(c, blocks.drop_last());
        lemma_tokens_bound(b.text_lines);
        c.captions.lemma_filter_len(|k: Caption| in_window(k, b.start_ms, b.end_ms));
        lemma_chosen(x, y, x.len(), y.len());
        lemma_replaced_bound(e, alignment(e), x, y, x.len() as int, y.len() as int);
    }
}

/// Judging more columns does not lower the number of corrections.
proof fn lemma_corrections_grow(e: Evidence, ops: Seq<AlignOp>, k: int)
    requires
        0 <= k <= ops.len(),
    ensures
        e.corrections(ops.take(k)) <= e.corrections(ops),
    decreases ops.len(),
{
    if k < ops.len() {
        lemma_corrections_grow(e, ops.drop_last(), k);
        assert(ops.drop_last().take(k) =~= ops.take(k));
    } else {
        assert(ops.take(k) =~= ops);
    }
}

} // verus!
