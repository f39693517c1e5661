//! The subtitle file of a hybrid is read back as what was written.
use vstd::prelude::*;

#[allow(unused_imports)]
use crate::align::{chosen, lemma_chosen, AlignOp};
#[allow(unused_imports)]
use crate::find::lemma_first_at;
#[allow(unused_imports)]
use crate::hybrid::{
    alignment, block_tokens, evidence, hybrid, shown, token_raws, token_words, Context, Evidence,
};
#[allow(unused_imports)]
use crate::hybrid_laws::{law_structure_is_kept, law_words_change_only_as_judged};
#[allow(unused_imports)]
use crate::replacement::{
    apostrophe_part, core_end, lead, lemma_core_end, lemma_lead, titled, with_word,
};
#[allow(unused_imports)]
use crate::srt::{srt_blocks, srt_text, Block};
#[allow(unused_imports)]
use crate::srt_laws::{
    law_read_subtitles_are_sound, law_written_subtitles_are_read_back, plain_line, sound,
};
#[allow(unused_imports)]
use crate::text::{all_ascii, ascii_large, ascii_small, lowercase, uppercase_of, white_space};
#[allow(unused_imports)]
use crate::tokens::{
    in_window, lemma_run, line_content, line_tokens, rebuilt, run, target_line, Caption, Token,
};
#[allow(unused_imports)]
use crate::trim::trimmed_end;

verus! {

// ---------------------------------------------------------------------------
// Characters of lines
// ---------------------------------------------------------------------------

/// The text has a character that is no white space.
pub open spec fn has_ink(s: Seq<char>) -> bool {
    exists|i: int| 0 <= i < s.len() && !white_space(#[trigger] s[i])
}

/// The text is one word: not empty, and without white space.
pub open spec fn one_word(s: Seq<char>) -> bool {
    &&& s.len() > 0
    &&& forall|i: int| 0 <= i < s.len() ==> !white_space(#[trigger] s[i])
}

/// The text has no line ending.
pub open spec fn unbroken(s: Seq<char>) -> bool {
    forall|i: int| 0 <= i < s.len() ==> #[trigger] s[i] != '\n' && s[i] != '\r'
}

proof fn lemma_unbroken_both(a: Seq<char>, b: Seq<char>)
    requires
        unbroken(a),
        unbroken(b),
    ensures
        unbroken(a + b),
{
    assert forall|i: int| 0 <= i < (a + b).len() implies #[trigger] (a + b)[i] != '\n' && (a + b)[i]
        != '\r' by {
        if i < a.len() {
            assert((a + b)[i] == a[i]);
        } else {
            assert((a + b)[i] == b[i - a.len()]);
        }
    }
}

proof fn lemma_ink_left(a: Seq<char>, b: Seq<char>)
    requires
        has_ink(a) || has_ink(b),
    ensures
        has_ink(a + b),
{
    if has_ink(a) {
        let i = choose|i: int| 0 <= i < a.len() && !white_space(#[trigger] a[i]);
        assert((a + b)[i] == a[i]);
    } else {
        let i = choose|i: int| 0 <= i < b.len() && !white_space(#[trigger] b[i]);
        assert((a + b)[a.len() + i] == b[i]);
    }
}

proof fn lemma_trimmed_ink(s: Seq<char>)
    ensures
        has_ink(s) ==> trimmed_end(s).len() > 0,
        unbroken(s) ==> unbroken(trimmed_end(s)),
    decreases s.len(),
{
    if s.len() > 0 && white_space(s.last()) {
        lemma_trimmed_ink(s.drop_last());
        if has_ink(s) {
            let i = choose|i: int| 0 <= i < s.len() && !white_space(#[trigger] s[i]);
            assert(s.drop_last()[i] == s[i]);
        }
    }
}

// ---------------------------------------------------------------------------
// Characters of words
// ---------------------------------------------------------------------------

/// Neither the white space before the word nor the word has a line ending.
spec fn unbroken_token(t: Token) -> bool {
    unbroken(t.leading_ws) && unbroken(t.raw)
}

proof fn lemma_tokens_unbroken(line: Seq<char>, line_idx: int)
    requires
        unbroken(line),
    ensures
        forall|k: int|
            0 <= k < line_tokens(line, line_idx).len() ==> unbroken_token(
                #[trigger] line_tokens(line, line_idx)[k],
            ),
    decreases line.len(),
{
    if line.len() > 0 {
        let w = run(line, true) as int;
        let rest = line.skip(w);
        let r = run(rest, false) as int;
        lemma_run(line, true);
        if w < line.len() {
            lemma_run(rest, false);
            assert(rest[0] == line[w]);
            let t = line_tokens(line, line_idx);
            let others = line_tokens(rest.skip(r), line_idx);
            lemma_tokens_unbroken(rest.skip(r), line_idx);
            assert(unbroken(line.take(w)));
            assert(unbroken(rest.take(r)));
            assert forall|k: int| 0 <= k < t.len() implies unbroken_token(#[trigger] t[k]) by {
                if k > 0 {
                    assert(t[k] == others[k - 1]);
                }
            }
        }
    }
}

proof fn lemma_block_unbroken(lines: Seq<Seq<char>>)
    requires
        forall|i: int| 0 <= i < lines.len() ==> unbroken(#[trigger] lines[i]),
    ensures
        forall|k: int|
            0 <= k < block_tokens(lines).len() ==> unbroken_token(#[trigger] block_tokens(lines)[k]),
    decreases lines.len(),
{
    if lines.len() > 0 {
        let short = lines.drop_last();
        let a = block_tokens(short);
        let b = line_tokens(lines.last(), lines.len() - 1);
        assert forall|i: int| 0 <= i < short.len() implies unbroken(#[trigger] short[i]) by {
            assert(short[i] == lines[i]);
        }
        lemma_block_unbroken(short);
        assert(unbroken(lines[lines.len() - 1]));
        lemma_tokens_unbroken(lines.last(), lines.len() - 1);
        assert forall|k: int| 0 <= k < block_tokens(lines).len() implies unbroken_token(
            #[trigger] block_tokens(lines)[k],
        ) by {
            if k < a.len() {
                assert(block_tokens(lines)[k] == a[k]);
            } else {
                assert(block_tokens(lines)[k] == b[k - a.len()]);
            }
        }
    }
}

/// The word at this position stands on this line and has characters, none of them white space.
spec fn inked_token(tokens: Seq<Token>, x: int, line_idx: int) -> bool {
    0 <= x < tokens.len() && tokens[x].line_idx == line_idx && one_word(tokens[x].raw)
}

proof fn lemma_run_is_one(s: Seq<char>, white: bool)
    ensures
        run(s, white) <= s.len(),
        forall|i: int| 0 <= i < run(s, white) ==> white_space(#[trigger] s[i]) == white,
    decreases s.len(),
{
    if s.len() > 0 && white_space(s[0]) == white {
        let rest = s.skip(1);
        lemma_run_is_one(rest, white);
        assert forall|i: int| 0 <= i < run(s, white) implies white_space(#[trigger] s[i])
            == white by {
            if i > 0 {
                assert(rest[i - 1] == s[i]);
            }
        }
    }
}

proof fn lemma_inked_line(line: Seq<char>, line_idx: int) -> (x: int)
    requires
        has_ink(line),
    ensures
        inked_token(line_tokens(line, line_idx), x, line_idx),
{
    let w = run(line, true) as int;
    let rest = line.skip(w);
    let r = run(rest, false) as int;
    lemma_run(line, true);
    lemma_run_is_one(line, true);
    let i = choose|i: int| 0 <= i < line.len() && !white_space(#[trigger] line[i]);
    assert(w < line.len());
    lemma_run(rest, false);
    lemma_run_is_one(rest, false);
    assert(rest[0] == line[w]);
    let raw = rest.take(r);
    assert forall|k: int| 0 <= k < raw.len() implies !white_space(#[trigger] raw[k]) by {
        assert(raw[k] == rest[k]);
    }
    assert(line_tokens(line, line_idx)[0].raw == raw);
    0
}

proof fn lemma_inked_block(lines: Seq<Seq<char>>, k: int) -> (x: int)
    requires
        0 <= k < lines.len(),
        has_ink(lines[k]),
    ensures
        inked_token(block_tokens(lines), x, k),
    decreases lines.len(),
{
    let a = block_tokens(lines.drop_last());
    let b = line_tokens(lines.last(), lines.len() - 1);
    if k < lines.len() - 1 {
        assert(lines.drop_last()[k] == lines[k]);
        let x = lemma_inked_block(lines.drop_last(), k);
        assert(block_tokens(lines)[x] == a[x]);
        x
    } else {
        let x = lemma_inked_line(lines.last(), lines.len() - 1);
        assert(block_tokens(lines)[a.len() + x] == b[x]);
        a.len() + x
    }
}

// ---------------------------------------------------------------------------
// Characters of what is put together
// ---------------------------------------------------------------------------

proof fn lemma_content_unbroken(tokens: Seq<Token>, raws: Seq<Seq<char>>, count: int, k: int)
    requires
        tokens.len() <= raws.len(),
        forall|i: int| 0 <= i < tokens.len() ==> unbroken_token(#[trigger] tokens[i]),
        forall|i: int| 0 <= i < tokens.len() ==> unbroken(#[trigger] raws[i]),
    ensures
        unbroken(line_content(tokens, raws, count, k)),
    decreases tokens.len(),
{
    if tokens.len() > 0 {
        let short = tokens.drop_last();
        assert forall|i: int| 0 <= i < short.len() implies unbroken_token(#[trigger] short[i]) by {
            assert(short[i] == tokens[i]);
        }
        lemma_content_unbroken(short, raws, count, k);
        assert(unbroken_token(tokens[tokens.len() - 1]));
        let before = line_content(short, raws, count, k);
        lemma_unbroken_both(before, tokens.last().leading_ws);
        lemma_unbroken_both(before + tokens.last().leading_ws, raws[tokens.len() - 1]);
    }
}

proof fn lemma_content_ink(
    tokens: Seq<Token>,
    raws: Seq<Seq<char>>,
    count: int,
    k: int,
    x: int,
)
    requires
        tokens.len() <= raws.len(),
        0 <= x < tokens.len(),
        target_line(tokens[x], count) == k,
        has_ink(raws[x]),
    ensures
        has_ink(line_content(tokens, raws, count, k)),
    decreases tokens.len(),
{
    let short = tokens.drop_last();
    let before = line_content(short, raws, count, k);
    let last = tokens.last();
    if x < tokens.len() - 1 {
        assert(short[x] == tokens[x]);
        lemma_content_ink(short, raws, count, k, x);
        lemma_ink_left(before, last.leading_ws);
    }
    lemma_ink_left(before + last.leading_ws, raws[tokens.len() - 1]);
}

proof fn lemma_with_word(raw: Seq<char>, word: Seq<char>)
    requires
        unbroken(raw),
        one_word(word),
    ensures
        unbroken(with_word(raw, word)),
        has_ink(with_word(raw, word)),
{
    let i = lead(raw) as int;
    lemma_lead(raw);
    lemma_core_end(raw, i as nat);
    let j = core_end(raw, i as nat);
    let middle = raw.subrange(i, j);
    let suffix = apostrophe_part(middle);
    lemma_first_at(middle, seq!['\''], 0);
    assert(unbroken(middle));
    assert(unbroken(suffix));
    assert(unbroken(raw.take(i)));
    assert(unbroken(raw.skip(j)));
    assert(unbroken(word)) by {
        assert forall|k: int| 0 <= k < word.len() implies #[trigger] word[k] != '\n' && word[k]
            != '\r' by {
            assert(!white_space(word[k]));
        }
    }
    lemma_unbroken_both(raw.take(i), word);
    lemma_unbroken_both(raw.take(i) + word, suffix);
    lemma_unbroken_both(raw.take(i) + word + suffix, raw.skip(j));
    assert(!white_space(word[0]));
    lemma_ink_left(raw.take(i), word);
    lemma_ink_left(raw.take(i) + word, suffix);
    lemma_ink_left(raw.take(i) + word + suffix, raw.skip(j));
}

/// The captions are words that stay words when they are written with a capital.
pub open spec fn titles_are_words(captions: Seq<Caption>) -> bool {
    forall|y: int| 0 <= y < captions.len() ==> one_word(titled((#[trigger] captions[y]).word))
}

proof fn lemma_new_raw(e: Evidence, x: int)
    requires
        e.tokens.len() <= usize::MAX,
        e.captions.len() <= usize::MAX,
        titles_are_words(e.captions),
        0 <= x < e.tokens.len(),
        unbroken(e.tokens[x].raw),
    ensures
        e.raws_after(alignment(e)).len() == e.tokens.len(),
        unbroken(e.raws_after(alignment(e))[x]),
        one_word(e.tokens[x].raw) ==> has_ink(e.raws_after(alignment(e))[x]),
{
    law_words_change_only_as_judged(e);
    let ops = alignment(e);
    let raw = e.tokens[x].raw;
    let new = e.raws_after(ops)[x];
    if new == raw {
        if one_word(raw) {
            assert(!white_space(raw[0]));
        }
    } else {
        let (p, y) = choose|p: usize, y: usize|
            #![trigger ops.contains(AlignOp::Sub(p, y))]
            p == x && ops.contains(AlignOp::Sub(p, y)) && e.corrects(x, y as int);
        assert(new == e.corrected(x, y as int));
        let a = token_words(e.tokens);
        let b = shown(e.captions);
        lemma_chosen(a, b, a.len(), b.len());
        crate::bounds::lemma_alignment_range(ops, a, b, a.len() as int, b.len() as int);
        let q = choose|q: int| 0 <= q < ops.len() && ops[q] == AlignOp::Sub(p, y);
        assert(y < e.captions.len());
        assert(one_word(titled(e.captions[y as int].word)));
        lemma_with_word(raw, titled(e.captions[y as int].word));
    }
}

/// Lines with ink, without line endings, stay so when they are corrected.
proof fn lemma_corrected_lines(b: Block, c: Context)
    requires
        block_tokens(b.text_lines).len() <= usize::MAX,
        c.captions.len() <= usize::MAX,
        titles_are_words(c.captions),
        forall|k: int|
            0 <= k < b.text_lines.len() ==> plain_line(#[trigger] b.text_lines[k]) && has_ink(
                b.text_lines[k],
            ),
    ensures
        forall|k: int|
            0 <= k < c.corrected(b).text_lines.len() ==> plain_line(
                #[trigger] c.corrected(b).text_lines[k],
            ),
{
    let e = evidence(b, c.captions, c.vocab, c.stopwords);
    let lines = b.text_lines;
    let shows = |k: Caption| in_window(k, b.start_ms, b.end_ms);
    c.captions.lemma_filter_len(shows);
    assert(titles_are_words(e.captions)) by {
        assert forall|y: int| 0 <= y < e.captions.len() implies one_word(
            titled((#[trigger] e.captions[y]).word),
        ) by {
            lemma_filtered_is_there(c.captions, shows, y);
        }
    }
    if e.captions.len() > 0 && e.tokens.len() > 0 {
        let raws = e.raws_after(alignment(e));
        let count = lines.len() as int;
        assert(count > 0);
        assert forall|i: int| 0 <= i < lines.len() implies unbroken(#[trigger] lines[i]) by {
            assert(plain_line(lines[i]));
        }
        lemma_block_unbroken(lines);
        law_words_change_only_as_judged(e);
        assert forall|i: int| 0 <= i < e.tokens.len() implies unbroken(#[trigger] raws[i]) by {
            assert(unbroken_token(e.tokens[i]));
            lemma_new_raw(e, i);
        }
        assert forall|k: int| 0 <= k < count implies plain_line(
            #[trigger] c.corrected(b).text_lines[k],
        ) by {
            assert(plain_line(lines[k]) && has_ink(lines[k]));
            let x = lemma_inked_block(lines, k);
            assert(unbroken_token(e.tokens[x]));
            lemma_new_raw(e, x);
            lemma_content_ink(e.tokens, raws, count, k, x);
            lemma_content_unbroken(e.tokens, raws, count, k);
            lemma_trimmed_ink(line_content(e.tokens, raws, count, k));
        }
    }
}

proof fn lemma_filtered_is_there(s: Seq<Caption>, p: spec_fn(Caption) -> bool, y: int)
    requires
        0 <= y < s.filter(p).len(),
    ensures
        exists|k: int| 0 <= k < s.len() && #[trigger] s[k] == s.filter(p)[y],
{
    s.lemma_filter_contains_rev(p, s.filter(p)[y]);
}

// ---------------------------------------------------------------------------
// Laws
// ---------------------------------------------------------------------------

/// The subtitle file of a hybrid is read back as the corrected subtitles, and so with the numbers
/// and the timing of the Whisper transcript. Lines of white space alone are left out: trimmed, they
/// would end their subtitle.
pub proof fn law_hybrid_is_read_back(whisper: Seq<char>, c: Context)
    requires
        c.captions.len() <= usize::MAX,
        titles_are_words(c.captions),
        forall|i: int|
            #![trigger srt_blocks(whisper)[i]]
            0 <= i < srt_blocks(whisper).len() ==> block_tokens(
                srt_blocks(whisper)[i].text_lines,
            ).len() <= usize::MAX,
        forall|i: int, k: int|
            0 <= i < srt_blocks(whisper).len() && 0 <= k < srt_blocks(
                whisper,
            )[i].text_lines.len() ==> has_ink(#[trigger] srt_blocks(whisper)[i].text_lines[k]),
    ensures
        srt_blocks(hybrid(srt_blocks(whisper), c).srt) == c.corrected_blocks(srt_blocks(whisper)),
        ({
            let before = srt_blocks(whisper);
            let after = srt_blocks(hybrid(before, c).srt);
            &&& after.len() == before.len()
            &&& forall|i: int|
                0 <= i < before.len() ==> (#[trigger] after[i]).index == before[i].index
                    && after[i].timing == before[i].timing && after[i].start_ms
                    == before[i].start_ms && after[i].end_ms == before[i].end_ms
        }),
{
    let before = srt_blocks(whisper);
    let blocks = c.corrected_blocks(before);
    law_read_subtitles_are_sound(whisper);
    assert forall|i: int| 0 <= i < blocks.len() implies sound(#[trigger] blocks[i]) by {
        let b = before[i];
        assert(sound(b));
        assert(blocks[i] == c.corrected(b));
        assert forall|k: int| 0 <= k < b.text_lines.len() implies plain_line(
            #[trigger] b.text_lines[k],
        ) && has_ink(b.text_lines[k]) by {
            assert(has_ink(before[i].text_lines[k]));
        }
        lemma_corrected_lines(b, c);
    }
    law_written_subtitles_are_read_back(blocks);
    law_structure_is_kept(before, c);
}

/// An ASCII word stays a word when it is written with a capital.
pub proof fn law_ascii_titles_are_words(word: Seq<char>)
    requires
        all_ascii(word),
        one_word(word),
    ensures
        one_word(titled(word)),
{
    let rest = word.skip(1);
    let t = titled(word);
    assert(!white_space(word[0]));
    assert forall|i: int| 0 <= i < rest.len() implies crate::text::is_ascii(#[trigger] rest[i]) by {
        assert(rest[i] == word[i + 1]);
    }
    assert forall|i: int| 0 <= i < t.len() implies !white_space(#[trigger] t[i]) by {
        assert(crate::text::is_ascii(word[0]));
        if i > 0 {
            assert(t[i] == ascii_small(rest[i - 1]));
            assert(!white_space(word[i]));
            assert(crate::text::is_ascii(word[i]));
        }
    }
}

} // verus!
