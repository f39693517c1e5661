//! What holds of every hybrid transcript.
use vstd::prelude::*;

#[allow(unused_imports)]
use crate::align::{
    best_score, chosen, is_alignment, lemma_chosen, lemma_score_bounds, AlignOp,
};
#[allow(unused_imports)]
use crate::bounds::{lemma_alignment_range, lemma_replaced_bound};
#[allow(unused_imports)]
use crate::hybrid::{
    alignment, block_tokens, evidence, is_pair, merge, report, shown, token_raws, token_words,
    Context, Evidence, Merge,
};
#[allow(unused_imports)]
use crate::srt::Block;
#[allow(unused_imports)]
use crate::tokens::{
    lemma_run, line_content, line_tokens, rebuilt, run, target_line, Caption, Token,
};
#[allow(unused_imports)]
use crate::trim::trimmed_end;

verus! {

// ---------------------------------------------------------------------------
// Taking lines apart loses nothing
// ---------------------------------------------------------------------------

proof fn lemma_line_content_same(
    tokens: Seq<Token>,
    x: Seq<Seq<char>>,
    y: Seq<Seq<char>>,
    count: int,
    k: int,
)
    requires
        tokens.len() <= x.len(),
        tokens.len() <= y.len(),
        forall|i: int| 0 <= i < tokens.len() ==> #[trigger] x[i] == y[i],
    ensures
        line_content(tokens, x, count, k) == line_content(tokens, y, count, k),
    decreases tokens.len(),
{
    if tokens.len() > 0 {
        lemma_line_content_same(tokens.drop_last(), x, y, count, k);
        assert(x[tokens.len() - 1] == y[tokens.len() - 1]);
    }
}

proof fn lemma_line_content_append(
    a: Seq<Token>,
    b: Seq<Token>,
    raws: Seq<Seq<char>>,
    count: int,
    k: int,
)
    requires
        a.len() + b.len() <= raws.len(),
    ensures
        line_content(a + b, raws, count, k) == line_content(a, raws, count, k) + line_content(
            b,
            raws.skip(a.len() as int),
            count,
            k,
        ),
    decreases b.len(),
{
    if b.len() == 0 {
        assert(a + b =~= a);
        assert(line_content(a, raws, count, k) + Seq::<char>::empty() =~= line_content(
            a,
            raws,
            count,
            k,
        ));
    } else {
        lemma_line_content_append(a, b.drop_last(), raws, count, k);
        assert((a + b).drop_last() =~= a + b.drop_last());
        let front = line_content(a, raws, count, k);
        let back = line_content(b.drop_last(), raws.skip(a.len() as int), count, k);
        let raw = raws[a.len() + b.len() - 1];
        assert(raws.skip(a.len() as int)[b.len() - 1] == raw);
        assert((front + back) + b.last().leading_ws + raw =~= front + (back + b.last().leading_ws
            + raw));
    }
}

proof fn lemma_line_tokens(line: Seq<char>, line_idx: int, count: int, k: int)
    requires
        0 <= line_idx < count,
    ensures
        ({
            let t = line_tokens(line, line_idx);
            line_content(t, token_raws(t), count, k) == (if k == line_idx {
                line
            } else {
                Seq::empty()
            })
        }),
    decreases line.len(),
{
    let t = line_tokens(line, line_idx);
    let raws = token_raws(t);
    reveal_with_fuel(line_content, 2);
    if line.len() > 0 {
        let w = run(line, true) as int;
        let rest = line.skip(w);
        let r = run(rest, false) as int;
        lemma_run(line, true);
        if w >= line.len() {
            assert(Seq::<char>::empty() + line + Seq::<char>::empty() =~= line);
        } else {
            lemma_run(rest, false);
            assert(rest[0] == line[w]);
            let first = seq![t[0]];
            let others = line_tokens(rest.skip(r), line_idx);
            assert(t =~= first + others);
            lemma_line_content_append(first, others, raws, count, k);
            assert(raws.skip(1) =~= token_raws(others));
            lemma_line_tokens(rest.skip(r), line_idx, count, k);
            assert(Seq::<char>::empty() + line.take(w) + rest.take(r) + rest.skip(r) =~= line);
        }
    }
}

proof fn lemma_block_tokens(lines: Seq<Seq<char>>, count: int, k: int)
    requires
        lines.len() <= count,
        0 <= k < count,
    ensures
        ({
            let t = block_tokens(lines);
            line_content(t, token_raws(t), count, k) == (if k < lines.len() {
                lines[k]
            } else {
                Seq::empty()
            })
        }),
    decreases lines.len(),
{
    if lines.len() > 0 {
        let t = block_tokens(lines);
        let a = block_tokens(lines.drop_last());
        let b = line_tokens(lines.last(), lines.len() - 1);
        let raws = token_raws(t);
        lemma_line_content_append(a, b, raws, count, k);
        lemma_line_content_same(a, raws, token_raws(a), count, k);
        assert(raws.skip(a.len() as int) =~= token_raws(b));
        lemma_block_tokens(lines.drop_last(), count, k);
        lemma_line_tokens(lines.last(), lines.len() - 1, count, k);
        assert(Seq::<char>::empty() + lines.last() =~= lines.last());
        if k < lines.len() - 1 {
            assert(lines.drop_last()[k] == lines[k]);
            assert(lines[k] + Seq::<char>::empty() =~= lines[k]);
        }
    }
}

/// Taking lines apart into words and putting the words back as they were written gives the lines
/// again, without the white space at their ends.
pub proof fn law_unchanged_words_give_the_lines(lines: Seq<Seq<char>>)
    requires
        lines.len() > 0,
    ensures
        rebuilt(block_tokens(lines), token_raws(block_tokens(lines)), lines.len() as int)
            == lines.map_values(|line: Seq<char>| trimmed_end(line)),
{
    let t = block_tokens(lines);
    let r = rebuilt(t, token_raws(t), lines.len() as int);
    let kept = lines.map_values(|line: Seq<char>| trimmed_end(line));
    assert forall|k: int| 0 <= k < lines.len() implies r[k] == kept[k] by {
        lemma_block_tokens(lines, lines.len() as int, k);
    }
    assert(r =~= kept);
}

// ---------------------------------------------------------------------------
// What an alignment changes
// ---------------------------------------------------------------------------

proof fn lemma_raws_after<T>(
    e: Evidence,
    ops: Seq<AlignOp>,
    a: Seq<T>,
    b: Seq<T>,
    i: int,
    j: int,
)
    requires
        is_alignment(ops, a, b, i, j),
        i <= e.tokens.len(),
    ensures
        e.raws_after(ops).len() == e.tokens.len(),
        forall|x: usize, y: usize|
            #![trigger ops.contains(AlignOp::Sub(x, y))]
            ops.contains(AlignOp::Sub(x, y)) && e.corrects(x as int, y as int)
                ==> e.raws_after(ops)[x as int] == e.corrected(x as int, y as int),
        forall|x: int|
            #![trigger e.raws_after(ops)[x]]
            0 <= x < e.tokens.len() ==> e.raws_after(ops)[x] == e.tokens[x].raw || exists|
                p: usize,
                y: usize,
            |
                #![trigger ops.contains(AlignOp::Sub(p, y))]
                p == x && ops.contains(AlignOp::Sub(p, y)) && e.corrects(x, y as int),
    decreases ops.len(),
{
    if ops.len() > 0 {
        let short = ops.drop_last();
        let raws = e.raws_after(ops);
        let before = e.raws_after(short);
        let (pi, pj) = match ops.last() {
            AlignOp::Match(_, _) | AlignOp::Sub(_, _) => (i - 1, j - 1),
            AlignOp::InsertA(_) => (i - 1, j),
            AlignOp::InsertB(_) => (i, j - 1),
        };
        lemma_raws_after(e, short, a, b, pi, pj);
        lemma_alignment_range(short, a, b, pi, pj);
        assert(ops =~= short.push(ops.last()));
        assert(ops[ops.len() - 1] == ops.last());
        assert forall|x: usize, y: usize|
            #![trigger ops.contains(AlignOp::Sub(x, y))]
            ops.contains(AlignOp::Sub(x, y)) && e.corrects(x as int, y as int) implies raws[x as int]
            == e.corrected(x as int, y as int) by {
            let op = AlignOp::Sub(x, y);
            if ops.last() != op {
                let p = choose|p: int| 0 <= p < ops.len() && ops[p] == op;
                assert(short[p] == op);
                assert(short.contains(op));
            }
        }
        assert forall|x: int|
            #![trigger e.raws_after(ops)[x]]
            0 <= x < e.tokens.len() && raws[x] != e.tokens[x].raw implies exists|
            p: usize,
            y: usize,
        |
            #![trigger ops.contains(AlignOp::Sub(p, y))]
            p == x && ops.contains(AlignOp::Sub(p, y)) && e.corrects(x, y as int) by {
            if before[x] != e.tokens[x].raw {
                let (p, y) = choose|p: usize, y: usize|
                    #![trigger short.contains(AlignOp::Sub(p, y))]
                    p == x && short.contains(AlignOp::Sub(p, y)) && e.corrects(x, y as int);
                let q = choose|q: int| 0 <= q < short.len() && short[q] == AlignOp::Sub(p, y);
                assert(ops[q] == AlignOp::Sub(p, y));
                assert(ops.contains(AlignOp::Sub(p, y)));
            } else {
                match ops.last() {
                    AlignOp::Sub(p, y) => {
                        assert(ops.contains(AlignOp::Sub(p, y)));
                    },
                    _ => {},
                }
            }
        }
    }
}

/// A word changes only where the alignment pairs it with a different caption word that replaces
/// it, and there it is written with that caption word. No more words are counted as replaced
/// than there are.
pub proof fn law_words_change_only_as_judged(e: Evidence)
    requires
        e.tokens.len() <= usize::MAX,
        e.captions.len() <= usize::MAX,
    ensures
        e.raws_after(alignment(e)).len() == e.tokens.len(),
        forall|x: usize, y: usize|
            #![trigger alignment(e).contains(AlignOp::Sub(x, y))]
            alignment(e).contains(AlignOp::Sub(x, y)) && e.corrects(x as int, y as int)
                ==> e.raws_after(alignment(e))[x as int] == e.corrected(x as int, y as int),
        forall|x: int|
            #![trigger e.raws_after(alignment(e))[x]]
            0 <= x < e.tokens.len() ==> e.raws_after(alignment(e))[x] == e.tokens[x].raw || exists|
                p: usize,
                y: usize,
            |
                #![trigger alignment(e).contains(AlignOp::Sub(p, y))]
                p == x && alignment(e).contains(AlignOp::Sub(p, y)) && e.corrects(x, y as int),
        e.corrections(alignment(e)) <= e.tokens.len(),
{
    let a = token_words(e.tokens);
    let b = shown(e.captions);
    lemma_chosen(a, b, a.len(), b.len());
    lemma_raws_after(e, alignment(e), a, b, a.len() as int, b.len() as int);
    lemma_replaced_bound(e, alignment(e), a, b, a.len() as int, b.len() as int);
}

proof fn lemma_open_run(e: Evidence, ops: Seq<AlignOp>)
    ensures
        forall|k: int|
            0 <= k < e.open_run(ops).len() ==> ops.contains(
                AlignOp::InsertA(#[trigger] e.open_run(ops)[k]),
            ) && e.tokens[e.open_run(ops)[k] as int].word.len() > 0,
    decreases ops.len(),
{
    if ops.len() > 0 {
        let short = ops.drop_last();
        lemma_open_run(e, short);
        assert forall|k: int| 0 <= k < e.open_run(ops).len() implies ops.contains(
            AlignOp::InsertA(#[trigger] e.open_run(ops)[k]),
        ) && e.tokens[e.open_run(ops)[k] as int].word.len() > 0 by {
            if k < e.open_run(short).len() {
                let op = AlignOp::InsertA(e.open_run(short)[k]);
                assert(short.contains(op));
                let q = choose|q: int| 0 <= q < short.len() && short[q] == op;
                assert(ops[q] == op);
            } else {
                assert(ops[ops.len() - 1] == ops.last());
            }
        }
    }
}

/// Every word of the run is left alone by the alignment and has a letter or a digit, and there
/// are at least three.
pub open spec fn unsupported(e: Evidence, ops: Seq<AlignOp>, run: Seq<usize>) -> bool {
    &&& run.len() >= 3
    &&& forall|k: int|
        0 <= k < run.len() ==> ops.contains(AlignOp::InsertA(#[trigger] run[k]))
            && e.tokens[run[k] as int].word.len() > 0
}

proof fn lemma_unsupported_longer(e: Evidence, ops: Seq<AlignOp>, run: Seq<usize>)
    requires
        ops.len() > 0,
        unsupported(e, ops.drop_last(), run),
    ensures
        unsupported(e, ops, run),
{
    assert forall|k: int| 0 <= k < run.len() implies ops.contains(
        AlignOp::InsertA(#[trigger] run[k]),
    ) && e.tokens[run[k] as int].word.len() > 0 by {
        let op = AlignOp::InsertA(run[k]);
        assert(ops.drop_last().contains(op));
        let q = choose|q: int| 0 <= q < ops.len() - 1 && ops.drop_last()[q] == op;
        assert(ops[q] == op);
    }
}

proof fn lemma_ended_runs(e: Evidence, ops: Seq<AlignOp>)
    ensures
        forall|r: int|
            0 <= r < e.ended_runs(ops).len() ==> unsupported(
                e,
                ops,
                #[trigger] e.ended_runs(ops)[r],
            ),
    decreases ops.len(),
{
    if ops.len() > 0 {
        let short = ops.drop_last();
        lemma_ended_runs(e, short);
        lemma_open_run(e, short);
        assert forall|r: int| 0 <= r < e.ended_runs(ops).len() implies unsupported(
            e,
            ops,
            #[trigger] e.ended_runs(ops)[r],
        ) by {
            if r < e.ended_runs(short).len() {
                lemma_unsupported_longer(e, ops, e.ended_runs(short)[r]);
            } else {
                lemma_unsupported_longer(e, ops, e.open_run(short));
            }
        }
    }
}

/// What is reported are runs of at least three words, each of which has a letter or a digit and
/// is left without a caption word by the alignment.
pub proof fn law_reported_runs_have_no_captions(e: Evidence, ops: Seq<AlignOp>)
    ensures
        forall|r: int|
            0 <= r < e.runs(ops).len() ==> unsupported(e, ops, #[trigger] e.runs(ops)[r]),
{
    lemma_ended_runs(e, ops);
    lemma_open_run(e, ops);
}

proof fn lemma_open_run_grows(e: Evidence, ops: Seq<AlignOp>, from: int)
    requires
        0 <= from <= ops.len(),
        forall|k: int| from <= k < ops.len() ==> !is_pair(#[trigger] ops[k]),
    ensures
        e.open_run(ops) == e.open_run(ops.take(from)) + e.open_run(ops.skip(from)),
    decreases ops.len(),
{
    let before = e.open_run(ops.take(from));
    if from == ops.len() {
        assert(ops.take(from) =~= ops);
        assert(ops.skip(from) =~= Seq::empty());
        assert(e.open_run(ops) =~= before + e.open_run(ops.skip(from)));
    } else {
        let short = ops.drop_last();
        let part = ops.skip(from);
        assert forall|k: int| from <= k < short.len() implies !is_pair(#[trigger] short[k]) by {
            assert(short[k] == ops[k]);
        }
        lemma_open_run_grows(e, short, from);
        assert(short.take(from) =~= ops.take(from));
        assert(part.drop_last() =~= short.skip(from));
        assert(part.last() == ops.last());
        assert(!is_pair(ops[ops.len() - 1]));
        assert(e.open_run(ops) =~= before + e.open_run(part));
    }
}

proof fn lemma_run_is_reported(e: Evidence, ops: Seq<AlignOp>, t: int) -> (r: int)
    requires
        0 <= t <= ops.len(),
        e.open_run(ops.take(t)).len() >= 3,
    ensures
        0 <= r < e.runs(ops).len(),
        e.open_run(ops.take(t)).is_prefix_of(e.runs(ops)[r]),
    decreases ops.len() - t,
{
    let run = e.open_run(ops.take(t));
    if t == ops.len() {
        assert(ops.take(t) =~= ops);
        e.runs(ops).len() - 1
    } else {
        let next = ops.take(t + 1);
        assert(next.drop_last() =~= ops.take(t));
        assert(next.last() == ops[t]);
        if is_pair(ops[t]) {
            let r = e.ended_runs(next).len() - 1;
            lemma_ended_runs_stay(e, ops, t + 1);
            assert(e.ended_runs(next)[r] == run);
            r
        } else {
            let r = lemma_run_is_reported(e, ops, t + 1);
            assert(run.is_prefix_of(e.open_run(next)));
            r
        }
    }
}

proof fn lemma_ended_runs_stay(e: Evidence, ops: Seq<AlignOp>, t: int)
    requires
        0 <= t <= ops.len(),
    ensures
        e.ended_runs(ops.take(t)).is_prefix_of(e.ended_runs(ops)),
    decreases ops.len(),
{
    if t == ops.len() {
        assert(ops.take(t) =~= ops);
    } else {
        lemma_ended_runs_stay(e, ops.drop_last(), t);
        assert(ops.drop_last().take(t) =~= ops.take(t));
    }
}

/// Wherever a stretch of the alignment pairs no word and leaves three or more words alone that have
/// a letter or a digit, these words are reported, together and in order.
pub proof fn law_every_run_without_captions_is_reported(
    e: Evidence,
    ops: Seq<AlignOp>,
    from: int,
    to: int,
)
    requires
        0 <= from <= to <= ops.len(),
        forall|k: int| from <= k < to ==> !is_pair(#[trigger] ops[k]),
        e.open_run(ops.subrange(from, to)).len() >= 3,
    ensures
        exists|r: int, at: int|
            0 <= r < e.runs(ops).len() && 0 <= at && at + e.open_run(ops.subrange(from, to)).len()
                <= e.runs(ops)[r].len() && e.open_run(ops.subrange(from, to))
                == #[trigger] e.runs(ops)[r].subrange(
                at,
                at + e.open_run(ops.subrange(from, to)).len(),
            ),
{
    let seen = ops.take(to);
    let lone = e.open_run(ops.subrange(from, to));
    assert forall|k: int| from <= k < seen.len() implies !is_pair(#[trigger] seen[k]) by {
        assert(seen[k] == ops[k]);
    }
    lemma_open_run_grows(e, seen, from);
    assert(seen.skip(from) =~= ops.subrange(from, to));
    let before = e.open_run(seen.take(from));
    let r = lemma_run_is_reported(e, ops, to);
    let at = before.len() as int;
    let run = e.runs(ops)[r];
    assert(e.open_run(seen) == before + lone);
    assert forall|i: int| 0 <= i < lone.len() implies run[at + i] == #[trigger] lone[i] by {
        assert((before + lone)[at + i] == lone[i]);
        assert(run.subrange(0, (before + lone).len() as int)[at + i] == (before + lone)[at + i]);
    }
    assert(lone =~= e.runs(ops)[r].subrange(at, at + lone.len()));
}

// ---------------------------------------------------------------------------
// Captions that say the same
// ---------------------------------------------------------------------------

proof fn lemma_same_words_match(e: Evidence, a: Seq<Seq<char>>, i: nat)
    requires
        i <= usize::MAX,
    ensures
        best_score(a, a, i, i) == 2 * i,
        e.raws_after(chosen(a, a, i, i)) == token_raws(e.tokens),
        e.corrections(chosen(a, a, i, i)) == 0,
        e.open_run(chosen(a, a, i, i)) == Seq::<usize>::empty(),
        e.ended_runs(chosen(a, a, i, i)) == Seq::<Seq<usize>>::empty(),
    decreases i,
{
    if i > 0 {
        let before = (i - 1) as nat;
        lemma_same_words_match(e, a, before);
        lemma_score_bounds(a, a, i, i);
        let ops = chosen(a, a, i, i);
        assert(best_score(a, a, i, i) == best_score(a, a, before, before) + 2);
        assert(ops.drop_last() =~= chosen(a, a, before, before));
        assert(ops.last() is Match);
    }
}

/// Where the captions about the time of a subtitle say the same words, nothing is replaced or
/// reported, and its lines lose at most the white space at their ends.
pub proof fn law_agreeing_captions_change_nothing(b: Block, c: Context)
    requires
        block_tokens(b.text_lines).len() <= usize::MAX,
        ({
            let e = evidence(b, c.captions, c.vocab, c.stopwords);
            e.tokens.len() > 0 && token_words(e.tokens) == shown(e.captions)
        }),
    ensures
        c.merge(b) == (Merge {
            lines: b.text_lines.map_values(|line: Seq<char>| trimmed_end(line)),
            replacements: 0,
            flagged: Seq::empty(),
        }),
{
    let e = evidence(b, c.captions, c.vocab, c.stopwords);
    let a = token_words(e.tokens);
    assert(a.len() == e.tokens.len());
    assert(shown(e.captions).len() == e.captions.len());
    lemma_same_words_match(e, a, a.len());
    assert(b.text_lines.len() > 0);
    law_unchanged_words_give_the_lines(b.text_lines);
    assert(c.merge(b).flagged =~= Seq::empty());
}

// ---------------------------------------------------------------------------
// Structure
// ---------------------------------------------------------------------------

/// The hybrid has the subtitles of the Whisper transcript: as many of them, with their numbers,
/// timing and times, and each with as many lines.
pub proof fn law_structure_is_kept(blocks: Seq<Block>, c: Context)
    ensures
        c.corrected_blocks(blocks).len() == blocks.len(),
        forall|i: int|
            #![trigger c.corrected_blocks(blocks)[i]]
            0 <= i < blocks.len() ==> {
                let old_block = blocks[i];
                let new_block = c.corrected_blocks(blocks)[i];
                &&& new_block.index == old_block.index
                &&& new_block.timing == old_block.timing
                &&& new_block.start_ms == old_block.start_ms
                &&& new_block.end_ms == old_block.end_ms
                &&& new_block.text_lines.len() == old_block.text_lines.len()
            },
{
    assert forall|i: int| 0 <= i < blocks.len() implies (#[trigger] c.corrected_blocks(
        blocks,
    )[i]).text_lines.len() == blocks[i].text_lines.len() by {
        if blocks[i].text_lines.len() == 0 {
            assert(block_tokens(blocks[i].text_lines).len() == 0);
        }
    }
}

/// Without captions nothing is replaced or reported, and every subtitle stays as it is.
pub proof fn law_without_captions_nothing_changes(blocks: Seq<Block>, c: Context)
    requires
        c.captions.len() == 0,
    ensures
        c.corrected_blocks(blocks) == blocks,
        c.replacements(blocks) == 0,
        c.flagged(blocks) == Seq::<Seq<char>>::empty(),
    decreases blocks.len(),
{
    assert forall|i: int| 0 <= i < blocks.len() implies c.corrected(#[trigger] blocks[i])
        == blocks[i] by {
        lemma_no_captions(blocks[i], c);
    }
    assert(c.corrected_blocks(blocks) =~= blocks);
    if blocks.len() > 0 {
        law_without_captions_nothing_changes(blocks.drop_last(), c);
        lemma_no_captions(blocks.last(), c);
    }
}

proof fn lemma_no_captions(b: Block, c: Context)
    requires
        c.captions.len() == 0,
    ensures
        c.merge(b) == (Merge { lines: b.text_lines, replacements: 0, flagged: Seq::empty() }),
{
    c.captions.lemma_filter_len(
        |k: Caption| crate::tokens::in_window(k, b.start_ms, b.end_ms),
    );
}

} // verus!
