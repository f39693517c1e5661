//! What becomes of each word of a transcript, of each run of words without captions, and of the
//! whole.
use vstd::prelude::*;

#[allow(unused_imports)]
use crate::align::{chosen, is_alignment, lemma_chosen, AlignOp};
#[allow(unused_imports)]
use crate::align_laws::{law_single_difference_is_paired, side_by_side};
#[allow(unused_imports)]
use crate::bounds::lemma_alignment_range;
#[allow(unused_imports)]
use crate::find::joined;
#[allow(unused_imports)]
use crate::hybrid::{
    alignment, block_tokens, context, evidence, flagged_text, hybrid, merge, report, shown,
    token_raws, token_words, Context, Evidence, Merge,
};
#[allow(unused_imports)]
use crate::hybrid_laws::law_words_change_only_as_judged;
#[allow(unused_imports)]
use crate::metadata::proper_nouns;
#[allow(unused_imports)]
use crate::replacement::{replaces, titled, with_word};
#[allow(unused_imports)]
use crate::srt::{plain_text, srt_blocks, srt_text, stamp_text, Block};
#[allow(unused_imports)]
use crate::subtitle_laws::{
    law_plain_texts_are_written_in_order, law_subtitles_are_written_in_order,
};
#[allow(unused_imports)]
use crate::tokens::{
    all_caption_words, in_window, line_content, rebuilt, target_line, without_repeats, Caption,
    Token,
};
#[allow(unused_imports)]
use crate::trim::trimmed_end;
#[allow(unused_imports)]
use crate::vocab::stopword_set;

verus! {

// ---------------------------------------------------------------------------
// Words
// ---------------------------------------------------------------------------

proof fn lemma_one_partner<T>(
    ops: Seq<AlignOp>,
    a: Seq<T>,
    b: Seq<T>,
    i: int,
    j: int,
    x: usize,
    y: usize,
    z: usize,
)
    requires
        is_alignment(ops, a, b, i, j),
        ops.contains(AlignOp::Sub(x, y)),
        ops.contains(AlignOp::Sub(x, z)),
    ensures
        y == z,
    decreases ops.len(),
{
    let short = ops.drop_last();
    let (pi, pj) = match ops.last() {
        AlignOp::Match(_, _) => (i - 1, j - 1),
        AlignOp::Sub(_, _) => (i - 1, j - 1),
        AlignOp::InsertA(_) => (i - 1, j),
        AlignOp::InsertB(_) => (i, j - 1),
    };
    lemma_alignment_range(short, a, b, pi, pj);
    let p = choose|p: int| 0 <= p < ops.len() && ops[p] == AlignOp::Sub(x, y);
    let q = choose|q: int| 0 <= q < ops.len() && ops[q] == AlignOp::Sub(x, z);
    if p < short.len() && q < short.len() {
        assert(short[p] == AlignOp::Sub(x, y));
        assert(short[q] == AlignOp::Sub(x, z));
        lemma_one_partner(short, a, b, pi, pj, x, y, z);
    } else if p < short.len() {
        assert(short[p] == AlignOp::Sub(x, y));
    } else if q < short.len() {
        assert(short[q] == AlignOp::Sub(x, z));
    }
}

/// A word that the alignment pairs with a different caption word is written with that word, in the
/// place of its own letters and with a capital, exactly if the caption word replaces it; else it
/// stays. A word that is paired with no different one stays as well. As many words are counted as
/// there are such pairs.
pub proof fn law_each_pair_is_judged(e: Evidence)
    requires
        e.tokens.len() <= usize::MAX,
        e.captions.len() <= usize::MAX,
    ensures
        e.raws_after(alignment(e)).len() == e.tokens.len(),
        forall|x: usize, y: usize|
            #![trigger alignment(e).contains(AlignOp::Sub(x, y))]
            alignment(e).contains(AlignOp::Sub(x, y)) ==> e.raws_after(alignment(e))[x as int] == (
            if replaces(
                e.tokens[x as int].word,
                e.captions[y as int].word,
                e.vocab,
                e.stopwords,
            ) {
                with_word(e.tokens[x as int].raw, titled(e.captions[y as int].word))
            } else {
                e.tokens[x as int].raw
            }),
        forall|x: usize|
            #![trigger e.raws_after(alignment(e))[x as int]]
            x < e.tokens.len() && (forall|y: usize|
                !#[trigger] alignment(e).contains(AlignOp::Sub(x, y))) ==> e.raws_after(
                alignment(e),
            )[x as int] == e.tokens[x as int].raw,
        e.corrections(alignment(e)) == alignment(e).filter(
            |o: AlignOp|
                o is Sub && replaces(
                    e.tokens[o->Sub_0 as int].word,
                    e.captions[o->Sub_1 as int].word,
                    e.vocab,
                    e.stopwords,
                ),
        ).len(),
{
    let ops = alignment(e);
    let raws = e.raws_after(ops);
    let a = token_words(e.tokens);
    let b = shown(e.captions);
    law_words_change_only_as_judged(e);
    lemma_chosen(a, b, a.len(), b.len());
    lemma_alignment_range(ops, a, b, a.len() as int, b.len() as int);
    assert forall|x: usize, y: usize|
        #![trigger ops.contains(AlignOp::Sub(x, y))]
        ops.contains(AlignOp::Sub(x, y)) && !e.corrects(x as int, y as int) implies raws[x as int]
        == e.tokens[x as int].raw by {
        let k = choose|k: int| 0 <= k < ops.len() && ops[k] == AlignOp::Sub(x, y);
        assert(x < e.tokens.len());
        if raws[x as int] != e.tokens[x as int].raw {
            let (p, z) = choose|p: usize, z: usize|
                #![trigger ops.contains(AlignOp::Sub(p, z))]
                p == x && ops.contains(AlignOp::Sub(p, z)) && e.corrects(x as int, z as int);
            lemma_one_partner(ops, a, b, a.len() as int, b.len() as int, x, y, z);
        }
    }
    lemma_corrections_counted(e, ops);
}

proof fn lemma_corrections_counted(e: Evidence, ops: Seq<AlignOp>)
    ensures
        e.corrections(ops) == ops.filter(
            |o: AlignOp|
                o is Sub && replaces(
                    e.tokens[o->Sub_0 as int].word,
                    e.captions[o->Sub_1 as int].word,
                    e.vocab,
                    e.stopwords,
                ),
        ).len(),
    decreases ops.len(),
{
    let taken = |o: AlignOp|
        o is Sub && replaces(
            e.tokens[o->Sub_0 as int].word,
            e.captions[o->Sub_1 as int].word,
            e.vocab,
            e.stopwords,
        );
    reveal(Seq::filter);
    if ops.len() > 0 {
        let short = ops.drop_last();
        lemma_corrections_counted(e, short);
        short.lemma_filter_push(ops.last(), taken);
        assert(short.push(ops.last()) =~= ops);
    } else {
        assert(ops.filter(taken) =~= Seq::empty());
    }
}

proof fn lemma_side_by_side(e: Evidence, d: int, i: nat)
    requires
        e.tokens.len() == e.captions.len(),
        i <= e.tokens.len() <= usize::MAX,
        0 <= d < e.tokens.len(),
        e.tokens[d].word != e.captions[d].word,
        forall|k: int|
            0 <= k < e.tokens.len() && k != d ==> #[trigger] e.tokens[k].word == e.captions[k].word,
    ensures
        ({
            let ops = side_by_side(token_words(e.tokens), shown(e.captions), i);
            let taken = i > d && replaces(
                e.tokens[d].word,
                e.captions[d].word,
                e.vocab,
                e.stopwords,
            );
            &&& e.raws_after(ops) == (if taken {
                token_raws(e.tokens).update(
                    d,
                    with_word(e.tokens[d].raw, titled(e.captions[d].word)),
                )
            } else {
                token_raws(e.tokens)
            })
            &&& e.corrections(ops) == (if taken {
                1nat
            } else {
                0nat
            })
            &&& e.open_run(ops) == Seq::<usize>::empty()
            &&& e.ended_runs(ops) == Seq::<Seq<usize>>::empty()
        }),
    decreases i,
{
    let a = token_words(e.tokens);
    let b = shown(e.captions);
    let ops = side_by_side(a, b, i);
    if i > 0 {
        let p = (i - 1) as nat;
        lemma_side_by_side(e, d, p);
        assert(ops.drop_last() =~= side_by_side(a, b, p));
        assert(a[p as int] == e.tokens[p as int].word);
        assert(b[p as int] == e.captions[p as int].word);
        if p != d {
            assert(e.tokens[p as int].word == e.captions[p as int].word);
        }
        assert(ops.last() == if a[p as int] == b[p as int] {
            AlignOp::Match(p as usize, p as usize)
        } else {
            AlignOp::Sub(p as usize, p as usize)
        });
    }
}

/// Where the captions about the time of a subtitle say the same words but for one, that one is
/// corrected if the caption word replaces it, and counted; no other word changes, and nothing is
/// reported.
pub proof fn law_one_misheard_word_is_corrected(b: Block, c: Context, d: int)
    requires
        ({
            let e = evidence(b, c.captions, c.vocab, c.stopwords);
            &&& e.tokens.len() == e.captions.len()
            &&& e.tokens.len() <= usize::MAX
            &&& 0 <= d < e.tokens.len()
            &&& e.tokens[d].word != e.captions[d].word
            &&& forall|k: int|
                0 <= k < e.tokens.len() && k != d ==> #[trigger] e.tokens[k].word
                    == e.captions[k].word
        }),
    ensures
        ({
            let tokens = block_tokens(b.text_lines);
            let heard = c.captions.filter(|k: Caption| in_window(k, b.start_ms, b.end_ms));
            let taken = replaces(tokens[d].word, heard[d].word, c.vocab, c.stopwords);
            let raws = tokens.map_values(|t: Token| t.raw);
            &&& c.merge(b).replacements == (if taken {
                1nat
            } else {
                0nat
            })
            &&& c.merge(b).flagged == Seq::<Seq<char>>::empty()
            &&& c.merge(b).lines == rebuilt(
                tokens,
                if taken {
                    raws.update(d, with_word(tokens[d].raw, titled(heard[d].word)))
                } else {
                    raws
                },
                b.text_lines.len() as int,
            )
        }),
{
    let e = evidence(b, c.captions, c.vocab, c.stopwords);
    let x = token_words(e.tokens);
    let y = shown(e.captions);
    assert(x.len() == e.tokens.len() && y.len() == e.captions.len());
    assert(x[d] == e.tokens[d].word && y[d] == e.captions[d].word);
    assert forall|k: int| 0 <= k < x.len() && k != d implies #[trigger] x[k] == y[k] by {
        assert(e.tokens[k].word == e.captions[k].word);
    }
    law_single_difference_is_paired(x, y, d);
    lemma_side_by_side(e, d, x.len());
    assert(c.merge(b).flagged =~= Seq::empty());
}

/// A subtitle stays as it is, and nothing is counted or reported of it, if no caption is shown
/// within four seconds of it, or if it has no words.
pub proof fn law_subtitle_without_captions_stays(b: Block, c: Context)
    requires
        block_tokens(b.text_lines).len() == 0 || forall|k: int|
            0 <= k < c.captions.len() ==> (#[trigger] c.captions[k]).end_ms + 4000 < b.start_ms
                || c.captions[k].start_ms > b.end_ms + 4000,
    ensures
        c.merge(b) == (Merge { lines: b.text_lines, replacements: 0, flagged: Seq::empty() }),
{
    let near = |k: Caption| in_window(k, b.start_ms, b.end_ms);
    if block_tokens(b.text_lines).len() > 0 {
        let heard = c.captions.filter(near);
        if heard.len() > 0 {
            let x = heard[0];
            c.captions.lemma_filter_pred(near, 0);
            assert(heard.contains(x));
            c.captions.lemma_filter_contains_rev(near, x);
            let k = choose|k: int| 0 <= k < c.captions.len() && c.captions[k] == x;
            assert(near(c.captions[k]));
        }
    }
}

// ---------------------------------------------------------------------------
// Lines
// ---------------------------------------------------------------------------

proof fn lemma_around_word(
    tokens: Seq<Token>,
    raws: Seq<Seq<char>>,
    count: int,
    x: int,
    new: Seq<char>,
) -> (r: (Seq<char>, Seq<char>))
    requires
        tokens.len() <= raws.len(),
        0 <= x < tokens.len(),
    ensures
        line_content(tokens, raws, count, target_line(tokens[x], count)) == r.0 + raws[x] + r.1,
        line_content(tokens, raws.update(x, new), count, target_line(tokens[x], count)) == r.0 + new
            + r.1,
    decreases tokens.len(),
{
    let k = target_line(tokens[x], count);
    let short = tokens.drop_last();
    let last = tokens.last();
    let n = tokens.len() - 1;
    if x < n {
        assert(short[x] == tokens[x]);
        let (before, after) = lemma_around_word(short, raws, count, x, new);
        assert(raws.update(x, new)[n] == raws[n]);
        if target_line(last, count) == k {
            let more = after + last.leading_ws + raws[n];
            assert((before + raws[x] + after) + last.leading_ws + raws[n] =~= before + raws[x] + more);
            assert((before + new + after) + last.leading_ws + raws[n] =~= before + new + more);
            (before, more)
        } else {
            (before, after)
        }
    } else {
        let before = line_content(short, raws, count, k) + last.leading_ws;
        let none = Seq::<char>::empty();
        lemma_other_words(short, raws, count, x, new, k);
        assert(before + raws[x] + none =~= before + raws[x]);
        assert(before + new + none =~= before + new);
        (before, none)
    }
}

proof fn lemma_other_words(
    tokens: Seq<Token>,
    raws: Seq<Seq<char>>,
    count: int,
    x: int,
    new: Seq<char>,
    k: int,
)
    requires
        tokens.len() <= raws.len(),
        0 <= x < raws.len(),
        x < tokens.len() ==> target_line(tokens[x], count) != k,
    ensures
        line_content(tokens, raws.update(x, new), count, k) == line_content(tokens, raws, count, k),
    decreases tokens.len(),
{
    if tokens.len() > 0 {
        let short = tokens.drop_last();
        if x < short.len() {
            assert(short[x] == tokens[x]);
        }
        lemma_other_words(short, raws, count, x, new, k);
    }
}

/// Where one word is written otherwise, only its line changes, and of its line only that word: what
/// stands before and after it stays, but for white space at the end of the line.
pub proof fn law_only_the_word_changes(
    tokens: Seq<Token>,
    raws: Seq<Seq<char>>,
    count: int,
    x: int,
    new: Seq<char>,
) -> (r: (Seq<char>, Seq<char>))
    requires
        count >= 1,
        tokens.len() <= raws.len(),
        0 <= x < tokens.len(),
        0 <= tokens[x].line_idx < count,
    ensures
        rebuilt(tokens, raws, count).len() == count,
        rebuilt(tokens, raws.update(x, new), count).len() == count,
        rebuilt(tokens, raws, count)[tokens[x].line_idx] == trimmed_end(r.0 + raws[x] + r.1),
        rebuilt(tokens, raws.update(x, new), count)[tokens[x].line_idx] == trimmed_end(
            r.0 + new + r.1,
        ),
        forall|k: int|
            0 <= k < count && k != tokens[x].line_idx ==> #[trigger] rebuilt(
                tokens,
                raws.update(x, new),
                count,
            )[k] == rebuilt(tokens, raws, count)[k],
{
    let a = rebuilt(tokens, raws, count);
    let b = rebuilt(tokens, raws.update(x, new), count);
    let r = lemma_around_word(tokens, raws, count, x, new);
    assert forall|k: int| 0 <= k < count && k != tokens[x].line_idx implies #[trigger] b[k]
        == a[k] by {
        lemma_other_words(tokens, raws, count, x, new, k);
    }
    r
}

// ---------------------------------------------------------------------------
// Runs
// ---------------------------------------------------------------------------

proof fn lemma_runs_after_pair(e: Evidence, a: Seq<AlignOp>, pair: AlignOp, b: Seq<AlignOp>)
    requires
        pair is Match || pair is Sub,
    ensures
        e.open_run(a + seq![pair] + b) == e.open_run(b),
        e.ended_runs(a + seq![pair] + b) == e.runs(a) + e.ended_runs(b),
    decreases b.len(),
{
    let s = a + seq![pair] + b;
    if b.len() == 0 {
        assert(s =~= a.push(pair));
        assert(s.drop_last() =~= a);
        assert(e.ended_runs(s) =~= e.runs(a) + e.ended_runs(b));
    } else {
        let short = b.drop_last();
        lemma_runs_after_pair(e, a, pair, short);
        assert(s.drop_last() =~= a + seq![pair] + short);
        assert(s.last() == b.last());
        assert(e.ended_runs(s) =~= e.runs(a) + e.ended_runs(b));
    }
}

/// A pair of words parts what is reported: the runs before it are reported, and then those after
/// it, and no run reaches over it.
pub proof fn law_pairs_part_runs(e: Evidence, a: Seq<AlignOp>, pair: AlignOp, b: Seq<AlignOp>)
    requires
        pair is Match || pair is Sub,
    ensures
        e.runs(a + seq![pair] + b) == e.runs(a) + e.runs(b),
{
    lemma_runs_after_pair(e, a, pair, b);
    assert(e.runs(a + seq![pair] + b) =~= e.runs(a) + e.runs(b));
}

proof fn lemma_silent_column(e: Evidence, a: Seq<AlignOp>, op: AlignOp, b: Seq<AlignOp>)
    requires
        op matches AlignOp::InsertA(x) ==> e.tokens[x as int].word.len() == 0,
        !(op is Match),
        !(op is Sub),
    ensures
        e.open_run(a + seq![op] + b) == e.open_run(a + b),
        e.ended_runs(a + seq![op] + b) == e.ended_runs(a + b),
    decreases b.len(),
{
    let s = a + seq![op] + b;
    let t = a + b;
    if b.len() == 0 {
        assert(s =~= a.push(op));
        assert(s.drop_last() =~= a);
        assert(t =~= a);
    } else {
        let short = b.drop_last();
        lemma_silent_column(e, a, op, short);
        assert(s.drop_last() =~= a + seq![op] + short);
        assert(t.drop_last() =~= a + short);
        assert(s.last() == b.last());
        assert(t.last() == b.last());
    }
}

/// Caption words without a partner, and transcript words without letters and digits, neither end a
/// run nor belong to one.
pub proof fn law_other_words_do_not_part_runs(
    e: Evidence,
    a: Seq<AlignOp>,
    x: usize,
    y: usize,
    b: Seq<AlignOp>,
)
    ensures
        e.runs(a + seq![AlignOp::InsertB(y)] + b) == e.runs(a + b),
        e.tokens[x as int].word.len() == 0 ==> e.runs(a + seq![AlignOp::InsertA(x)] + b) == e.runs(
            a + b,
        ),
{
    lemma_silent_column(e, a, AlignOp::InsertB(y), b);
    if e.tokens[x as int].word.len() == 0 {
        lemma_silent_column(e, a, AlignOp::InsertA(x), b);
    }
}

/// Words without a partner that follow each other make one run, which is reported if there are three
/// of them or more, and not if there are fewer.
pub proof fn law_three_lone_words_are_reported(e: Evidence, run: Seq<usize>)
    requires
        forall|k: int| 0 <= k < run.len() ==> e.tokens[#[trigger] run[k] as int].word.len() > 0,
    ensures
        e.runs(run.map_values(|x: usize| AlignOp::InsertA(x))) == (if run.len() >= 3 {
            seq![run]
        } else {
            Seq::empty()
        }),
{
    lemma_lone_words(e, run);
    assert(e.runs(run.map_values(|x: usize| AlignOp::InsertA(x))) =~= (if run.len() >= 3 {
        seq![run]
    } else {
        Seq::empty()
    }));
}

proof fn lemma_lone_words(e: Evidence, run: Seq<usize>)
    requires
        forall|k: int| 0 <= k < run.len() ==> e.tokens[#[trigger] run[k] as int].word.len() > 0,
    ensures
        e.open_run(run.map_values(|x: usize| AlignOp::InsertA(x))) == run,
        e.ended_runs(run.map_values(|x: usize| AlignOp::InsertA(x))) == Seq::<Seq<usize>>::empty(),
    decreases run.len(),
{
    let lone = |x: usize| AlignOp::InsertA(x);
    let ops = run.map_values(lone);
    if run.len() > 0 {
        let short = run.drop_last();
        assert forall|k: int| 0 <= k < short.len() implies e.tokens[#[trigger] short[k] as int].word.len()
            > 0 by {
            assert(short[k] == run[k]);
        }
        lemma_lone_words(e, short);
        assert(ops.drop_last() =~= short.map_values(lone));
        assert(ops.last() == AlignOp::InsertA(run.last()));
        assert(e.tokens[run[run.len() - 1] as int].word.len() > 0);
        assert(short.push(run.last()) =~= run);
    } else {
        assert(e.open_run(ops) =~= run);
    }
}

/// What is reported of a run are the times of its subtitle and the words as they are written, with
/// spaces between them.
pub proof fn law_report_names_times_and_words(b: Block, c: Context, r: int)
    requires
        ({
            let e = evidence(b, c.captions, c.vocab, c.stopwords);
            e.tokens.len() > 0 && e.captions.len() > 0 && 0 <= r < e.runs(alignment(e)).len()
        }),
    ensures
        ({
            let e = evidence(b, c.captions, c.vocab, c.stopwords);
            let run = e.runs(alignment(e))[r];
            &&& c.merge(b).flagged.len() == e.runs(alignment(e)).len()
            &&& c.merge(b).flagged[r] == seq!['['] + stamp_text(b.start_ms) + seq![
                ' ', '-', '-', '>', ' ',
            ] + stamp_text(b.end_ms) + seq![']', ' '] + joined(
                run.map_values(|x: usize| block_tokens(b.text_lines)[x as int].raw),
                seq![' '],
            )
        }),
{
    reveal_strlit("[");
    reveal_strlit(" --> ");
    reveal_strlit("] ");
    reveal_strlit(" ");
    assert("["@ =~= seq!['[']);
    assert(" --> "@ =~= seq![' ', '-', '-', '>', ' ']);
    assert("] "@ =~= seq![']', ' ']);
    assert(" "@ =~= seq![' ']);
    let e = evidence(b, c.captions, c.vocab, c.stopwords);
    let run = e.runs(alignment(e))[r];
    assert(run.map_values(|x: usize| e.tokens[x as int].raw) =~= run.map_values(
        |x: usize| block_tokens(b.text_lines)[x as int].raw,
    ));
}

/// There is a report exactly if a run is reported, and it holds what is said of every run.
pub proof fn law_report_holds_every_run(flagged: Seq<Seq<char>>, r: int) -> (around: (
    Seq<char>,
    Seq<char>,
))
    ensures
        flagged_text(flagged) is Some <==> flagged.len() > 0,
        0 <= r < flagged.len() ==> flagged_text(flagged) == Some(
            around.0 + flagged[r] + around.1,
        ),
{
    let none = Seq::<char>::empty();
    if 0 <= r < flagged.len() {
        let (before, after) = lemma_within_joined(flagged, "\n\n"@, r);
        let head = "Potential hallucinations or low-confidence merges.\nEach section shows a run of Whisper words with no aligned YouTube caption.\n---\n\n"@;
        assert(flagged_text(flagged)->0 =~= (head + before) + flagged[r] + (after + "\n"@));
        (head + before, after + "\n"@)
    } else {
        (none, none)
    }
}

proof fn lemma_within_joined(parts: Seq<Seq<char>>, sep: Seq<char>, r: int) -> (around: (
    Seq<char>,
    Seq<char>,
))
    requires
        0 <= r < parts.len(),
    ensures
        joined(parts, sep) == around.0 + parts[r] + around.1,
    decreases parts.len(),
{
    let none = Seq::<char>::empty();
    let all = joined(parts, sep);
    if parts.len() == 1 {
        assert(all =~= none + parts[r] + none);
        (none, none)
    } else if r == parts.len() - 1 {
        let before = joined(parts.drop_last(), sep) + sep;
        assert(all =~= before + parts[r] + none);
        (before, none)
    } else {
        assert(parts.drop_last()[r] == parts[r]);
        let (before, after) = lemma_within_joined(parts.drop_last(), sep, r);
        let more = after + sep + parts.last();
        assert(all =~= before + parts[r] + more);
        (before, more)
    }
}

// ---------------------------------------------------------------------------
// The whole
// ---------------------------------------------------------------------------

/// The hybrid of subtitles is the hybrid of the first ones followed by that of the others, in both
/// files and in what is counted: no subtitle changes what becomes of another.
pub proof fn law_subtitles_are_merged_one_by_one(a: Seq<Block>, b: Seq<Block>, c: Context)
    ensures
        hybrid(a + b, c).srt == hybrid(a, c).srt + hybrid(b, c).srt,
        hybrid(a + b, c).txt == hybrid(a, c).txt + hybrid(b, c).txt,
        hybrid(a + b, c).replacements == hybrid(a, c).replacements + hybrid(b, c).replacements,
        hybrid(a + b, c).flagged_segments == hybrid(a, c).flagged_segments + hybrid(
            b,
            c,
        ).flagged_segments,
{
    let x = c.corrected_blocks(a);
    let y = c.corrected_blocks(b);
    assert(c.corrected_blocks(a + b) =~= x + y);
    let any = Block {
        index: Seq::empty(),
        timing: Seq::empty(),
        start_ms: 0,
        end_ms: 0,
        text_lines: Seq::empty(),
    };
    law_subtitles_are_written_in_order(x, any, y);
    law_plain_texts_are_written_in_order(x, y);
    lemma_counts_add(a, b, c);
}

proof fn lemma_counts_add(a: Seq<Block>, b: Seq<Block>, c: Context)
    ensures
        c.replacements(a + b) == c.replacements(a) + c.replacements(b),
        c.flagged(a + b) == c.flagged(a) + c.flagged(b),
    decreases b.len(),
{
    if b.len() == 0 {
        assert(a + b =~= a);
        assert(c.flagged(a) + c.flagged(b) =~= c.flagged(a));
    } else {
        lemma_counts_add(a, b.drop_last(), c);
        assert((a + b).drop_last() =~= a + b.drop_last());
        assert(c.flagged(a + b) =~= c.flagged(a) + c.flagged(b));
    }
}

/// One subtitle is written to both files with its own number and timing and with the lines that the
/// merge gave it; what the merge counts and reports is what is counted and reported.
pub proof fn law_one_subtitle_is_written_as_merged(b: Block, c: Context)
    ensures
        ({
            let m = c.merge(b);
            let done = seq![Block { text_lines: m.lines, ..b }];
            let h = hybrid(seq![b], c);
            &&& h.srt == srt_text(done)
            &&& h.txt == plain_text(done)
            &&& h.replacements == m.replacements
            &&& h.flagged_segments == m.flagged.len()
            &&& h.flagged == flagged_text(m.flagged)
        }),
{
    let m = c.merge(b);
    let done = seq![Block { text_lines: m.lines, ..b }];
    assert(c.corrected_blocks(seq![b]) =~= done);
    reveal_with_fuel(Context::replacements, 2);
    reveal_with_fuel(Context::flagged, 2);
    assert(seq![b].drop_last() =~= Seq::<Block>::empty());
    assert(c.flagged(seq![b]) =~= m.flagged);
}

/// A transcript is corrected by all captions of the caption file, whatever their number, by the
/// names of the metadata if there is any, and never by common words.
pub proof fn law_context_is_read_from_both_files(
    youtube: Seq<char>,
    json: Seq<char>,
    w: Seq<char>,
)
    ensures
        context(youtube, None).vocab == Set::<Seq<char>>::empty(),
        context(youtube, Some(json)).vocab.contains(w) <==> proper_nouns(json).contains(w),
        context(youtube, None).captions == without_repeats(all_caption_words(srt_blocks(youtube))),
        context(youtube, Some(json)).captions == context(youtube, None).captions,
        context(youtube, Some(json)).stopwords == stopword_set(),
        context(youtube, None).stopwords == stopword_set(),
{
}

/// Every subtitle that has words, and captions within four seconds of it, is merged with them: its
/// words are aligned with those of the captions by their normal forms, and its lines are made of the
/// words as they are judged.
pub proof fn law_every_subtitle_with_captions_is_merged(b: Block, c: Context)
    requires
        block_tokens(b.text_lines).len() > 0,
        c.captions.filter(
            |k: Caption| k.end_ms + 4000 >= b.start_ms && k.start_ms <= b.end_ms + 4000,
        ).len() > 0,
    ensures
        ({
            let tokens = block_tokens(b.text_lines);
            let heard = c.captions.filter(
                |k: Caption| k.end_ms + 4000 >= b.start_ms && k.start_ms <= b.end_ms + 4000,
            );
            let e = Evidence { tokens, captions: heard, vocab: c.vocab, stopwords: c.stopwords };
            let ops = chosen(
                tokens.map_values(|t: Token| t.word),
                heard.map_values(|k: Caption| k.word),
                tokens.len(),
                heard.len(),
            );
            &&& alignment(e) == ops
            &&& c.merge(b).lines == rebuilt(tokens, e.raws_after(ops), b.text_lines.len() as int)
            &&& c.merge(b).replacements == e.corrections(ops)
            &&& c.merge(b).flagged.len() == e.runs(ops).len()
        }),
{
    let near = |k: Caption| k.end_ms + 4000 >= b.start_ms && k.start_ms <= b.end_ms + 4000;
    let shown_then = |k: Caption| in_window(k, b.start_ms, b.end_ms);
    lemma_same_captions(c.captions, near, shown_then);
}

proof fn lemma_same_captions(
    s: Seq<Caption>,
    a: spec_fn(Caption) -> bool,
    b: spec_fn(Caption) -> bool,
)
    requires
        forall|k: Caption| #[trigger] a(k) == b(k),
    ensures
        s.filter(a) == s.filter(b),
    decreases s.len(),
{
    reveal(Seq::filter);
    if s.len() > 0 {
        lemma_same_captions(s.drop_last(), a, b);
        assert(a(s.last()) == b(s.last()));
    }
}

/// The report begins with its heading, and each further run stands after an empty line.
pub proof fn law_report_has_a_heading(flagged: Seq<Seq<char>>, more: Seq<char>)
    ensures
        flagged_text(seq![more]) == Some(
            "Potential hallucinations or low-confidence merges.\nEach section shows a run of Whisper words with no aligned YouTube caption.\n---\n\n"@
                + more + seq!['\n'],
        ),
        flagged.len() > 0 ==> flagged_text(flagged.push(more)) == Some(
            flagged_text(flagged)->0 + seq!['\n'] + more + seq!['\n'],
        ),
{
    reveal_strlit("\n");
    reveal_strlit("\n\n");
    assert("\n"@ =~= seq!['\n']);
    assert("\n\n"@ =~= seq!['\n', '\n']);
    assert(flagged.push(more).drop_last() =~= flagged);
    if flagged.len() > 0 {
        assert(flagged_text(flagged.push(more))->0 =~= flagged_text(flagged)->0 + seq!['\n'] + more
            + seq!['\n']);
    }
}

} // verus!
