//! How many words and corrections a subtitle file can have at most.
use vstd::prelude::*;

#[allow(unused_imports)]
use crate::align::{is_alignment, AlignOp};
#[allow(unused_imports)]
use crate::hybrid::{block_tokens, Evidence};
#[allow(unused_imports)]
use crate::srt::{block_of, paragraphs, srt_blocks, without_returns, Block};
#[allow(unused_imports)]
use crate::tokens::{lemma_run, line_tokens, run, Token};
#[allow(unused_imports)]
use crate::trim::{lemma_split_some, pieces, split, Separator};

verus! {

/// The number of characters of some lines.
pub open spec fn total_len(lines: Seq<Seq<char>>) -> nat
    decreases lines.len(),
{
    if lines.len() == 0 {
        0
    } else {
        total_len(lines.drop_last()) + lines.last().len()
    }
}

/// The number of characters of some groups of lines.
pub open spec fn groups_len(groups: Seq<Seq<Seq<char>>>) -> nat
    decreases groups.len(),
{
    if groups.len() == 0 {
        0
    } else {
        groups_len(groups.drop_last()) + total_len(groups.last())
    }
}

/// The number of characters of text of some subtitles.
pub open spec fn blocks_len(blocks: Seq<Block>) -> nat
    decreases blocks.len(),
{
    if blocks.len() == 0 {
        0
    } else {
        blocks_len(blocks.drop_last()) + total_len(blocks.last().text_lines)
    }
}

/// The positions in an alignment lie within what it aligns.
pub proof fn lemma_alignment_range<T>(ops: Seq<AlignOp>, a: Seq<T>, b: Seq<T>, i: int, j: int)
    requires
        is_alignment(ops, a, b, i, j),
    ensures
        forall|k: int|
            0 <= k < ops.len() ==> match #[trigger] ops[k] {
                AlignOp::Match(x, y) | AlignOp::Sub(x, y) => x < i && y < j,
                AlignOp::InsertA(x) => x < i,
                AlignOp::InsertB(y) => y < j,
            },
    decreases ops.len(),
{
    if ops.len() > 0 {
        let short = ops.drop_last();
        match ops.last() {
            AlignOp::Match(_, _) | AlignOp::Sub(_, _) => {
                lemma_alignment_range(short, a, b, i - 1, j - 1);
            },
            AlignOp::InsertA(_) => {
                lemma_alignment_range(short, a, b, i - 1, j);
            },
            AlignOp::InsertB(_) => {
                lemma_alignment_range(short, a, b, i, j - 1);
            },
        }
        assert forall|k: int| 0 <= k < ops.len() implies match #[trigger] ops[k] {
            AlignOp::Match(x, y) | AlignOp::Sub(x, y) => x < i && y < j,
            AlignOp::InsertA(x) => x < i,
            AlignOp::InsertB(y) => y < j,
        } by {
            if k < short.len() {
                assert(ops[k] == short[k]);
            }
        }
    }
}

/// No more words are replaced than the first stream has.
pub proof fn lemma_replaced_bound<T>(
    e: Evidence,
    ops: Seq<AlignOp>,
    a: Seq<T>,
    b: Seq<T>,
    i: int,
    j: int,
)
    requires
        is_alignment(ops, a, b, i, j),
    ensures
        e.corrections(ops) <= i,
    decreases ops.len(),
{
    if ops.len() > 0 {
        let short = ops.drop_last();
        match ops.last() {
            AlignOp::Match(_, _) | AlignOp::Sub(_, _) => {
                lemma_replaced_bound(e, short, a, b, i - 1, j - 1);
            },
            AlignOp::InsertA(_) => {
                lemma_replaced_bound(e, short, a, b, i - 1, j);
            },
            AlignOp::InsertB(_) => {
                lemma_replaced_bound(e, short, a, b, i, j - 1);
            },
        }
    }
}

proof fn lemma_line_tokens_bound(line: Seq<char>, line_idx: int)
    ensures
        line_tokens(line, line_idx).len() <= line.len(),
    decreases line.len(),
{
    if line.len() > 0 {
        let w = run(line, true) as int;
        let rest = line.skip(w);
        lemma_run(line, true);
        lemma_run(rest, false);
        if w < line.len() {
            assert(rest[0] == line[w]);
            lemma_line_tokens_bound(rest.skip(run(rest, false) as int), line_idx);
        }
    }
}

/// Lines have no more words than characters.
pub proof fn lemma_tokens_bound(lines: Seq<Seq<char>>)
    ensures
        block_tokens(lines).len() <= total_len(lines),
    decreases lines.len(),
{
    if lines.len() > 0 {
        lemma_tokens_bound(lines.drop_last());
        lemma_line_tokens_bound(lines.last(), lines.len() - 1);
    }
}

proof fn lemma_total_len_push(lines: Seq<Seq<char>>, line: Seq<char>)
    ensures
        total_len(lines.push(line)) == total_len(lines) + line.len(),
{
    assert(lines.push(line).drop_last() =~= lines);
}

proof fn lemma_groups_len_push(groups: Seq<Seq<Seq<char>>>, group: Seq<Seq<char>>)
    ensures
        groups_len(groups.push(group)) == groups_len(groups) + total_len(group),
{
    assert(groups.push(group).drop_last() =~= groups);
}

proof fn lemma_pieces_len(s: Seq<char>, at: spec_fn(char) -> bool)
    ensures
        total_len(split(s, at)) <= s.len(),
    decreases s.len(),
{
    if s.len() == 0 {
        lemma_total_len_push(Seq::empty(), Seq::empty());
        assert(split(s, at) =~= Seq::empty().push(Seq::<char>::empty()));
    } else {
        let before = split(s.drop_last(), at);
        lemma_pieces_len(s.drop_last(), at);
        lemma_split_some(s.drop_last(), at);
        if at(s.last()) {
            lemma_total_len_push(before, Seq::empty());
        } else {
            lemma_total_len_push(before.drop_last(), before.last().push(s.last()));
        }
    }
}

proof fn lemma_groups_len(lines: Seq<Seq<char>>, at: spec_fn(Seq<char>) -> bool)
    ensures
        groups_len(split(lines, at)) <= total_len(lines),
    decreases lines.len(),
{
    if lines.len() == 0 {
        lemma_groups_len_push(Seq::empty(), Seq::empty());
        assert(split(lines, at) =~= Seq::empty().push(Seq::<Seq<char>>::empty()));
    } else {
        let before = split(lines.drop_last(), at);
        lemma_groups_len(lines.drop_last(), at);
        lemma_split_some(lines.drop_last(), at);
        if at(lines.last()) {
            lemma_groups_len_push(before, Seq::empty());
        } else {
            lemma_groups_len_push(before.drop_last(), before.last().push(lines.last()));
            lemma_total_len_push(before.last(), lines.last());
        }
    }
}

proof fn lemma_filter_groups_len(
    groups: Seq<Seq<Seq<char>>>,
    keep: spec_fn(Seq<Seq<char>>) -> bool,
)
    ensures
        groups_len(groups.filter(keep)) <= groups_len(groups),
    decreases groups.len(),
{
    reveal(Seq::filter);
    if groups.len() > 0 {
        lemma_filter_groups_len(groups.drop_last(), keep);
        lemma_groups_len_push(groups.drop_last().filter(keep), groups.last());
    }
}

proof fn lemma_total_len_skip(lines: Seq<Seq<char>>, k: int)
    requires
        0 <= k <= lines.len(),
    ensures
        total_len(lines.skip(k)) <= total_len(lines),
    decreases lines.len(),
{
    if k < lines.len() {
        lemma_total_len_skip(lines.drop_last(), k);
        assert(lines.skip(k).drop_last() =~= lines.drop_last().skip(k));
    }
}

proof fn lemma_read_len(groups: Seq<Seq<Seq<char>>>)
    ensures
        blocks_len(groups.filter_map(|p: Seq<Seq<char>>| block_of(p))) <= groups_len(groups),
    decreases groups.len(),
{
    let read = |p: Seq<Seq<char>>| block_of(p);
    if groups.len() > 0 {
        let short = groups.drop_last();
        lemma_read_len(short);
        match block_of(groups.last()) {
            Some(b) => {
                lemma_total_len_skip(groups.last(), 2);
                let all = short.filter_map(read) + seq![b];
                assert(all.drop_last() =~= short.filter_map(read));
                assert(all.last() == b);
            },
            None => {},
        }
    }
}

/// The subtitles of a file have no more characters of text than the file has characters.
pub proof fn lemma_srt_blocks_len(content: Seq<char>)
    ensures
        blocks_len(srt_blocks(content)) <= content.len(),
{
    let text = without_returns(content);
    content.lemma_filter_len(|c: char| c != '\r');
    let feed = |c: char| Separator::One('\n').separates(c);
    let blank = |line: Seq<char>| line.len() == 0;
    let full = |p: Seq<Seq<char>>| p.len() > 0;
    lemma_pieces_len(text, feed);
    lemma_groups_len(split(text, feed), blank);
    lemma_filter_groups_len(split(split(text, feed), blank), full);
    lemma_read_len(paragraphs(content));
}

/// Fewer subtitles have no more characters of text.
pub proof fn lemma_blocks_len_take(blocks: Seq<Block>, k: int)
    requires
        0 <= k <= blocks.len(),
    ensures
        blocks_len(blocks.take(k)) <= blocks_len(blocks),
    decreases blocks.len(),
{
    if k < blocks.len() {
        lemma_blocks_len_take(blocks.drop_last(), k);
        assert(blocks.drop_last().take(k) =~= blocks.take(k));
    } else {
        assert(blocks.take(k) =~= blocks);
    }
}

} // verus!
