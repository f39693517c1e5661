//! What is written as subtitles and time stamps is read back unchanged.
use vstd::prelude::*;

#[allow(unused_imports)]
use crate::find::{first_at, lemma_first_at, occurs_at};
#[allow(unused_imports)]
use crate::number::{
    all_digits, decimal, digit_char, digit_value, digits_value, number, padded,
};
#[allow(unused_imports)]
use crate::srt::{
    block_lines, block_of, lines_text, paragraph_fits, paragraphs, srt_blocks, srt_fits, srt_lines,
    srt_text, stamp, stamp_parts, stamp_text, timing, timing_fits, timing_parts, without_returns, Block,
};
#[allow(unused_imports)]
use crate::text::{ascii_digit, white_space};
#[allow(unused_imports)]
use crate::trim::{lemma_split_some, pieces, split, trimmed, trimmed_end, trimmed_start, Separator};

verus! {

// ---------------------------------------------------------------------------
// Splitting
// ---------------------------------------------------------------------------

/// Elements at which nothing is split belong to the last piece.
pub proof fn lemma_split_append<T>(x: Seq<T>, y: Seq<T>, at: spec_fn(T) -> bool)
    requires
        forall|i: int| 0 <= i < y.len() ==> !at(#[trigger] y[i]),
    ensures
        split(x + y, at) == split(x, at).drop_last().push(split(x, at).last() + y),
    decreases y.len(),
{
    lemma_split_some(x, at);
    if y.len() == 0 {
        assert(x + y =~= x);
        assert(split(x, at).last() + y =~= split(x, at).last());
        assert(split(x, at) =~= split(x, at).drop_last().push(split(x, at).last()));
    } else {
        let short = y.drop_last();
        assert forall|i: int| 0 <= i < short.len() implies !at(#[trigger] short[i]) by {
            assert(short[i] == y[i]);
        }
        lemma_split_append(x, short, at);
        assert((x + y).drop_last() =~= x + short);
        assert(!at(y[y.len() - 1]));
        let before = split(x + short, at);
        assert(before.drop_last() =~= split(x, at).drop_last());
        assert((split(x, at).last() + short).push(y.last()) =~= split(x, at).last() + y);
    }
}

/// A separator ends the last piece and begins an empty one.
pub proof fn lemma_split_separator<T>(x: Seq<T>, e: T, at: spec_fn(T) -> bool)
    requires
        at(e),
    ensures
        split(x.push(e), at) == split(x, at).push(Seq::empty()),
{
    assert(x.push(e).drop_last() =~= x);
}

/// A sequence without separators is one piece.
pub proof fn lemma_split_free<T>(s: Seq<T>, at: spec_fn(T) -> bool)
    requires
        forall|i: int| 0 <= i < s.len() ==> !at(#[trigger] s[i]),
    ensures
        split(s, at) == seq![s],
{
    let none = Seq::<T>::empty();
    lemma_split_append(none, s, at);
    assert(none + s =~= s);
    assert(split(none, at) =~= seq![none]);
    assert(split(none, at).drop_last().push(none + s) =~= seq![s]);
}

/// Every element of a piece comes from the sequence, and is none at which it is split.
pub proof fn lemma_split_elements<T>(s: Seq<T>, at: spec_fn(T) -> bool)
    ensures
        forall|p: int, i: int|
            0 <= p < split(s, at).len() && 0 <= i < split(s, at)[p].len() ==> !at(
                #[trigger] split(s, at)[p][i],
            ) && s.contains(split(s, at)[p][i]),
    decreases s.len(),
{
    if s.len() > 0 {
        let short = s.drop_last();
        lemma_split_elements(short, at);
        lemma_split_some(short, at);
        let before = split(short, at);
        let all = split(s, at);
        assert forall|p: int, i: int| 0 <= p < all.len() && 0 <= i < all[p].len() implies !at(
            #[trigger] all[p][i],
        ) && s.contains(all[p][i]) by {
            if p < before.len() && i < before[p].len() {
                assert(all[p][i] == before[p][i]);
                let k = choose|k: int| 0 <= k < short.len() && short[k] == before[p][i];
                assert(s[k] == all[p][i]);
            } else {
                assert(all[p][i] == s[s.len() - 1]);
            }
        }
    }
}

// ---------------------------------------------------------------------------
// Subtitles
// ---------------------------------------------------------------------------

/// A line that can be written and read back: it is not empty and holds no line ending.
pub open spec fn plain_line(s: Seq<char>) -> bool {
    &&& s.len() > 0
    &&& forall|i: int| 0 <= i < s.len() ==> #[trigger] s[i] != '\n' && s[i] != '\r'
}

/// A subtitle whose lines can be written and read back, and whose timing line says what its start
/// and end are.
pub open spec fn sound(b: Block) -> bool {
    &&& plain_line(b.index)
    &&& plain_line(b.timing)
    &&& timing(b.timing) == Some((b.start_ms, b.end_ms))
    &&& forall|i: int| 0 <= i < b.text_lines.len() ==> plain_line(#[trigger] b.text_lines[i])
}

pub open spec fn no_feed(s: Seq<char>) -> bool {
    forall|i: int| 0 <= i < s.len() ==> #[trigger] s[i] != '\n' && s[i] != '\r'
}

pub proof fn lemma_pieces_of_lines(lines: Seq<Seq<char>>)
    requires
        forall|i: int| 0 <= i < lines.len() ==> no_feed(#[trigger] lines[i]),
    ensures
        pieces(lines_text(lines), Separator::One('\n')) == lines.push(Seq::empty()),
    decreases lines.len(),
{
    let at = |c: char| Separator::One('\n').separates(c);
    if lines.len() == 0 {
        assert(split(Seq::<char>::empty(), at) =~= lines.push(Seq::empty()));
    } else {
        let short = lines.drop_last();
        let line = lines.last();
        assert(no_feed(lines[lines.len() - 1]));
        assert forall|i: int| 0 <= i < short.len() implies no_feed(#[trigger] short[i]) by {
            assert(short[i] == lines[i]);
        }
        lemma_pieces_of_lines(short);
        let x = lines_text(short);
        lemma_split_append(x, line, at);
        lemma_split_separator(x + line, '\n', at);
        assert((x + line).push('\n') =~= x + line.push('\n'));
        assert(split(x, at) == short.push(Seq::empty()));
        assert(short.push(Seq::empty()).drop_last() =~= short);
        assert(Seq::<char>::empty() + line =~= line);
        assert(short.push(line) =~= lines);
    }
}

pub proof fn lemma_no_returns(s: Seq<char>)
    requires
        forall|i: int| 0 <= i < s.len() ==> #[trigger] s[i] != '\r',
    ensures
        without_returns(s) == s,
    decreases s.len(),
{
    reveal(Seq::filter);
    if s.len() > 0 {
        let short = s.drop_last();
        assert forall|i: int| 0 <= i < short.len() implies #[trigger] short[i] != '\r' by {
            assert(short[i] == s[i]);
        }
        lemma_no_returns(short);
        assert(s[s.len() - 1] != '\r');
        assert(short.push(s.last()) =~= s);
    } else {
        assert(without_returns(s) =~= s);
    }
}

pub proof fn lemma_lines_text_returns(lines: Seq<Seq<char>>)
    requires
        forall|i: int| 0 <= i < lines.len() ==> no_feed(#[trigger] lines[i]),
    ensures
        forall|i: int| 0 <= i < lines_text(lines).len() ==> #[trigger] lines_text(lines)[i] != '\r',
    decreases lines.len(),
{
    if lines.len() > 0 {
        let short = lines.drop_last();
        assert forall|i: int| 0 <= i < short.len() implies no_feed(#[trigger] short[i]) by {
            assert(short[i] == lines[i]);
        }
        lemma_lines_text_returns(short);
        assert(no_feed(lines[lines.len() - 1]));
        let x = lines_text(short);
        let t = lines_text(lines);
        assert forall|i: int| 0 <= i < t.len() implies #[trigger] t[i] != '\r' by {
            if i < x.len() {
                assert(t[i] == x[i]);
            } else if i < t.len() - 1 {
                assert(t[i] == lines.last()[i - x.len()]);
            }
        }
    }
}

/// The paragraph that a subtitle is written as.
spec fn paragraph_of(b: Block) -> Seq<Seq<char>> {
    seq![b.index, b.timing] + b.text_lines
}

/// No line of the paragraph that the subtitle is written as has a line ending.
spec fn feedless(b: Block) -> bool {
    forall|i: int| 0 <= i < paragraph_of(b).len() ==> no_feed(#[trigger] paragraph_of(b)[i])
}

proof fn lemma_feedless(b: Block)
    requires
        no_feed(b.index),
        no_feed(b.timing),
        forall|i: int| 0 <= i < b.text_lines.len() ==> no_feed(#[trigger] b.text_lines[i]),
    ensures
        feedless(b),
{
    let p = paragraph_of(b);
    assert forall|k: int| 0 <= k < p.len() implies no_feed(#[trigger] p[k]) by {
        if k >= 2 {
            assert(p[k] == b.text_lines[k - 2]);
        }
    }
}

#[verifier::spinoff_prover]
proof fn lemma_sound_is_feedless(b: Block)
    requires
        sound(b),
    ensures
        no_feed(b.index),
        no_feed(b.timing),
        forall|i: int| 0 <= i < b.text_lines.len() ==> no_feed(#[trigger] b.text_lines[i]),
{
    assert forall|i: int| 0 <= i < b.text_lines.len() implies no_feed(#[trigger] b.text_lines[i]) by {
        assert(plain_line(b.text_lines[i]));
    }
}

proof fn lemma_lines_have_no_feed(blocks: Seq<Block>)
    requires
        forall|i: int| 0 <= i < blocks.len() ==> feedless(#[trigger] blocks[i]),
    ensures
        forall|i: int| 0 <= i < srt_lines(blocks).len() ==> no_feed(#[trigger] srt_lines(blocks)[i]),
    decreases blocks.len(),
{
    if blocks.len() > 0 {
        let short = blocks.drop_last();
        assert forall|i: int| 0 <= i < short.len() implies feedless(#[trigger] short[i]) by {
            assert(short[i] == blocks[i]);
        }
        lemma_lines_have_no_feed(short);
        let b = blocks.last();
        assert(feedless(blocks[blocks.len() - 1]));
        let x = srt_lines(short);
        let all = srt_lines(blocks);
        assert forall|i: int| 0 <= i < all.len() implies no_feed(#[trigger] all[i]) by {
            if i < x.len() {
                assert(all[i] == x[i]);
            } else {
                let k = i - x.len();
                assert(all[i] == block_lines(b)[k]);
                if k < paragraph_of(b).len() {
                    assert(block_lines(b)[k] == paragraph_of(b)[k]);
                }
            }
        }
    }
}

/// No line of the paragraph that the subtitle is written as is empty.
spec fn no_blank(b: Block) -> bool {
    forall|i: int| 0 <= i < paragraph_of(b).len() ==> (#[trigger] paragraph_of(b)[i]).len() > 0
}

proof fn lemma_no_blank(b: Block)
    requires
        b.index.len() > 0,
        b.timing.len() > 0,
        forall|i: int| 0 <= i < b.text_lines.len() ==> (#[trigger] b.text_lines[i]).len() > 0,
    ensures
        no_blank(b),
{
    let p = paragraph_of(b);
    assert forall|k: int| 0 <= k < p.len() implies (#[trigger] p[k]).len() > 0 by {
        if k >= 2 {
            assert(p[k] == b.text_lines[k - 2]);
        }
    }
}

#[verifier::spinoff_prover]
proof fn lemma_sound_lines(b: Block)
    requires
        sound(b),
    ensures
        b.index.len() > 0,
        b.timing.len() > 0,
        forall|i: int| 0 <= i < b.text_lines.len() ==> (#[trigger] b.text_lines[i]).len() > 0,
{
    assert forall|i: int| 0 <= i < b.text_lines.len() implies (#[trigger] b.text_lines[i]).len()
        > 0 by {
        assert(plain_line(b.text_lines[i]));
    }
}

proof fn lemma_sound_has_no_blank(blocks: Seq<Block>)
    requires
        forall|i: int| 0 <= i < blocks.len() ==> sound(#[trigger] blocks[i]),
    ensures
        forall|i: int| 0 <= i < blocks.len() ==> no_blank(#[trigger] blocks[i]),
{
    assert forall|i: int| 0 <= i < blocks.len() implies no_blank(#[trigger] blocks[i]) by {
        lemma_sound_lines(blocks[i]);
        lemma_no_blank(blocks[i]);
    }
}

proof fn lemma_paragraphs_of_lines(blocks: Seq<Block>)
    requires
        forall|i: int| 0 <= i < blocks.len() ==> no_blank(#[trigger] blocks[i]),
    ensures
        split(srt_lines(blocks), |line: Seq<char>| line.len() == 0) == blocks.map_values(
            |b: Block| paragraph_of(b),
        ).push(Seq::empty()),
    decreases blocks.len(),
{
    let blank = |line: Seq<char>| line.len() == 0;
    let par = |b: Block| paragraph_of(b);
    let done = blocks.map_values(par).push(Seq::empty());
    if blocks.len() == 0 {
        assert(split(srt_lines(blocks), blank) =~= done);
    } else {
        let short = blocks.drop_last();
        assert forall|i: int| 0 <= i < short.len() implies no_blank(#[trigger] short[i]) by {
            assert(short[i] == blocks[i]);
        }
        lemma_paragraphs_of_lines(short);
        let b = blocks.last();
        assert(no_blank(blocks[blocks.len() - 1]));
        let x = srt_lines(short);
        let p = paragraph_of(b);
        assert forall|i: int| 0 <= i < p.len() implies !blank(#[trigger] p[i]) by {}
        lemma_split_append(x, p, blank);
        lemma_split_separator(x + p, Seq::empty(), blank);
        assert((x + p).push(Seq::empty()) =~= srt_lines(blocks));
        assert(split(x, blank).last() + p =~= p);
        assert(split(x, blank).drop_last() =~= short.map_values(par));
        assert(split(srt_lines(blocks), blank) =~= done);
    }
}

proof fn lemma_split_one_more(lines: Seq<Seq<char>>)
    ensures
        split(lines.push(Seq::empty()), |line: Seq<char>| line.len() == 0) == split(
            lines,
            |line: Seq<char>| line.len() == 0,
        ).push(Seq::empty()),
{
    lemma_split_separator(lines, Seq::empty(), |line: Seq<char>| line.len() == 0);
}

proof fn lemma_full_paragraphs(blocks: Seq<Block>)
    ensures
        blocks.map_values(|b: Block| paragraph_of(b)).filter(
            |p: Seq<Seq<char>>| p.len() > 0,
        ) == blocks.map_values(|b: Block| paragraph_of(b)),
    decreases blocks.len(),
{
    reveal(Seq::filter);
    let par = |b: Block| paragraph_of(b);
    let full = |p: Seq<Seq<char>>| p.len() > 0;
    let all = blocks.map_values(par);
    if blocks.len() > 0 {
        lemma_full_paragraphs(blocks.drop_last());
        assert(all.drop_last() =~= blocks.drop_last().map_values(par));
        assert(all =~= all.drop_last().push(all.last()));
    } else {
        assert(all.filter(full) =~= all);
    }
}

/// The paragraph that the subtitle is written as is read as the subtitle.
#[verifier::opaque]
spec fn reads_as_itself(b: Block) -> bool {
    block_of(paragraph_of(b)) == Some(b)
}

proof fn lemma_reads_as_itself(b: Block)
    requires
        sound(b),
    ensures
        reads_as_itself(b),
{
    reveal(reads_as_itself);
    let p = paragraph_of(b);
    assert(p.skip(2) =~= b.text_lines);
    assert(p[0] == b.index);
    assert(p[1] == b.timing);
}

proof fn lemma_written_and_read<T, U>(
    s: Seq<T>,
    write: spec_fn(T) -> U,
    read: spec_fn(U) -> Option<T>,
)
    requires
        forall|i: int| 0 <= i < s.len() ==> read(write(#[trigger] s[i])) == Some(s[i]),
    ensures
        s.map_values(write).filter_map(read) == s,
    decreases s.len(),
{
    let all = s.map_values(write);
    if s.len() > 0 {
        let short = s.drop_last();
        assert forall|i: int| 0 <= i < short.len() implies read(write(#[trigger] short[i])) == Some(
            short[i],
        ) by {
            assert(short[i] == s[i]);
        }
        lemma_written_and_read(short, write, read);
        assert(all.drop_last() =~= short.map_values(write));
        assert(all.last() == write(s[s.len() - 1]));
        assert(short + seq![s.last()] =~= s);
    } else {
        assert(all.filter_map(read) =~= s);
    }
}

proof fn lemma_blocks_of_paragraphs(blocks: Seq<Block>)
    requires
        forall|i: int| 0 <= i < blocks.len() ==> reads_as_itself(#[trigger] blocks[i]),
    ensures
        blocks.map_values(|b: Block| paragraph_of(b)).filter_map(
            |p: Seq<Seq<char>>| block_of(p),
        ) == blocks,
{
    let par = |b: Block| paragraph_of(b);
    let read = |p: Seq<Seq<char>>| block_of(p);
    assert forall|i: int| 0 <= i < blocks.len() implies read(par(#[trigger] blocks[i])) == Some(
        blocks[i],
    ) by {
        assert(reads_as_itself(blocks[i]));
        reveal(reads_as_itself);
    }
    lemma_written_and_read(blocks, par, read);
}

/// Sound subtitles that are written to a file are read back as they were.
pub proof fn law_written_subtitles_are_read_back(blocks: Seq<Block>)
    requires
        forall|i: int| 0 <= i < blocks.len() ==> sound(#[trigger] blocks[i]),
    ensures
        srt_blocks(srt_text(blocks)) == blocks,
{
    let lines = srt_lines(blocks);
    let blank = |line: Seq<char>| line.len() == 0;
    let full = |p: Seq<Seq<char>>| p.len() > 0;
    let par = |b: Block| paragraph_of(b);
    let all = blocks.map_values(par);
    assert forall|i: int| 0 <= i < blocks.len() implies feedless(#[trigger] blocks[i]) by {
        lemma_sound_is_feedless(blocks[i]);
        lemma_feedless(blocks[i]);
    }
    lemma_lines_have_no_feed(blocks);
    lemma_lines_text_returns(lines);
    lemma_no_returns(lines_text(lines));
    lemma_pieces_of_lines(lines);
    lemma_sound_has_no_blank(blocks);
    lemma_paragraphs_of_lines(blocks);
    lemma_split_one_more(lines);
    lemma_full_paragraphs(blocks);
    all.lemma_filter_push(Seq::empty(), full);
    all.push(Seq::empty()).lemma_filter_push(Seq::empty(), full);
    assert(paragraphs(srt_text(blocks)) == all);
    assert forall|i: int| 0 <= i < blocks.len() implies reads_as_itself(#[trigger] blocks[i]) by {
        lemma_reads_as_itself(blocks[i]);
    }
    lemma_blocks_of_paragraphs(blocks);
}

/// Every subtitle that is read from a file is sound.
pub proof fn law_read_subtitles_are_sound(content: Seq<char>)
    ensures
        forall|i: int| 0 <= i < srt_blocks(content).len() ==> sound(#[trigger] srt_blocks(content)[i]),
{
    let text = without_returns(content);
    let feed = |c: char| Separator::One('\n').separates(c);
    let blank = |line: Seq<char>| line.len() == 0;
    let full = |p: Seq<Seq<char>>| p.len() > 0;
    let read = |p: Seq<Seq<char>>| block_of(p);
    let lines = split(text, feed);
    let groups = split(lines, blank);
    lemma_split_elements(text, feed);
    lemma_split_elements(lines, blank);
    assert forall|i: int| 0 <= i < srt_blocks(content).len() implies sound(
        #[trigger] srt_blocks(content)[i],
    ) by {
        let b = srt_blocks(content)[i];
        assert(srt_blocks(content).contains(b));
        paragraphs(content).lemma_filter_map_contains(read, b);
        let p = choose|p: Seq<Seq<char>>| #[trigger] paragraphs(content).contains(p) && read(p) == Some(b);
        groups.lemma_filter_contains_rev(full, p);
        let g = choose|g: int| 0 <= g < groups.len() && groups[g] == p;
        assert forall|k: int| 0 <= k < p.len() implies plain_line(#[trigger] p[k]) by {
            assert(!blank(groups[g][k]) && lines.contains(groups[g][k]));
            let n = choose|n: int| 0 <= n < lines.len() && lines[n] == p[k];
            assert forall|m: int| 0 <= m < p[k].len() implies #[trigger] p[k][m] != '\n' && p[k][m]
                != '\r' by {
                assert(!feed(lines[n][m]) && text.contains(lines[n][m]));
                let q = choose|q: int| 0 <= q < text.len() && text[q] == p[k][m];
                content.lemma_filter_pred(|c: char| c != '\r', q);
            }
        }
        assert(b.index == p[0]);
        assert(b.timing == p[1]);
        assert forall|k: int| 0 <= k < b.text_lines.len() implies plain_line(
            #[trigger] b.text_lines[k],
        ) by {
            assert(b.text_lines[k] == p[k + 2]);
        }
    }
}

/// A file that is read, written and read again gives the same subtitles both times.
pub proof fn law_reading_is_stable(content: Seq<char>)
    ensures
        srt_blocks(srt_text(srt_blocks(content))) == srt_blocks(content),
{
    law_read_subtitles_are_sound(content);
    law_written_subtitles_are_read_back(srt_blocks(content));
}

// ---------------------------------------------------------------------------
// Time stamps
// ---------------------------------------------------------------------------

pub proof fn lemma_decimal_reads_back(n: nat)
    ensures
        decimal(n).len() > 0,
        all_digits(decimal(n)),
        digits_value(decimal(n)) == n,
    decreases n,
{
    if n < 10 {
        let d = decimal(n);
        assert(d.drop_last() =~= Seq::empty());
        assert(digits_value(Seq::<char>::empty()) == 0);
        assert(d.last() == digit_char(n));
    } else {
        lemma_decimal_reads_back(n / 10);
        let d = decimal(n);
        assert(d.drop_last() =~= decimal(n / 10));
        assert(d.last() == digit_char(n % 10));
        assert forall|i: int| 0 <= i < d.len() implies ascii_digit(#[trigger] d[i]) by {
            if i < d.len() - 1 {
                assert(d[i] == decimal(n / 10)[i]);
            }
        }
    }
}

proof fn lemma_leading_zeros(k: nat, s: Seq<char>)
    requires
        all_digits(s),
    ensures
        all_digits(Seq::new(k, |i: int| '0') + s),
        digits_value(Seq::new(k, |i: int| '0') + s) == digits_value(s),
    decreases s.len(), k,
{
    let z = Seq::new(k, |i: int| '0');
    let t = z + s;
    assert forall|i: int| 0 <= i < t.len() implies ascii_digit(#[trigger] t[i]) by {
        if i >= k {
            assert(t[i] == s[i - k]);
        }
    }
    if s.len() > 0 {
        assert(all_digits(s.drop_last())) by {
            assert forall|i: int| 0 <= i < s.len() - 1 implies ascii_digit(
                #[trigger] s.drop_last()[i],
            ) by {
                assert(s.drop_last()[i] == s[i]);
            }
        }
        lemma_leading_zeros(k, s.drop_last());
        assert(t.drop_last() =~= z + s.drop_last());
    } else if k > 0 {
        lemma_leading_zeros((k - 1) as nat, s);
        assert(t.drop_last() =~= Seq::new((k - 1) as nat, |i: int| '0') + s);
        assert(t.last() == '0');
    } else {
        assert(t =~= s);
    }
}

/// A padded number is a row of digits, and is read back as the number.
pub proof fn lemma_padded_reads_back(n: nat, width: nat, max: nat)
    requires
        n <= max,
    ensures
        all_digits(padded(n, width)),
        padded(n, width).len() > 0,
        number(padded(n, width), max) == Some(n),
{
    lemma_decimal_reads_back(n);
    let d = decimal(n);
    let k = if d.len() < width {
        (width - d.len()) as nat
    } else {
        0
    };
    lemma_leading_zeros(k, d);
    let p = padded(n, width);
    assert(ascii_digit(p[0]));
}

proof fn lemma_not_trimmed(s: Seq<char>)
    requires
        s.len() > 0,
        !white_space(s[0]),
        !white_space(s.last()),
    ensures
        trimmed(s) == s,
{
}

pub proof fn lemma_digits_hold_no(s: Seq<char>, c: char)
    requires
        all_digits(s),
        !ascii_digit(c),
    ensures
        forall|i: int| 0 <= i < s.len() ==> #[trigger] s[i] != c,
{
}

/// Three rows of digits with colons between them are split into these rows.
pub proof fn lemma_three_fields(h: Seq<char>, m: Seq<char>, s: Seq<char>)
    requires
        all_digits(h),
        all_digits(m),
        all_digits(s),
    ensures
        pieces(h + seq![':'] + m + seq![':'] + s, Separator::One(':')) == seq![h, m, s],
{
    let colon = |c: char| Separator::One(':').separates(c);
    lemma_digits_hold_no(h, ':');
    lemma_digits_hold_no(m, ':');
    lemma_digits_hold_no(s, ':');
    lemma_split_free(h, colon);
    lemma_split_separator(h, ':', colon);
    assert(h.push(':') =~= h + seq![':']);
    lemma_split_append(h + seq![':'], m, colon);
    lemma_split_separator(h + seq![':'] + m, ':', colon);
    assert((h + seq![':'] + m).push(':') =~= h + seq![':'] + m + seq![':']);
    lemma_split_append(h + seq![':'] + m + seq![':'], s, colon);
    assert(Seq::<char>::empty() + m =~= m);
    assert(Seq::<char>::empty() + s =~= s);
    assert(split(h + seq![':'] + m + seq![':'] + s, colon) =~= seq![h, m, s]);
}

/// The position of a character that stands nowhere else.
pub proof fn lemma_only_at(t: Seq<char>, c: char, k: int)
    requires
        0 <= k < t.len(),
        forall|i: int| 0 <= i < t.len() && i != k ==> #[trigger] t[i] != c,
    ensures
        first_at(t, seq![c], 0) == if t[k] == c {
            Some(k)
        } else {
            None
        },
{
    lemma_first_at(t, seq![c], 0);
    assert(t.subrange(k, k + 1) =~= seq![t[k]]);
    if t[k] != c {
        assert(t.subrange(k, k + 1)[0] != seq![c][0]);
    }
    assert(occurs_at(t, seq![c], k) == (t[k] == c));
    assert forall|i: int| 0 <= i && i != k implies !occurs_at(t, seq![c], i) by {
        if occurs_at(t, seq![c], i) {
            assert(t.subrange(i, i + 1)[0] == c);
            assert(t[i] == c);
        }
    }
}

proof fn lemma_stamp_parts(hms: Seq<char>, f: Seq<char>)
    requires
        forall|i: int| 0 <= i < hms.len() ==> #[trigger] hms[i] == ':' || ascii_digit(hms[i]),
        all_digits(f),
    ensures
        stamp_parts(hms + seq!['.'] + f) == (hms, f),
{
    let t = hms + seq!['.'] + f;
    let k = hms.len() as int;
    assert forall|i: int| 0 <= i < t.len() && i != k implies #[trigger] t[i] != ',' && t[i] != '.' by {
        if i < k {
            assert(t[i] == hms[i]);
        } else {
            assert(t[i] == f[i - k - 1]);
        }
    }
    lemma_only_at(t, ',', k);
    lemma_only_at(t, '.', k);
    assert(t.take(k) =~= hms);
    assert(t.skip(k + 1) =~= f);
}

/// A time stamp that is written is read back as the same time.
pub proof fn law_written_time_is_read_back(ms: nat)
    requires
        ms <= u64::MAX,
    ensures
        stamp(stamp_text(ms)) == Some(ms),
{
    let max = u64::MAX as nat;
    let h = padded(ms / 3_600_000, 2);
    let m = padded((ms % 3_600_000) / 60_000, 2);
    let s = padded((ms % 60_000) / 1_000, 2);
    let f = padded(ms % 1_000, 3);
    lemma_padded_reads_back(ms / 3_600_000, 2, max);
    lemma_padded_reads_back((ms % 3_600_000) / 60_000, 2, max);
    lemma_padded_reads_back((ms % 60_000) / 1_000, 2, max);
    lemma_padded_reads_back(ms % 1_000, 3, max);
    let hms = h + seq![':'] + m + seq![':'] + s;
    let t = stamp_text(ms);
    assert(t =~= hms + seq!['.'] + f);
    assert(ascii_digit(h[0]) && t[0] == h[0]);
    assert(ascii_digit(f[f.len() - 1]) && t.last() == f[f.len() - 1]);
    lemma_not_trimmed(t);
    assert forall|i: int| 0 <= i < hms.len() implies #[trigger] hms[i] == ':' || ascii_digit(
        hms[i],
    ) by {
        if i < h.len() {
            assert(hms[i] == h[i]);
        } else if h.len() < i < h.len() + 1 + m.len() {
            assert(hms[i] == m[i - h.len() - 1]);
        } else if i > h.len() + 1 + m.len() {
            assert(hms[i] == s[i - h.len() - m.len() - 2]);
        }
    }
    lemma_stamp_parts(hms, f);
    lemma_three_fields(h, m, s);
    lemma_time_adds_up(ms);
}

proof fn lemma_time_adds_up(ms: nat)
    ensures
        ((ms / 3_600_000) * 3600 + ((ms % 3_600_000) / 60_000) * 60 + (ms % 60_000) / 1_000) * 1000
            + ms % 1_000 == ms,
{
}

} // verus!
