//! SubRip subtitles: reading, timing, and writing.
use vstd::prelude::*;

use crate::find::find_from;
use crate::number::{parse_u64, push_padded};
use crate::text::{chars_of, text_between, text_of};
use crate::trim::{split_text, trim, Separator};
#[allow(unused_imports)]
use crate::find::first_at;
#[allow(unused_imports)]
use crate::number::{number, padded};
#[allow(unused_imports)]
use crate::text::{lemma_texts_push, texts};
#[allow(unused_imports)]
use crate::trim::{lemma_split_some, pieces, split, trimmed};

verus! {

/// One subtitle: its number line, its timing line, what the timing line says in milliseconds, and
/// its lines of text.
#[derive(Debug, Clone)]
pub struct SrtBlock {
    pub index: String,
    pub timing: String,
    pub start_ms: u64,
    pub end_ms: u64,
    pub text_lines: Vec<String>,
}

/// A subtitle as a mathematical value.
pub struct Block {
    pub index: Seq<char>,
    pub timing: Seq<char>,
    pub start_ms: nat,
    pub end_ms: nat,
    pub text_lines: Seq<Seq<char>>,
}

impl View for SrtBlock {
    type V = Block;

    open spec fn view(&self) -> Block {
        Block {
            index: self.index@,
            timing: self.timing@,
            start_ms: self.start_ms as nat,
            end_ms: self.end_ms as nat,
            text_lines: texts(self.text_lines@),
        }
    }
}

/// The subtitles of a list as mathematical values.
pub open spec fn blocks_of(v: Seq<SrtBlock>) -> Seq<Block> {
    v.map_values(|b: SrtBlock| b@)
}

pub proof fn lemma_blocks_push(v: Seq<SrtBlock>, b: SrtBlock)
    ensures
        blocks_of(v.push(b)) == blocks_of(v).push(b@),
{
    assert(blocks_of(v.push(b)) =~= blocks_of(v).push(b@));
}

// ---------------------------------------------------------------------------
// Time stamps
// ---------------------------------------------------------------------------

/// A time stamp before and after its first comma or, if it has none, its first dot; without
/// either, no milliseconds.
pub open spec fn stamp_parts(v: Seq<char>) -> (Seq<char>, Seq<char>) {
    match first_at(v, seq![','], 0) {
        Some(i) => (v.take(i), v.skip(i + 1)),
        None => match first_at(v, seq!['.'], 0) {
            Some(i) => (v.take(i), v.skip(i + 1)),
            None => (v, "0"@),
        },
    }
}

/// The milliseconds that a time stamp `hours:minutes:seconds,milliseconds` stands for.
pub open spec fn stamp(value: Seq<char>) -> Option<nat> {
    let (hms, ms) = stamp_parts(trimmed(value));
    let fields = pieces(hms, Separator::One(':'));
    let max = u64::MAX as nat;
    if fields.len() == 3 {
        match (
            number(fields[0], max),
            number(fields[1], max),
            number(fields[2], max),
            number(ms, max),
        ) {
            (Some(h), Some(m), Some(s), Some(ms)) => Some(
                (h * 3600 + m * 60 + s) * 1000 + ms,
            ),
            _ => None,
        }
    } else {
        None
    }
}

/// The time stamp, if it is one, fits in 64 bits.
pub open spec fn stamp_fits(value: Seq<char>) -> bool {
    stamp(value) matches Some(t) ==> t <= u64::MAX
}

/// What a text says as a time stamp.
enum Reading {
    /// It is no time stamp.
    Malformed,
    /// It is one, beyond 64 bits.
    TooLarge,
    /// It is one.
    At(u64),
}

/// Splits a text at the first `sep`, if there is one.
fn split_once(v: &Vec<char>, sep: char) -> (r: Option<(String, String)>)
    ensures
        match r {
            Some((x, y)) => first_at(v@, seq![sep], 0) matches Some(i) && x@ == v@.take(i) && y@
                == v@.skip(i + 1),
            None => first_at(v@, seq![sep], 0) is None,
        },
{
    let mut pat: Vec<char> = Vec::new();
    pat.push(sep);
    assert(pat@ =~= seq![sep]);
    match find_from(v, &pat, 0) {
        Some(i) => {
            assert(v@.take(i as int) =~= v@.subrange(0, i as int));
            assert(v@.skip(i + 1) =~= v@.subrange(i + 1, v@.len() as int));
            Some((text_between(v, 0, i), text_between(v, i + 1, v.len())))
        },
        None => None,
    }
}

fn read_stamp(value: &str) -> (r: Reading)
    ensures
        match r {
            Reading::Malformed => stamp(value@) is None,
            Reading::TooLarge => stamp(value@) matches Some(t) && t > u64::MAX,
            Reading::At(t) => stamp(value@) == Some(t as nat),
        },
{
    let clean = trim(value);
    let v = chars_of(clean.as_str());
    let parts = match split_once(&v, ',') {
        Some(p) => p,
        None => match split_once(&v, '.') {
            Some(p) => p,
            None => (clean, "0".to_string()),
        },
    };
    assert((parts.0@, parts.1@) == stamp_parts(trimmed(value@)));
    let fields = split_text(parts.0.as_str(), Separator::One(':'));
    assert(texts(fields@).len() == fields@.len());
    if fields.len() != 3 {
        return Reading::Malformed;
    }
    assert(texts(fields@)[0] == fields@[0]@);
    assert(texts(fields@)[1] == fields@[1]@);
    assert(texts(fields@)[2] == fields@[2]@);
    match (
        parse_u64(fields[0].as_str()),
        parse_u64(fields[1].as_str()),
        parse_u64(fields[2].as_str()),
        parse_u64(parts.1.as_str()),
    ) {
        (Some(h), Some(m), Some(s), Some(ms)) => {
            let total: u128 = (h as u128 * 3600 + m as u128 * 60 + s as u128) * 1000 + ms as u128;
            if total > u64::MAX as u128 {
                Reading::TooLarge
            } else {
                Reading::At(total as u64)
            }
        },
        _ => Reading::Malformed,
    }
}

/// The milliseconds of a time stamp `hours:minutes:seconds,milliseconds`; a dot may stand for the
/// comma, and the milliseconds may be missing.
pub fn parse_ts(value: &str) -> (r: Option<u64>)
    requires
        stamp_fits(value@),
    ensures
        match r {
            Some(t) => stamp(value@) == Some(t as nat),
            None => stamp(value@) is None,
        },
{
    match read_stamp(value) {
        Reading::At(t) => Some(t),
        _ => None,
    }
}

/// A timing line before and after its one arrow.
pub open spec fn timing_parts(line: Seq<char>) -> Option<(Seq<char>, Seq<char>)> {
    let arrow = "-->"@;
    match first_at(line, arrow, 0) {
        Some(i) => {
            let rest = line.skip(i + arrow.len());
            if first_at(rest, arrow, 0) is None {
                Some((line.take(i), rest))
            } else {
                None
            }
        },
        None => None,
    }
}

/// The start and the end that a timing line `start --> end` gives.
pub open spec fn timing(line: Seq<char>) -> Option<(nat, nat)> {
    match timing_parts(line) {
        Some((x, y)) => match (stamp(trimmed(x)), stamp(trimmed(y))) {
            (Some(a), Some(b)) => Some((a, b)),
            _ => None,
        },
        None => None,
    }
}

/// The start of a timing line fits in 64 bits and, if it has a start, so does its end.
pub open spec fn timing_fits(line: Seq<char>) -> bool {
    timing_parts(line) matches Some((x, y)) ==> {
        &&& stamp_fits(trimmed(x))
        &&& stamp(trimmed(x)) is Some ==> stamp_fits(trimmed(y))
    }
}

/// Splits a timing line at its one arrow.
fn split_timing(line: &str) -> (r: Option<(String, String)>)
    ensures
        match r {
            Some((x, y)) => timing_parts(line@) == Some((x@, y@)),
            None => timing_parts(line@) is None,
        },
{
    let v = chars_of(line);
    let arrow = chars_of("-->");
    match find_from(&v, &arrow, 0) {
        Some(i) => {
            let n = i + arrow.len();
            let rest = text_between(&v, n, v.len());
            assert(v@.skip(n as int) =~= v@.subrange(n as int, v@.len() as int));
            assert(v@.take(i as int) =~= v@.subrange(0, i as int));
            if find_from(&chars_of(rest.as_str()), &arrow, 0).is_some() {
                None
            } else {
                Some((text_between(&v, 0, i), rest))
            }
        },
        None => None,
    }
}

/// The start and the end of a timing line `start --> end`, in milliseconds.
pub fn parse_timing(line: &str) -> (r: Option<(u64, u64)>)
    requires
        timing_fits(line@),
    ensures
        match r {
            Some((a, b)) => timing(line@) == Some((a as nat, b as nat)),
            None => timing(line@) is None,
        },
{
    match split_timing(line) {
        Some((x, y)) => match parse_ts(trim(x.as_str()).as_str()) {
            Some(a) => match parse_ts(trim(y.as_str()).as_str()) {
                Some(b) => Some((a, b)),
                None => None,
            },
            None => None,
        },
        None => None,
    }
}

/// Whether `parse_timing` can read this line: its time stamps, as far as they are read, fit.
fn timing_line_fits(line: &str) -> (r: bool)
    ensures
        r == timing_fits(line@),
{
    match split_timing(line) {
        Some((x, y)) => match read_stamp(trim(x.as_str()).as_str()) {
            Reading::Malformed => true,
            Reading::TooLarge => false,
            Reading::At(_) => match read_stamp(trim(y.as_str()).as_str()) {
                Reading::TooLarge => false,
                _ => true,
            },
        },
        None => true,
    }
}

// ---------------------------------------------------------------------------
// Reading
// ---------------------------------------------------------------------------

/// The subtitle that the lines of a paragraph make: number, timing, text.
pub open spec fn block_of(lines: Seq<Seq<char>>) -> Option<Block> {
    if lines.len() < 2 {
        None
    } else {
        match timing(lines[1]) {
            Some((a, b)) => Some(
                Block {
                    index: lines[0],
                    timing: lines[1],
                    start_ms: a,
                    end_ms: b,
                    text_lines: lines.skip(2),
                },
            ),
            None => None,
        }
    }
}

/// The timing line of a paragraph, if it has one, fits.
pub open spec fn paragraph_fits(lines: Seq<Seq<char>>) -> bool {
    lines.len() >= 2 ==> timing_fits(lines[1])
}

/// The subtitle that the lines of a paragraph make: the first is its number, the second its
/// timing, the others its text.
pub fn build_block(lines: &[String]) -> (r: Option<SrtBlock>)
    requires
        paragraph_fits(texts(lines@)),
    ensures
        match r {
            Some(b) => block_of(texts(lines@)) == Some(b@),
            None => block_of(texts(lines@)) is None,
        },
{
    if lines.len() < 2 {
        return None;
    }
    assert(texts(lines@)[1] == lines@[1]@);
    match parse_timing(lines[1].as_str()) {
        Some((start_ms, end_ms)) => {
            let mut text_lines: Vec<String> = Vec::new();
            let mut i: usize = 2;
            while i < lines.len()
                invariant
                    2 <= i <= lines@.len(),
                    texts(text_lines@) == texts(lines@).subrange(2, i as int),
                decreases lines@.len() - i,
            {
                let line = lines[i].clone();
                proof {
                    lemma_texts_push(text_lines@, line);
                    assert(texts(lines@).subrange(2, i + 1) =~= texts(lines@).subrange(
                        2,
                        i as int,
                    ).push(line@));
                }
                text_lines.push(line);
                i += 1;
            }
            assert(texts(lines@).skip(2) =~= texts(lines@).subrange(2, lines@.len() as int));
            Some(
                SrtBlock {
                    index: lines[0].clone(),
                    timing: lines[1].clone(),
                    start_ms,
                    end_ms,
                    text_lines,
                },
            )
        },
        None => None,
    }
}

/// A text without its carriage returns.
pub open spec fn without_returns(s: Seq<char>) -> Seq<char> {
    s.filter(|c: char| c != '\r')
}

/// The paragraphs of a subtitle file: the runs of lines between empty ones.
pub open spec fn paragraphs(content: Seq<char>) -> Seq<Seq<Seq<char>>> {
    split(
        pieces(without_returns(content), Separator::One('\n')),
        |line: Seq<char>| line.len() == 0,
    ).filter(|p: Seq<Seq<char>>| p.len() > 0)
}

/// The subtitles of a subtitle file: those of its paragraphs that are one.
pub open spec fn srt_blocks(content: Seq<char>) -> Seq<Block> {
    paragraphs(content).filter_map(|p: Seq<Seq<char>>| block_of(p))
}

/// Every time stamp that is read from the file fits in 64 bits.
pub open spec fn srt_fits(content: Seq<char>) -> bool {
    forall|i: int|
        0 <= i < paragraphs(content).len() ==> paragraph_fits(#[trigger] paragraphs(content)[i])
}

fn drop_returns(s: &str) -> (r: String)
    ensures
        r@ == without_returns(s@),
{
    let v = chars_of(s);
    let ghost keep = |c: char| c != '\r';
    let mut out: Vec<char> = Vec::new();
    let mut i: usize = 0;
    proof {
        reveal(Seq::filter);
    }
    assert(v@.take(0).filter(keep) =~= Seq::empty());
    while i < v.len()
        invariant
            i <= v@.len(),
            keep == (|c: char| c != '\r'),
            out@ == v@.take(i as int).filter(keep),
        decreases v@.len() - i,
    {
        proof {
            assert(v@.take(i + 1) =~= v@.take(i as int).push(v@[i as int]));
            v@.take(i as int).lemma_filter_push(v@[i as int], keep);
        }
        if v[i] != '\r' {
            out.push(v[i]);
        }
        i += 1;
    }
    assert(v@.take(v@.len() as int) =~= v@);
    text_of(&out)
}

/// Groups of lines as mathematical values.
pub open spec fn groups_of(v: Seq<Vec<String>>) -> Seq<Seq<Seq<char>>> {
    v.map_values(|g: Vec<String>| texts(g@))
}

fn split_paragraphs(content: &str) -> (r: Vec<Vec<String>>)
    ensures
        groups_of(r@) == paragraphs(content@),
{
    let lines = split_text(drop_returns(content).as_str(), Separator::One('\n'));
    let ghost all = texts(lines@);
    let ghost blank = |line: Seq<char>| line.len() == 0;
    let ghost full = |p: Seq<Seq<char>>| p.len() > 0;
    let mut r: Vec<Vec<String>> = Vec::new();
    let mut current: Vec<String> = Vec::new();
    let ghost mut done: Seq<Seq<Seq<char>>> = Seq::empty();
    let mut i: usize = 0;
    proof {
        assert(texts(current@) =~= Seq::empty());
        assert(split(all.take(0), blank) =~= done.push(texts(current@)));
        reveal(Seq::filter);
        assert(groups_of(r@) =~= done.filter(full));
    }
    while i < lines.len()
        invariant
            i <= lines@.len(),
            all == texts(lines@),
            blank == (|line: Seq<char>| line.len() == 0),
            full == (|p: Seq<Seq<char>>| p.len() > 0),
            split(all.take(i as int), blank) == done.push(texts(current@)),
            groups_of(r@) == done.filter(full),
        decreases lines@.len() - i,
    {
        let ghost line = all[i as int];
        let ghost before = split(all.take(i as int), blank);
        proof {
            assert(line == lines@[i as int]@);
            assert(all.take(i + 1).drop_last() =~= all.take(i as int));
            assert(all.take(i + 1).last() == line);
        }
        if lines[i].as_str().is_empty() {
            proof {
                done.lemma_filter_push(texts(current@), full);
                done = before;
            }
            if current.len() > 0 {
                proof {
                    assert(groups_of(r@.push(current)) =~= groups_of(r@).push(texts(current@)));
                }
                r.push(current);
            }
            current = Vec::new();
            assert(texts(current@) =~= Seq::empty());
        } else {
            let text = lines[i].clone();
            proof {
                lemma_texts_push(current@, text);
                assert(before.drop_last() =~= done);
            }
            current.push(text);
        }
        i += 1;
    }
    proof {
        assert(all.take(all.len() as int) =~= all);
        done.lemma_filter_push(texts(current@), full);
    }
    if current.len() > 0 {
        proof {
            assert(groups_of(r@.push(current)) =~= groups_of(r@).push(texts(current@)));
        }
        r.push(current);
    }
    r
}

/// Reads the subtitles of a subtitle file. Paragraphs that are no subtitle are passed over.
pub fn parse_srt(content: &str) -> (r: Vec<SrtBlock>)
    requires
        srt_fits(content@),
    ensures
        blocks_of(r@) == srt_blocks(content@),
{
    let groups = split_paragraphs(content);
    let ghost all = paragraphs(content@);
    let ghost read = |p: Seq<Seq<char>>| block_of(p);
    let mut r: Vec<SrtBlock> = Vec::new();
    let mut i: usize = 0;
    assert(blocks_of(r@) =~= all.take(0).filter_map(read));
    while i < groups.len()
        invariant
            i <= groups@.len(),
            all == paragraphs(content@),
            groups_of(groups@) == all,
            srt_fits(content@),
            read == (|p: Seq<Seq<char>>| block_of(p)),
            blocks_of(r@) == all.take(i as int).filter_map(read),
        decreases groups@.len() - i,
    {
        proof {
            assert(all[i as int] == texts(groups@[i as int]@));
            assert(paragraph_fits(all[i as int]));
            all.lemma_filter_map_take_succ(read, i as int);
        }
        match build_block(groups[i].as_slice()) {
            Some(block) => {
                proof {
                    lemma_blocks_push(r@, block);
                    assert(all.take(i as int).filter_map(read) + seq![block@] =~= all.take(
                        i as int,
                    ).filter_map(read).push(block@));
                }
                r.push(block);
            },
            None => {
                assert(all.take(i as int).filter_map(read) + Seq::<Block>::empty() =~= all.take(
                    i as int,
                ).filter_map(read));
            },
        }
        i += 1;
    }
    assert(all.take(all.len() as int) =~= all);
    r
}

/// Whether `parse_srt` can read the file: every time stamp that is read from it fits in 64 bits.
pub fn timestamps_fit(content: &str) -> (r: bool)
    ensures
        r == srt_fits(content@),
{
    let groups = split_paragraphs(content);
    let ghost all = paragraphs(content@);
    let mut i: usize = 0;
    while i < groups.len()
        invariant
            i <= groups@.len(),
            all == paragraphs(content@),
            groups_of(groups@) == all,
            forall|k: int| 0 <= k < i ==> paragraph_fits(#[trigger] all[k]),
        decreases groups@.len() - i,
    {
        proof {
            assert(all[i as int] == texts(groups@[i as int]@));
        }
        if groups[i].len() >= 2 {
            assert(all[i as int][1] == groups@[i as int]@[1]@);
            if !timing_line_fits(groups[i][1].as_str()) {
                assert(!paragraph_fits(all[i as int]));
                return false;
            }
        }
        i += 1;
    }
    true
}

// ---------------------------------------------------------------------------
// Writing
// ---------------------------------------------------------------------------

/// A number of milliseconds as `hours:minutes:seconds.milliseconds`.
pub open spec fn stamp_text(ms: nat) -> Seq<char> {
    padded(ms / 3_600_000, 2) + seq![':'] + padded((ms % 3_600_000) / 60_000, 2) + seq![':']
        + padded((ms % 60_000) / 1_000, 2) + seq!['.'] + padded(ms % 1_000, 3)
}

/// A number of milliseconds as `hours:minutes:seconds.milliseconds`.
pub fn format_ts(ms: u64) -> (r: String)
    ensures
        r@ == stamp_text(ms as nat),
{
    let mut out = String::new();
    push_padded(&mut out, ms / 3_600_000, 2);
    out.push(':');
    push_padded(&mut out, (ms % 3_600_000) / 60_000, 2);
    out.push(':');
    push_padded(&mut out, (ms % 60_000) / 1_000, 2);
    out.push('.');
    push_padded(&mut out, ms % 1_000, 3);
    assert(out@ =~= stamp_text(ms as nat));
    out
}

/// Lines, each followed by a line feed.
pub open spec fn lines_text(lines: Seq<Seq<char>>) -> Seq<char>
    decreases lines.len(),
{
    if lines.len() == 0 {
        Seq::empty()
    } else {
        lines_text(lines.drop_last()) + lines.last().push('\n')
    }
}

/// The lines that a subtitle is written as: number, timing, text, and an empty one.
pub open spec fn block_lines(b: Block) -> Seq<Seq<char>> {
    seq![b.index, b.timing] + b.text_lines + seq![Seq::empty()]
}

/// The lines that subtitles are written as.
pub open spec fn srt_lines(blocks: Seq<Block>) -> Seq<Seq<char>>
    decreases blocks.len(),
{
    if blocks.len() == 0 {
        Seq::empty()
    } else {
        srt_lines(blocks.drop_last()) + block_lines(blocks.last())
    }
}

/// A subtitle file with these subtitles.
pub open spec fn srt_text(blocks: Seq<Block>) -> Seq<char> {
    lines_text(srt_lines(blocks))
}

/// The lines of text of subtitles.
pub open spec fn spoken_lines(blocks: Seq<Block>) -> Seq<Seq<char>>
    decreases blocks.len(),
{
    if blocks.len() == 0 {
        Seq::empty()
    } else {
        spoken_lines(blocks.drop_last()) + blocks.last().text_lines
    }
}

/// The lines of text that remain when each is trimmed and the empty ones are left out.
pub open spec fn kept_lines(lines: Seq<Seq<char>>) -> Seq<Seq<char>> {
    lines.filter_map(
        |line: Seq<char>|
            if trimmed(line).len() == 0 {
                None
            } else {
                Some(trimmed(line))
            },
    )
}

/// The plain text of subtitles: their lines, trimmed, without the empty ones.
pub open spec fn plain_text(blocks: Seq<Block>) -> Seq<char> {
    lines_text(kept_lines(spoken_lines(blocks)))
}

pub proof fn lemma_lines_text_push(lines: Seq<Seq<char>>, line: Seq<char>)
    ensures
        lines_text(lines.push(line)) == lines_text(lines) + line.push('\n'),
{
    assert(lines.push(line).drop_last() =~= lines);
}

fn push_line(out: &mut String, line: &str)
    ensures
        final(out)@ == old(out)@ + line@.push('\n'),
{
    out.append(line);
    out.push('\n');
    assert(final(out)@ =~= old(out)@ + line@.push('\n'));
}

/// A subtitle file with these subtitles: for each its number, its timing, its text, and an empty
/// line.
pub fn render_srt(blocks: &[SrtBlock]) -> (r: String)
    ensures
        r@ == srt_text(blocks_of(blocks@)),
{
    let mut out = String::new();
    let ghost all = blocks_of(blocks@);
    let mut i: usize = 0;
    while i < blocks.len()
        invariant
            i <= blocks@.len(),
            all == blocks_of(blocks@),
            out@ == lines_text(srt_lines(all.take(i as int))),
        decreases blocks@.len() - i,
    {
        let block = &blocks[i];
        let ghost before = srt_lines(all.take(i as int));
        let ghost b = all[i as int];
        assert(b == block@);
        let ghost mut written = before;
        push_line(&mut out, block.index.as_str());
        proof {
            lemma_lines_text_push(written, b.index);
            written = written.push(b.index);
        }
        push_line(&mut out, block.timing.as_str());
        proof {
            lemma_lines_text_push(written, b.timing);
            written = written.push(b.timing);
        }
        let mut k: usize = 0;
        assert(written =~= before + seq![b.index, b.timing] + b.text_lines.take(0));
        while k < block.text_lines.len()
            invariant
                k <= block.text_lines@.len(),
                b == block@,
                written == before + seq![b.index, b.timing] + b.text_lines.take(k as int),
                out@ == lines_text(written),
            decreases block.text_lines@.len() - k,
        {
            push_line(&mut out, block.text_lines[k].as_str());
            proof {
                let line = block.text_lines@[k as int]@;
                assert(b.text_lines[k as int] == line);
                lemma_lines_text_push(written, line);
                written = written.push(line);
                assert(written =~= before + seq![b.index, b.timing] + b.text_lines.take(k + 1));
            }
            k += 1;
        }
        out.push('\n');
        proof {
            lemma_lines_text_push(written, Seq::empty());
            assert(Seq::<char>::empty().push('\n') =~= seq!['\n']);
            assert(lines_text(written).push('\n') =~= lines_text(written) + seq!['\n']);
            written = written.push(Seq::empty());
            assert(b.text_lines.take(b.text_lines.len() as int) =~= b.text_lines);
            assert(written =~= before + block_lines(b));
            assert(all.take(i + 1).drop_last() =~= all.take(i as int));
            assert(all.take(i + 1).last() == b);
        }
        i += 1;
    }
    assert(all.take(all.len() as int) =~= all);
    out
}

/// The plain text of subtitles: their lines, trimmed, without the empty ones.
pub fn render_txt(blocks: &[SrtBlock]) -> (r: String)
    ensures
        r@ == plain_text(blocks_of(blocks@)),
{
    let mut out = String::new();
    let ghost all = blocks_of(blocks@);
    let ghost keep = |line: Seq<char>|
        if trimmed(line).len() == 0 {
            None
        } else {
            Some(trimmed(line))
        };
    let ghost mut seen: Seq<Seq<char>> = Seq::empty();
    let mut i: usize = 0;
    while i < blocks.len()
        invariant
            i <= blocks@.len(),
            all == blocks_of(blocks@),
            keep == (|line: Seq<char>|
                if trimmed(line).len() == 0 {
                    None
                } else {
                    Some(trimmed(line))
                }),
            seen == spoken_lines(all.take(i as int)),
            out@ == lines_text(seen.filter_map(keep)),
        decreases blocks@.len() - i,
    {
        let block = &blocks[i];
        let ghost before = seen;
        let ghost b = all[i as int];
        assert(b == block@);
        let mut k: usize = 0;
        assert(seen =~= before + b.text_lines.take(0));
        while k < block.text_lines.len()
            invariant
                k <= block.text_lines@.len(),
                b == block@,
                keep == (|line: Seq<char>|
                    if trimmed(line).len() == 0 {
                        None
                    } else {
                        Some(trimmed(line))
                    }),
                seen == before + b.text_lines.take(k as int),
                out@ == lines_text(seen.filter_map(keep)),
            decreases block.text_lines@.len() - k,
        {
            let line = trim(block.text_lines[k].as_str());
            proof {
                let raw = block.text_lines@[k as int]@;
                assert(b.text_lines[k as int] == raw);
                let next = seen.push(raw);
                assert(next.take(seen.len() as int) =~= seen);
                assert(next.take(next.len() as int) =~= next);
                next.lemma_filter_map_take_succ(keep, seen.len() as int);
                assert(next =~= before + b.text_lines.take(k + 1));
                if line@.len() == 0 {
                    assert(next.filter_map(keep) =~= seen.filter_map(keep));
                } else {
                    lemma_lines_text_push(seen.filter_map(keep), line@);
                    assert(next.filter_map(keep) =~= seen.filter_map(keep).push(line@));
                }
                seen = next;
            }
            if !line.as_str().is_empty() {
                push_line(&mut out, line.as_str());
            }
            k += 1;
        }
        proof {
            assert(b.text_lines.take(b.text_lines.len() as int) =~= b.text_lines);
            assert(all.take(i + 1).drop_last() =~= all.take(i as int));
            assert(all.take(i + 1).last() == b);
        }
        i += 1;
    }
    assert(all.take(all.len() as int) =~= all);
    out
}

} // verus!
