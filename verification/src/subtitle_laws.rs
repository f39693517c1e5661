//! What subtitle files are read as and written as, piece by piece.
use vstd::prelude::*;

#[allow(unused_imports)]
use crate::find::{first_at, lemma_first_at, occurs_at};
#[allow(unused_imports)]
use crate::number::{all_digits, digits_value, number, padded};
#[allow(unused_imports)]
use crate::srt::{
    block_lines, block_of, kept_lines, lines_text, paragraph_fits, paragraphs, plain_text,
    spoken_lines, srt_blocks, srt_fits, srt_lines, srt_text, stamp, stamp_parts, stamp_text, timing,
    timing_parts, without_returns, Block,
};
#[allow(unused_imports)]
use crate::srt_laws::{
    lemma_lines_text_returns, lemma_no_returns, lemma_only_at, lemma_pieces_of_lines,
    lemma_split_free, lemma_split_separator, lemma_three_fields, no_feed, plain_line,
};
#[allow(unused_imports)]
use crate::text::white_space;
#[allow(unused_imports)]
use crate::text_laws::{
    all_white, framed, law_split_at_separator, law_white_space_around_is_cut, lemma_taken_apart,
    lemma_trimmed_again, law_other_texts_are_no_numbers,
};
#[allow(unused_imports)]
use crate::trim::{lemma_split_some, pieces, split, trimmed, Separator};

verus! {

// ---------------------------------------------------------------------------
// Time stamps
// ---------------------------------------------------------------------------

/// One digit or more, and nothing else.
pub open spec fn digit_row(s: Seq<char>) -> bool {
    s.len() > 0 && forall|i: int| 0 <= i < s.len() ==> '0' <= #[trigger] s[i] <= '9'
}

proof fn lemma_digit_row(s: Seq<char>)
    requires
        digit_row(s),
    ensures
        all_digits(s),
        s[0] != '+',
        framed(s),
{
}

proof fn lemma_row_is_read(s: Seq<char>)
    requires
        digit_row(s),
        digits_value(s) <= u64::MAX,
    ensures
        number(s, u64::MAX as nat) == Some(digits_value(s)),
{
    lemma_digit_row(s);
}

proof fn lemma_hms(h: Seq<char>, m: Seq<char>, s: Seq<char>)
    requires
        digit_row(h),
        digit_row(m),
        digit_row(s),
    ensures
        ({
            let hms = h + seq![':'] + m + seq![':'] + s;
            &&& hms.len() > 0
            &&& forall|i: int| 0 <= i < hms.len() ==> #[trigger] hms[i] == ':' || '0' <= hms[i] <= '9'
            &&& hms[0] == h[0]
            &&& hms.last() == s.last()
        }),
{
    let hms = h + seq![':'] + m + seq![':'] + s;
    assert forall|i: int| 0 <= i < hms.len() implies #[trigger] hms[i] == ':' || '0' <= hms[i] <= '9' by {
        if i < h.len() {
            assert(hms[i] == h[i]);
        } else if h.len() < i < h.len() + 1 + m.len() {
            assert(hms[i] == m[i - h.len() - 1]);
        } else if i > h.len() + 1 + m.len() {
            assert(hms[i] == s[i - h.len() - m.len() - 2]);
        }
    }
}

/// A time stamp of hours, minutes, seconds and milliseconds, each a row of digits, with colons
/// between them and a comma or a dot before the milliseconds, stands for
/// `((hours * 60 + minutes) * 60 + seconds) * 1000 + milliseconds` milliseconds.
pub proof fn law_time_stamp_adds_up(
    h: Seq<char>,
    m: Seq<char>,
    s: Seq<char>,
    mark: char,
    f: Seq<char>,
)
    requires
        digit_row(h),
        digit_row(m),
        digit_row(s),
        digit_row(f),
        mark == ',' || mark == '.',
        digits_value(h) <= u64::MAX,
        digits_value(m) <= u64::MAX,
        digits_value(s) <= u64::MAX,
        digits_value(f) <= u64::MAX,
    ensures
        stamp(h + seq![':'] + m + seq![':'] + s + seq![mark] + f) == Some(
            ((digits_value(h) * 60 + digits_value(m)) * 60 + digits_value(s)) * 1000 + digits_value(f),
        ),
{
    let hms = h + seq![':'] + m + seq![':'] + s;
    let t = hms + seq![mark] + f;
    let k = hms.len() as int;
    lemma_hms(h, m, s);
    lemma_row_is_read(h);
    lemma_row_is_read(m);
    lemma_row_is_read(s);
    lemma_row_is_read(f);
    assert('0' <= f[f.len() - 1] <= '9');
    assert(t[0] == h[0] && t.last() == f.last());
    assert forall|i: int| 0 <= i < t.len() && i != k implies #[trigger] t[i] != ',' && t[i] != '.' by {
        if i < k {
            assert(t[i] == hms[i]);
        } else {
            assert(t[i] == f[i - k - 1]);
        }
    }
    assert(t[k] == mark);
    lemma_only_at(t, ',', k);
    lemma_only_at(t, '.', k);
    assert(t.take(k) =~= hms);
    assert(t.skip(k + 1) =~= f);
    assert(trimmed(t) == t);
    lemma_three_fields(h, m, s);
}

/// A time stamp may lack its milliseconds.
pub proof fn law_time_stamp_without_milliseconds(h: Seq<char>, m: Seq<char>, s: Seq<char>)
    requires
        digit_row(h),
        digit_row(m),
        digit_row(s),
        digits_value(h) <= u64::MAX,
        digits_value(m) <= u64::MAX,
        digits_value(s) <= u64::MAX,
    ensures
        stamp(h + seq![':'] + m + seq![':'] + s) == Some(
            ((digits_value(h) * 60 + digits_value(m)) * 60 + digits_value(s)) * 1000,
        ),
{
    let t = h + seq![':'] + m + seq![':'] + s;
    lemma_hms(h, m, s);
    lemma_row_is_read(h);
    lemma_row_is_read(m);
    lemma_row_is_read(s);
    reveal_strlit("0");
    assert("0"@ =~= seq!['0']);
    assert(digits_value("0"@) == 0) by {
        assert("0"@.drop_last() =~= Seq::empty());
        assert(digits_value(Seq::<char>::empty()) == 0);
    }
    lemma_row_is_read("0"@);
    assert(t[0] != ',' && t[0] != '.');
    lemma_only_at(t, ',', 0);
    lemma_only_at(t, '.', 0);
    assert('0' <= s[s.len() - 1] <= '9');
    assert(trimmed(t) == t);
    lemma_three_fields(h, m, s);
}

/// White space around a time stamp says nothing.
pub proof fn law_white_space_around_a_time_stamp(before: Seq<char>, t: Seq<char>, after: Seq<char>)
    requires
        all_white(before),
        all_white(after),
    ensures
        stamp(before + t + after) == stamp(t),
{
    let (x, y) = lemma_taken_apart(t);
    let core = trimmed(t);
    assert(before + t + after =~= (before + x) + core + (y + after));
    assert(all_white(before + x)) by {
        assert forall|i: int| 0 <= i < (before + x).len() implies white_space(
            #[trigger] (before + x)[i],
        ) by {
            if i < before.len() {
                assert((before + x)[i] == before[i]);
            } else {
                assert((before + x)[i] == x[i - before.len()]);
            }
        }
    }
    assert(all_white(y + after)) by {
        assert forall|i: int| 0 <= i < (y + after).len() implies white_space(
            #[trigger] (y + after)[i],
        ) by {
            if i < y.len() {
                assert((y + after)[i] == y[i]);
            } else {
                assert((y + after)[i] == after[i - y.len()]);
            }
        }
    }
    law_white_space_around_is_cut(before + x, core, y + after);
}

/// How many colons a text has.
pub open spec fn colons(s: Seq<char>) -> nat
    decreases s.len(),
{
    if s.len() == 0 {
        0
    } else if s.last() == ':' {
        colons(s.drop_last()) + 1
    } else {
        colons(s.drop_last())
    }
}

proof fn lemma_colons_add(a: Seq<char>, b: Seq<char>)
    ensures
        colons(a + b) == colons(a) + colons(b),
    decreases b.len(),
{
    if b.len() == 0 {
        assert(a + b =~= a);
    } else {
        assert((a + b).drop_last() =~= a + b.drop_last());
        lemma_colons_add(a, b.drop_last());
    }
}

proof fn lemma_no_colons(s: Seq<char>)
    requires
        forall|i: int| 0 <= i < s.len() ==> #[trigger] s[i] != ':',
    ensures
        colons(s) == 0,
    decreases s.len(),
{
    if s.len() > 0 {
        let short = s.drop_last();
        assert forall|i: int| 0 <= i < short.len() implies #[trigger] short[i] != ':' by {
            assert(short[i] == s[i]);
        }
        assert(s[s.len() - 1] != ':');
        lemma_no_colons(short);
    }
}

proof fn lemma_fields_by_colons(s: Seq<char>)
    ensures
        pieces(s, Separator::One(':')).len() == colons(s) + 1,
    decreases s.len(),
{
    let at = |c: char| Separator::One(':').separates(c);
    if s.len() > 0 {
        lemma_fields_by_colons(s.drop_last());
        lemma_split_some(s.drop_last(), at);
    }
}

/// A text that has not exactly two colons is no time stamp.
pub proof fn law_time_stamp_has_two_colons(value: Seq<char>)
    requires
        colons(value) != 2,
    ensures
        stamp(value) is None,
{
    if stamp(value) is Some {
        let (x, y) = lemma_taken_apart(value);
        let t = trimmed(value);
        let (hms, ms) = stamp_parts(t);
        lemma_fields_by_colons(hms);
        lemma_no_colons(x);
        lemma_no_colons(y);
        lemma_colons_add(x + t, y);
        lemma_colons_add(x, t);
        lemma_first_at(t, seq![','], 0);
        lemma_first_at(t, seq!['.'], 0);
        assert forall|i: int| 0 <= i < ms.len() implies #[trigger] ms[i] != ':' by {
            if ms[i] == ':' {
                law_other_texts_are_no_numbers(ms, u64::MAX as nat, i);
            }
        }
        lemma_no_colons(ms);
        let cut = hms.len() as int;
        if first_at(t, seq![','], 0) is Some || first_at(t, seq!['.'], 0) is Some {
            let sep = t.subrange(cut, cut + 1);
            assert(t =~= hms + sep + ms);
            lemma_colons_add(hms + sep, ms);
            lemma_colons_add(hms, sep);
            assert(sep[0] == ',' || sep[0] == '.');
            lemma_no_colons(sep);
        }
    }
}

proof fn lemma_no_arrow(s: Seq<char>, i: int)
    requires
        0 <= i < s.len(),
        s[i] != '-',
    ensures
        !occurs_at(s, "-->"@, i),
{
    reveal_strlit("-->");
    if occurs_at(s, "-->"@, i) {
        assert(s.subrange(i, i + 3)[0] == "-->"@[0]);
    }
}

proof fn lemma_first_is(s: Seq<char>, pat: Seq<char>, k: int)
    requires
        occurs_at(s, pat, k),
        forall|i: int| 0 <= i < k ==> !#[trigger] occurs_at(s, pat, i),
    ensures
        first_at(s, pat, 0) == Some(k),
{
    lemma_first_at(s, pat, 0);
}

proof fn lemma_arrow_parts(x: Seq<char>, y: Seq<char>)
    requires
        !x.contains('-'),
        !y.contains('-'),
    ensures
        timing_parts(x + "-->"@ + y) == Some((x, y)),
{
    let arrow = "-->"@;
    let line = x + arrow + y;
    let k = x.len() as int;
    assert(line.subrange(k, k + arrow.len()) =~= arrow);
    assert forall|i: int| 0 <= i < k implies !#[trigger] occurs_at(line, arrow, i) by {
        assert(line[i] == x[i]);
        lemma_no_arrow(line, i);
    }
    lemma_first_is(line, arrow, k);
    assert(line.take(k) =~= x);
    assert(line.skip(k + arrow.len()) =~= y);
    lemma_first_at(y, arrow, 0);
    if let Some(i) = first_at(y, arrow, 0) {
        assert(arrow.len() > 0) by {
            reveal_strlit("-->");
        }
        lemma_no_arrow(y, i);
    }
}

proof fn lemma_stamp_of_trimmed(x: Seq<char>)
    ensures
        stamp(trimmed(x)) == stamp(x),
{
    lemma_trimmed_again(x);
}

/// A timing line is two time stamps with an arrow between them, and gives the times of both; it
/// gives none if one of them is no time stamp.
pub proof fn law_timing_line_gives_both_times(x: Seq<char>, y: Seq<char>)
    requires
        !x.contains('-'),
        !y.contains('-'),
    ensures
        timing(x + "-->"@ + y) == (if stamp(x) is Some && stamp(y) is Some {
            Some((stamp(x)->0, stamp(y)->0))
        } else {
            None
        }),
{
    lemma_arrow_parts(x, y);
    lemma_stamp_of_trimmed(x);
    lemma_stamp_of_trimmed(y);
}

/// A line without an arrow gives no times.
pub proof fn law_line_without_arrow_gives_no_times(line: Seq<char>)
    requires
        forall|i: int| 0 <= i && i + 3 <= line.len() ==> #[trigger] line.subrange(i, i + 3)
            != seq!['-', '-', '>'],
    ensures
        timing(line) is None,
{
    reveal_strlit("-->");
    assert("-->"@ =~= seq!['-', '-', '>']);
    lemma_first_at(line, "-->"@, 0);
}

proof fn lemma_fields_of_time(ms: nat, h: nat, m: nat, s: nat, f: nat)
    requires
        m < 60,
        s < 60,
        f < 1000,
        ms == h * 3_600_000 + m * 60_000 + s * 1_000 + f,
    ensures
        ms / 3_600_000 == h,
        (ms % 3_600_000) / 60_000 == m,
        (ms % 60_000) / 1_000 == s,
        ms % 1_000 == f,
{
    let rest = m * 60_000 + s * 1_000 + f;
    assert(rest < 3_600_000);
    assert(ms % 3_600_000 == rest);
    let less = s * 1_000 + f;
    assert(ms % 60_000 == less) by {
        assert(ms == (h * 60 + m) * 60_000 + less);
    }
    assert(ms % 1_000 == f) by {
        assert(ms == (h * 3_600 + m * 60 + s) * 1_000 + f);
    }
}

/// A time is written with its hours, minutes and seconds in two digits at least and its
/// milliseconds in three, with colons between them and a dot before the milliseconds.
pub proof fn law_time_is_written_in_fields(h: nat, m: nat, s: nat, f: nat)
    requires
        m < 60,
        s < 60,
        f < 1000,
    ensures
        stamp_text(((h * 60 + m) * 60 + s) * 1000 + f) == padded(h, 2) + seq![':'] + padded(m, 2)
            + seq![':'] + padded(s, 2) + seq!['.'] + padded(f, 3),
{
    let ms = ((h * 60 + m) * 60 + s) * 1000 + f;
    assert(ms == h * 3_600_000 + m * 60_000 + s * 1_000 + f);
    lemma_fields_of_time(ms, h, m, s, f);
}

// ---------------------------------------------------------------------------
// Reading a file
// ---------------------------------------------------------------------------

pub proof fn lemma_filter_map_adds<T, U>(a: Seq<T>, b: Seq<T>, f: spec_fn(T) -> Option<U>)
    ensures
        (a + b).filter_map(f) == a.filter_map(f) + b.filter_map(f),
    decreases b.len(),
{
    if b.len() == 0 {
        assert(a + b =~= a);
        assert(b.filter_map(f) =~= Seq::empty());
        assert(a.filter_map(f) + b.filter_map(f) =~= a.filter_map(f));
    } else {
        let short = b.drop_last();
        lemma_filter_map_adds(a, short, f);
        let all = a + b;
        assert(all.drop_last() =~= a + short);
        assert(all.take(all.len() as int) =~= all);
        assert(all.take(all.len() - 1) =~= a + short);
        assert(b.take(b.len() as int) =~= b);
        assert(b.take(b.len() - 1) =~= short);
        all.lemma_filter_map_take_succ(f, all.len() - 1);
        b.lemma_filter_map_take_succ(f, b.len() - 1);
        assert(all[all.len() - 1] == b[b.len() - 1]);
        assert(all.filter_map(f) =~= a.filter_map(f) + b.filter_map(f));
    }
}

proof fn lemma_no_feed_kept(a: Seq<char>, b: Seq<char>)
    ensures
        without_returns(a + b) == without_returns(a) + without_returns(b),
{
    Seq::filter_distributes_over_add(a, b, |c: char| c != '\r');
}

proof fn lemma_paragraphs_parted(x: Seq<char>, y: Seq<char>)
    ensures
        paragraphs(x + seq!['\n', '\n'] + y) == paragraphs(x) + paragraphs(y),
{
    let feed = |c: char| Separator::One('\n').separates(c);
    let blank = |line: Seq<char>| line.len() == 0;
    let full = |p: Seq<Seq<char>>| p.len() > 0;
    let a = without_returns(x);
    let b = without_returns(y);
    let two = seq!['\n', '\n'];
    lemma_no_feed_kept(x + two, y);
    lemma_no_feed_kept(x, two);
    assert(without_returns(two) == two) by {
        lemma_no_returns(two);
    }
    let none = Seq::<char>::empty();
    assert(a + two + b =~= a + seq!['\n'] + (none + seq!['\n'] + b));
    law_split_at_separator(a, '\n', none + seq!['\n'] + b, feed);
    law_split_at_separator(none, '\n', b, feed);
    assert(split(none, feed) =~= seq![none]);
    let la = split(a, feed);
    let lb = split(b, feed);
    assert(la + (seq![none] + lb) =~= la + seq![none] + lb);
    law_split_at_separator(la, none, lb, blank);
    Seq::filter_distributes_over_add(split(la, blank), split(lb, blank), full);
}

/// Two files with an empty line between them are read as the subtitles of the first and then those
/// of the second.
pub proof fn law_empty_line_parts_subtitles(x: Seq<char>, y: Seq<char>)
    ensures
        srt_blocks(x + seq!['\n', '\n'] + y) == srt_blocks(x) + srt_blocks(y),
{
    lemma_paragraphs_parted(x, y);
    lemma_filter_map_adds(paragraphs(x), paragraphs(y), |p: Seq<Seq<char>>| block_of(p));
}

/// Two files with an empty line between them can be read exactly if both can.
pub proof fn law_files_fit_one_by_one(x: Seq<char>, y: Seq<char>)
    ensures
        srt_fits(x + seq!['\n', '\n'] + y) <==> srt_fits(x) && srt_fits(y),
{
    lemma_paragraphs_parted(x, y);
    let a = paragraphs(x);
    let b = paragraphs(y);
    let all = paragraphs(x + seq!['\n', '\n'] + y);
    assert(all == a + b);
    if srt_fits(x + seq!['\n', '\n'] + y) {
        assert forall|i: int| 0 <= i < a.len() implies paragraph_fits(#[trigger] a[i]) by {
            assert(all[i] == a[i]);
        }
        assert forall|i: int| 0 <= i < b.len() implies paragraph_fits(#[trigger] b[i]) by {
            assert(all[a.len() + i] == b[i]);
        }
    }
    if srt_fits(x) && srt_fits(y) {
        assert forall|i: int| 0 <= i < all.len() implies paragraph_fits(#[trigger] all[i]) by {
            if i < a.len() {
                assert(all[i] == a[i]);
            } else {
                assert(all[i] == b[i - a.len()]);
            }
        }
    }
}

/// Lines without an empty one among them can be read if the second, being a timing line, gives times
/// that fit in 64 bits, and always if there are fewer than two.
pub proof fn law_ordinary_lines_fit(lines: Seq<Seq<char>>, x: Seq<char>, y: Seq<char>)
    requires
        lines.len() > 0,
        forall|i: int| 0 <= i < lines.len() ==> plain_line(#[trigger] lines[i]),
        !x.contains('-'),
        !y.contains('-'),
        lines.len() >= 2 ==> lines[1] == x + "-->"@ + y,
    ensures
        lines.len() < 2 ==> srt_fits(lines_text(lines)),
        (stamp(x) matches Some(t) ==> t <= u64::MAX) && (stamp(y) matches Some(t) ==> t <= u64::MAX)
            ==> srt_fits(lines_text(lines)),
{
    lemma_one_paragraph(lines);
    let all = paragraphs(lines_text(lines));
    assert(all =~= seq![lines]);
    lemma_arrow_parts(x, y);
    lemma_stamp_of_trimmed(x);
    lemma_stamp_of_trimmed(y);
    if lines.len() < 2 || ((stamp(x) matches Some(t) ==> t <= u64::MAX) && (stamp(y) matches Some(t)
        ==> t <= u64::MAX)) {
        assert forall|i: int| 0 <= i < all.len() implies paragraph_fits(#[trigger] all[i]) by {
            assert(all[i] == lines);
        }
    }
}

/// Carriage returns say nothing, wherever they stand.
pub proof fn law_carriage_returns_say_nothing(x: Seq<char>, y: Seq<char>)
    ensures
        srt_blocks(x + seq!['\r'] + y) == srt_blocks(x + y),
{
    lemma_no_feed_kept(x + seq!['\r'], y);
    lemma_no_feed_kept(x, seq!['\r']);
    lemma_no_feed_kept(x, y);
    assert(without_returns(seq!['\r']) == Seq::<char>::empty()) by {
        reveal(Seq::filter);
        let none = Seq::<char>::empty();
        assert(none.push('\r') =~= seq!['\r']);
        none.lemma_filter_push('\r', |c: char| c != '\r');
        assert(none.filter(|c: char| c != '\r') =~= none);
    }
    assert(without_returns(x) + Seq::<char>::empty() =~= without_returns(x));
}

proof fn lemma_one_paragraph(lines: Seq<Seq<char>>)
    requires
        lines.len() > 0,
        forall|i: int| 0 <= i < lines.len() ==> plain_line(#[trigger] lines[i]),
    ensures
        paragraphs(lines_text(lines)) == seq![lines],
{
    let blank = |line: Seq<char>| line.len() == 0;
    let full = |p: Seq<Seq<char>>| p.len() > 0;
    let none = Seq::<Seq<char>>::empty();
    assert forall|i: int| 0 <= i < lines.len() implies no_feed(#[trigger] lines[i]) by {
        assert(plain_line(lines[i]));
    }
    lemma_lines_text_returns(lines);
    lemma_no_returns(lines_text(lines));
    lemma_pieces_of_lines(lines);
    assert forall|i: int| 0 <= i < lines.len() implies !blank(#[trigger] lines[i]) by {
        assert(plain_line(lines[i]));
    }
    lemma_split_free(lines, blank);
    lemma_split_separator(lines, Seq::<char>::empty(), blank);
    let groups = seq![lines].push(none);
    assert(split(lines.push(Seq::empty()), blank) == groups);
    let empty = Seq::<Seq<Seq<char>>>::empty();
    reveal(Seq::filter);
    assert(empty.filter(full) =~= empty);
    assert(empty.push(lines) =~= seq![lines]);
    empty.lemma_filter_push(lines, full);
    seq![lines].lemma_filter_push(none, full);
    assert(paragraphs(lines_text(lines)) =~= seq![lines]);
}

/// Lines without an empty one among them are read as one subtitle: the first is its number, the
/// second its timing, from which its start and end are taken, and all others are its text. They are
/// read as none if there are fewer than two, or if the second is no timing line.
pub proof fn law_lines_make_one_subtitle(lines: Seq<Seq<char>>)
    requires
        lines.len() > 0,
        forall|i: int| 0 <= i < lines.len() ==> plain_line(#[trigger] lines[i]),
    ensures
        srt_blocks(lines_text(lines)) == (if lines.len() >= 2 && timing(lines[1]) is Some {
            let (start, end) = timing(lines[1])->0;
            seq![
                Block {
                    index: lines[0],
                    timing: lines[1],
                    start_ms: start,
                    end_ms: end,
                    text_lines: lines.subrange(2, lines.len() as int),
                },
            ]
        } else {
            Seq::empty()
        }),
{
    let read = |p: Seq<Seq<char>>| block_of(p);
    let empty = Seq::<Seq<Seq<char>>>::empty();
    lemma_one_paragraph(lines);
    let one = seq![lines];
    assert(one.take(0) =~= empty);
    assert(one.take(1) =~= one);
    one.lemma_filter_map_take_succ(read, 0);
    assert(empty.filter_map(read) =~= Seq::empty());
    if lines.len() >= 2 {
        assert(lines.skip(2) =~= lines.subrange(2, lines.len() as int));
    }
}

// ---------------------------------------------------------------------------
// Writing a file
// ---------------------------------------------------------------------------

/// Each line is followed by a line feed, and lines are written one after the other.
pub proof fn law_lines_are_written_in_order(a: Seq<Seq<char>>, line: Seq<char>, b: Seq<Seq<char>>)
    ensures
        lines_text(Seq::<Seq<char>>::empty()) == Seq::<char>::empty(),
        lines_text(seq![line]) == line + seq!['\n'],
        lines_text(a + b) == lines_text(a) + lines_text(b),
    decreases b.len(),
{
    reveal_with_fuel(lines_text, 2);
    assert(seq![line].drop_last() =~= Seq::<Seq<char>>::empty());
    assert(lines_text(seq![line]) =~= line + seq!['\n']);
    if b.len() == 0 {
        assert(a + b =~= a);
        assert(lines_text(a) + lines_text(b) =~= lines_text(a));
    } else {
        law_lines_are_written_in_order(a, line, b.drop_last());
        assert((a + b).drop_last() =~= a + b.drop_last());
        assert(lines_text(a + b) =~= lines_text(a) + lines_text(b));
    }
}

/// A subtitle is written as its number, its timing and its lines of text, with an empty line after
/// them; subtitles are written one after the other.
pub proof fn law_subtitles_are_written_in_order(a: Seq<Block>, one: Block, b: Seq<Block>)
    ensures
        srt_text(Seq::<Block>::empty()) == Seq::<char>::empty(),
        srt_text(seq![one]) == one.index + seq!['\n'] + one.timing + seq!['\n'] + lines_text(
            one.text_lines,
        ) + seq!['\n'],
        srt_text(a + b) == srt_text(a) + srt_text(b),
{
    lemma_srt_lines_add(a, b);
    law_lines_are_written_in_order(srt_lines(a), one.index, srt_lines(b));
    let none = Seq::<char>::empty();
    reveal_with_fuel(srt_lines, 2);
    assert(seq![one].drop_last() =~= Seq::<Block>::empty());
    assert(srt_lines(seq![one]) =~= block_lines(one));
    assert(block_lines(one) =~= seq![one.index] + (seq![one.timing] + (one.text_lines + seq![none])));
    law_lines_are_written_in_order(
        seq![one.index],
        one.index,
        seq![one.timing] + (one.text_lines + seq![none]),
    );
    law_lines_are_written_in_order(seq![one.timing], one.timing, one.text_lines + seq![none]);
    law_lines_are_written_in_order(one.text_lines, none, seq![none]);
    assert(srt_text(seq![one]) =~= one.index + seq!['\n'] + one.timing + seq!['\n'] + lines_text(
        one.text_lines,
    ) + seq!['\n']);
}

proof fn lemma_srt_lines_add(a: Seq<Block>, b: Seq<Block>)
    ensures
        srt_lines(a + b) == srt_lines(a) + srt_lines(b),
    decreases b.len(),
{
    if b.len() == 0 {
        assert(a + b =~= a);
        assert(srt_lines(a) + srt_lines(b) =~= srt_lines(a));
    } else {
        lemma_srt_lines_add(a, b.drop_last());
        assert((a + b).drop_last() =~= a + b.drop_last());
        assert(srt_lines(a + b) =~= srt_lines(a) + srt_lines(b));
    }
}

proof fn lemma_spoken_add(a: Seq<Block>, b: Seq<Block>)
    ensures
        spoken_lines(a + b) == spoken_lines(a) + spoken_lines(b),
    decreases b.len(),
{
    if b.len() == 0 {
        assert(a + b =~= a);
        assert(spoken_lines(a) + spoken_lines(b) =~= spoken_lines(a));
    } else {
        lemma_spoken_add(a, b.drop_last());
        assert((a + b).drop_last() =~= a + b.drop_last());
        assert(spoken_lines(a + b) =~= spoken_lines(a) + spoken_lines(b));
    }
}

proof fn lemma_kept_add(a: Seq<Seq<char>>, b: Seq<Seq<char>>)
    ensures
        kept_lines(a + b) == kept_lines(a) + kept_lines(b),
{
    lemma_filter_map_adds(
        a,
        b,
        |line: Seq<char>|
            if trimmed(line).len() == 0 {
                None
            } else {
                Some(trimmed(line))
            },
    );
}

/// The plain text of subtitles is the plain text of the first ones and then that of the others.
pub proof fn law_plain_texts_are_written_in_order(a: Seq<Block>, b: Seq<Block>)
    ensures
        plain_text(a + b) == plain_text(a) + plain_text(b),
        plain_text(Seq::<Block>::empty()) == Seq::<char>::empty(),
{
    lemma_spoken_add(a, b);
    lemma_kept_add(spoken_lines(a), spoken_lines(b));
    law_lines_are_written_in_order(
        kept_lines(spoken_lines(a)),
        Seq::empty(),
        kept_lines(spoken_lines(b)),
    );
    assert(kept_lines(Seq::<Seq<char>>::empty()) =~= Seq::empty());
}

/// In the plain text of a subtitle each line of its text stands without the white space around it;
/// a line of white space alone is left out.
pub proof fn law_plain_text_has_each_line(
    b: Block,
    before: Seq<char>,
    core: Seq<char>,
    after: Seq<char>,
)
    requires
        all_white(before),
        all_white(after),
        core.len() == 0 || framed(core),
        b.text_lines.len() > 0,
        b.text_lines.last() == before + core + after,
    ensures
        plain_text(seq![b]) == plain_text(
            seq![Block { text_lines: b.text_lines.drop_last(), ..b }],
        ) + (if core.len() == 0 {
            Seq::empty()
        } else {
            core + seq!['\n']
        }),
        plain_text(seq![Block { text_lines: Seq::empty(), ..b }]) == Seq::<char>::empty(),
{
    let short = b.text_lines.drop_last();
    let line = b.text_lines.last();
    let fewer = Block { text_lines: short, ..b };
    let none = Block { text_lines: Seq::empty(), ..b };
    law_white_space_around_is_cut(before, core, after);
    reveal_with_fuel(spoken_lines, 2);
    assert(seq![b].drop_last() =~= Seq::<Block>::empty());
    assert(seq![fewer].drop_last() =~= Seq::<Block>::empty());
    assert(seq![none].drop_last() =~= Seq::<Block>::empty());
    assert(spoken_lines(seq![b]) =~= b.text_lines);
    assert(spoken_lines(seq![fewer]) =~= short);
    assert(spoken_lines(seq![none]) =~= Seq::empty());
    assert(kept_lines(Seq::<Seq<char>>::empty()) =~= Seq::empty());
    assert(b.text_lines =~= short + seq![line]);
    lemma_kept_add(short, seq![line]);
    let keep = |line: Seq<char>|
        if trimmed(line).len() == 0 {
            None
        } else {
            Some(trimmed(line))
        };
    let one = seq![line];
    assert(one.take(0) =~= Seq::empty());
    assert(one.take(1) =~= one);
    one.lemma_filter_map_take_succ(keep, 0);
    law_lines_are_written_in_order(kept_lines(short), core, kept_lines(one));
    if core.len() == 0 {
        assert(kept_lines(one) =~= Seq::empty());
        assert(plain_text(seq![fewer]) + Seq::<char>::empty() =~= plain_text(seq![fewer]));
    } else {
        assert(kept_lines(one) =~= seq![core]);
    }
}

/// A line with a second arrow gives no times.
pub proof fn law_second_arrow_gives_no_times(x: Seq<char>, y: Seq<char>, z: Seq<char>)
    requires
        !x.contains('-'),
        !y.contains('-'),
        !z.contains('-'),
    ensures
        timing(x + "-->"@ + (y + "-->"@ + z)) is None,
{
    let arrow = "-->"@;
    let rest = y + arrow + z;
    let line = x + arrow + rest;
    let k = x.len() as int;
    assert(line.subrange(k, k + arrow.len()) =~= arrow);
    assert forall|i: int| 0 <= i < k implies !#[trigger] occurs_at(line, arrow, i) by {
        assert(line[i] == x[i]);
        lemma_no_arrow(line, i);
    }
    lemma_first_is(line, arrow, k);
    assert(line.skip(k + arrow.len()) =~= rest);
    let m = y.len() as int;
    assert(rest.subrange(m, m + arrow.len()) =~= arrow);
    lemma_first_at(rest, arrow, 0);
    assert(occurs_at(rest, arrow, m));
}

/// A line feed at the start or at the end of a file says nothing: the last line need not be ended.
pub proof fn law_line_feeds_around_a_file(x: Seq<char>)
    ensures
        srt_blocks(x + seq!['\n']) == srt_blocks(x),
        srt_blocks(seq!['\n'] + x) == srt_blocks(x),
{
    let feed = |c: char| Separator::One('\n').separates(c);
    let blank = |line: Seq<char>| line.len() == 0;
    let full = |p: Seq<Seq<char>>| p.len() > 0;
    let a = without_returns(x);
    let one = seq!['\n'];
    let none = Seq::<char>::empty();
    lemma_no_returns(one);
    lemma_no_feed_kept(x, one);
    lemma_no_feed_kept(one, x);
    let lines = split(a, feed);
    let groups = split(lines, blank);
    let no_lines = Seq::<Seq<char>>::empty();
    // At the end.
    assert(a + one =~= a.push('\n'));
    lemma_split_separator(a, '\n', feed);
    lemma_split_separator(lines, none, blank);
    groups.lemma_filter_push(no_lines, full);
    assert(paragraphs(x + one) == paragraphs(x));
    // At the start.
    assert(one + a =~= none + seq!['\n'] + a);
    law_split_at_separator(none, '\n', a, feed);
    assert(split(none, feed) =~= seq![none]);
    assert(seq![none] + lines =~= no_lines + seq![none] + lines);
    law_split_at_separator(no_lines, none, lines, blank);
    assert(split(no_lines, blank) =~= seq![no_lines]);
    Seq::filter_distributes_over_add(seq![no_lines], groups, full);
    let empty = Seq::<Seq<Seq<char>>>::empty();
    assert(seq![no_lines].filter(full) =~= empty) by {
        reveal(Seq::filter);
        assert(empty.push(no_lines) =~= seq![no_lines]);
        assert(empty.filter(full) =~= empty);
        empty.lemma_filter_push(no_lines, full);
    }
    assert(empty + paragraphs(x) =~= paragraphs(x));
    assert(paragraphs(one + x) == paragraphs(x));
}

} // verus!
