//! What holds of trimming, splitting, replacing, joining, and of numbers, for every text.
use vstd::prelude::*;

#[allow(unused_imports)]
use crate::find::{joined, occurs_at, replaced};
#[allow(unused_imports)]
use crate::number::{all_digits, decimal, digits_value, number, padded};
#[allow(unused_imports)]
use crate::srt_laws::{
    lemma_decimal_reads_back, lemma_padded_reads_back, lemma_split_free, lemma_split_separator,
};
#[allow(unused_imports)]
use crate::text::{
    alphanumeric, ascii_digit, ascii_small, lowercase, upper_case, uppercase_of, white_space,
};
#[allow(unused_imports)]
use crate::trim::{
    lemma_split_some, pieces, split, text_lines, trimmed, trimmed_end, trimmed_start,
    without_return, words, Separator,
};

verus! {

// ---------------------------------------------------------------------------
// Characters
// ---------------------------------------------------------------------------

/// Of ASCII, the letters and digits, the capitals and the white space are these.
pub proof fn law_ascii_characters(c: char)
    requires
        (c as int) < 0x80,
    ensures
        alphanumeric(c) <==> '0' <= c <= '9' || 'A' <= c <= 'Z' || 'a' <= c <= 'z',
        upper_case(c) <==> 'A' <= c <= 'Z',
        white_space(c) <==> c == ' ' || '\t' <= c <= '\r',
        lowercase(seq![c]) == seq![
            if 'A' <= c <= 'Z' {
                (c as int + 32) as char
            } else {
                c
            },
        ],
        uppercase_of(c) == seq![
            if 'a' <= c <= 'z' {
                (c as int - 32) as char
            } else {
                c
            },
        ],
{
    assert(lowercase(seq![c]) =~= seq![ascii_small(c)]);
}

// ---------------------------------------------------------------------------
// Trimming
// ---------------------------------------------------------------------------

/// All characters are white space.
pub open spec fn all_white(s: Seq<char>) -> bool {
    forall|i: int| 0 <= i < s.len() ==> white_space(#[trigger] s[i])
}

/// The text has characters, and white space neither at its start nor at its end.
pub open spec fn framed(s: Seq<char>) -> bool {
    s.len() > 0 && !white_space(s[0]) && !white_space(s.last())
}

/// White space before a text is cut off, and nothing else.
pub proof fn law_leading_white_space_is_cut(white: Seq<char>, rest: Seq<char>)
    requires
        all_white(white),
        rest.len() > 0 ==> !white_space(rest[0]),
    ensures
        trimmed_start(white + rest) == rest,
    decreases white.len(),
{
    let s = white + rest;
    if white.len() == 0 {
        assert(s =~= rest);
    } else {
        let short = white.skip(1);
        assert forall|i: int| 0 <= i < short.len() implies white_space(#[trigger] short[i]) by {
            assert(short[i] == white[i + 1]);
        }
        assert(s[0] == white[0]);
        assert(s.skip(1) =~= short + rest);
        law_leading_white_space_is_cut(short, rest);
    }
}

/// White space after a text is cut off, and nothing else.
pub proof fn law_trailing_white_space_is_cut(rest: Seq<char>, white: Seq<char>)
    requires
        all_white(white),
        rest.len() > 0 ==> !white_space(rest.last()),
    ensures
        trimmed_end(rest + white) == rest,
    decreases white.len(),
{
    let s = rest + white;
    if white.len() == 0 {
        assert(s =~= rest);
    } else {
        let short = white.drop_last();
        assert forall|i: int| 0 <= i < short.len() implies white_space(#[trigger] short[i]) by {
            assert(short[i] == white[i]);
        }
        assert(s.last() == white[white.len() - 1]);
        assert(s.drop_last() =~= rest + short);
        law_trailing_white_space_is_cut(rest, short);
    }
}

/// Of a text between white space the text remains, and of white space alone nothing.
pub proof fn law_white_space_around_is_cut(before: Seq<char>, core: Seq<char>, after: Seq<char>)
    requires
        all_white(before),
        all_white(after),
        core.len() == 0 || framed(core),
    ensures
        trimmed(before + core + after) == core,
{
    if core.len() == 0 {
        let white = before + core + after;
        assert forall|i: int| 0 <= i < white.len() implies white_space(#[trigger] white[i]) by {
            if i < before.len() {
                assert(white[i] == before[i]);
            } else {
                assert(white[i] == after[i - before.len()]);
            }
        }
        law_leading_white_space_is_cut(white, Seq::empty());
        assert(white + Seq::<char>::empty() =~= white);
        assert(core =~= Seq::empty());
    } else {
        assert(before + core + after =~= before + (core + after));
        assert((core + after)[0] == core[0]);
        law_leading_white_space_is_cut(before, core + after);
        law_trailing_white_space_is_cut(core, after);
    }
}

/// Every text is a text without white space at its ends, between white space.
pub proof fn lemma_taken_apart(s: Seq<char>) -> (r: (Seq<char>, Seq<char>))
    ensures
        all_white(r.0),
        all_white(r.1),
        s == r.0 + trimmed(s) + r.1,
        trimmed(s).len() == 0 || framed(trimmed(s)),
{
    let before = lemma_start_apart(s);
    let after = lemma_end_apart(trimmed_start(s));
    assert(s =~= before + trimmed(s) + after);
    if trimmed(s).len() > 0 {
        assert(trimmed_start(s)[0] == trimmed(s)[0]);
    }
    (before, after)
}

proof fn lemma_start_apart(s: Seq<char>) -> (white: Seq<char>)
    ensures
        all_white(white),
        s == white + trimmed_start(s),
        trimmed_start(s).len() > 0 ==> !white_space(trimmed_start(s)[0]),
    decreases s.len(),
{
    if s.len() > 0 && white_space(s[0]) {
        let more = lemma_start_apart(s.skip(1));
        let white = seq![s[0]] + more;
        assert forall|i: int| 0 <= i < white.len() implies white_space(#[trigger] white[i]) by {
            if i > 0 {
                assert(white[i] == more[i - 1]);
            }
        }
        assert(s =~= seq![s[0]] + s.skip(1));
        assert(s =~= white + trimmed_start(s));
        white
    } else {
        assert(s =~= Seq::<char>::empty() + s);
        Seq::empty()
    }
}

proof fn lemma_end_apart(s: Seq<char>) -> (white: Seq<char>)
    ensures
        all_white(white),
        s == trimmed_end(s) + white,
        trimmed_end(s).len() > 0 ==> !white_space(trimmed_end(s).last()),
    decreases s.len(),
{
    if s.len() > 0 && white_space(s.last()) {
        let more = lemma_end_apart(s.drop_last());
        let white = more.push(s.last());
        assert forall|i: int| 0 <= i < white.len() implies white_space(#[trigger] white[i]) by {
            if i < more.len() {
                assert(white[i] == more[i]);
            }
        }
        assert(s =~= s.drop_last().push(s.last()));
        assert(s =~= trimmed_end(s) + white);
        white
    } else {
        assert(s =~= s + Seq::<char>::empty());
        Seq::empty()
    }
}

/// Trimming what is trimmed changes nothing.
pub proof fn lemma_trimmed_again(s: Seq<char>)
    ensures
        trimmed(trimmed(s)) == trimmed(s),
{
    let (before, after) = lemma_taken_apart(s);
    let none = Seq::<char>::empty();
    law_white_space_around_is_cut(none, trimmed(s), none);
    assert(none + trimmed(s) + none =~= trimmed(s));
}

// ---------------------------------------------------------------------------
// Splitting
// ---------------------------------------------------------------------------

/// At an element at which a sequence is split, the pieces of what stands before it and those of
/// what follows it meet.
pub proof fn law_split_at_separator<T>(a: Seq<T>, e: T, b: Seq<T>, at: spec_fn(T) -> bool)
    requires
        at(e),
    ensures
        split(a + seq![e] + b, at) == split(a, at) + split(b, at),
    decreases b.len(),
{
    let s = a + seq![e] + b;
    lemma_split_some(a, at);
    if b.len() == 0 {
        assert(s =~= a.push(e));
        lemma_split_separator(a, e, at);
        assert(split(s, at) =~= split(a, at) + split(b, at));
    } else {
        let short = b.drop_last();
        law_split_at_separator(a, e, short, at);
        lemma_split_some(short, at);
        assert(s.drop_last() =~= a + seq![e] + short);
        assert(s.last() == b.last());
        let x = split(a, at);
        let y = split(short, at);
        assert((x + y).drop_last() =~= x + y.drop_last());
        assert((x + y).last() == y.last());
        assert(split(s, at) =~= x + split(b, at));
    }
}

/// A text without separators is one piece.
pub proof fn law_text_without_separators_is_one_piece(s: Seq<char>, sep: Separator)
    requires
        forall|i: int| 0 <= i < s.len() ==> !sep.separates(#[trigger] s[i]),
    ensures
        pieces(s, sep) == seq![s],
{
    lemma_split_free(s, |c: char| sep.separates(c));
}

/// A word is split into itself; white space between two texts parts their words.
pub proof fn law_white_space_parts_words(a: Seq<char>, c: char, b: Seq<char>)
    requires
        white_space(c),
    ensures
        words(a + seq![c] + b) == words(a) + words(b),
        a.len() > 0 && (forall|i: int| 0 <= i < a.len() ==> !white_space(#[trigger] a[i])) ==> words(
            a,
        ) == seq![a],
        a.len() == 0 ==> words(a) == Seq::<Seq<char>>::empty(),
{
    let at = |c: char| Separator::White.separates(c);
    let keep = |t: Seq<char>| t.len() > 0;
    law_split_at_separator(a, c, b, at);
    Seq::filter_distributes_over_add(split(a, at), split(b, at), keep);
    reveal(Seq::filter);
    if forall|i: int| 0 <= i < a.len() ==> !white_space(#[trigger] a[i]) {
        law_text_without_separators_is_one_piece(a, Separator::White);
        let none = Seq::<Seq<char>>::empty();
        assert(none.push(a) =~= seq![a]);
        assert(none.filter(keep) =~= none);
        none.lemma_filter_push(a, keep);
    }
}

/// A line ends at a line feed, and a carriage return before it belongs to the end; what follows has
/// its own lines. What no line feed ends is a line if it has characters.
pub proof fn law_lines_end_at_line_feeds(line: Seq<char>, rest: Seq<char>)
    requires
        !line.contains('\n'),
    ensures
        text_lines(line + seq!['\n'] + rest) == seq![
            if line.len() > 0 && line.last() == '\r' {
                line.drop_last()
            } else {
                line
            },
        ] + text_lines(rest),
        text_lines(line) == (if line.len() == 0 {
            Seq::empty()
        } else {
            seq![line]
        }),
{
    let at = |c: char| Separator::One('\n').separates(c);
    let strip = |t: Seq<char>| without_return(t);
    assert forall|i: int| 0 <= i < line.len() implies !at(#[trigger] line[i]) by {
        assert(line.contains(line[i]));
    }
    law_split_at_separator(line, '\n', rest, at);
    lemma_split_free(line, at);
    lemma_split_some(rest, at);
    let a = seq![line];
    let b = split(rest, at);
    assert((a + b).drop_last() =~= a + b.drop_last());
    assert((a + b).last() == b.last());
    assert((a + b.drop_last()).map_values(strip) =~= a.map_values(strip) + b.drop_last().map_values(
        strip,
    ));
    assert(a.map_values(strip) =~= seq![without_return(line)]);
    assert(text_lines(line + seq!['\n'] + rest) =~= seq![without_return(line)] + text_lines(rest));
    assert(a.drop_last().map_values(strip) =~= Seq::empty());
    assert(text_lines(line) =~= (if line.len() == 0 {
        Seq::empty()
    } else {
        seq![line]
    }));
}

// ---------------------------------------------------------------------------
// Replacing and joining
// ---------------------------------------------------------------------------

proof fn lemma_replaced_at(s: Seq<char>, pat: Seq<char>, with: Seq<char>, k: int)
    requires
        pat.len() > 0,
        occurs_at(s, pat, k),
        forall|i: int| 0 <= i < k ==> !occurs_at(s, pat, i),
    ensures
        replaced(s, pat, with) == s.take(k) + with + replaced(s.skip(k + pat.len()), pat, with),
    decreases k,
{
    let n = pat.len() as int;
    if k == 0 {
        assert(pat.is_prefix_of(s));
        assert(s.take(0) + with =~= with);
    } else {
        let t = s.skip(1);
        assert(!occurs_at(s, pat, 0));
        assert(!pat.is_prefix_of(s));
        assert(t.subrange(k - 1, k - 1 + n) =~= s.subrange(k, k + n));
        assert forall|i: int| 0 <= i < k - 1 implies !occurs_at(t, pat, i) by {
            assert(!occurs_at(s, pat, i + 1));
            assert(t.subrange(i, i + n) =~= s.subrange(i + 1, i + 1 + n));
        }
        lemma_replaced_at(t, pat, with, k - 1);
        let more = replaced(s.skip(k + n), pat, with);
        assert(t.skip(k - 1 + n) =~= s.skip(k + n));
        assert(seq![s[0]] + (t.take(k - 1) + with + more) =~= s.take(k) + with + more);
    }
}

/// Where the pattern first stands it is replaced, what comes before stays, and what follows is dealt
/// with in the same way.
pub proof fn law_first_occurrence_is_replaced(
    before: Seq<char>,
    pat: Seq<char>,
    with: Seq<char>,
    after: Seq<char>,
)
    requires
        pat.len() > 0,
        forall|i: int| 0 <= i < before.len() ==> !occurs_at(before + pat + after, pat, i),
    ensures
        replaced(before + pat + after, pat, with) == before + with + replaced(after, pat, with),
{
    let s = before + pat + after;
    let k = before.len() as int;
    assert(s.subrange(k, k + pat.len()) =~= pat);
    lemma_replaced_at(s, pat, with, k);
    assert(s.take(k) =~= before);
    assert(s.skip(k + pat.len()) =~= after);
}

/// A text in which the pattern stands nowhere stays as it is.
pub proof fn law_text_without_pattern_stays(s: Seq<char>, pat: Seq<char>, with: Seq<char>)
    requires
        pat.len() > 0,
        forall|i: int| 0 <= i < s.len() ==> !occurs_at(s, pat, i),
    ensures
        replaced(s, pat, with) == s,
    decreases s.len(),
{
    if s.len() > 0 {
        let t = s.skip(1);
        assert(!occurs_at(s, pat, 0));
        assert forall|i: int| 0 <= i < t.len() implies !occurs_at(t, pat, i) by {
            assert(!occurs_at(s, pat, i + 1));
            if occurs_at(t, pat, i) {
                assert(t.subrange(i, i + pat.len()) =~= s.subrange(i + 1, i + 1 + pat.len()));
            }
        }
        law_text_without_pattern_stays(t, pat, with);
        assert(seq![s[0]] + t =~= s);
    }
}

/// One text is joined to itself, and each further one is preceded by the separator.
pub proof fn law_joined_texts_are_separated(
    parts: Seq<Seq<char>>,
    more: Seq<char>,
    sep: Seq<char>,
)
    ensures
        joined(parts.push(more), sep) == (if parts.len() == 0 {
            more
        } else {
            joined(parts, sep) + sep + more
        }),
        parts.len() == 0 ==> joined(parts, sep) == Seq::<char>::empty(),
{
    assert(parts.push(more).drop_last() =~= parts);
}

// ---------------------------------------------------------------------------
// Numbers
// ---------------------------------------------------------------------------

/// A row of digits stands for a number in the decimal system: a further digit is worth its place
/// among `0` to `9`, and makes the digits before it worth ten times as much.
pub proof fn law_digits_are_decimal(s: Seq<char>, c: char)
    requires
        '0' <= c <= '9',
    ensures
        digits_value(Seq::<char>::empty()) == 0,
        digits_value(s.push(c)) == 10 * digits_value(s) + (c as int - '0' as int),
{
    assert(s.push(c).drop_last() =~= s);
}

/// What is written in decimal is a row of digits that stands for the number, and has a zero in
/// front only where it is the only digit; padding puts zeros in front until there are enough
/// digits, and does not change what is read.
pub proof fn law_written_number_is_read_back(n: nat, width: nat, max: nat)
    requires
        n <= max,
    ensures
        number(decimal(n), max) == Some(n),
        decimal(n)[0] == '0' ==> decimal(n).len() == 1,
        number(padded(n, width), max) == Some(n),
        padded(n, width).len() == (if decimal(n).len() < width {
            width
        } else {
            decimal(n).len()
        }),
        decimal(n).is_suffix_of(padded(n, width)),
{
    lemma_decimal_reads_back(n);
    lemma_padded_reads_back(n, width, max);
    lemma_no_zero_in_front(n);
    assert(ascii_digit(decimal(n)[0]));
    let d = decimal(n);
    let p = padded(n, width);
    assert(p.subrange(p.len() - d.len(), p.len() as int) =~= d);
}

proof fn lemma_no_zero_in_front(n: nat)
    ensures
        decimal(n).len() >= 1,
        n > 0 ==> decimal(n)[0] != '0',
        n < 10 ==> decimal(n).len() == 1,
    decreases n,
{
    if n >= 10 {
        lemma_no_zero_in_front(n / 10);
        assert(decimal(n)[0] == decimal(n / 10)[0]);
    }
}

/// A row of digits is read as the number that it stands for, with or without a `+` in front, unless
/// that number is beyond the greatest.
pub proof fn law_digits_are_read_up_to_the_greatest(s: Seq<char>, max: nat)
    requires
        s.len() > 0,
        forall|i: int| 0 <= i < s.len() ==> '0' <= #[trigger] s[i] <= '9',
    ensures
        number(s, max) == (if digits_value(s) <= max {
            Some(digits_value(s))
        } else {
            None
        }),
        number(seq!['+'] + s, max) == number(s, max),
{
    assert((seq!['+'] + s).skip(1) =~= s);
    assert(all_digits(s));
}

/// Whatever has a character that is no digit, but for one `+` in front, is no number.
pub proof fn law_other_texts_are_no_numbers(s: Seq<char>, max: nat, i: int)
    requires
        0 <= i < s.len(),
        !('0' <= s[i] <= '9'),
        i > 0 || s[0] != '+' || s.len() == 1,
    ensures
        number(s, max) is None,
{
    if s[0] == '+' {
        let d = s.skip(1);
        if i > 0 {
            assert(d[i - 1] == s[i]);
            assert(!ascii_digit(d[i - 1]));
        }
    } else {
        assert(!ascii_digit(s[i]));
    }
}

} // verus!
