//! What the words of transcripts and captions are, piece by piece.
use vstd::prelude::*;

#[allow(unused_imports)]
use crate::caption_laws::{lemma_no_ampersand, lemma_no_bracket, unmarked};
#[allow(unused_imports)]
use crate::captions::plain_caption;
#[allow(unused_imports)]
use crate::hybrid::block_tokens;
#[allow(unused_imports)]
use crate::srt::Block;
#[allow(unused_imports)]
use crate::subtitle_laws::lemma_filter_map_adds;
#[allow(unused_imports)]
use crate::text::{all_ascii, alphanumeric, ascii_small, lowercase, white_space};
#[allow(unused_imports)]
use crate::text_laws::{all_white, law_white_space_parts_words};
#[allow(unused_imports)]
use crate::tokens::{
    all_caption_words, caption_text, caption_words, in_window, line_tokens, normal_form,
    outside_tags, run, without_repeats, word_char, word_part, Caption, Token,
};
#[allow(unused_imports)]
use crate::trim::words;

verus! {

// ---------------------------------------------------------------------------
// Normal forms
// ---------------------------------------------------------------------------

/// A word keeps its letters, digits and apostrophes, in order, and nothing else.
pub proof fn law_word_keeps_letters_and_digits(a: Seq<char>, c: char, b: Seq<char>)
    ensures
        word_part(Seq::<char>::empty()) == Seq::<char>::empty(),
        word_part(a + seq![c] + b) == word_part(a) + (if alphanumeric(c) || c == '\'' {
            seq![c]
        } else {
            Seq::empty()
        }) + word_part(b),
{
    let keep = |c: char| word_char(c);
    let none = Seq::<char>::empty();
    reveal(Seq::filter);
    assert(none.filter(keep) =~= none);
    Seq::filter_distributes_over_add(a + seq![c], b, keep);
    Seq::filter_distributes_over_add(a, seq![c], keep);
    assert(none.push(c) =~= seq![c]);
    none.lemma_filter_push(c, keep);
    assert(seq![c].filter(keep) =~= (if alphanumeric(c) || c == '\'' {
        seq![c]
    } else {
        none
    }));
}

/// A letter, a digit or an apostrophe, of ASCII.
pub open spec fn ascii_word_char(c: char) -> bool {
    'A' <= c <= 'Z' || 'a' <= c <= 'z' || '0' <= c <= '9' || c == '\''
}

/// A capital as a small letter, and every other character as it is.
pub open spec fn small_of(c: char) -> char {
    if 'A' <= c <= 'Z' {
        (c as int - 'A' as int + 'a' as int) as char
    } else {
        c
    }
}

/// No character is a letter, a digit or an apostrophe.
pub open spec fn no_word_char(s: Seq<char>) -> bool {
    forall|i: int| 0 <= i < s.len() ==> !alphanumeric(#[trigger] s[i]) && s[i] != '\''
}

/// The normal form of an ASCII word between other characters, which are no part of words, is the
/// word in small letters, character by character.
pub proof fn law_normal_form_is_small(before: Seq<char>, word: Seq<char>, after: Seq<char>)
    requires
        no_word_char(before),
        no_word_char(after),
        forall|i: int| 0 <= i < word.len() ==> ascii_word_char(#[trigger] word[i]),
    ensures
        normal_form(before + word + after) == word.map_values(|c: char| small_of(c)),
        normal_form(before) == Seq::<char>::empty(),
{
    let none = Seq::<char>::empty();
    lemma_word_part_of(before, none, none);
    assert(before + none + none =~= before);
    lemma_small_word(none);
    assert(none.map_values(|c: char| small_of(c)) =~= none);
    lemma_word_part_of(before, word, after);
    lemma_small_word(word);
}

proof fn lemma_word_part_of(before: Seq<char>, word: Seq<char>, after: Seq<char>)
    requires
        no_word_char(before),
        no_word_char(after),
        forall|i: int| 0 <= i < word.len() ==> ascii_word_char(#[trigger] word[i]),
    ensures
        word_part(before + word + after) == word,
{
    let keep = |c: char| word_char(c);
    Seq::filter_distributes_over_add(before + word, after, keep);
    Seq::filter_distributes_over_add(before, word, keep);
    lemma_filter_none(before, keep);
    lemma_filter_none(after, keep);
    assert forall|i: int| 0 <= i < word.len() implies keep(#[trigger] word[i]) by {
        assert(ascii_word_char(word[i]));
    }
    lemma_filter_all(word, keep);
    assert(Seq::<char>::empty() + word + Seq::<char>::empty() =~= word);
}

proof fn lemma_small_word(word: Seq<char>)
    requires
        forall|i: int| 0 <= i < word.len() ==> ascii_word_char(#[trigger] word[i]),
    ensures
        lowercase(word) == word.map_values(|c: char| small_of(c)),
{
    assert(all_ascii(word)) by {
        assert forall|i: int| 0 <= i < word.len() implies (#[trigger] word[i] as int) < 0x80 by {
            assert(ascii_word_char(word[i]));
        }
    }
    let a = word.map_values(|c: char| ascii_small(c));
    let b = word.map_values(|c: char| small_of(c));
    assert forall|i: int| 0 <= i < word.len() implies a[i] == b[i] by {
        assert(ascii_small(word[i]) == small_of(word[i]));
    }
    assert(a =~= b);
}

proof fn lemma_filter_none(s: Seq<char>, keep: spec_fn(char) -> bool)
    requires
        forall|i: int| 0 <= i < s.len() ==> !keep(#[trigger] s[i]),
    ensures
        s.filter(keep) == Seq::<char>::empty(),
    decreases s.len(),
{
    reveal(Seq::filter);
    if s.len() > 0 {
        assert forall|i: int| 0 <= i < s.len() - 1 implies !keep(#[trigger] s.drop_last()[i]) by {
            assert(s.drop_last()[i] == s[i]);
        }
        assert(!keep(s[s.len() - 1]));
        lemma_filter_none(s.drop_last(), keep);
    }
}

proof fn lemma_filter_all(s: Seq<char>, keep: spec_fn(char) -> bool)
    requires
        forall|i: int| 0 <= i < s.len() ==> keep(#[trigger] s[i]),
    ensures
        s.filter(keep) == s,
    decreases s.len(),
{
    reveal(Seq::filter);
    if s.len() > 0 {
        assert forall|i: int| 0 <= i < s.len() - 1 implies keep(#[trigger] s.drop_last()[i]) by {
            assert(s.drop_last()[i] == s[i]);
        }
        assert(keep(s[s.len() - 1]));
        lemma_filter_all(s.drop_last(), keep);
        assert(s.drop_last().push(s.last()) =~= s);
    }
}

/// In any script, the normal form of a word is what remains of it, in small letters.
pub proof fn law_normal_form_of_any_word(s: Seq<char>)
    ensures
        normal_form(s) == lowercase(s.filter(|c: char| alphanumeric(c) || c == '\'')),
{
    let a = |c: char| alphanumeric(c) || c == '\'';
    let b = |c: char| word_char(c);
    lemma_same_filter(s, a, b);
}

proof fn lemma_same_filter(s: Seq<char>, a: spec_fn(char) -> bool, b: spec_fn(char) -> bool)
    requires
        forall|c: char| #[trigger] a(c) == b(c),
    ensures
        s.filter(a) == s.filter(b),
    decreases s.len(),
{
    reveal(Seq::filter);
    if s.len() > 0 {
        lemma_same_filter(s.drop_last(), a, b);
        assert(a(s.last()) == b(s.last()));
    }
}

// ---------------------------------------------------------------------------
// Transcript lines
// ---------------------------------------------------------------------------

/// No character is white space.
pub open spec fn no_white(s: Seq<char>) -> bool {
    forall|i: int| 0 <= i < s.len() ==> !white_space(#[trigger] s[i])
}

proof fn lemma_run_of(a: Seq<char>, b: Seq<char>, white: bool)
    requires
        forall|i: int| 0 <= i < a.len() ==> white_space(#[trigger] a[i]) == white,
        b.len() > 0 ==> white_space(b[0]) != white,
    ensures
        run(a + b, white) == a.len(),
    decreases a.len(),
{
    let s = a + b;
    if a.len() == 0 {
        assert(s =~= b);
    } else {
        let short = a.skip(1);
        assert forall|i: int| 0 <= i < short.len() implies white_space(#[trigger] short[i])
            == white by {
            assert(short[i] == a[i + 1]);
        }
        assert(s[0] == a[0]);
        assert(s.skip(1) =~= short + b);
        lemma_run_of(short, b, white);
    }
}

/// A line begins with a word, which may have white space before it, and goes on with its other
/// words; each word is written as it stands there, is compared by its normal form, and belongs to
/// its line. White space at the end of a line makes a word without characters.
pub proof fn law_line_is_taken_apart(
    white: Seq<char>,
    word: Seq<char>,
    rest: Seq<char>,
    line_idx: int,
)
    requires
        all_white(white),
        no_white(word),
        word.len() > 0,
        rest.len() > 0 ==> white_space(rest[0]),
    ensures
        line_tokens(white + word + rest, line_idx) == seq![
            Token { leading_ws: white, raw: word, word: normal_form(word), line_idx },
        ] + line_tokens(rest, line_idx),
        white.len() > 0 ==> line_tokens(white, line_idx) == seq![
            Token { leading_ws: white, raw: Seq::empty(), word: Seq::empty(), line_idx },
        ],
        line_tokens(Seq::<char>::empty(), line_idx) == Seq::<Token>::empty(),
{
    let line = white + word + rest;
    let none = Seq::<char>::empty();
    assert(line =~= white + (word + rest));
    assert((word + rest)[0] == word[0]);
    lemma_run_of(white, word + rest, true);
    lemma_run_of(word, rest, false);
    assert(line.skip(white.len() as int) =~= word + rest);
    assert(line.take(white.len() as int) =~= white);
    assert((word + rest).take(word.len() as int) =~= word);
    assert((word + rest).skip(word.len() as int) =~= rest);
    lemma_run_of(white, none, true);
    assert(white + none =~= white);
}

/// The words of several lines are those of each line, in order, each with the number of its line.
pub proof fn law_words_know_their_line(lines: Seq<Seq<char>>, line: Seq<char>)
    ensures
        block_tokens(lines.push(line)) == block_tokens(lines) + line_tokens(line, lines.len() as int),
        block_tokens(Seq::<Seq<char>>::empty()) == Seq::<Token>::empty(),
{
    assert(lines.push(line).drop_last() =~= lines);
}

// ---------------------------------------------------------------------------
// Caption lines
// ---------------------------------------------------------------------------

proof fn lemma_in_tag(body: Seq<char>, after: Seq<char>)
    requires
        !body.contains('>'),
    ensures
        outside_tags(body + seq!['>'] + after, true) == outside_tags(after, false),
    decreases body.len(),
{
    let s = body + seq!['>'] + after;
    if body.len() == 0 {
        assert(s.skip(1) =~= after);
    } else {
        assert(body.contains(body[0]));
        let short = body.skip(1);
        assert(!short.contains('>')) by {
            assert forall|i: int| 0 <= i < short.len() implies #[trigger] short[i] != '>' by {
                assert(short[i] == body[i + 1]);
                assert(body.contains(body[i + 1]));
            }
        }
        assert(s[0] == body[0]);
        assert(s.skip(1) =~= short + seq!['>'] + after);
        lemma_in_tag(short, after);
    }
}

/// What stands before a tag of a caption stays, the tag goes, and what follows it is dealt with in
/// the same way. Captions without tags stay as they are.
pub proof fn law_tags_of_captions_go(before: Seq<char>, body: Seq<char>, after: Seq<char>)
    requires
        !before.contains('<'),
        !body.contains('>'),
    ensures
        outside_tags(before + (seq!['<'] + body + seq!['>'] + after), false) == before + outside_tags(
            after,
            false,
        ),
        outside_tags(before, false) == before,
    decreases before.len(),
{
    let tail = seq!['<'] + body + seq!['>'] + after;
    let s = before + tail;
    if before.len() == 0 {
        assert(s =~= tail);
        assert(tail.skip(1) =~= body + seq!['>'] + after);
        lemma_in_tag(body, after);
        assert(before + outside_tags(after, false) =~= outside_tags(after, false));
        assert(outside_tags(before, false) =~= before);
    } else {
        assert(before.contains(before[0]));
        let short = before.skip(1);
        assert(!short.contains('<')) by {
            assert forall|i: int| 0 <= i < short.len() implies #[trigger] short[i] != '<' by {
                assert(short[i] == before[i + 1]);
                assert(before.contains(before[i + 1]));
            }
        }
        assert(s[0] == before[0]);
        assert(s.skip(1) =~= short + tail);
        law_tags_of_captions_go(short, body, after);
        assert(seq![before[0]] + (short + outside_tags(after, false)) =~= before + outside_tags(
            after,
            false,
        ));
        assert(seq![before[0]] + short =~= before);
    }
}

/// A caption line without tags and escapes has the words that stand in it between white space, in
/// order and in their normal forms; words without letters and digits are left out.
pub proof fn law_caption_words_are_normal_forms(a: Seq<char>, c: char, b: Seq<char>)
    requires
        unmarked(a),
        unmarked(b),
        white_space(c),
    ensures
        caption_words(a + seq![c] + b) == caption_words(a) + caption_words(b),
        no_white(a) ==> caption_words(a) == (if normal_form(a).len() == 0 {
            Seq::empty()
        } else {
            seq![normal_form(a)]
        }),
{
    let form = |w: Seq<char>|
        if normal_form(w).len() == 0 {
            None
        } else {
            Some(normal_form(w))
        };
    let all = a + seq![c] + b;
    assert(unmarked(all)) by {
        assert forall|i: int| 0 <= i < all.len() implies #[trigger] all[i] != '<' && all[i] != '&' by {
            if i < a.len() {
                assert(all[i] == a[i]);
            } else if i > a.len() {
                assert(all[i] == b[i - a.len() - 1]);
            }
        }
    }
    lemma_unmarked_caption(a);
    lemma_unmarked_caption(b);
    lemma_unmarked_caption(all);
    law_white_space_parts_words(a, c, b);
    lemma_filter_map_adds(words(a), words(b), form);
    if no_white(a) {
        if a.len() == 0 {
            assert(words(a).filter_map(form) =~= Seq::empty());
            assert(normal_form(a).len() == 0) by {
                law_word_keeps_letters_and_digits(a, c, b);
                assert(a =~= Seq::empty());
            }
        } else {
            let one = seq![a];
            assert(one.take(0) =~= Seq::empty());
            assert(one.take(1) =~= one);
            one.lemma_filter_map_take_succ(form, 0);
            assert(Seq::<Seq<char>>::empty().filter_map(form) =~= Seq::empty());
            assert(one.filter_map(form) =~= (if normal_form(a).len() == 0 {
                Seq::empty()
            } else {
                seq![normal_form(a)]
            }));
        }
    }
}

proof fn lemma_unmarked_caption(s: Seq<char>)
    requires
        unmarked(s),
    ensures
        caption_text(s) == s,
{
    assert(!s.contains('<'));
    assert(!s.contains('&'));
    law_tags_of_captions_go(s, Seq::empty(), Seq::empty());
    lemma_no_ampersand(s);
}

/// The words of captions are those of each caption, in order, line by line, and each has the times
/// of its caption.
pub proof fn law_caption_words_have_their_times(blocks: Seq<Block>, b: Block, line: Seq<char>, k: int)
    requires
        b.text_lines.len() > 0,
        line == b.text_lines.last(),
        0 <= k < caption_words(line).len(),
    ensures
        all_caption_words(Seq::<Block>::empty()) == Seq::<Caption>::empty(),
        all_caption_words(blocks.push(Block { text_lines: Seq::empty(), ..b })) == all_caption_words(
            blocks,
        ),
        all_caption_words(blocks.push(b)).len() == all_caption_words(
            blocks.push(Block { text_lines: b.text_lines.drop_last(), ..b }),
        ).len() + caption_words(line).len(),
        all_caption_words(blocks.push(Block { text_lines: b.text_lines.drop_last(), ..b })).is_prefix_of(
            all_caption_words(blocks.push(b)),
        ),
        all_caption_words(blocks.push(b))[all_caption_words(
            blocks.push(Block { text_lines: b.text_lines.drop_last(), ..b }),
        ).len() + k] == (Caption {
            word: caption_words(line)[k],
            start_ms: b.start_ms,
            end_ms: b.end_ms,
        }),
{
    let none = Block { text_lines: Seq::empty(), ..b };
    let fewer = Block { text_lines: b.text_lines.drop_last(), ..b };
    assert(blocks.push(none).drop_last() =~= blocks);
    assert(blocks.push(fewer).drop_last() =~= blocks);
    assert(blocks.push(b).drop_last() =~= blocks);
    let before = all_caption_words(blocks);
    assert(before + Seq::<Caption>::empty() =~= before);
    let x = all_caption_words(blocks.push(fewer));
    let more = caption_words(line).map_values(
        |w: Seq<char>| Caption { word: w, start_ms: b.start_ms, end_ms: b.end_ms },
    );
    let y = all_caption_words(blocks.push(b));
    assert(y =~= x + more);
    assert(y.subrange(0, x.len() as int) =~= x);
}

/// Of words that follow each other and are the same, only the first is kept, with its times; every
/// other word is kept.
pub proof fn law_repeated_caption_words_go(s: Seq<Caption>, c: Caption)
    ensures
        without_repeats(Seq::<Caption>::empty()) == Seq::<Caption>::empty(),
        without_repeats(s.push(c)) == (if s.len() > 0 && s.last().word == c.word {
            without_repeats(s)
        } else {
            without_repeats(s).push(c)
        }),
{
    assert(s.push(c).drop_last() =~= s);
    if s.len() > 0 {
        assert(s.push(c)[s.push(c).len() - 2] == s.last());
    }
}

/// A caption belongs to a subtitle exactly if it ends no more than four seconds before the subtitle
/// begins, and begins no more than four seconds after it ends.
pub proof fn law_window_is_four_seconds_wide(c: Caption, start: nat, end: nat)
    ensures
        in_window(c, start, end) <==> c.end_ms + 4000 >= start && c.start_ms <= end + 4000,
{
}

/// A tag within a caption line changes none of its words, and the escapes of a line are undone as in
/// the plain text of captions.
pub proof fn law_tags_change_no_caption_words(before: Seq<char>, body: Seq<char>, after: Seq<char>)
    requires
        unmarked(before),
        unmarked(after),
        !body.contains('>'),
    ensures
        caption_words(before + (seq!['<'] + body + seq!['>'] + after)) == caption_words(
            before + after,
        ),
{
    let both = before + after;
    assert(unmarked(both)) by {
        assert forall|i: int| 0 <= i < both.len() implies #[trigger] both[i] != '<' && both[i]
            != '&' by {
            if i < before.len() {
                assert(both[i] == before[i]);
            } else {
                assert(both[i] == after[i - before.len()]);
            }
        }
    }
    assert(!before.contains('<'));
    assert(!after.contains('<'));
    law_tags_of_captions_go(before, body, after);
    law_tags_of_captions_go(after, Seq::empty(), Seq::empty());
    lemma_unmarked_caption(both);
    assert(!both.contains('<'));
    law_tags_of_captions_go(both, Seq::empty(), Seq::empty());
}

/// A caption line without tags is written as in the plain text of captions.
pub proof fn law_captions_without_tags_are_plain(s: Seq<char>)
    requires
        !s.contains('<'),
    ensures
        caption_text(s) == plain_caption(s),
{
    law_tags_of_captions_go(s, Seq::empty(), Seq::empty());
    lemma_no_bracket(s);
}

/// The words of any caption line are those of what stands outside its tags, with the escapes undone.
pub proof fn law_caption_words_stand_outside_tags(line: Seq<char>, other: Seq<char>)
    requires
        !other.contains('<'),
        outside_tags(line, false) == other,
    ensures
        caption_words(line) == caption_words(other),
{
    law_tags_of_captions_go(other, Seq::empty(), Seq::empty());
}

} // verus!
