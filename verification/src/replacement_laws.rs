//! Which caption words replace a transcript word, and how the new word is written.
use vstd::prelude::*;

#[allow(unused_imports)]
use crate::edit::{distance, lemma_zero, word_distance};
#[allow(unused_imports)]
use crate::find::{first_at, lemma_first_at, occurs_at};
#[allow(unused_imports)]
use crate::replacement::{apostrophe_part, core_end, lead, lemma_lead, replaces, titled, with_word};
#[allow(unused_imports)]
use crate::text::{all_ascii, alphanumeric, ascii_digit, ascii_small, lowercase, uppercase_of};

verus! {

// ---------------------------------------------------------------------------
// One edit
// ---------------------------------------------------------------------------

/// `b` is `a` with one character changed, inserted or removed, or `a` itself.
pub open spec fn at_most_one_edit(a: Seq<char>, b: Seq<char>) -> bool {
    ||| a == b
    ||| exists|i: int, c: char| 0 <= i < a.len() && b == #[trigger] a.update(i, c)
    ||| exists|i: int, c: char| 0 <= i <= a.len() && b == #[trigger] a.insert(i, c)
    ||| exists|i: int| 0 <= i < a.len() && b == #[trigger] a.remove(i)
}

proof fn lemma_edit_before_last(x: Seq<char>, y: Seq<char>, c: char)
    requires
        at_most_one_edit(x, y),
    ensures
        at_most_one_edit(x.push(c), y.push(c)),
{
    if x == y {
    } else if exists|i: int, d: char| 0 <= i < x.len() && y == #[trigger] x.update(i, d) {
        let (i, d) = choose|i: int, d: char| 0 <= i < x.len() && y == #[trigger] x.update(i, d);
        assert(y.push(c) =~= x.push(c).update(i, d));
    } else if exists|i: int, d: char| 0 <= i <= x.len() && y == #[trigger] x.insert(i, d) {
        let (i, d) = choose|i: int, d: char| 0 <= i <= x.len() && y == #[trigger] x.insert(i, d);
        assert(y.push(c) =~= x.push(c).insert(i, d));
    } else {
        let i = choose|i: int| 0 <= i < x.len() && y == #[trigger] x.remove(i);
        assert(y.push(c) =~= x.push(c).remove(i));
    }
}

proof fn lemma_near_is_one_edit(a: Seq<char>, b: Seq<char>, i: nat, j: nat)
    requires
        i <= a.len(),
        j <= b.len(),
        distance(a, b, i, j) <= 1,
    ensures
        at_most_one_edit(a.take(i as int), b.take(j as int)),
    decreases i + j,
{
    let x = a.take(i as int);
    let y = b.take(j as int);
    lemma_zero(a, b, i, j);
    if distance(a, b, i, j) == 0 {
    } else if i == 0 {
        assert(y =~= x.insert(0, b[0]));
    } else if j == 0 {
        assert(y =~= x.remove(0));
    } else {
        let p = (i - 1) as nat;
        let q = (j - 1) as nat;
        lemma_zero(a, b, p, j);
        lemma_zero(a, b, i, q);
        lemma_zero(a, b, p, q);
        if distance(a, b, p, j) == 0 {
            assert(y =~= x.remove(i - 1));
        } else if distance(a, b, i, q) == 0 {
            assert(y =~= x.insert(i as int, b[j - 1])) by {
                assert(y =~= b.take(j - 1).push(b[j - 1]));
            }
        } else if a[i - 1] == b[j - 1] {
            lemma_near_is_one_edit(a, b, p, q);
            lemma_edit_before_last(a.take(i - 1), b.take(j - 1), a[i - 1]);
            assert(x =~= a.take(i - 1).push(a[i - 1]));
            assert(y =~= b.take(j - 1).push(b[j - 1]));
        } else {
            assert(y =~= x.update(i - 1, b[j - 1])) by {
                assert(y =~= b.take(j - 1).push(b[j - 1]));
                assert(x =~= a.take(i - 1).push(a[i - 1]));
            }
        }
    }
}

/// Where the rest of both words is the same, it costs nothing.
proof fn lemma_same_rest(a: Seq<char>, b: Seq<char>, i: nat, j: nat, n: nat)
    requires
        i + n <= a.len(),
        j + n <= b.len(),
        forall|k: int| 0 <= k < n ==> #[trigger] a[i + k] == b[j + k],
    ensures
        distance(a, b, i + n, j + n) <= distance(a, b, i, j),
    decreases n,
{
    if n > 0 {
        lemma_same_rest(a, b, i, j, (n - 1) as nat);
        assert(a[i + (n - 1)] == b[j + (n - 1)]);
        if i + n == 0 || j + n == 0 {
        }
    }
}

proof fn lemma_same_start(a: Seq<char>, b: Seq<char>, n: nat)
    requires
        n <= a.len(),
        n <= b.len(),
        forall|k: int| 0 <= k < n ==> #[trigger] a[k] == b[k],
    ensures
        distance(a, b, n, n) == 0,
{
    assert(a.take(n as int) =~= b.take(n as int));
    lemma_zero(a, b, n, n);
}

proof fn lemma_one_edit_is_near(a: Seq<char>, b: Seq<char>)
    requires
        at_most_one_edit(a, b),
    ensures
        word_distance(a, b) <= 1,
{
    if a == b {
        lemma_same_start(a, b, a.len());
    } else if exists|i: int, c: char| 0 <= i < a.len() && b == #[trigger] a.update(i, c) {
        let (i, c) = choose|i: int, c: char| 0 <= i < a.len() && b == #[trigger] a.update(i, c);
        lemma_same_start(a, b, i as nat);
        lemma_same_rest(a, b, (i + 1) as nat, (i + 1) as nat, (a.len() - i - 1) as nat);
    } else if exists|i: int, c: char| 0 <= i <= a.len() && b == #[trigger] a.insert(i, c) {
        let (i, c) = choose|i: int, c: char| 0 <= i <= a.len() && b == #[trigger] a.insert(i, c);
        lemma_same_start(a, b, i as nat);
        assert(distance(a, b, i as nat, (i + 1) as nat) <= 1);
        lemma_same_rest(a, b, i as nat, (i + 1) as nat, (a.len() - i) as nat);
    } else {
        let i = choose|i: int| 0 <= i < a.len() && b == #[trigger] a.remove(i);
        lemma_same_start(a, b, i as nat);
        assert(distance(a, b, (i + 1) as nat, i as nat) <= 1);
        lemma_same_rest(a, b, (i + 1) as nat, i as nat, (a.len() - i - 1) as nat);
    }
}

// ---------------------------------------------------------------------------
// When a caption word is taken
// ---------------------------------------------------------------------------

/// The caption word has three characters or more, and none of them is a digit.
pub open spec fn could_be_a_name(yt: Seq<char>) -> bool {
    &&& yt.len() >= 3
    &&& forall|i: int| 0 <= i < yt.len() ==> !('0' <= #[trigger] yt[i] <= '9')
}

/// A caption word that no single change, insertion or removal of a character makes out of the
/// transcript word replaces it, whatever the lengths of the two are and whatever the metadata
/// knows, if it is no common word, has no digit and has at least three characters.
pub proof fn law_distant_caption_word_is_taken(
    whisper: Seq<char>,
    yt: Seq<char>,
    vocab: Set<Seq<char>>,
    stopwords: Set<Seq<char>>,
)
    requires
        whisper.len() > 0,
        could_be_a_name(yt),
        !stopwords.contains(yt),
        yt != whisper,
        forall|i: int, c: char| 0 <= i < whisper.len() ==> yt != #[trigger] whisper.update(i, c),
        forall|i: int, c: char| 0 <= i <= whisper.len() ==> yt != #[trigger] whisper.insert(i, c),
        forall|i: int| 0 <= i < whisper.len() ==> yt != #[trigger] whisper.remove(i),
    ensures
        replaces(whisper, yt, vocab, stopwords),
{
    if word_distance(whisper, yt) <= 1 {
        lemma_near_is_one_edit(whisper, yt, whisper.len(), yt.len());
        assert(whisper.take(whisper.len() as int) =~= whisper);
        assert(yt.take(yt.len() as int) =~= yt);
    }
}

/// A caption word that the metadata mentions replaces any other transcript word, however near the
/// two are, if it is no common word, has no digit and has at least three characters.
pub proof fn law_mentioned_caption_word_is_taken(
    whisper: Seq<char>,
    yt: Seq<char>,
    vocab: Set<Seq<char>>,
    stopwords: Set<Seq<char>>,
)
    requires
        whisper.len() > 0,
        could_be_a_name(yt),
        !stopwords.contains(yt),
        yt != whisper,
        vocab.contains(yt),
    ensures
        replaces(whisper, yt, vocab, stopwords),
{
}

/// A caption word that the metadata does not mention, and that one change, insertion or removal of
/// a character makes out of the transcript word, replaces nothing: it is a way to spell the word.
pub proof fn law_near_caption_word_is_left(
    whisper: Seq<char>,
    yt: Seq<char>,
    vocab: Set<Seq<char>>,
    stopwords: Set<Seq<char>>,
    i: int,
    c: char,
)
    requires
        !vocab.contains(yt),
        ({
            ||| 0 <= i < whisper.len() && yt == whisper.update(i, c)
            ||| 0 <= i <= whisper.len() && yt == whisper.insert(i, c)
            ||| 0 <= i < whisper.len() && yt == whisper.remove(i)
        }),
    ensures
        !replaces(whisper, yt, vocab, stopwords),
{
    lemma_one_edit_is_near(whisper, yt);
}

/// A caption word is never taken that is the transcript word, that is a common word, that has a
/// digit, or that has fewer than three characters; nor for a transcript word without characters.
pub proof fn law_caption_words_that_are_never_taken(
    whisper: Seq<char>,
    yt: Seq<char>,
    vocab: Set<Seq<char>>,
    stopwords: Set<Seq<char>>,
)
    requires
        ({
            ||| whisper == yt
            ||| stopwords.contains(yt)
            ||| yt.len() < 3
            ||| whisper.len() == 0
            ||| exists|i: int| 0 <= i < yt.len() && '0' <= #[trigger] yt[i] <= '9'
        }),
    ensures
        !replaces(whisper, yt, vocab, stopwords),
{
    if exists|i: int| 0 <= i < yt.len() && '0' <= #[trigger] yt[i] <= '9' {
        let i = choose|i: int| 0 <= i < yt.len() && '0' <= #[trigger] yt[i] <= '9';
        assert(ascii_digit(yt[i]));
    }
}

// ---------------------------------------------------------------------------
// How the new word is written
// ---------------------------------------------------------------------------

/// The capital of a small ASCII letter.
pub open spec fn capital_of(c: char) -> char {
    (c as int - 'a' as int + 'A' as int) as char
}

/// A word of small ASCII letters is written with its first letter as a capital, and with all
/// others as they are.
pub proof fn law_title_begins_with_a_capital(word: Seq<char>)
    requires
        word.len() > 0,
        forall|i: int| 0 <= i < word.len() ==> 'a' <= #[trigger] word[i] <= 'z',
    ensures
        titled(word) == word.update(0, capital_of(word[0])),
{
    let rest = word.skip(1);
    assert(all_ascii(rest)) by {
        assert forall|i: int| 0 <= i < rest.len() implies (#[trigger] rest[i] as int) < 0x80 by {
            assert(rest[i] == word[i + 1]);
        }
    }
    assert forall|i: int| 0 <= i < rest.len() implies ascii_small(#[trigger] rest[i]) == rest[i] by {
        assert(rest[i] == word[i + 1]);
    }
    assert(lowercase(rest) =~= rest);
    assert(titled(word) =~= word.update(0, capital_of(word[0])));
}

/// In any script, a word is written with its first character as a capital, and with all others in
/// small letters.
pub proof fn law_title_of_any_word(c: char, rest: Seq<char>)
    ensures
        titled(seq![c] + rest) == uppercase_of(c) + lowercase(rest),
        titled(Seq::<char>::empty()) == Seq::<char>::empty(),
{
    assert((seq![c] + rest).skip(1) =~= rest);
}

/// No character of the text is a letter or a digit.
pub open spec fn only_marks(s: Seq<char>) -> bool {
    forall|i: int| 0 <= i < s.len() ==> !alphanumeric(#[trigger] s[i])
}

proof fn lemma_lead_of(before: Seq<char>, rest: Seq<char>)
    requires
        only_marks(before),
        rest.len() > 0,
        alphanumeric(rest[0]),
    ensures
        lead(before + rest) == before.len(),
    decreases before.len(),
{
    let s = before + rest;
    if before.len() == 0 {
        assert(s[0] == rest[0]);
    } else {
        let short = before.skip(1);
        assert forall|i: int| 0 <= i < short.len() implies !alphanumeric(#[trigger] short[i]) by {
            assert(short[i] == before[i + 1]);
        }
        assert(s[0] == before[0]);
        assert(s.skip(1) =~= short + rest);
        lemma_lead_of(short, rest);
    }
}

proof fn lemma_core_end_of(front: Seq<char>, after: Seq<char>, from: nat)
    requires
        only_marks(after),
        front.len() > from,
        alphanumeric(front.last()),
    ensures
        core_end(front + after, from) == front.len(),
    decreases after.len(),
{
    let s = front + after;
    if after.len() == 0 {
        assert(s =~= front);
    } else {
        let short = after.drop_last();
        assert forall|i: int| 0 <= i < short.len() implies !alphanumeric(#[trigger] short[i]) by {
            assert(short[i] == after[i]);
        }
        assert(s.last() == after[after.len() - 1]);
        assert(s.drop_last() =~= front + short);
        lemma_core_end_of(front, short, from);
    }
}

proof fn lemma_with_word_of(
    before: Seq<char>,
    word: Seq<char>,
    after: Seq<char>,
    replacement: Seq<char>,
)
    requires
        only_marks(before),
        only_marks(after),
        word.len() > 0,
        alphanumeric(word[0]),
        alphanumeric(word.last()),
    ensures
        with_word(before + word + after, replacement) == before + replacement + apostrophe_part(
            word,
        ) + after,
{
    let raw = before + word + after;
    assert(raw =~= before + (word + after));
    assert((word + after)[0] == word[0]);
    lemma_lead_of(before, word + after);
    assert((before + word).last() == word.last());
    lemma_core_end_of(before + word, after, before.len());
    assert(raw.take(before.len() as int) =~= before);
    assert(raw.subrange(before.len() as int, (before + word).len() as int) =~= word);
    assert(raw.skip((before + word).len() as int) =~= after);
}

/// The word between the marks is replaced as a whole where it has no apostrophe, and the marks
/// before and after it stay.
pub proof fn law_word_between_marks_is_replaced(
    before: Seq<char>,
    word: Seq<char>,
    after: Seq<char>,
    replacement: Seq<char>,
)
    requires
        only_marks(before),
        only_marks(after),
        word.len() > 0,
        alphanumeric(word[0]),
        alphanumeric(word.last()),
        !word.contains('\''),
    ensures
        with_word(before + word + after, replacement) == before + replacement + after,
{
    lemma_with_word_of(before, word, after, replacement);
    lemma_first_at(word, seq!['\''], 0);
    if let Some(k) = first_at(word, seq!['\''], 0) {
        assert(word.subrange(k, k + 1)[0] == '\'');
        assert(word.contains(word[k]));
    }
    assert(before + replacement + Seq::<char>::empty() + after =~= before + replacement + after);
}

/// Where the word has an apostrophe, what stands before the first is replaced, and the apostrophe
/// and what follows it stay, as in a genitive.
pub proof fn law_word_before_apostrophe_is_replaced(
    before: Seq<char>,
    word: Seq<char>,
    ending: Seq<char>,
    after: Seq<char>,
    replacement: Seq<char>,
)
    requires
        only_marks(before),
        only_marks(after),
        word.len() > 0,
        alphanumeric(word[0]),
        !word.contains('\''),
        ending.len() > 0,
        alphanumeric(ending.last()),
    ensures
        with_word(before + (word + seq!['\''] + ending) + after, replacement) == before + replacement
            + (seq!['\''] + ending) + after,
{
    let whole = word + seq!['\''] + ending;
    assert(whole[0] == word[0]);
    assert(whole.last() == ending.last());
    lemma_with_word_of(before, whole, after, replacement);
    let k = word.len() as int;
    lemma_first_at(whole, seq!['\''], 0);
    assert(whole.subrange(k, k + 1) =~= seq!['\'']);
    assert(occurs_at(whole, seq!['\''], k));
    assert forall|i: int| 0 <= i < k implies !occurs_at(whole, seq!['\''], i) by {
        if occurs_at(whole, seq!['\''], i) {
            assert(whole.subrange(i, i + 1)[0] == '\'');
            assert(word[i] == '\'');
            assert(word.contains('\''));
        }
    }
    assert(whole.skip(k) =~= seq!['\''] + ending);
}

/// A text without letters and digits is followed by the replacement.
pub proof fn law_replacement_follows_marks(raw: Seq<char>, replacement: Seq<char>)
    requires
        only_marks(raw),
    ensures
        with_word(raw, replacement) == raw + replacement,
{
    lemma_lead(raw);
    let i = lead(raw) as int;
    assert(i == raw.len()) by {
        if i < raw.len() {
            assert(alphanumeric(raw[i]));
        }
    }
    let none = Seq::<char>::empty();
    assert(raw.subrange(i, i) =~= none);
    lemma_first_at(none, seq!['\''], 0);
    assert(core_end(raw, i as nat) == raw.len());
    assert(raw.take(i) =~= raw);
    assert(raw.skip(i) =~= none);
    assert(apostrophe_part(none) =~= none);
    assert(raw + replacement + none + none =~= raw + replacement);
}

} // verus!
