//! When a caption word replaces a transcript word, and how.
use vstd::prelude::*;

use crate::edit::edit_distance;
use crate::find::find_from;
use crate::text::{chars_of, same_text, text_between, uppercase_text};
use crate::vocab::WordSet;
#[allow(unused_imports)]
use crate::edit::word_distance;
#[allow(unused_imports)]
use crate::find::{first_at, lemma_first_at};
#[allow(unused_imports)]
use crate::text::{alphanumeric, ascii_digit, lowercase, uppercase_of};

verus! {

/// `s` has one of the digits `0` to `9`.
pub open spec fn has_digit(s: Seq<char>) -> bool {
    exists|i: int| 0 <= i < s.len() && ascii_digit(#[trigger] s[i])
}

/// A caption word replaces the transcript word it is aligned with when the two differ, it is no
/// common word, has no digit and at least three characters, and when the metadata of the video
/// knows it or it is more than one edit away.
pub open spec fn replaces(
    whisper_word: Seq<char>,
    yt_word: Seq<char>,
    vocab: Set<Seq<char>>,
    stopwords: Set<Seq<char>>,
) -> bool {
    &&& yt_word.len() > 0
    &&& whisper_word.len() > 0
    &&& whisper_word != yt_word
    &&& !stopwords.contains(yt_word)
    &&& !has_digit(yt_word)
    &&& yt_word.len() >= 3
    &&& vocab.contains(yt_word) || word_distance(whisper_word, yt_word) > 1
}

/// Whether the caption word replaces the transcript word.
pub fn should_replace_with_youtube(
    whisper_word: &str,
    yt_word: &str,
    metadata_vocab: &WordSet,
    stopwords: &WordSet,
) -> (r: bool)
    ensures
        r == replaces(whisper_word@, yt_word@, metadata_vocab@, stopwords@),
{
    if yt_word.is_empty() || whisper_word.is_empty() || same_text(whisper_word, yt_word) {
        return false;
    }
    if stopwords.contains(yt_word) {
        return false;
    }
    let v = chars_of(yt_word);
    let mut i: usize = 0;
    while i < v.len()
        invariant
            i <= v@.len(),
            v@ == yt_word@,
            forall|k: int| 0 <= k < i ==> !ascii_digit(#[trigger] v@[k]),
        decreases v@.len() - i,
    {
        if '0' <= v[i] && v[i] <= '9' {
            assert(ascii_digit(yt_word@[i as int]));
            return false;
        }
        i += 1;
    }
    assert(!has_digit(yt_word@));
    if v.len() < 3 {
        return false;
    }
    metadata_vocab.contains(yt_word) || edit_distance(whisper_word, yt_word) > 1
}

/// A word with its first character in upper case and the others in lower case.
pub open spec fn titled(word: Seq<char>) -> Seq<char> {
    if word.len() == 0 {
        Seq::empty()
    } else {
        uppercase_of(word[0]) + lowercase(word.skip(1))
    }
}

/// A word with its first character in upper case and the others in lower case.
pub fn title_case(word: &str) -> (r: String)
    ensures
        r@ == titled(word@),
{
    let v = chars_of(word);
    if v.len() == 0 {
        return String::new();
    }
    let mut out = uppercase_text(v[0]);
    let rest = text_between(&v, 1, v.len());
    assert(v@.skip(1) =~= v@.subrange(1, v@.len() as int));
    out.append(rest.as_str().to_lowercase().as_str());
    out
}

/// How many characters at the start of `s` are neither letters nor digits.
pub open spec fn lead(s: Seq<char>) -> nat
    decreases s.len(),
{
    if s.len() > 0 && !alphanumeric(s[0]) {
        1 + lead(s.skip(1))
    } else {
        0
    }
}

/// One past the last letter or digit of `s` from position `from` on, or `from`.
pub open spec fn core_end(s: Seq<char>, from: nat) -> int
    decreases s.len(),
{
    if s.len() > from && !alphanumeric(s.last()) {
        core_end(s.drop_last(), from)
    } else {
        s.len() as int
    }
}

/// The part of `s` from its first apostrophe on.
pub open spec fn apostrophe_part(s: Seq<char>) -> Seq<char> {
    match first_at(s, seq!['\''], 0) {
        Some(k) => s.skip(k),
        None => Seq::empty(),
    }
}

/// `raw` with its word replaced: what stands before the first and after the last letter or digit
/// stays, and so does what follows the first apostrophe between them.
pub open spec fn with_word(raw: Seq<char>, replacement: Seq<char>) -> Seq<char> {
    let i = lead(raw) as int;
    let j = core_end(raw, i as nat);
    raw.take(i) + replacement + apostrophe_part(raw.subrange(i, j)) + raw.skip(j)
}

pub proof fn lemma_lead(s: Seq<char>)
    ensures
        lead(s) <= s.len(),
        lead(s) < s.len() ==> alphanumeric(s[lead(s) as int]),
    decreases s.len(),
{
    if s.len() > 0 && !alphanumeric(s[0]) {
        lemma_lead(s.skip(1));
    }
}

pub proof fn lemma_core_end(s: Seq<char>, from: nat)
    requires
        from <= s.len(),
    ensures
        from <= core_end(s, from) <= s.len(),
    decreases s.len(),
{
    if s.len() > from && !alphanumeric(s.last()) {
        lemma_core_end(s.drop_last(), from);
    }
}

/// `raw` with its word replaced; the punctuation around the word and a suffix such as `'s` stay.
pub fn replace_word_in_raw(raw: &str, replacement: &str) -> (r: String)
    ensures
        r@ == with_word(raw@, replacement@),
{
    let v = chars_of(raw);
    let n = v.len();
    let mut i: usize = 0;
    assert(v@.skip(0) =~= v@);
    while i < n && !v[i].is_alphanumeric()
        invariant
            i <= n,
            n == v@.len(),
            lead(v@) == i + lead(v@.skip(i as int)),
        decreases n - i,
    {
        assert(v@.skip(i as int).skip(1) =~= v@.skip(i + 1));
        i += 1;
    }
    let mut j: usize = n;
    assert(v@.take(n as int) =~= v@);
    while j > i && !v[j - 1].is_alphanumeric()
        invariant
            i <= j <= n,
            n == v@.len(),
            core_end(v@, i as nat) == core_end(v@.take(j as int), i as nat),
        decreases j,
    {
        assert(v@.take(j as int).drop_last() =~= v@.take(j - 1));
        j -= 1;
    }
    let mut out = text_between(&v, 0, i);
    assert(v@.take(i as int) =~= v@.subrange(0, i as int));
    out.append(replacement);
    let middle = text_between(&v, i, j);
    let m = chars_of(middle.as_str());
    let mut apostrophe: Vec<char> = Vec::new();
    apostrophe.push('\'');
    assert(apostrophe@ =~= seq!['\'']);
    match find_from(&m, &apostrophe, 0) {
        Some(k) => {
            let suffix = text_between(&m, k, m.len());
            assert(m@.skip(k as int) =~= m@.subrange(k as int, m@.len() as int));
            out.append(suffix.as_str());
        },
        None => {
            assert(out@ + Seq::<char>::empty() =~= out@);
        },
    }
    let trailing = text_between(&v, j, n);
    assert(v@.skip(j as int) =~= v@.subrange(j as int, n as int));
    out.append(trailing.as_str());
    out
}

/// Putting the word of `raw` back, up to its first apostrophe, changes nothing.
pub proof fn law_own_word_changes_nothing(raw: Seq<char>)
    ensures
        ({
            let i = lead(raw) as int;
            let middle = raw.subrange(i, core_end(raw, i as nat));
            let own = middle.take(middle.len() - apostrophe_part(middle).len());
            with_word(raw, own) == raw
        }),
{
    let i = lead(raw) as int;
    lemma_lead(raw);
    lemma_core_end(raw, i as nat);
    let j = core_end(raw, i as nat);
    let middle = raw.subrange(i, j);
    lemma_first_at(middle, seq!['\''], 0);
    let suffix = apostrophe_part(middle);
    let own = middle.take(middle.len() - suffix.len());
    assert(own + suffix =~= middle);
    assert(raw.take(i) + own + suffix + raw.skip(j) =~= raw);
}

/// Whatever replaces the word of `raw`, the punctuation before and after it stays.
pub proof fn law_punctuation_stays(raw: Seq<char>, replacement: Seq<char>)
    ensures
        raw.take(lead(raw) as int).is_prefix_of(with_word(raw, replacement)),
        raw.skip(core_end(raw, lead(raw))).is_suffix_of(with_word(raw, replacement)),
{
    let i = lead(raw) as int;
    lemma_lead(raw);
    lemma_core_end(raw, i as nat);
    let j = core_end(raw, i as nat);
    let r = with_word(raw, replacement);
    let suffix = apostrophe_part(raw.subrange(i, j));
    assert(raw.take(i) =~= r.subrange(0, i));
    let tail = raw.skip(j);
    assert(tail =~= r.subrange(r.len() - tail.len(), r.len() as int));
}

} // verus!
