//! Which names the metadata of a video gives, field by field and word by word.
use vstd::prelude::*;

#[allow(unused_imports)]
use crate::find::{first_at, lemma_first_at, occurs_at};
#[allow(unused_imports)]
use crate::metadata::{
    field_value, literal_value, looks_like_name, name_fields, names_in, proper_nouns, quoted,
    string_field,
};
#[allow(unused_imports)]
use crate::srt_laws::lemma_split_free;
#[allow(unused_imports)]
use crate::text::{alphanumeric, lowercase, upper_case, white_space};
#[allow(unused_imports)]
use crate::text_laws::{all_white, law_leading_white_space_is_cut, law_split_at_separator};
#[allow(unused_imports)]
use crate::trim::{lemma_split_some, pieces, split, Separator};

verus! {

/// The fields of the metadata in which names are looked for.
pub open spec fn tells_names(field: Seq<char>) -> bool {
    ||| field == "title"@
    ||| field == "description"@
    ||| field == "channel"@
    ||| field == "uploader"@
    ||| field == "uploader_id"@
}

/// The character can be part of a word: a letter, a digit or an apostrophe.
pub open spec fn in_a_word(c: char) -> bool {
    alphanumeric(c) || c == '\''
}

/// `word` stands in the text after `before` and in front of `after` as a word of its own.
pub open spec fn stands_alone(before: Seq<char>, word: Seq<char>, after: Seq<char>) -> bool {
    &&& word.len() > 0
    &&& forall|i: int| 0 <= i < word.len() ==> in_a_word(#[trigger] word[i])
    &&& before.len() > 0 ==> !in_a_word(before.last())
    &&& after.len() > 0 ==> !in_a_word(after[0])
}

proof fn lemma_word_is_a_piece(before: Seq<char>, word: Seq<char>, after: Seq<char>)
    requires
        stands_alone(before, word, after),
    ensures
        pieces(before + word + after, Separator::NonWord).contains(word),
{
    let at = |c: char| Separator::NonWord.separates(c);
    let all = split(before + word + after, at);
    assert forall|i: int| 0 <= i < word.len() implies !at(#[trigger] word[i]) by {
        assert(in_a_word(word[i]));
    }
    lemma_split_free(word, at);
    let tail = split(word + after, at);
    assert(tail.len() > 0 && tail[0] == word) by {
        if after.len() > 0 {
            assert(word + after =~= word + seq![after[0]] + after.skip(1));
            law_split_at_separator(word, after[0], after.skip(1), at);
        } else {
            assert(word + after =~= word);
        }
    }
    if before.len() > 0 {
        let front = before.drop_last();
        let e = before.last();
        assert(before + word + after =~= front + seq![e] + (word + after));
        law_split_at_separator(front, e, word + after, at);
        assert(all[split(front, at).len() as int] == tail[0]);
    } else {
        assert(before + word + after =~= word + after);
        assert(all[0] == word);
    }
}

/// If the metadata has a text for one of the fields `title`, `description`, `channel`, `uploader`
/// and `uploader_id`, every word of that text which begins with a capital and has at least three
/// characters is, in small letters, one of its names.
pub proof fn law_each_field_tells_its_names(
    json: Seq<char>,
    field: Seq<char>,
    before: Seq<char>,
    word: Seq<char>,
    after: Seq<char>,
)
    requires
        tells_names(field),
        string_field(json, field) == Some(before + word + after),
        stands_alone(before, word, after),
        upper_case(word[0]),
        lowercase(word).len() >= 3,
    ensures
        proper_nouns(json).contains(lowercase(word)),
{
    let value = before + word + after;
    lemma_word_is_a_piece(before, word, after);
    let all = pieces(value, Separator::NonWord);
    let k = choose|k: int| 0 <= k < all.len() && all[k] == word;
    assert(looks_like_name(all[k]));
    assert(names_in(value, lowercase(word)));
    let names = name_fields();
    assert(names[0] == "title"@);
    assert(names[1] == "description"@);
    assert(names[2] == "channel"@);
    assert(names[3] == "uploader"@);
    assert(names[4] == "uploader_id"@);
    let f = if field == "title"@ {
        0int
    } else if field == "description"@ {
        1
    } else if field == "channel"@ {
        2
    } else if field == "uploader"@ {
        3
    } else {
        4
    };
    assert(names[f] == field);
}

proof fn lemma_piece_stands_alone(s: Seq<char>, k: int) -> (r: (Seq<char>, Seq<char>))
    requires
        0 <= k < pieces(s, Separator::NonWord).len(),
        pieces(s, Separator::NonWord)[k].len() > 0,
    ensures
        s == r.0 + pieces(s, Separator::NonWord)[k] + r.1,
        stands_alone(r.0, pieces(s, Separator::NonWord)[k], r.1),
        k < pieces(s, Separator::NonWord).len() - 1 ==> r.1.len() > 0,
    decreases s.len(),
{
    let at = |c: char| Separator::NonWord.separates(c);
    let all = split(s, at);
    let word = all[k];
    let short = s.drop_last();
    let c = s.last();
    let front = split(short, at);
    lemma_split_some(short, at);
    assert(s =~= short.push(c));
    if at(c) {
        assert(k < front.len());
        assert(front[k] == word);
        let (before, after) = lemma_piece_stands_alone(short, k);
        let more = after.push(c);
        assert(s =~= before + word + more);
        if after.len() > 0 {
            assert(more[0] == after[0]);
        }
        (before, more)
    } else if k < front.len() - 1 {
        assert(front[k] == word);
        let (before, after) = lemma_piece_stands_alone(short, k);
        let more = after.push(c);
        assert(s =~= before + word + more);
        assert(more[0] == after[0]);
        (before, more)
    } else {
        let old = front[k];
        assert(word == old.push(c));
        let before = lemma_front_of_last_piece(short);
        let none = Seq::<char>::empty();
        assert(s =~= before + word + none);
        assert forall|i: int| 0 <= i < word.len() implies in_a_word(#[trigger] word[i]) by {
            if i < old.len() {
                assert(word[i] == old[i]);
            }
        }
        (before, none)
    }
}

/// What stands before the last piece of a text.
proof fn lemma_front_of_last_piece(s: Seq<char>) -> (before: Seq<char>)
    ensures
        s == before + pieces(s, Separator::NonWord).last(),
        before.len() > 0 ==> !in_a_word(before.last()),
        forall|i: int|
            0 <= i < pieces(s, Separator::NonWord).last().len() ==> in_a_word(
                #[trigger] pieces(s, Separator::NonWord).last()[i],
            ),
    decreases s.len(),
{
    let at = |c: char| Separator::NonWord.separates(c);
    let all = split(s, at);
    if s.len() == 0 {
        assert(s =~= s + all.last());
        s
    } else {
        let short = s.drop_last();
        let c = s.last();
        lemma_split_some(short, at);
        assert(s =~= short.push(c));
        if at(c) {
            assert(s =~= s + all.last());
            s
        } else {
            let before = lemma_front_of_last_piece(short);
            let old = split(short, at).last();
            assert(all.last() == old.push(c));
            assert(s =~= before + all.last());
            assert forall|i: int| 0 <= i < all.last().len() implies in_a_word(
                #[trigger] all.last()[i],
            ) by {
                if i < old.len() {
                    assert(all.last()[i] == old[i]);
                }
            }
            before
        }
    }
}

/// Every name comes from a word of one of the five fields that begins with a capital, stands alone
/// there, and has at least three characters in small letters.
pub proof fn law_every_name_is_told_by_a_field(json: Seq<char>, name: Seq<char>)
    requires
        proper_nouns(json).contains(name),
    ensures
        exists|field: Seq<char>, before: Seq<char>, word: Seq<char>, after: Seq<char>|
            #![trigger tells_names(field), stands_alone(before, word, after)]
            tells_names(field) && stands_alone(before, word, after) && string_field(json, field)
                == Some(before + word + after) && upper_case(word[0]) && lowercase(word) == name
                && name.len() >= 3,
{
    let names = name_fields();
    let f = choose|f: int|
        0 <= f < name_fields().len() && (string_field(json, #[trigger] name_fields()[f]) matches Some(
            value,
        ) && names_in(value, name));
    let field = names[f];
    assert(tells_names(field));
    let value = string_field(json, field)->0;
    let k = choose|k: int|
        0 <= k < pieces(value, Separator::NonWord).len() && looks_like_name(
            #[trigger] pieces(value, Separator::NonWord)[k],
        ) && lowercase(pieces(value, Separator::NonWord)[k]) == name;
    let word = pieces(value, Separator::NonWord)[k];
    let (before, after) = lemma_piece_stands_alone(value, k);
    assert(stands_alone(before, word, after));
}

// ---------------------------------------------------------------------------
// Reading a field
// ---------------------------------------------------------------------------

/// A backslash before `n`, `t` or `r` stands for a line feed, a tab or a carriage return, and before
/// any other character for that character; a quote ends the text.
pub proof fn law_escapes_in_a_literal(c: char, rest: Seq<char>)
    ensures
        literal_value(seq!['\\', 'n'] + rest) == seq!['\n'] + literal_value(rest),
        literal_value(seq!['\\', 't'] + rest) == seq!['\t'] + literal_value(rest),
        literal_value(seq!['\\', 'r'] + rest) == seq!['\r'] + literal_value(rest),
        c != 'n' && c != 't' && c != 'r' ==> literal_value(seq!['\\', c] + rest) == seq![c]
            + literal_value(rest),
        c != '\\' && c != '"' ==> literal_value(seq![c] + rest) == seq![c] + literal_value(rest),
        literal_value(seq!['"'] + rest) == Seq::<char>::empty(),
        literal_value(Seq::<char>::empty()) == Seq::<char>::empty(),
{
    assert((seq!['\\', 'n'] + rest).skip(2) =~= rest);
    assert((seq!['\\', 't'] + rest).skip(2) =~= rest);
    assert((seq!['\\', 'r'] + rest).skip(2) =~= rest);
    assert((seq!['\\', c] + rest).skip(2) =~= rest);
    assert((seq![c] + rest).skip(1) =~= rest);
}

/// The name of the field, in quotes, stands nowhere before this position.
pub open spec fn unnamed_before(json: Seq<char>, field: Seq<char>, p: int) -> bool {
    forall|i: int|
        0 <= i < p ==> !(i + field.len() + 2 <= json.len() && #[trigger] json.subrange(
            i,
            i + field.len() + 2,
        ) == seq!['"'] + field + seq!['"'])
}

proof fn lemma_named_at(json: Seq<char>, field: Seq<char>, p: int)
    requires
        0 <= p,
        p + field.len() + 2 <= json.len(),
        json.subrange(p, p + field.len() + 2) == seq!['"'] + field + seq!['"'],
        unnamed_before(json, field, p),
    ensures
        first_at(json, quoted(field), 0) == Some(p),
{
    let needle = quoted(field);
    assert(needle.len() == field.len() + 2);
    lemma_first_at(json, needle, 0);
    assert(occurs_at(json, needle, p));
    assert forall|i: int| 0 <= i < p implies !occurs_at(json, needle, i) by {
        if occurs_at(json, needle, i) {
            assert(json.subrange(i, i + field.len() + 2) == seq!['"'] + field + seq!['"']);
        }
    }
}

/// A field whose name does not stand in the metadata in quotes has no text.
pub proof fn law_absent_field_has_no_text(json: Seq<char>, field: Seq<char>)
    requires
        unnamed_before(json, field, json.len() as int),
    ensures
        string_field(json, field) is None,
{
    let needle = quoted(field);
    assert(needle.len() == field.len() + 2);
    lemma_first_at(json, needle, 0);
    if let Some(p) = first_at(json, needle, 0) {
        assert(json.subrange(p, p + field.len() + 2) == seq!['"'] + field + seq!['"']);
    }
}

/// The text of a field is the literal after the first place where its name stands in quotes and is
/// followed by a colon, whatever white space there is between them.
pub proof fn law_text_of_a_field_follows_its_name(
    before: Seq<char>,
    field: Seq<char>,
    white_1: Seq<char>,
    white_2: Seq<char>,
    literal: Seq<char>,
)
    requires
        all_white(white_1),
        all_white(white_2),
        unnamed_before(
            before + (seq!['"'] + field + seq!['"']) + white_1 + seq![':'] + white_2 + seq!['"']
                + literal,
            field,
            before.len() as int,
        ),
    ensures
        string_field(
            before + (seq!['"'] + field + seq!['"']) + white_1 + seq![':'] + white_2 + seq!['"']
                + literal,
            field,
        ) == Some(literal_value(literal)),
{
    let name = seq!['"'] + field + seq!['"'];
    let json = before + name + white_1 + seq![':'] + white_2 + seq!['"'] + literal;
    let p = before.len() as int;
    assert(json.subrange(p, p + field.len() + 2) =~= name);
    lemma_named_at(json, field, p);
    let tail = seq![':'] + white_2 + seq!['"'] + literal;
    assert(json.skip(p + name.len()) =~= white_1 + tail);
    law_leading_white_space_is_cut(white_1, tail);
    let end = seq!['"'] + literal;
    assert(tail.skip(1) =~= white_2 + end);
    law_leading_white_space_is_cut(white_2, end);
    assert(end.skip(1) =~= literal);
}

proof fn lemma_first_at_shifted(x: Seq<char>, y: Seq<char>, pat: Seq<char>, k: int)
    requires
        0 <= k,
    ensures
        first_at(x + y, pat, x.len() + k) == (match first_at(y, pat, k) {
            Some(p) => Some(x.len() + p),
            None => None,
        }),
    decreases y.len() + 1 - k,
{
    let s = x + y;
    let n = x.len() as int;
    if k + pat.len() <= y.len() {
        assert(s.subrange(n + k, n + k + pat.len()) =~= y.subrange(k, k + pat.len()));
        assert(occurs_at(s, pat, n + k) == occurs_at(y, pat, k));
        if !occurs_at(y, pat, k) {
            lemma_first_at_shifted(x, y, pat, k + 1);
        }
    }
}

proof fn lemma_field_shifted(x: Seq<char>, y: Seq<char>, field: Seq<char>, k: nat)
    ensures
        field_value(x + y, field, x.len() + k) == field_value(y, field, k),
    decreases y.len() - k,
{
    let needle = quoted(field);
    let n = x.len() as int;
    lemma_first_at_shifted(x, y, needle, k as int);
    lemma_first_at(y, needle, k as int);
    lemma_first_at(x + y, needle, n + k);
    if let Some(p) = first_at(y, needle, k as int) {
        let after = p + needle.len();
        assert((x + y).skip(n + after) =~= y.skip(after));
        lemma_field_shifted(x, y, field, after as nat);
    }
}

/// A field whose name is followed by a colon and by something else than a text is passed over there,
/// and looked for in what follows its name.
pub proof fn law_value_that_is_no_text_is_passed_over(
    before: Seq<char>,
    field: Seq<char>,
    white_1: Seq<char>,
    white_2: Seq<char>,
    other: Seq<char>,
)
    requires
        all_white(white_1),
        all_white(white_2),
        other.len() > 0 ==> other[0] != '"' && !white_space(other[0]),
        unnamed_before(
            before + (seq!['"'] + field + seq!['"']) + (white_1 + seq![':'] + white_2 + other),
            field,
            before.len() as int,
        ),
    ensures
        string_field(
            before + (seq!['"'] + field + seq!['"']) + (white_1 + seq![':'] + white_2 + other),
            field,
        ) == string_field(white_1 + seq![':'] + white_2 + other, field),
{
    let name = seq!['"'] + field + seq!['"'];
    let tail = white_1 + seq![':'] + white_2 + other;
    let json = before + name + tail;
    let p = before.len() as int;
    assert(json.subrange(p, p + field.len() + 2) =~= name);
    lemma_named_at(json, field, p);
    assert(json.skip(p + name.len()) =~= tail);
    let from_colon = seq![':'] + white_2 + other;
    assert(tail =~= white_1 + from_colon);
    law_leading_white_space_is_cut(white_1, from_colon);
    assert(from_colon.skip(1) =~= white_2 + other);
    law_leading_white_space_is_cut(white_2, other);
    lemma_field_shifted(before + name, tail, field, 0);
    lemma_first_at(json, quoted(field), 0);
}

/// Where the name of a field, in quotes, is followed by something else than a colon, the field has no
/// text.
pub proof fn law_name_without_a_colon_ends_the_search(
    before: Seq<char>,
    field: Seq<char>,
    white: Seq<char>,
    other: Seq<char>,
)
    requires
        all_white(white),
        other.len() > 0 ==> other[0] != ':' && !white_space(other[0]),
        unnamed_before(
            before + (seq!['"'] + field + seq!['"']) + white + other,
            field,
            before.len() as int,
        ),
    ensures
        string_field(before + (seq!['"'] + field + seq!['"']) + white + other, field) is None,
{
    let name = seq!['"'] + field + seq!['"'];
    let json = before + name + white + other;
    let p = before.len() as int;
    assert(json.subrange(p, p + field.len() + 2) =~= name);
    lemma_named_at(json, field, p);
    assert(json.skip(p + name.len()) =~= white + other);
    law_leading_white_space_is_cut(white, other);
}

} // verus!
