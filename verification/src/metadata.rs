//! The names that a video's metadata mentions.
use vstd::prelude::*;

use crate::find::find_from;
use crate::text::{chars_of, text_of};
use crate::trim::{skip_white, split_text, Separator};
use crate::vocab::WordSet;
#[allow(unused_imports)]
use crate::find::{first_at, lemma_first_at, occurs_at};
#[allow(unused_imports)]
use crate::text::{lowercase, texts, upper_case, white_space};
#[allow(unused_imports)]
use crate::trim::{pieces, trimmed_start};

verus! {

/// The character that `c` after a backslash stands for.
pub open spec fn escaped_char(c: char) -> char {
    if c == 'n' {
        '\n'
    } else if c == 't' {
        '\t'
    } else if c == 'r' {
        '\r'
    } else {
        c
    }
}

/// The text of a JSON string literal: `s` up to the quote that ends it, or to its end, with
/// escapes undone.
pub open spec fn literal_value(s: Seq<char>) -> Seq<char>
    decreases s.len(),
{
    if s.len() == 0 || s[0] == '"' {
        Seq::empty()
    } else if s[0] == '\\' {
        if s.len() == 1 {
            Seq::empty()
        } else {
            seq![escaped_char(s[1])] + literal_value(s.skip(2))
        }
    } else {
        seq![s[0]] + literal_value(s.skip(1))
    }
}

/// A field's name as it stands in JSON.
pub open spec fn quoted(field: Seq<char>) -> Seq<char> {
    seq!['"'] + field + seq!['"']
}

/// The first string that follows the quoted name of a field and a colon, from position `from` on.
/// A name whose value is no string is passed over; at one without a colon the search ends.
pub open spec fn field_value(json: Seq<char>, field: Seq<char>, from: nat) -> Option<Seq<char>>
    decreases json.len() - from,
{
    let needle = quoted(field);
    match first_at(json, needle, from as int) {
        None => None,
        Some(p) => {
            let after = p + needle.len();
            let rest = trimmed_start(json.skip(after));
            if rest.len() == 0 || rest[0] != ':' {
                None
            } else {
                let value = trimmed_start(rest.skip(1));
                if value.len() > 0 && value[0] == '"' {
                    Some(literal_value(value.skip(1)))
                } else {
                    proof {
                        lemma_first_at(json, needle, from as int);
                    }
                    field_value(json, field, after as nat)
                }
            }
        },
    }
}

/// The string that a field of a JSON text has.
pub open spec fn string_field(json: Seq<char>, field: Seq<char>) -> Option<Seq<char>> {
    field_value(json, field, 0)
}

fn read_literal(v: &Vec<char>, from: usize) -> (r: String)
    requires
        from <= v@.len(),
    ensures
        r@ == literal_value(v@.skip(from as int)),
{
    let mut out: Vec<char> = Vec::new();
    let mut escape = false;
    let mut i: usize = from;
    let ghost all = literal_value(v@.skip(from as int));
    assert(out@ + all =~= all);
    while i < v.len()
        invariant
            from <= i <= v@.len(),
            all == literal_value(v@.skip(from as int)),
            escape ==> i > from,
            all == out@ + literal_value(
                v@.skip(
                    if escape {
                        i - 1
                    } else {
                        i as int
                    },
                ),
            ),
            escape ==> v@[i - 1] == '\\',
        decreases v@.len() - i,
    {
        let ch = v[i];
        let ghost before = out@;
        if escape {
            let ghost rest = v@.skip(i - 1);
            let value = if ch == 'n' {
                '\n'
            } else if ch == 't' {
                '\t'
            } else if ch == 'r' {
                '\r'
            } else {
                ch
            };
            out.push(value);
            escape = false;
            proof {
                assert(rest[0] == '\\');
                assert(rest[1] == ch);
                assert(rest.skip(2) =~= v@.skip(i + 1));
                assert(out@ + literal_value(v@.skip(i + 1)) =~= before + (seq![value]
                    + literal_value(rest.skip(2))));
            }
        } else {
            let ghost rest = v@.skip(i as int);
            assert(rest[0] == ch);
            if ch == '\\' {
                escape = true;
            } else if ch == '"' {
                assert(out@ + literal_value(rest) =~= out@);
                return text_of(&out);
            } else {
                out.push(ch);
                proof {
                    assert(rest.skip(1) =~= v@.skip(i + 1));
                    assert(out@ + literal_value(v@.skip(i + 1)) =~= before + (seq![ch]
                        + literal_value(rest.skip(1))));
                }
            }
        }
        i += 1;
    }
    assert(out@ + Seq::<char>::empty() =~= out@);
    text_of(&out)
}

/// The string that a field of a JSON text has: a search for its quoted name, not a parser.
pub fn extract_string_field(json: &str, field: &str) -> (r: Option<String>)
    ensures
        match r {
            Some(s) => string_field(json@, field@) == Some(s@),
            None => string_field(json@, field@) is None,
        },
{
    let v = chars_of(json);
    let name = chars_of(field);
    let mut needle: Vec<char> = Vec::new();
    needle.push('"');
    let mut k: usize = 0;
    assert(needle@ =~= seq!['"'] + name@.take(0));
    while k < name.len()
        invariant
            k <= name@.len(),
            needle@ == seq!['"'] + name@.take(k as int),
        decreases name@.len() - k,
    {
        needle.push(name[k]);
        assert(needle@ =~= seq!['"'] + name@.take(k + 1));
        k += 1;
    }
    needle.push('"');
    assert(needle@ =~= quoted(field@));
    let mut idx: usize = 0;
    loop
        invariant
            idx <= v@.len(),
            v@ == json@,
            needle@ == quoted(field@),
            string_field(json@, field@) == field_value(json@, field@, idx as nat),
        decreases v@.len() - idx,
    {
        match find_from(&v, &needle, idx) {
            None => {
                return None;
            },
            Some(p) => {
                let after = p + needle.len();
                let colon = skip_white(&v, after);
                if colon >= v.len() || v[colon] != ':' {
                    assert(v@.skip(colon as int).len() == 0 || v@.skip(colon as int)[0] != ':');
                    return None;
                }
                assert(v@.skip(colon as int)[0] == ':');
                let start = skip_white(&v, colon + 1);
                assert(v@.skip(colon as int).skip(1) =~= v@.skip(colon + 1));
                if start < v.len() && v[start] == '"' {
                    assert(v@.skip(start as int)[0] == '"');
                    assert(v@.skip(start as int).skip(1) =~= v@.skip(start + 1));
                    return Some(read_literal(&v, start + 1));
                }
                assert(v@.skip(start as int).len() == 0 || v@.skip(start as int)[0] != '"');
                idx = after;
            },
        }
    }
}

/// The metadata fields that names are taken from.
pub open spec fn name_fields() -> Seq<Seq<char>> {
    seq!["title"@, "description"@, "channel"@, "uploader"@, "uploader_id"@]
}

/// A word that looks like a name: it begins with an upper case letter and has at least three
/// characters in lower case.
pub open spec fn looks_like_name(word: Seq<char>) -> bool {
    word.len() > 0 && upper_case(word[0]) && lowercase(word).len() >= 3
}

/// `w` is, in lower case, a word of `value` that looks like a name.
pub open spec fn names_in(value: Seq<char>, w: Seq<char>) -> bool {
    exists|k: int|
        0 <= k < pieces(value, Separator::NonWord).len() && looks_like_name(
            #[trigger] pieces(value, Separator::NonWord)[k],
        ) && lowercase(pieces(value, Separator::NonWord)[k]) == w
}

/// The names in lower case that the metadata mentions in one of its name fields.
pub open spec fn proper_nouns(json: Seq<char>) -> Set<Seq<char>> {
    Set::new(
        |w: Seq<char>|
            exists|f: int|
                0 <= f < name_fields().len() && (string_field(
                    json,
                    #[trigger] name_fields()[f],
                ) matches Some(value) && names_in(value, w)),
    )
}

fn add_names(value: &str, out: &mut WordSet)
    ensures
        forall|w: Seq<char>|
            #[trigger] final(out)@.contains(w) <==> old(out)@.contains(w) || names_in(value@, w),
{
    let words = split_text(value, Separator::NonWord);
    let ghost all = pieces(value@, Separator::NonWord);
    let mut i: usize = 0;
    while i < words.len()
        invariant
            i <= words@.len(),
            texts(words@) == all,
            forall|w: Seq<char>|
                #[trigger] out@.contains(w) <==> old(out)@.contains(w) || exists|k: int|
                    0 <= k < i && looks_like_name(#[trigger] all[k]) && lowercase(all[k]) == w,
        decreases words@.len() - i,
    {
        let ghost before = out@;
        assert(all[i as int] == words@[i as int]@);
        let lower = words[i].as_str().to_lowercase();
        let first = chars_of(words[i].as_str());
        let long = chars_of(lower.as_str()).len() >= 3;
        if long && first.len() > 0 && first[0].is_uppercase() {
            assert(looks_like_name(all[i as int]));
            out.insert(lower.as_str());
        } else {
            assert(!looks_like_name(all[i as int]));
        }
        proof {
            assert forall|w: Seq<char>| #[trigger] out@.contains(w) <==> old(out)@.contains(w)
                || exists|k: int|
                0 <= k < i + 1 && looks_like_name(#[trigger] all[k]) && lowercase(all[k]) == w by {
                if looks_like_name(all[i as int]) && lowercase(all[i as int]) == w {
                    assert(out@.contains(w));
                }
                if exists|k: int|
                    0 <= k < i + 1 && looks_like_name(#[trigger] all[k]) && lowercase(all[k]) == w {
                    let k = choose|k: int|
                        0 <= k < i + 1 && looks_like_name(#[trigger] all[k]) && lowercase(all[k]) == w;
                    if k < i {
                        assert(before.contains(w));
                    }
                }
                if out@.contains(w) && !before.contains(w) {
                    assert(lowercase(all[i as int]) == w);
                }
            }
        }
        i += 1;
    }
}

/// The names that the metadata of a video mentions in its title, description, channel and
/// uploader, in lower case.
pub fn metadata_proper_nouns(info_json: &str) -> (r: WordSet)
    ensures
        r@ == proper_nouns(info_json@),
{
    let fields = vec!["title", "description", "channel", "uploader", "uploader_id"];
    let ghost names = name_fields();
    let mut out = WordSet::new();
    let mut i: usize = 0;
    assert(fields@.len() == names.len());
    assert(forall|k: int| 0 <= k < names.len() ==> #[trigger] names[k] == fields@[k]@);
    while i < fields.len()
        invariant
            i <= fields@.len(),
            fields@.len() == names.len(),
            names == name_fields(),
            forall|k: int| 0 <= k < names.len() ==> #[trigger] names[k] == fields@[k]@,
            forall|w: Seq<char>|
                #[trigger] out@.contains(w) <==> exists|f: int|
                    0 <= f < i && (string_field(info_json@, #[trigger] names[f]) matches Some(value)
                        && names_in(value, w)),
        decreases fields@.len() - i,
    {
        let ghost before = out@;
        let value = extract_string_field(info_json, fields[i]);
        assert(names[i as int] == fields@[i as int]@);
        if let Some(value) = &value {
            add_names(value.as_str(), &mut out);
        }
        proof {
            assert forall|w: Seq<char>| #[trigger] out@.contains(w) <==> exists|f: int|
                0 <= f < i + 1 && (string_field(info_json@, #[trigger] names[f]) matches Some(value)
                    && names_in(value, w)) by {
                if out@.contains(w) {
                    if before.contains(w) {
                        let f = choose|f: int|
                            0 <= f < i && (string_field(info_json@, #[trigger] names[f]) matches Some(
                                value,
                            ) && names_in(value, w));
                        assert(names[f] == names[f]);
                    } else {
                        assert(string_field(info_json@, names[i as int]) matches Some(value)
                            && names_in(value, w));
                    }
                }
                if exists|f: int|
                    0 <= f < i + 1 && (string_field(info_json@, #[trigger] names[f]) matches Some(
                        value,
                    ) && names_in(value, w)) {
                    let f = choose|f: int|
                        0 <= f < i + 1 && (string_field(info_json@, #[trigger] names[f]) matches Some(
                            value,
                        ) && names_in(value, w));
                    if f < i {
                        assert(before.contains(w));
                    }
                }
            }
        }
        i += 1;
    }
    assert(out@ =~= proper_nouns(info_json@));
    out
}

// ---------------------------------------------------------------------------
// What is written as JSON is read back
// ---------------------------------------------------------------------------

/// A text as it stands between the quotes of a JSON string: quotes, backslashes, line feeds, tabs
/// and carriage returns are escaped.
pub open spec fn json_escaped(s: Seq<char>) -> Seq<char>
    decreases s.len(),
{
    if s.len() == 0 {
        Seq::empty()
    } else {
        let c = s[0];
        (if c == '"' || c == '\\' {
            seq!['\\', c]
        } else if c == '\n' {
            seq!['\\', 'n']
        } else if c == '\t' {
            seq!['\\', 't']
        } else if c == '\r' {
            seq!['\\', 'r']
        } else {
            seq![c]
        }) + json_escaped(s.skip(1))
    }
}

/// The text of a JSON string literal is read back as it was.
pub proof fn law_literal_is_read_back(value: Seq<char>, rest: Seq<char>)
    ensures
        literal_value(json_escaped(value) + seq!['"'] + rest) == value,
    decreases value.len(),
{
    let t = json_escaped(value) + seq!['"'] + rest;
    if value.len() == 0 {
        assert(t[0] == '"');
        assert(literal_value(t) =~= value);
    } else {
        let c = value[0];
        let more = json_escaped(value.skip(1)) + seq!['"'] + rest;
        law_literal_is_read_back(value.skip(1), rest);
        if c == '"' || c == '\\' || c == '\n' || c == '\t' || c == '\r' {
            assert(t[0] == '\\');
            assert(escaped_char(t[1]) == c);
            assert(t.skip(2) =~= more);
        } else {
            assert(t[0] == c);
            assert(t.skip(1) =~= more);
        }
        assert(seq![c] + value.skip(1) =~= value);
    }
}

/// The string of the first field of that name is read back as it was written, whatever follows it,
/// and with any white space around the colon.
pub proof fn law_field_is_read_back(
    before: Seq<char>,
    field: Seq<char>,
    white_1: Seq<char>,
    white_2: Seq<char>,
    value: Seq<char>,
    rest: Seq<char>,
)
    requires
        forall|i: int| 0 <= i < white_1.len() ==> white_space(#[trigger] white_1[i]),
        forall|i: int| 0 <= i < white_2.len() ==> white_space(#[trigger] white_2[i]),
        first_at(before + quoted(field), quoted(field), 0) == Some(before.len() as int),
    ensures
        string_field(
            before + quoted(field) + white_1 + seq![':'] + white_2 + seq!['"'] + json_escaped(value)
                + seq!['"'] + rest,
            field,
        ) == Some(value),
{
    let needle = quoted(field);
    let literal = json_escaped(value) + seq!['"'] + rest;
    let tail = white_1 + seq![':'] + white_2 + seq!['"'] + literal;
    let json = before + quoted(field) + white_1 + seq![':'] + white_2 + seq!['"'] + json_escaped(
        value,
    ) + seq!['"'] + rest;
    let p = before.len() as int;
    assert(json =~= before + needle + tail);
    lemma_first_at(before + needle, needle, 0);
    lemma_first_at(json, needle, 0);
    assert(json.subrange(p, p + needle.len()) =~= needle);
    assert(occurs_at(json, needle, p));
    assert forall|i: int| 0 <= i < p implies !occurs_at(json, needle, i) by {
        if occurs_at(json, needle, i) {
            assert((before + needle).subrange(i, i + needle.len()) =~= json.subrange(
                i,
                i + needle.len(),
            ));
            assert(occurs_at(before + needle, needle, i));
        }
    }
    assert(first_at(json, needle, 0) == Some(p));
    let after = p + needle.len();
    assert(json.skip(after) =~= tail);
    let from_colon = seq![':'] + white_2 + seq!['"'] + literal;
    assert(tail =~= white_1 + from_colon);
    lemma_trim_white(white_1, from_colon);
    let from_quote = seq!['"'] + literal;
    assert(from_colon.skip(1) =~= white_2 + from_quote);
    lemma_trim_white(white_2, from_quote);
    assert(from_quote.skip(1) =~= literal);
    law_literal_is_read_back(value, rest);
}

proof fn lemma_trim_white(white: Seq<char>, rest: Seq<char>)
    requires
        forall|i: int| 0 <= i < white.len() ==> white_space(#[trigger] white[i]),
        rest.len() > 0,
        !white_space(rest[0]),
    ensures
        trimmed_start(white + rest) == rest,
    decreases white.len(),
{
    if white.len() == 0 {
        assert(white + rest =~= rest);
    } else {
        let short = white.skip(1);
        assert forall|i: int| 0 <= i < short.len() implies white_space(#[trigger] short[i]) by {
            assert(short[i] == white[i + 1]);
        }
        assert(white_space(white[0]));
        assert((white + rest).skip(1) =~= short + rest);
        lemma_trim_white(short, rest);
    }
}

} // verus!
