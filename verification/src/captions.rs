//! Caption files as plain text.
use vstd::prelude::*;

use crate::find::{contains, join, replace, starts_with};
use crate::number::is_all_digits;
use crate::text::{chars_of, same_text};
use crate::tokens::unescape;
use crate::trim::{split_lines, trim};
#[allow(unused_imports)]
use crate::find::{contains_text, joined, replaced};
#[allow(unused_imports)]
use crate::number::all_digits;
#[allow(unused_imports)]
use crate::text::{ascii_digit, lemma_texts_push, texts};
#[allow(unused_imports)]
use crate::tokens::unescaped;
#[allow(unused_imports)]
use crate::trim::{text_lines, trimmed};

verus! {

// ---------------------------------------------------------------------------
// Tags
// ---------------------------------------------------------------------------

/// `A` to `Z` and `a` to `z`.
pub open spec fn ascii_letter(c: char) -> bool {
    'A' <= c <= 'Z' || 'a' <= c <= 'z'
}

/// A time as it stands within a caption: digits, colons and dots, with a digit first and with a
/// colon.
pub open spec fn is_time(body: Seq<char>) -> bool {
    &&& body.len() > 0
    &&& ascii_digit(body[0])
    &&& forall|i: int|
        0 <= i < body.len() ==> ascii_digit(#[trigger] body[i]) || body[i] == ':' || body[i] == '.'
    &&& body.contains(':')
}

/// What stands between the angle brackets of a tag: the name of an element, with a letter first,
/// and what goes with it; the same after a slash; or a time.
pub open spec fn is_tag(body: Seq<char>) -> bool {
    ||| body.len() > 0 && ascii_letter(body[0])
    ||| body.len() > 1 && body[0] == '/' && ascii_letter(body[1])
    ||| is_time(body)
}

/// What stands between the angle brackets of a mark around a word.
pub open spec fn is_word_mark(body: Seq<char>) -> bool {
    body == seq!['c'] || body == seq!['/', 'c']
}

/// How many characters at the start of `s` are no angle brackets.
pub open spec fn bracket_free(s: Seq<char>) -> nat
    decreases s.len(),
{
    if s.len() > 0 && s[0] != '<' && s[0] != '>' {
        1 + bracket_free(s.skip(1))
    } else {
        0
    }
}

/// What stands between an angle bracket that opens at the start of `s` and the one that closes it;
/// another that opens comes not between them.
pub open spec fn bracketed(s: Seq<char>) -> Option<Seq<char>> {
    if s.len() > 0 && s[0] == '<' {
        let n = bracket_free(s.skip(1)) as int;
        if n + 1 < s.len() && s[n + 1] == '>' {
            Some(s.subrange(1, n + 1))
        } else {
            None
        }
    } else {
        None
    }
}

/// `s` starts with a tag that is no mark around a word.
pub open spec fn starts_tag(s: Seq<char>) -> bool {
    bracketed(s) matches Some(body) && is_tag(body) && !is_word_mark(body)
}

/// `s` without its tags, but for the marks around words. An angle bracket that is not closed as a
/// tag is none.
pub open spec fn untagged(s: Seq<char>) -> Seq<char>
    decreases s.len(),
{
    if s.len() == 0 {
        Seq::empty()
    } else if starts_tag(s) {
        untagged(s.skip(bracketed(s)->0.len() as int + 2))
    } else {
        seq![s[0]] + untagged(s.skip(1))
    }
}

/// A line of captions as plain text: without tags, without the marks around words, and with its
/// escapes undone.
pub open spec fn plain_caption(line: Seq<char>) -> Seq<char> {
    unescaped(
        replaced(replaced(untagged(line), "<c>"@, Seq::empty()), "</c>"@, Seq::empty()),
    )
}

proof fn lemma_bracket_free(s: Seq<char>)
    ensures
        bracket_free(s) <= s.len(),
        forall|i: int|
            0 <= i < bracket_free(s) ==> #[trigger] s[i] != '<' && s[i] != '>',
        bracket_free(s) < s.len() ==> s[bracket_free(s) as int] == '<' || s[bracket_free(s) as int]
            == '>',
    decreases s.len(),
{
    if s.len() > 0 && s[0] != '<' && s[0] != '>' {
        let rest = s.skip(1);
        lemma_bracket_free(rest);
        assert forall|i: int| 0 <= i < bracket_free(s) implies #[trigger] s[i] != '<' && s[i]
            != '>' by {
            if i > 0 {
                assert(s[i] == rest[i - 1]);
            }
        }
    }
}

fn time_between(v: &Vec<char>, from: usize, to: usize) -> (r: bool)
    requires
        from <= to <= v@.len(),
    ensures
        r == is_time(v@.subrange(from as int, to as int)),
{
    let ghost body = v@.subrange(from as int, to as int);
    if from == to || !('0' <= v[from] && v[from] <= '9') {
        return false;
    }
    let mut colon = false;
    let mut i: usize = from;
    while i < to
        invariant
            from <= i <= to <= v@.len(),
            body == v@.subrange(from as int, to as int),
            forall|k: int|
                0 <= k < i - from ==> ascii_digit(#[trigger] body[k]) || body[k] == ':' || body[k]
                    == '.',
            colon == exists|k: int| 0 <= k < i - from && #[trigger] body[k] == ':',
        decreases to - i,
    {
        let c = v[i];
        assert(body[i - from] == c);
        if c == ':' {
            colon = true;
        } else if !('0' <= c && c <= '9' || c == '.') {
            assert(!ascii_digit(body[i - from]));
            return false;
        }
        i += 1;
    }
    assert(colon == body.contains(':'));
    colon
}

fn letter(c: char) -> (r: bool)
    ensures
        r == ascii_letter(c),
{
    ('A' <= c && c <= 'Z') || ('a' <= c && c <= 'z')
}

fn tag_between(v: &Vec<char>, from: usize, to: usize) -> (r: bool)
    requires
        from <= to <= v@.len(),
    ensures
        r == ({
            let body = v@.subrange(from as int, to as int);
            is_tag(body) && !is_word_mark(body)
        }),
{
    let ghost body = v@.subrange(from as int, to as int);
    let n: usize = to - from;
    let opens = n > 0 && letter(v[from]);
    let closes = n > 1 && v[from] == '/' && letter(v[from + 1]);
    let mark = (n == 1 && v[from] == 'c') || (n == 2 && v[from] == '/' && v[from + 1] == 'c');
    proof {
        assert(n > 0 ==> body[0] == v@[from as int]);
        assert(n > 1 ==> body[1] == v@[from + 1]);
        if mark && n == 1 {
            assert(body =~= seq!['c']);
        }
        if mark && n == 2 {
            assert(body =~= seq!['/', 'c']);
        }
        if is_word_mark(body) {
            assert(body.len() == n);
            assert(body == seq!['c'] ==> n == 1 && body[0] == 'c');
            assert(body == seq!['/', 'c'] ==> n == 2 && body[0] == '/' && body[1] == 'c');
        }
        assert(mark == is_word_mark(body));
    }
    !mark && (opens || closes || time_between(v, from, to))
}

/// The position after the tag that starts at `at`, if one does.
fn tag_end(v: &Vec<char>, at: usize) -> (r: Option<usize>)
    requires
        at < v@.len(),
    ensures
        match r {
            Some(end) => {
                &&& at < end <= v@.len()
                &&& starts_tag(v@.skip(at as int))
                &&& end == at + bracketed(v@.skip(at as int))->0.len() + 2
            },
            None => !starts_tag(v@.skip(at as int)),
        },
{
    let ghost s = v@.skip(at as int);
    if v[at] != '<' {
        return None;
    }
    let ghost rest = s.skip(1);
    let len: usize = v.len();
    let mut i: usize = at + 1;
    assert(v@.skip(at + 1) =~= rest);
    while i < len && v[i] != '<' && v[i] != '>'
        invariant
            at < i <= len,
            len == v@.len(),
            i + bracket_free(v@.skip(i as int)) == at + 1 + bracket_free(rest),
        decreases v@.len() - i,
    {
        assert(v@.skip(i as int).skip(1) =~= v@.skip(i + 1));
        i += 1;
    }
    proof {
        if i < v@.len() {
            assert(v@.skip(i as int)[0] == v@[i as int]);
        }
        assert(bracket_free(rest) == i - at - 1);
        assert(i < v@.len() ==> s[i - at] == v@[i as int]);
        assert(s.subrange(1, i - at) =~= v@.subrange(at + 1, i as int));
    }
    if i < len && v[i] == '>' && tag_between(v, at + 1, i) {
        Some(i + 1)
    } else {
        None
    }
}

fn drop_tags(line: &str) -> (r: String)
    ensures
        r@ == untagged(line@),
{
    let v = chars_of(line);
    let mut out = String::new();
    let mut i: usize = 0;
    assert(v@.skip(0) =~= v@);
    assert(out@ + untagged(v@) =~= untagged(v@));
    while i < v.len()
        invariant
            i <= v@.len(),
            v@ == line@,
            out@ + untagged(v@.skip(i as int)) == untagged(line@),
        decreases v@.len() - i,
    {
        let ghost rest = v@.skip(i as int);
        let ghost before = out@;
        match tag_end(&v, i) {
            Some(end) => {
                assert(rest.skip(end - i) =~= v@.skip(end as int));
                i = end;
            },
            None => {
                out.push(v[i]);
                assert(rest[0] == v@[i as int]);
                assert(rest.skip(1) =~= v@.skip(i + 1));
                assert(out@ + untagged(rest.skip(1)) =~= before + (seq![rest[0]] + untagged(
                    rest.skip(1),
                )));
                i += 1;
            },
        }
    }
    assert(out@ + untagged(v@.skip(i as int)) =~= out@);
    out
}

/// A line of captions as plain text.
pub fn caption_to_plain(line: &str) -> (r: String)
    ensures
        r@ == plain_caption(line@),
{
    proof {
        reveal_strlit("<c>");
        reveal_strlit("</c>");
        reveal_strlit("");
        assert(""@ =~= Seq::<char>::empty());
    }
    let text = drop_tags(line);
    let opened = replace(text.as_str(), "<c>", "");
    let closed = replace(opened.as_str(), "</c>", "");
    unescape(closed.as_str())
}

/// A text in which no tag starts stays as it is: what follows an angle bracket that is not closed
/// as a tag is kept.
pub proof fn law_text_without_tags_stays(s: Seq<char>)
    requires
        forall|i: int| 0 <= i < s.len() ==> !starts_tag(#[trigger] s.skip(i)),
    ensures
        untagged(s) == s,
    decreases s.len(),
{
    if s.len() > 0 {
        let rest = s.skip(1);
        assert(s.skip(0) =~= s);
        assert(!starts_tag(s.skip(0)));
        assert forall|i: int| 0 <= i < rest.len() implies !starts_tag(#[trigger] rest.skip(i)) by {
            assert(rest.skip(i) =~= s.skip(i + 1));
        }
        law_text_without_tags_stays(rest);
        assert(seq![s[0]] + rest =~= s);
    }
}

/// No tag starts where nothing closes one.
pub proof fn law_unclosed_bracket_stays(s: Seq<char>)
    requires
        !s.contains('>'),
    ensures
        untagged(s) == s,
{
    assert forall|i: int| 0 <= i < s.len() implies !starts_tag(#[trigger] s.skip(i)) by {
        let t = s.skip(i);
        if starts_tag(t) {
            let n = bracket_free(t.skip(1)) as int;
            assert(t[n + 1] == '>');
            assert(s[i + n + 1] == '>');
        }
    }
    law_text_without_tags_stays(s);
}

/// A tag is dropped, wherever it stands after text without angle brackets that open; what follows
/// it is dealt with as if the tag had not been there.
pub proof fn law_tag_is_dropped(before: Seq<char>, body: Seq<char>, after: Seq<char>)
    requires
        !before.contains('<'),
        !body.contains('<'),
        !body.contains('>'),
        is_tag(body),
        !is_word_mark(body),
    ensures
        untagged(before + seq!['<'] + body + seq!['>'] + after) == before + untagged(after),
    decreases before.len(),
{
    let s = before + seq!['<'] + body + seq!['>'] + after;
    if before.len() == 0 {
        let rest = s.skip(1);
        let n = body.len() as int;
        lemma_bracket_free(rest);
        let k = bracket_free(rest) as int;
        assert(rest =~= body + seq!['>'] + after);
        assert(rest[n] == '>');
        if k < n {
            assert(rest[k] == body[k]);
            assert(body.contains(rest[k]));
        }
        assert(k == n);
        assert(s[n + 1] == '>');
        assert(s.subrange(1, n + 1) =~= body);
        assert(s.skip(n + 2) =~= after);
        assert(before + untagged(after) =~= untagged(after));
    } else {
        let short = before.skip(1);
        assert(s[0] == before[0]);
        assert(before.contains(before[0]));
        assert forall|i: int| 0 <= i < short.len() implies #[trigger] short[i] != '<' by {
            assert(short[i] == before[i + 1]);
            assert(before.contains(before[i + 1]));
        }
        law_tag_is_dropped(short, body, after);
        assert(s.skip(1) =~= short + seq!['<'] + body + seq!['>'] + after);
        assert(seq![before[0]] + (short + untagged(after)) =~= before + untagged(after));
    }
}

// ---------------------------------------------------------------------------
// Caption files
// ---------------------------------------------------------------------------

/// A trimmed line of a caption file that is spoken text: not empty, no number of a caption, no
/// timing, and no header of the file.
pub open spec fn is_spoken(line: Seq<char>) -> bool {
    &&& line.len() > 0
    &&& !all_digits(line)
    &&& !contains_text(line, "-->"@)
    &&& !"WEBVTT"@.is_prefix_of(line)
    &&& !"NOTE"@.is_prefix_of(line)
    &&& !"Kind:"@.is_prefix_of(line)
    &&& !"Language:"@.is_prefix_of(line)
}

/// What a line of a caption file says as plain text, if it is spoken text.
pub open spec fn said(raw: Seq<char>) -> Option<Seq<char>> {
    if is_spoken(trimmed(raw)) {
        Some(plain_caption(trimmed(raw)))
    } else {
        None
    }
}

/// The lines without those that repeat the one kept before; an empty line at the start is none.
pub open spec fn unrepeated(lines: Seq<Seq<char>>) -> Seq<Seq<char>>
    decreases lines.len(),
{
    if lines.len() == 0 {
        Seq::empty()
    } else {
        let before = unrepeated(lines.drop_last());
        let previous = if before.len() == 0 {
            Seq::empty()
        } else {
            before.last()
        };
        if lines.last() == previous {
            before
        } else {
            before.push(lines.last())
        }
    }
}

/// The lines of the plain text of a caption file.
pub open spec fn caption_lines(content: Seq<char>) -> Seq<Seq<char>> {
    unrepeated(text_lines(content).filter_map(|raw: Seq<char>| said(raw)))
}

fn spoken(line: &str) -> (r: bool)
    ensures
        r == is_spoken(line@),
{
    !line.is_empty() && !is_all_digits(line) && !contains(line, "-->") && !starts_with(
        line,
        "WEBVTT",
    ) && !starts_with(line, "NOTE") && !starts_with(line, "Kind:") && !starts_with(
        line,
        "Language:",
    )
}

/// The plain text of a caption file: its spoken lines, without tags and escapes, and without
/// lines that repeat the one before.
pub fn captions_to_txt(content: &str) -> (r: String)
    ensures
        r@ == joined(caption_lines(content@), "\n"@),
{
    let all = split_lines(content);
    let ghost raws = texts(all@);
    let ghost say = |raw: Seq<char>| said(raw);
    let mut lines: Vec<String> = Vec::new();
    let mut previous = String::new();
    let mut i: usize = 0;
    proof {
        assert(raws.take(0) =~= Seq::empty());
        assert(raws.take(0).filter_map(say) =~= Seq::empty());
        assert(texts(lines@) =~= unrepeated(Seq::empty()));
        assert(previous@ =~= Seq::empty());
    }
    while i < all.len()
        invariant
            i <= all@.len(),
            raws == texts(all@),
            say == (|raw: Seq<char>| said(raw)),
            texts(lines@) == unrepeated(raws.take(i as int).filter_map(say)),
            previous@ == (if lines@.len() == 0 {
                Seq::empty()
            } else {
                lines@.last()@
            }),
        decreases all@.len() - i,
    {
        let ghost before = raws.take(i as int).filter_map(say);
        let line = trim(all[i].as_str());
        proof {
            assert(raws[i as int] == all@[i as int]@);
            raws.lemma_filter_map_take_succ(say, i as int);
            assert(texts(lines@).len() == lines@.len());
            if lines@.len() > 0 {
                assert(texts(lines@).last() == lines@.last()@);
            }
        }
        if spoken(line.as_str()) {
            let cleaned = caption_to_plain(line.as_str());
            proof {
                let next = before.push(cleaned@);
                assert(raws.take(i + 1).filter_map(say) =~= next);
                assert(next.drop_last() =~= before);
            }
            if !same_text(cleaned.as_str(), previous.as_str()) {
                previous = cleaned.clone();
                proof {
                    lemma_texts_push(lines@, cleaned);
                }
                lines.push(cleaned);
            }
        } else {
            assert(raws.take(i + 1).filter_map(say) =~= before);
        }
        i += 1;
    }
    assert(raws.take(raws.len() as int) =~= raws);
    join(&lines, "\n")
}

/// No line of the plain text repeats the one before it.
pub proof fn law_no_line_is_repeated(lines: Seq<Seq<char>>)
    ensures
        forall|i: int, j: int|
            #![trigger unrepeated(lines)[i], unrepeated(lines)[j]]
            0 <= i && j == i + 1 && j < unrepeated(lines).len() ==> unrepeated(lines)[i]
                != unrepeated(lines)[j],
    decreases lines.len(),
{
    if lines.len() > 0 {
        let before = unrepeated(lines.drop_last());
        law_no_line_is_repeated(lines.drop_last());
        assert forall|i: int, j: int|
            #![trigger unrepeated(lines)[i], unrepeated(lines)[j]]
            0 <= i && j == i + 1 && j < unrepeated(lines).len() implies unrepeated(lines)[i]
            != unrepeated(lines)[j] by {
            assert(unrepeated(lines)[i] == before[i]);
            if j < before.len() {
                assert(unrepeated(lines)[j] == before[j]);
            }
        }
    }
}

proof fn lemma_unrepeated_is_said(lines: Seq<Seq<char>>)
    ensures
        forall|i: int|
            0 <= i < unrepeated(lines).len() ==> lines.contains(#[trigger] unrepeated(lines)[i]),
    decreases lines.len(),
{
    if lines.len() > 0 {
        let short = lines.drop_last();
        lemma_unrepeated_is_said(short);
        assert forall|i: int| 0 <= i < unrepeated(lines).len() implies lines.contains(
            #[trigger] unrepeated(lines)[i],
        ) by {
            if i < unrepeated(short).len() {
                let k = choose|k: int| 0 <= k < short.len() && short[k] == unrepeated(short)[i];
                assert(lines[k] == unrepeated(lines)[i]);
            } else {
                assert(lines[lines.len() - 1] == unrepeated(lines)[i]);
            }
        }
    }
}

/// Every line of the plain text is what a spoken line of the caption file says.
pub proof fn law_text_comes_from_spoken_lines(content: Seq<char>, k: int)
    requires
        0 <= k < caption_lines(content).len(),
    ensures
        exists|i: int|
            0 <= i < text_lines(content).len() && said(#[trigger] text_lines(content)[i]) == Some(
                caption_lines(content)[k],
            ),
{
    let raws = text_lines(content);
    let say = |raw: Seq<char>| said(raw);
    let all = raws.filter_map(say);
    lemma_unrepeated_is_said(all);
    let line = caption_lines(content)[k];
    assert(all.contains(line));
    lemma_filter_map_source(raws, say, line);
}

proof fn lemma_filter_map_source<T, U>(s: Seq<T>, f: spec_fn(T) -> Option<U>, u: U)
    requires
        s.filter_map(f).contains(u),
    ensures
        exists|i: int| 0 <= i < s.len() && f(#[trigger] s[i]) == Some(u),
    decreases s.len(),
{
    if s.len() > 0 {
        let short = s.drop_last();
        s.lemma_filter_map_take_succ(f, s.len() - 1);
        assert(s.take(s.len() - 1) =~= short);
        assert(s.take(s.len() as int) =~= s);
        if f(s.last()) != Some(u) {
            let k = choose|k: int| 0 <= k < s.filter_map(f).len() && s.filter_map(f)[k] == u;
            assert(short.filter_map(f)[k] == u);
            lemma_filter_map_source(short, f, u);
            let i = choose|i: int| 0 <= i < short.len() && f(#[trigger] short[i]) == Some(u);
            assert(f(s[i]) == Some(u));
        } else {
            assert(f(s[s.len() - 1]) == Some(u));
        }
    } else {
        assert(s.filter_map(f) =~= Seq::empty());
    }
}

} // verus!
