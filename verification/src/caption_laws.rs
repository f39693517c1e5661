//! Which lines of a caption file are its plain text, and how each of them is written.
use vstd::prelude::*;

#[allow(unused_imports)]
use crate::captions::{
    bracket_free, bracketed, caption_lines, law_tag_is_dropped, law_text_without_tags_stays,
    plain_caption, said, starts_tag, unrepeated, untagged,
};
#[allow(unused_imports)]
use crate::find::{contains_text, occurs_at, replaced};
#[allow(unused_imports)]
use crate::number::all_digits;
#[allow(unused_imports)]
use crate::srt_laws::{lemma_split_append, lemma_split_separator};
#[allow(unused_imports)]
use crate::text::{ascii_digit, white_space};
#[allow(unused_imports)]
use crate::text_laws::{
    all_white, framed, law_first_occurrence_is_replaced, law_text_without_pattern_stays,
    law_white_space_around_is_cut,
};
#[allow(unused_imports)]
use crate::tokens::unescaped;
#[allow(unused_imports)]
use crate::trim::{lemma_split_some, split, text_lines, without_return, Separator};

verus! {

// ---------------------------------------------------------------------------
// Which lines are spoken
// ---------------------------------------------------------------------------

/// An arrow stands somewhere in the line.
pub open spec fn has_arrow(line: Seq<char>) -> bool {
    exists|i: int|
        0 <= i && i + 3 <= line.len() && #[trigger] line.subrange(i, i + 3) == seq!['-', '-', '>']
}

/// The line begins as the head, a note or a setting of a caption file does.
pub open spec fn is_head(line: Seq<char>) -> bool {
    ||| "WEBVTT"@.is_prefix_of(line)
    ||| "NOTE"@.is_prefix_of(line)
    ||| "Kind:"@.is_prefix_of(line)
    ||| "Language:"@.is_prefix_of(line)
}

/// A line between white space is spoken text exactly if it has a character that is no digit, no
/// arrow, and does not begin as a head does. A line that begins with digits, or has some, is spoken
/// text as well.
pub proof fn law_line_with_other_characters_is_spoken(
    before: Seq<char>,
    core: Seq<char>,
    after: Seq<char>,
)
    requires
        all_white(before),
        all_white(after),
        core.len() == 0 || framed(core),
    ensures
        said(before + core + after) == (if (exists|i: int|
            0 <= i < core.len() && !('0' <= #[trigger] core[i] <= '9')) && !has_arrow(core)
            && !is_head(core) {
            Some(plain_caption(core))
        } else {
            None
        }),
{
    law_white_space_around_is_cut(before, core, after);
    reveal_strlit("-->");
    let arrow = "-->"@;
    assert(arrow =~= seq!['-', '-', '>']);
    assert(contains_text(core, arrow) == has_arrow(core)) by {
        if contains_text(core, arrow) {
            let i = choose|i: int| occurs_at(core, arrow, i);
            assert(core.subrange(i, i + 3) == seq!['-', '-', '>']);
        }
        if has_arrow(core) {
            let i = choose|i: int|
                0 <= i && i + 3 <= core.len() && #[trigger] core.subrange(i, i + 3) == seq!['-', '-', '>'];
            assert(occurs_at(core, arrow, i));
        }
    }
    if exists|i: int| 0 <= i < core.len() && !('0' <= #[trigger] core[i] <= '9') {
        let i = choose|i: int| 0 <= i < core.len() && !('0' <= #[trigger] core[i] <= '9');
        assert(!ascii_digit(core[i]));
    } else {
        assert(all_digits(core));
    }
}

proof fn lemma_last_line(x: Seq<char>, line: Seq<char>)
    requires
        x.len() == 0 || x.last() == '\n',
        !line.contains('\n'),
    ensures
        text_lines(x + line + seq!['\n']) == text_lines(x).push(without_return(line)),
        line.len() > 0 ==> text_lines(x + line) == text_lines(x).push(line),
{
    let at = |c: char| Separator::One('\n').separates(c);
    let strip = |t: Seq<char>| without_return(t);
    assert forall|i: int| 0 <= i < line.len() implies !at(#[trigger] line[i]) by {
        assert(line.contains(line[i]));
    }
    lemma_split_some(x, at);
    let a = split(x, at);
    assert(a.last() == Seq::<char>::empty()) by {
        if x.len() > 0 {
            lemma_split_separator(x.drop_last(), '\n', at);
            assert(x.drop_last().push('\n') =~= x);
        }
    }
    lemma_split_append(x, line, at);
    assert(a.last() + line =~= line);
    let b = a.drop_last().push(line);
    assert(split(x + line, at) == b);
    assert(b.drop_last() =~= a.drop_last());
    assert((x + line).push('\n') =~= x + line + seq!['\n']);
    lemma_split_separator(x + line, '\n', at);
    let c = b.push(Seq::empty());
    assert(c.drop_last() =~= b);
    assert(b.map_values(strip) =~= a.drop_last().map_values(strip).push(without_return(line)));
}

proof fn lemma_said_next(raws: Seq<Seq<char>>, raw: Seq<char>)
    ensures
        raws.push(raw).filter_map(|r: Seq<char>| said(r)) == (match said(raw) {
            Some(t) => raws.filter_map(|r: Seq<char>| said(r)).push(t),
            None => raws.filter_map(|r: Seq<char>| said(r)),
        }),
{
    let say = |r: Seq<char>| said(r);
    let all = raws.push(raw);
    assert(all.take(raws.len() as int) =~= raws);
    assert(all.take(all.len() as int) =~= all);
    all.lemma_filter_map_take_succ(say, raws.len() as int);
    let before = raws.filter_map(say);
    match said(raw) {
        Some(t) => {
            assert(all.filter_map(say) =~= before.push(t));
        },
        None => {
            assert(all.filter_map(say) =~= before);
        },
    }
}

/// A further line of a caption file, whether a line feed ends it or not, adds its plain form to the
/// plain text if it is spoken text and says something else than the line that was kept before it;
/// any other line adds nothing, and no line changes what was there. At the start, a line without
/// plain form is as one that was said before.
pub proof fn law_each_line_adds_what_it_says(
    x: Seq<char>,
    before: Seq<char>,
    core: Seq<char>,
    after: Seq<char>,
    ended: bool,
)
    requires
        x.len() == 0 || x.last() == '\n',
        all_white(before),
        all_white(after),
        core.len() == 0 || framed(core),
        !(before + core + after).contains('\n'),
        ended || (before + core + after).len() > 0,
    ensures
        ({
            let was = caption_lines(x);
            let last = if was.len() == 0 {
                Seq::empty()
            } else {
                was.last()
            };
            let end = if ended {
                seq!['\n']
            } else {
                Seq::empty()
            };
            let spoken = (exists|i: int| 0 <= i < core.len() && !('0' <= #[trigger] core[i] <= '9'))
                && !has_arrow(core) && !is_head(core);
            caption_lines(x + (before + core + after) + end) == (if spoken && plain_caption(core)
                != last {
                was.push(plain_caption(core))
            } else {
                was
            })
        }),
{
    let line = before + core + after;
    let raw = if ended {
        without_return(line)
    } else {
        line
    };
    lemma_last_line(x, line);
    law_line_with_other_characters_is_spoken(before, core, after);
    if !ended {
        assert(x + line + Seq::<char>::empty() =~= x + line);
    }
    assert(said(raw) == said(line)) by {
        if raw != line {
            if after.len() > 0 {
                let less = after.drop_last();
                assert(raw =~= before + core + less);
                assert forall|i: int| 0 <= i < less.len() implies white_space(#[trigger] less[i]) by {
                    assert(less[i] == after[i]);
                }
                law_white_space_around_is_cut(before, core, less);
                law_white_space_around_is_cut(before, core, after);
            } else if core.len() > 0 {
                assert(line.last() == core.last());
                assert(white_space('\r'));
            } else {
                let less = before.drop_last();
                let none = Seq::<char>::empty();
                assert(raw =~= less + none + none);
                assert forall|i: int| 0 <= i < less.len() implies white_space(#[trigger] less[i]) by {
                    assert(less[i] == before[i]);
                }
                law_white_space_around_is_cut(less, none, none);
                law_white_space_around_is_cut(before, core, after);
            }
        }
    }
    let say = |r: Seq<char>| said(r);
    lemma_said_next(text_lines(x), raw);
    let lines = text_lines(x).filter_map(say);
    if let Some(t) = said(raw) {
        assert(lines.push(t).drop_last() =~= lines);
    }
}

proof fn lemma_kept_or_repeated(lines: Seq<Seq<char>>, i: int)
    requires
        0 <= i < lines.len(),
        lines[i].len() > 0,
    ensures
        unrepeated(lines).contains(lines[i]),
    decreases lines.len(),
{
    let short = lines.drop_last();
    let before = unrepeated(short);
    let all = unrepeated(lines);
    if i < short.len() {
        lemma_kept_or_repeated(short, i);
        let k = choose|k: int| 0 <= k < before.len() && before[k] == short[i];
        assert(all[k] == lines[i]);
    } else {
        assert(all.last() == lines.last());
        assert(all[all.len() - 1] == lines[i]);
    }
}

proof fn lemma_filter_map_has<T, U>(s: Seq<T>, f: spec_fn(T) -> Option<U>, i: int)
    requires
        0 <= i < s.len(),
        f(s[i]) is Some,
    ensures
        s.filter_map(f).contains(f(s[i])->0),
    decreases s.len(),
{
    let n = s.len() - 1;
    let short = s.take(n);
    s.lemma_filter_map_take_succ(f, n);
    assert(s.take(s.len() as int) =~= s);
    let all = s.filter_map(f);
    if i < n {
        assert(short[i] == s[i]);
        lemma_filter_map_has(short, f, i);
        let k = choose|k: int|
            0 <= k < short.filter_map(f).len() && short.filter_map(f)[k] == f(s[i])->0;
        assert(all[k] == f(s[i])->0);
    } else {
        assert(all[all.len() - 1] == f(s[i])->0);
    }
}

/// Wherever it stands in a caption file, a line of spoken text is in the plain text, unless nothing
/// of it is left without tags and marks.
pub proof fn law_no_spoken_line_is_lost(
    content: Seq<char>,
    k: int,
    before: Seq<char>,
    core: Seq<char>,
    after: Seq<char>,
    i: int,
)
    requires
        0 <= k < text_lines(content).len(),
        text_lines(content)[k] == before + core + after,
        all_white(before),
        all_white(after),
        framed(core),
        0 <= i < core.len(),
        !('0' <= core[i] <= '9'),
        !has_arrow(core),
        !is_head(core),
        plain_caption(core).len() > 0,
    ensures
        caption_lines(content).contains(plain_caption(core)),
{
    let say = |r: Seq<char>| said(r);
    let raws = text_lines(content);
    law_line_with_other_characters_is_spoken(before, core, after);
    assert(say(raws[k]) == Some(plain_caption(core)));
    lemma_filter_map_has(raws, say, k);
    let lines = raws.filter_map(say);
    let m = choose|m: int| 0 <= m < lines.len() && lines[m] == plain_caption(core);
    lemma_kept_or_repeated(lines, m);
}

// ---------------------------------------------------------------------------
// How a line is written
// ---------------------------------------------------------------------------

proof fn lemma_no_start(s: Seq<char>, pat: Seq<char>)
    requires
        pat.len() > 0,
        !s.contains(pat[0]),
    ensures
        forall|i: int| 0 <= i < s.len() ==> !occurs_at(s, pat, i),
{
    assert forall|i: int| 0 <= i < s.len() implies !occurs_at(s, pat, i) by {
        if occurs_at(s, pat, i) {
            assert(s.subrange(i, i + pat.len())[0] == pat[0]);
            assert(s.contains(s[i]));
        }
    }
}

pub proof fn lemma_no_bracket(s: Seq<char>)
    requires
        !s.contains('<'),
    ensures
        untagged(s) == s,
        replaced(s, "<c>"@, Seq::empty()) == s,
        replaced(s, "</c>"@, Seq::empty()) == s,
{
    reveal_strlit("<c>");
    reveal_strlit("</c>");
    assert forall|i: int| 0 <= i < s.len() implies !starts_tag(#[trigger] s.skip(i)) by {
        assert(s.skip(i)[0] == s[i]);
        assert(s.contains(s[i]));
    }
    law_text_without_tags_stays(s);
    lemma_no_start(s, "<c>"@);
    lemma_no_start(s, "</c>"@);
    law_text_without_pattern_stays(s, "<c>"@, Seq::empty());
    law_text_without_pattern_stays(s, "</c>"@, Seq::empty());
}

pub proof fn lemma_no_ampersand(s: Seq<char>)
    requires
        !s.contains('&'),
    ensures
        unescaped(s) == s,
        replaced(s, "&amp;"@, "&"@) == s,
        replaced(s, "&lt;"@, "<"@) == s,
        replaced(s, "&gt;"@, ">"@) == s,
{
    reveal_strlit("&amp;");
    reveal_strlit("&lt;");
    reveal_strlit("&gt;");
    lemma_no_start(s, "&amp;"@);
    lemma_no_start(s, "&lt;"@);
    lemma_no_start(s, "&gt;"@);
    law_text_without_pattern_stays(s, "&amp;"@, "&"@);
    law_text_without_pattern_stays(s, "&lt;"@, "<"@);
    law_text_without_pattern_stays(s, "&gt;"@, ">"@);
}

/// A line without angle brackets and ampersands is written as it is.
pub proof fn law_plain_line_is_written_as_it_is(s: Seq<char>)
    requires
        !s.contains('<'),
        !s.contains('&'),
    ensures
        plain_caption(s) == s,
{
    lemma_no_bracket(s);
    lemma_no_ampersand(s);
}

/// No character opens a tag or an escape.
pub open spec fn unmarked(s: Seq<char>) -> bool {
    forall|i: int| 0 <= i < s.len() ==> #[trigger] s[i] != '<' && s[i] != '&'
}

proof fn lemma_unmarked(s: Seq<char>)
    requires
        unmarked(s),
    ensures
        !s.contains('<'),
        !s.contains('&'),
{
}

proof fn lemma_marks_are_no_tags(a: Seq<char>, b: Seq<char>, c: Seq<char>)
    requires
        unmarked(a),
        unmarked(b),
        unmarked(c),
    ensures
        untagged(a + "<c>"@ + b + "</c>"@ + c) == a + "<c>"@ + b + "</c>"@ + c,
{
    reveal_strlit("<c>");
    reveal_strlit("</c>");
    let s = a + "<c>"@ + b + "</c>"@ + c;
    let p = a.len() as int;
    let q = p + 3 + b.len();
    assert forall|i: int| 0 <= i < s.len() implies !starts_tag(#[trigger] s.skip(i)) by {
        let t = s.skip(i);
        assert(t[0] == s[i]);
        if s[i] == '<' {
            if i < p {
                assert(s[i] == a[i]);
            } else if p + 3 <= i < q {
                assert(s[i] == b[i - p - 3]);
            } else if i >= q + 4 {
                assert(s[i] == c[i - q - 4]);
            }
            assert(i == p || i == q);
            reveal_with_fuel(bracket_free, 3);
            let u = t.skip(1);
            if i == p {
                assert(u[0] == 'c');
                assert(u.skip(1)[0] == '>');
                assert(bracket_free(u) == 1);
                assert(t.subrange(1, 2) =~= seq!['c']);
            } else {
                assert(u[0] == '/');
                assert(u.skip(1)[0] == 'c');
                assert(u.skip(1).skip(1)[0] == '>');
                assert(bracket_free(u) == 2);
                assert(t.subrange(1, 3) =~= seq!['/', 'c']);
            }
        }
    }
    law_text_without_tags_stays(s);
}

proof fn lemma_opening_marks_go(a: Seq<char>, b: Seq<char>, c: Seq<char>)
    requires
        unmarked(a),
        unmarked(b),
        unmarked(c),
    ensures
        replaced(a + "<c>"@ + b + "</c>"@ + c, "<c>"@, Seq::empty()) == a + b + "</c>"@ + c,
{
    reveal_strlit("<c>");
    reveal_strlit("</c>");
    let open = "<c>"@;
    let rest = b + "</c>"@ + c;
    let s = a + open + rest;
    assert(a + open + b + "</c>"@ + c =~= s);
    assert forall|i: int| 0 <= i < a.len() implies !occurs_at(s, open, i) by {
        if occurs_at(s, open, i) {
            assert(s.subrange(i, i + 3)[0] == '<');
            assert(a[i] == '<');
        }
    }
    law_first_occurrence_is_replaced(a, open, Seq::empty(), rest);
    assert forall|i: int| 0 <= i < rest.len() implies !occurs_at(rest, open, i) by {
        if occurs_at(rest, open, i) {
            assert(rest.subrange(i, i + 3)[0] == '<');
            assert(rest.subrange(i, i + 3)[1] == 'c');
            if i < b.len() {
                assert(b[i] == '<');
            } else if i >= b.len() + 4 {
                assert(rest[i] == c[i - b.len() - 4]);
            }
        }
    }
    law_text_without_pattern_stays(rest, open, Seq::empty());
    assert(a + Seq::<char>::empty() + rest =~= a + b + "</c>"@ + c);
}

proof fn lemma_closing_marks_go(x: Seq<char>, c: Seq<char>)
    requires
        unmarked(x),
        unmarked(c),
    ensures
        replaced(x + "</c>"@ + c, "</c>"@, Seq::empty()) == x + c,
{
    reveal_strlit("</c>");
    let close = "</c>"@;
    let s = x + close + c;
    assert forall|i: int| 0 <= i < x.len() implies !occurs_at(s, close, i) by {
        if occurs_at(s, close, i) {
            assert(s.subrange(i, i + 4)[0] == '<');
            assert(x[i] == '<');
        }
    }
    law_first_occurrence_is_replaced(x, close, Seq::empty(), c);
    lemma_unmarked(c);
    lemma_no_bracket(c);
    assert(x + Seq::<char>::empty() + c =~= x + c);
}

/// The marks around a word are dropped, and the word and what stands around it are kept.
pub proof fn law_marks_around_words_are_dropped(a: Seq<char>, b: Seq<char>, c: Seq<char>)
    requires
        unmarked(a),
        unmarked(b),
        unmarked(c),
    ensures
        plain_caption(a + "<c>"@ + b + "</c>"@ + c) == a + b + c,
{
    let x = a + b;
    assert(unmarked(x)) by {
        assert forall|i: int| 0 <= i < x.len() implies #[trigger] x[i] != '<' && x[i] != '&' by {
            if i < a.len() {
                assert(x[i] == a[i]);
            } else {
                assert(x[i] == b[i - a.len()]);
            }
        }
    }
    let all = a + b + c;
    assert(unmarked(all)) by {
        assert forall|i: int| 0 <= i < all.len() implies #[trigger] all[i] != '<' && all[i] != '&' by {
            if i < x.len() {
                assert(all[i] == x[i]);
            } else {
                assert(all[i] == c[i - x.len()]);
            }
        }
    }
    lemma_marks_are_no_tags(a, b, c);
    lemma_opening_marks_go(a, b, c);
    lemma_closing_marks_go(x, c);
    lemma_unmarked(all);
    lemma_no_ampersand(all);
}

proof fn lemma_one_escape(a: Seq<char>, pat: Seq<char>, with: Seq<char>, b: Seq<char>)
    requires
        unmarked(a),
        unmarked(b),
        pat.len() > 0,
        pat[0] == '&',
    ensures
        replaced(a + pat + b, pat, with) == a + with + b,
{
    let s = a + pat + b;
    assert forall|i: int| 0 <= i < a.len() implies !occurs_at(s, pat, i) by {
        if occurs_at(s, pat, i) {
            assert(s.subrange(i, i + pat.len())[0] == '&');
            assert(a[i] == '&');
        }
    }
    law_first_occurrence_is_replaced(a, pat, with, b);
    lemma_unmarked(b);
    lemma_no_start(b, pat);
    law_text_without_pattern_stays(b, pat, with);
}

/// An ampersand that begins none of its escapes is no escape.
proof fn lemma_other_escape(a: Seq<char>, rest: Seq<char>, b: Seq<char>, pat: Seq<char>, with: Seq<char>)
    requires
        unmarked(a),
        unmarked(rest),
        unmarked(b),
        pat.len() > 0,
        pat[0] == '&',
        !pat.is_prefix_of(seq!['&'] + rest + b),
    ensures
        replaced(a + (seq!['&'] + rest) + b, pat, with) == a + (seq!['&'] + rest) + b,
{
    let s = a + (seq!['&'] + rest) + b;
    let p = a.len() as int;
    assert(s.skip(p) =~= seq!['&'] + rest + b);
    assert forall|i: int| 0 <= i < s.len() implies !occurs_at(s, pat, i) by {
        if occurs_at(s, pat, i) {
            assert(s.subrange(i, i + pat.len())[0] == '&');
            assert(s[i] == '&');
            if i < p {
                assert(s[i] == a[i]);
            } else if p < i < p + 1 + rest.len() {
                assert(s[i] == rest[i - p - 1]);
            } else if i > p {
                assert(s[i] == b[i - p - 1 - rest.len()]);
            }
            let t = s.skip(p);
            assert(t.subrange(0, pat.len() as int) =~= s.subrange(p, p + pat.len()));
            assert(pat.is_prefix_of(t));
        }
    }
    law_text_without_pattern_stays(s, pat, with);
}

proof fn lemma_no_prefix(pat: Seq<char>, s: Seq<char>)
    requires
        pat.len() > 1,
        s.len() > 1,
        pat[1] != s[1],
    ensures
        !pat.is_prefix_of(s),
{
    if pat.is_prefix_of(s) {
        assert(s.subrange(0, pat.len() as int)[1] == pat[1]);
    }
}

/// The escapes of the angle brackets stand for them, and that of the ampersand for it, unless it
/// makes another escape with what follows.
pub proof fn law_escapes_are_undone(a: Seq<char>, b: Seq<char>)
    requires
        unmarked(a),
        unmarked(b),
    ensures
        plain_caption(a + "&lt;"@ + b) == a + seq!['<'] + b,
        plain_caption(a + "&gt;"@ + b) == a + seq!['>'] + b,
        !"lt;"@.is_prefix_of(b) && !"gt;"@.is_prefix_of(b) ==> plain_caption(a + "&amp;"@ + b) == a
            + seq!['&'] + b,
{
    reveal_strlit("&amp;");
    reveal_strlit("&lt;");
    reveal_strlit("&gt;");
    reveal_strlit("&");
    reveal_strlit("<");
    reveal_strlit(">");
    reveal_strlit("lt;");
    reveal_strlit("gt;");
    let amp = "&amp;"@;
    let lt = "&lt;"@;
    let gt = "&gt;"@;
    let none = Seq::<char>::empty();
    assert("&"@ =~= seq!['&']);
    assert("<"@ =~= seq!['<']);
    assert(">"@ =~= seq!['>']);
    lemma_without_brackets(a, lt, b);
    lemma_without_brackets(a, gt, b);
    lemma_without_brackets(a, amp, b);
    let tl = seq!['l', 't', ';'];
    let tg = seq!['g', 't', ';'];
    assert(lt =~= seq!['&'] + tl);
    assert(gt =~= seq!['&'] + tg);
    // The angle bracket that opens.
    lemma_no_prefix(amp, seq!['&'] + tl + b);
    lemma_other_escape(a, tl, b, amp, "&"@);
    lemma_one_escape(a, lt, "<"@, b);
    lemma_no_escape_left(a, '<', b, gt, ">"@);
    // The one that closes.
    lemma_no_prefix(amp, seq!['&'] + tg + b);
    lemma_no_prefix(lt, seq!['&'] + tg + b);
    lemma_other_escape(a, tg, b, amp, "&"@);
    lemma_other_escape(a, tg, b, lt, "<"@);
    lemma_one_escape(a, gt, ">"@, b);
    // The ampersand.
    if !"lt;"@.is_prefix_of(b) && !"gt;"@.is_prefix_of(b) {
        lemma_one_escape(a, amp, "&"@, b);
        let t = seq!['&'] + none + b;
        assert(!lt.is_prefix_of(t)) by {
            if lt.is_prefix_of(t) {
                assert(t.subrange(0, 4)[1] == 'l' && t.subrange(0, 4)[2] == 't' && t.subrange(0, 4)[3] == ';');
                assert(b.subrange(0, 3) =~= "lt;"@);
            }
        }
        assert(!gt.is_prefix_of(t)) by {
            if gt.is_prefix_of(t) {
                assert(t.subrange(0, 4)[1] == 'g' && t.subrange(0, 4)[2] == 't' && t.subrange(0, 4)[3] == ';');
                assert(b.subrange(0, 3) =~= "gt;"@);
            }
        }
        lemma_other_escape(a, none, b, lt, "<"@);
        lemma_other_escape(a, none, b, gt, ">"@);
        assert(seq!['&'] + none =~= seq!['&']);
    }
}

proof fn lemma_without_brackets(a: Seq<char>, escape: Seq<char>, b: Seq<char>)
    requires
        unmarked(a),
        unmarked(b),
        forall|i: int| 0 <= i < escape.len() ==> #[trigger] escape[i] != '<',
    ensures
        plain_caption(a + escape + b) == unescaped(a + escape + b),
{
    let s = a + escape + b;
    assert(!s.contains('<')) by {
        assert forall|i: int| 0 <= i < s.len() implies #[trigger] s[i] != '<' by {
            if i < a.len() {
                assert(s[i] == a[i]);
            } else if i < a.len() + escape.len() {
                assert(s[i] == escape[i - a.len()]);
            } else {
                assert(s[i] == b[i - a.len() - escape.len()]);
            }
        }
    }
    lemma_no_bracket(s);
}

proof fn lemma_no_escape_left(a: Seq<char>, c: char, b: Seq<char>, pat: Seq<char>, with: Seq<char>)
    requires
        unmarked(a),
        unmarked(b),
        c != '&',
        pat.len() > 0,
        pat[0] == '&',
    ensures
        replaced(a + seq![c] + b, pat, with) == a + seq![c] + b,
{
    let s = a + seq![c] + b;
    assert(!s.contains('&')) by {
        assert forall|i: int| 0 <= i < s.len() implies #[trigger] s[i] != '&' by {
            if i < a.len() {
                assert(s[i] == a[i]);
            } else if i > a.len() {
                assert(s[i] == b[i - a.len() - 1]);
            }
        }
    }
    lemma_no_start(s, pat);
    law_text_without_pattern_stays(s, pat, with);
}

// ---------------------------------------------------------------------------
// Which brackets are tags
// ---------------------------------------------------------------------------

/// What stands between angle brackets is a tag if it begins with a letter, or with a slash and a
/// letter; such a tag is dropped, unless it is the mark around a word, which is dealt with on its
/// own.
pub proof fn law_named_tags_are_dropped(before: Seq<char>, body: Seq<char>, after: Seq<char>)
    requires
        !before.contains('<'),
        !body.contains('<'),
        !body.contains('>'),
        body.len() > 0,
        ({
            ||| 'A' <= body[0] <= 'Z'
            ||| 'a' <= body[0] <= 'z'
            ||| body[0] == '/' && body.len() > 1 && ('A' <= body[1] <= 'Z' || 'a' <= body[1] <= 'z')
        }),
        body != seq!['c'],
        body != seq!['/', 'c'],
    ensures
        untagged(before + seq!['<'] + body + seq!['>'] + after) == before + untagged(after),
{
    law_tag_is_dropped(before, body, after);
}

/// A time between angle brackets, of digits, colons and dots, is a tag as well.
pub proof fn law_time_tags_are_dropped(
    before: Seq<char>,
    body: Seq<char>,
    after: Seq<char>,
    k: int,
)
    requires
        !before.contains('<'),
        body.len() > 0,
        '0' <= body[0] <= '9',
        forall|i: int|
            0 <= i < body.len() ==> '0' <= #[trigger] body[i] <= '9' || body[i] == ':' || body[i]
                == '.',
        0 <= k < body.len(),
        body[k] == ':',
    ensures
        untagged(before + seq!['<'] + body + seq!['>'] + after) == before + untagged(after),
{
    assert(body.contains(':'));
    assert(!body.contains('<'));
    assert(!body.contains('>'));
    assert forall|i: int| 0 <= i < body.len() implies ascii_digit(#[trigger] body[i]) || body[i] == ':'
        || body[i] == '.' by {}
    assert(body[0] != 'c' && body[0] != '/');
    law_tag_is_dropped(before, body, after);
}

proof fn lemma_kept_bracket(before: Seq<char>, rest: Seq<char>)
    requires
        !before.contains('<'),
        !starts_tag(seq!['<'] + rest),
    ensures
        untagged(before + (seq!['<'] + rest)) == before + (seq!['<'] + untagged(rest)),
    decreases before.len(),
{
    let tail = seq!['<'] + rest;
    let s = before + tail;
    if before.len() == 0 {
        assert(s =~= tail);
        assert(tail.skip(1) =~= rest);
        assert(before + (seq!['<'] + untagged(rest)) =~= seq!['<'] + untagged(rest));
    } else {
        assert(before.contains(before[0]));
        let short = before.skip(1);
        assert(!short.contains('<')) by {
            assert forall|i: int| 0 <= i < short.len() implies #[trigger] short[i] != '<' by {
                assert(short[i] == before[i + 1]);
                assert(before.contains(before[i + 1]));
            }
        }
        assert(s[0] == before[0]);
        assert(s.skip(1) =~= short + tail);
        lemma_kept_bracket(short, rest);
        assert(seq![before[0]] + (short + (seq!['<'] + untagged(rest))) =~= before + (seq!['<']
            + untagged(rest)));
    }
}

/// An angle bracket stays, and with it what stands before it, if what follows it is neither a
/// letter nor a slash nor a digit, or if nothing follows it.
pub proof fn law_other_brackets_stay(before: Seq<char>, rest: Seq<char>)
    requires
        !before.contains('<'),
        rest.len() > 0 ==> !('A' <= rest[0] <= 'Z') && !('a' <= rest[0] <= 'z') && !('0' <= rest[0]
            <= '9') && rest[0] != '/',
    ensures
        untagged(before + (seq!['<'] + rest)) == before + (seq!['<'] + untagged(rest)),
{
    let t = seq!['<'] + rest;
    assert(t.skip(1) =~= rest);
    if starts_tag(t) {
        let body = bracketed(t)->0;
        if rest.len() > 0 && body.len() > 0 {
            assert(body[0] == rest[0]);
        }
    }
    lemma_kept_bracket(before, rest);
}

/// An angle bracket after which another opens before one closes stays as well.
pub proof fn law_reopened_bracket_stays(before: Seq<char>, body: Seq<char>, rest: Seq<char>)
    requires
        !before.contains('<'),
        !body.contains('>'),
        !body.contains('<'),
    ensures
        untagged(before + (seq!['<'] + (body + seq!['<'] + rest))) == before + (seq!['<'] + untagged(
            body + seq!['<'] + rest,
        )),
{
    let more = body + seq!['<'] + rest;
    let t = seq!['<'] + more;
    assert(t.skip(1) =~= more);
    lemma_bracket_free_of(body, seq!['<'] + rest);
    assert(more =~= body + (seq!['<'] + rest));
    assert(t[body.len() as int + 1] == '<');
    lemma_kept_bracket(before, more);
}

proof fn lemma_bracket_free_of(body: Seq<char>, rest: Seq<char>)
    requires
        !body.contains('>'),
        !body.contains('<'),
        rest.len() > 0,
        rest[0] == '<' || rest[0] == '>',
    ensures
        bracket_free(body + rest) == body.len(),
    decreases body.len(),
{
    let s = body + rest;
    if body.len() == 0 {
        assert(s =~= rest);
    } else {
        assert(body.contains(body[0]));
        let short = body.skip(1);
        assert forall|i: int| 0 <= i < short.len() implies #[trigger] short[i] != '<' && short[i]
            != '>' by {
            assert(short[i] == body[i + 1]);
            assert(body.contains(body[i + 1]));
        }
        assert(!short.contains('<') && !short.contains('>'));
        assert(s[0] == body[0]);
        assert(s.skip(1) =~= short + rest);
        lemma_bracket_free_of(short, rest);
    }
}

/// The plain form of any line is made in this order: its tags are dropped, then the marks that open
/// around words and those that close, and then the escapes of the ampersand and of the two angle
/// brackets are undone.
pub proof fn law_plain_form_is_made_in_order(line: Seq<char>)
    ensures
        ({
            let none = Seq::<char>::empty();
            let opened = replaced(untagged(line), seq!['<', 'c', '>'], none);
            let closed = replaced(opened, seq!['<', '/', 'c', '>'], none);
            let first = replaced(closed, seq!['&', 'a', 'm', 'p', ';'], seq!['&']);
            let second = replaced(first, seq!['&', 'l', 't', ';'], seq!['<']);
            plain_caption(line) == replaced(second, seq!['&', 'g', 't', ';'], seq!['>'])
        }),
{
    reveal_strlit("<c>");
    reveal_strlit("</c>");
    reveal_strlit("&amp;");
    reveal_strlit("&lt;");
    reveal_strlit("&gt;");
    reveal_strlit("&");
    reveal_strlit("<");
    reveal_strlit(">");
    assert("<c>"@ =~= seq!['<', 'c', '>']);
    assert("</c>"@ =~= seq!['<', '/', 'c', '>']);
    assert("&amp;"@ =~= seq!['&', 'a', 'm', 'p', ';']);
    assert("&lt;"@ =~= seq!['&', 'l', 't', ';']);
    assert("&gt;"@ =~= seq!['&', 'g', 't', ';']);
    assert("&"@ =~= seq!['&']);
    assert("<"@ =~= seq!['<']);
    assert(">"@ =~= seq!['>']);
}

} // verus!
