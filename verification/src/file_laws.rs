//! What holds of names, files, models, tools and commands, for every input.
use vstd::prelude::*;

#[allow(unused_imports)]
use crate::arguments::{
    caption_arguments, formats, media_arguments, wav_arguments, whisper_arguments,
};
#[allow(unused_imports)]
use crate::artifacts::{
    clean_event, saved_sidecars, sidecar_files, CleanOutcome, Output, SidecarOutcome, Sidecars,
};
#[allow(unused_imports)]
use crate::commands::{failure_text, is_plain, last_lines, shown_argument, shown_command};
#[allow(unused_imports)]
use crate::events::Event;
#[allow(unused_imports)]
use crate::files::{
    dotted, has_extension, is_finished, is_media, is_newest, is_sidecar, is_stream_of,
    lemma_positions, media_extensions, newest_order, positions, same_letters, stands_first, Entry,
};
#[allow(unused_imports)]
use crate::find::{contains_text, joined, occurs_at};
#[allow(unused_imports)]
use crate::hybrid::HybridFile;
#[allow(unused_imports)]
use crate::models::{is_model, is_new_model, model_before, model_paths, rank_of, text_before, Model};
#[allow(unused_imports)]
use crate::names::{
    cleaned, merge_base_of, sanitized, temp_name, title_base, undotted_end, undotted_start,
};
#[allow(unused_imports)]
use crate::number::{all_digits, decimal};
#[allow(unused_imports)]
use crate::text::{alphanumeric, ascii_digit, ascii_small, lowercase};
#[allow(unused_imports)]
use crate::text_laws::{
    all_white, framed, law_lines_end_at_line_feeds, law_white_space_around_is_cut,
};
#[allow(unused_imports)]
use crate::tools::{
    candidate, is_first_of_kind, lemma_first_yes, search, standard_folders, Candidate, Search,
};
#[allow(unused_imports)]
use crate::vocab::stopword_set;

verus! {

// ---------------------------------------------------------------------------
// Names
// ---------------------------------------------------------------------------

/// The character stays in a name: a letter, a digit, a space, a dot, an underscore or a dash. Any
/// other becomes an underscore.
pub open spec fn name_form(c: char) -> char {
    if alphanumeric(c) || c == ' ' || c == '.' || c == '_' || c == '-' {
        c
    } else {
        '_'
    }
}

/// Only this character, as often as it stands there.
pub open spec fn only(s: Seq<char>, c: char) -> bool {
    forall|i: int| 0 <= i < s.len() ==> #[trigger] s[i] == c
}

proof fn lemma_undotted_start_of(dots: Seq<char>, rest: Seq<char>)
    requires
        only(dots, '.'),
        rest.len() > 0 ==> rest[0] != '.',
    ensures
        undotted_start(dots + rest) == rest,
    decreases dots.len(),
{
    let s = dots + rest;
    if dots.len() == 0 {
        assert(s =~= rest);
    } else {
        let short = dots.skip(1);
        assert forall|i: int| 0 <= i < short.len() implies #[trigger] short[i] == '.' by {
            assert(short[i] == dots[i + 1]);
        }
        assert(s[0] == dots[0]);
        assert(s.skip(1) =~= short + rest);
        lemma_undotted_start_of(short, rest);
    }
}

proof fn lemma_undotted_end_of(rest: Seq<char>, dots: Seq<char>)
    requires
        only(dots, '.'),
        rest.len() > 0 ==> rest.last() != '.',
    ensures
        undotted_end(rest + dots) == rest,
    decreases dots.len(),
{
    let s = rest + dots;
    if dots.len() == 0 {
        assert(s =~= rest);
    } else {
        let short = dots.drop_last();
        assert forall|i: int| 0 <= i < short.len() implies #[trigger] short[i] == '.' by {
            assert(short[i] == dots[i]);
        }
        assert(s.last() == dots[dots.len() - 1]);
        assert(s.drop_last() =~= rest + short);
        lemma_undotted_end_of(rest, short);
    }
}

/// Of a title between spaces, and within these between dots, the title remains, with each of its
/// characters in the form that it has in a name; where nothing remains, the name is `transcript`.
pub proof fn law_title_becomes_a_name(
    spaces_1: Seq<char>,
    dots_1: Seq<char>,
    title: Seq<char>,
    dots_2: Seq<char>,
    spaces_2: Seq<char>,
)
    requires
        only(spaces_1, ' '),
        only(spaces_2, ' '),
        only(dots_1, '.'),
        only(dots_2, '.'),
        title.len() > 0 ==> framed(title) && title[0] != '.' && title.last() != '.',
    ensures
        sanitized(spaces_1 + (dots_1 + title + dots_2) + spaces_2) == (if title.len() == 0 {
            "transcript"@
        } else {
            title.map_values(|c: char| name_form(c))
        }),
{
    let middle = dots_1 + title + dots_2;
    let name = spaces_1 + middle + spaces_2;
    let kept = title.map_values(|c: char| name_form(c));
    let inner = dots_1 + kept + dots_2;
    assert(cleaned(name) =~= spaces_1 + inner + spaces_2) by {
        assert forall|i: int| 0 <= i < name.len() implies cleaned(name)[i] == (spaces_1 + inner
            + spaces_2)[i] by {
            let k = i - spaces_1.len();
            if i < spaces_1.len() {
                assert(name[i] == spaces_1[i]);
            } else if k < dots_1.len() {
                assert(name[i] == dots_1[k]);
            } else if k < dots_1.len() + title.len() {
                assert(name[i] == title[k - dots_1.len()]);
            } else if k < middle.len() {
                assert(name[i] == dots_2[k - dots_1.len() - title.len()]);
            } else {
                assert(name[i] == spaces_2[k - middle.len()]);
            }
        }
    }
    lemma_only_white(spaces_1);
    lemma_only_white(spaces_2);
    if title.len() > 0 {
        assert(kept[0] == name_form(title[0]));
        assert(kept.last() == name_form(title.last()));
    }
    assert(inner.len() == 0 || framed(inner)) by {
        if inner.len() > 0 {
            if dots_1.len() > 0 {
                assert(inner[0] == dots_1[0]);
            } else if kept.len() > 0 {
                assert(inner[0] == kept[0]);
            } else {
                assert(inner[0] == dots_2[0]);
            }
            if dots_2.len() > 0 {
                assert(inner.last() == dots_2[dots_2.len() - 1]);
            } else if kept.len() > 0 {
                assert(inner.last() == kept.last());
            } else {
                assert(inner.last() == dots_1[dots_1.len() - 1]);
            }
        }
    }
    law_white_space_around_is_cut(spaces_1, inner, spaces_2);
    if title.len() > 0 {
        assert(inner =~= dots_1 + (kept + dots_2));
        assert((kept + dots_2)[0] == kept[0]);
        lemma_undotted_start_of(dots_1, kept + dots_2);
        lemma_undotted_end_of(kept, dots_2);
    } else {
        let none = Seq::<char>::empty();
        assert forall|i: int| 0 <= i < inner.len() implies #[trigger] inner[i] == '.' by {
            if i < dots_1.len() {
                assert(inner[i] == dots_1[i]);
            } else {
                assert(inner[i] == dots_2[i - dots_1.len()]);
            }
        }
        assert(inner + none =~= inner);
        lemma_undotted_start_of(inner, none);
    }
}

proof fn lemma_only_white(s: Seq<char>)
    requires
        only(s, ' '),
    ensures
        all_white(s),
{
}

/// The outputs for a video are named after the first line of its title; where there is no title,
/// they are named `youtube-transcript`.
pub proof fn law_outputs_are_named_after_the_title(line: Seq<char>, rest: Seq<char>)
    requires
        !line.contains('\n'),
        line.len() > 0 ==> line.last() != '\r',
    ensures
        title_base(Some(line + seq!['\n'] + rest)) == sanitized(line),
        line.len() > 0 ==> title_base(Some(line)) == sanitized(line),
        title_base(Some(Seq::<char>::empty())) == "youtube-transcript"@,
        title_base(None) == "youtube-transcript"@,
{
    law_lines_end_at_line_feeds(line, rest);
    assert(!Seq::<char>::empty().contains('\n'));
    law_lines_end_at_line_feeds(Seq::empty(), rest);
}

/// The outputs of a merge have the name that was asked for, without white space around it, if one
/// was; else that of the Whisper file, without the mark of Whisper outputs at its end.
pub proof fn law_merge_is_named_after_the_transcript(
    asked: Option<Seq<char>>,
    before: Seq<char>,
    name: Seq<char>,
    after: Seq<char>,
    stem: Seq<char>,
)
    requires
        all_white(before),
        all_white(after),
        framed(name),
        asked matches Some(s) ==> all_white(s),
    ensures
        merge_base_of(Some(before + name + after), Some(stem)) == sanitized(name),
        merge_base_of(Some(before + name + after), None) == sanitized(name),
        merge_base_of(asked, Some(stem + ".whisper"@)) == sanitized(stem),
        !".whisper"@.is_suffix_of(stem) ==> merge_base_of(asked, Some(stem)) == sanitized(stem),
{
    law_white_space_around_is_cut(before, name, after);
    let none = Seq::<char>::empty();
    if let Some(s) = asked {
        assert(s + none + none =~= s);
        law_white_space_around_is_cut(s, none, none);
    }
    let mark = ".whisper"@;
    let marked = stem + mark;
    assert(marked.subrange(marked.len() - mark.len(), marked.len() as int) =~= mark);
    assert(marked.take(marked.len() - mark.len()) =~= stem);
}

/// Every output has its own ending after the name of its source.
pub proof fn law_outputs_have_these_names(base: Seq<char>)
    ensures
        Output::CaptionSrt.name(base) == base + ".youtube-captions.srt"@,
        Output::CaptionTxt.name(base) == base + ".youtube-captions.txt"@,
        Output::Description.name(base) == base + ".description"@,
        Output::InfoJson.name(base) == base + ".info.json"@,
        Output::WhisperInput.name(base) == base + ".whisper-input.wav"@,
        Output::Converted.name(base) == base + ".converted.wav"@,
        Output::WhisperTxt.name(base) == base + ".whisper.txt"@,
        Output::WhisperSrt.name(base) == base + ".whisper.srt"@,
        Output::HybridSrt.name(base) == base + ".hybrid.srt"@,
        Output::HybridTxt.name(base) == base + ".hybrid.txt"@,
        Output::HybridFlagged.name(base) == base + ".hybrid.flagged.txt"@,
{
}

/// A temporary folder is hidden, and named after its time.
pub proof fn law_temporary_folder_is_hidden(millis: nat)
    ensures
        temp_name(millis)[0] == '.',
        temp_name(millis) == ".yt-transcribe-tmp-"@ + decimal(millis),
{
    reveal_strlit(".yt-transcribe-tmp-");
}

// ---------------------------------------------------------------------------
// Files
// ---------------------------------------------------------------------------

/// The two texts are the same but for the case of ASCII letters.
pub open spec fn same_but_for_case(a: Seq<char>, b: Seq<char>) -> bool {
    &&& a.len() == b.len()
    &&& forall|i: int|
        0 <= i < a.len() ==> {
            ||| #[trigger] a[i] == b[i]
            ||| 'A' <= a[i] <= 'Z' && b[i] as int == a[i] as int + 32
            ||| 'a' <= a[i] <= 'z' && a[i] as int == b[i] as int + 32
        }
}

proof fn lemma_same_but_for_case(a: Seq<char>, b: Seq<char>)
    ensures
        same_letters(a, b) == same_but_for_case(a, b),
{
    if a.len() == b.len() {
        if same_letters(a, b) {
            assert forall|i: int| 0 <= i < a.len() implies {
                ||| #[trigger] a[i] == b[i]
                ||| 'A' <= a[i] <= 'Z' && b[i] as int == a[i] as int + 32
                ||| 'a' <= a[i] <= 'z' && a[i] as int == b[i] as int + 32
            } by {
                assert(ascii_small(a[i]) == ascii_small(b[i]));
            }
        }
        if same_but_for_case(a, b) {
            assert forall|i: int| 0 <= i < a.len() implies ascii_small(#[trigger] a[i])
                == ascii_small(b[i]) by {}
        }
    }
}

/// An entry is media exactly if it is a file whose extension is, in whatever case, one of `mp4`,
/// `m4a`, `mp3`, `webm`, `mkv`, `mov`, `aac`, `opus` and `ogg`.
pub proof fn law_media_is_told_by_its_extension(e: Entry, ext: Seq<char>)
    ensures
        !e.is_file ==> !is_media(e),
        e.extension is None ==> !is_media(e),
        e.is_file && e.extension == Some(ext) ==> (is_media(e) <==> {
            ||| same_but_for_case(ext, "mp4"@)
            ||| same_but_for_case(ext, "m4a"@)
            ||| same_but_for_case(ext, "mp3"@)
            ||| same_but_for_case(ext, "webm"@)
            ||| same_but_for_case(ext, "mkv"@)
            ||| same_but_for_case(ext, "mov"@)
            ||| same_but_for_case(ext, "aac"@)
            ||| same_but_for_case(ext, "opus"@)
            ||| same_but_for_case(ext, "ogg"@)
        }),
{
    if e.is_file && e.extension == Some(ext) {
        let all = media_extensions();
        lemma_same_but_for_case(ext, "mp4"@);
        lemma_same_but_for_case(ext, "m4a"@);
        lemma_same_but_for_case(ext, "mp3"@);
        lemma_same_but_for_case(ext, "webm"@);
        lemma_same_but_for_case(ext, "mkv"@);
        lemma_same_but_for_case(ext, "mov"@);
        lemma_same_but_for_case(ext, "aac"@);
        lemma_same_but_for_case(ext, "opus"@);
        lemma_same_but_for_case(ext, "ogg"@);
        assert(all.len() == 9);
        assert(all[0] == "mp4"@ && all[1] == "m4a"@ && all[2] == "mp3"@);
        assert(all[3] == "webm"@ && all[4] == "mkv"@ && all[5] == "mov"@);
        assert(all[6] == "aac"@ && all[7] == "opus"@ && all[8] == "ogg"@);
        if is_media(e) {
            let k = choose|k: int| 0 <= k < all.len() && same_letters(ext, #[trigger] all[k]);
            assert(0 <= k < 9);
        }
    }
}

/// A download is finished exactly under the name of the outputs; a single stream of it has a dot,
/// the letter `f` and digits after that name, and nothing else.
pub proof fn law_streams_are_told_by_their_stem(base: Seq<char>, rest: Seq<char>)
    ensures
        is_finished(Some(base + rest), base) <==> rest.len() == 0,
        !is_finished(None, base),
        !is_stream_of(None, base),
        is_stream_of(Some(base + rest), base) <==> rest.len() > 2 && rest[0] == '.' && rest[1] == 'f'
            && forall|i: int| 2 <= i < rest.len() ==> '0' <= #[trigger] rest[i] <= '9',
{
    reveal_strlit(".f");
    let stem = base + rest;
    let mark = ".f"@;
    if rest.len() == 0 {
        assert(stem =~= base);
    }
    if is_stream_of(Some(stem), base) {
        let digits = choose|digits: Seq<char>|
            #![trigger all_digits(digits)]
            Some(stem) == Some(base + mark + digits) && digits.len() > 0 && all_digits(digits);
        assert(stem.skip(base.len() as int) =~= rest);
        assert((base + mark + digits).skip(base.len() as int) =~= mark + digits);
        assert(rest == mark + digits);
        assert forall|i: int| 2 <= i < rest.len() implies '0' <= #[trigger] rest[i] <= '9' by {
            assert(rest[i] == digits[i - 2]);
            assert(ascii_digit(digits[i - 2]));
        }
    }
    if rest.len() > 2 && rest[0] == '.' && rest[1] == 'f' && forall|i: int|
        2 <= i < rest.len() ==> '0' <= #[trigger] rest[i] <= '9' {
        let digits = rest.skip(2);
        assert forall|i: int| 0 <= i < digits.len() implies ascii_digit(#[trigger] digits[i]) by {
            assert(digits[i] == rest[i + 2]);
        }
        assert(all_digits(digits));
        assert(stem =~= base + mark + digits);
    }
}

/// The newest file has one of the extensions, and no file with one of them is known to be newer; of
/// files of the same time it is the last.
pub proof fn law_newest_file_is_newest(
    entries: Seq<Entry>,
    wanted: Seq<Seq<char>>,
    i: int,
    j: int,
    k: int,
)
    requires
        is_newest(entries, wanted, i),
        0 <= j < entries.len(),
        0 <= k < wanted.len(),
        entries[j].is_file,
        entries[j].extension is Some,
        same_but_for_case(entries[j].extension->0, wanted[k]),
    ensures
        0 <= i < entries.len(),
        entries[i].is_file,
        entries[i].extension is Some,
        entries[j].modified matches Some(t) ==> (entries[i].modified matches Some(u) && u >= t),
        entries[i].modified == entries[j].modified ==> j <= i,
{
    lemma_same_but_for_case(entries[j].extension->0, wanted[k]);
    assert(has_extension(entries[j], wanted));
}

/// Files that are listed from the newest to the oldest are so listed: a later one is never known to
/// be newer, and a file whose time is not known comes after all others.
pub proof fn law_listed_files_grow_older(
    modified: Seq<Option<i128>>,
    order: Seq<int>,
    a: int,
    b: int,
)
    requires
        newest_order(modified, order),
        0 <= a < b < order.len(),
    ensures
        modified[order[b]] matches Some(t) ==> (modified[order[a]] matches Some(u) && u >= t),
        modified[order[a]] == modified[order[b]] ==> order[a] > order[b],
{
    assert(stands_first(modified, order[a], order[b]));
}

/// A file goes with a download if its name begins with the stem and a dot, and ends with a dot and
/// the extension; its exact name is such a name.
pub proof fn law_sidecar_is_told_by_its_name(
    e: Entry,
    stem: Seq<char>,
    middle: Seq<char>,
    ext: Seq<char>,
)
    requires
        e.is_file,
    ensures
        e.name == Some(stem + seq!['.'] + ext) ==> is_sidecar(e, stem, ext),
        e.name == Some(stem + seq!['.'] + middle + seq!['.'] + ext) ==> is_sidecar(e, stem, ext),
        is_sidecar(e, stem, ext) ==> e.name is Some && e.name->0.len() > stem.len() && e.name->0.take(
            stem.len() as int,
        ) == stem && e.name->0[stem.len() as int] == '.' && ext.is_suffix_of(e.name->0),
        dotted(stem, ext) == stem + seq!['.'] + ext,
{
    reveal_strlit(".");
    assert("."@ =~= seq!['.']);
    let front = stem + "."@;
    let back = "."@ + ext;
    let exact = stem + seq!['.'] + ext;
    assert(exact.subrange(0, front.len() as int) =~= front);
    assert(exact.subrange(exact.len() - back.len(), exact.len() as int) =~= back);
    let long = stem + seq!['.'] + middle + seq!['.'] + ext;
    assert(long.subrange(0, front.len() as int) =~= front);
    assert(long.subrange(long.len() - back.len(), long.len() as int) =~= back);
    if is_sidecar(e, stem, ext) {
        let n = e.name->0;
        assert(n.subrange(0, front.len() as int) == front);
        assert(n.take(stem.len() as int) =~= front.take(stem.len() as int));
        assert(front.take(stem.len() as int) =~= stem);
        assert(n.subrange(0, front.len() as int)[stem.len() as int] == '.');
        assert(n.subrange(n.len() - back.len(), n.len() as int) == back);
        assert(n.subrange(n.len() - ext.len(), n.len() as int) =~= n.subrange(
            n.len() - back.len(),
            n.len() as int,
        ).skip(1));
        assert(back.skip(1) =~= ext);
    }
}

// ---------------------------------------------------------------------------
// Models
// ---------------------------------------------------------------------------

/// `part` stands in the text.
pub open spec fn speaks_of(s: Seq<char>, part: Seq<char>) -> bool {
    exists|i: int|
        0 <= i && i + part.len() <= s.len() && #[trigger] s.subrange(i, i + part.len()) == part
}

proof fn lemma_speaks_of(s: Seq<char>, part: Seq<char>)
    ensures
        contains_text(s, part) == speaks_of(s, part),
{
    if contains_text(s, part) {
        let i = choose|i: int| occurs_at(s, part, i);
        assert(s.subrange(i, i + part.len()) == part);
    }
    if speaks_of(s, part) {
        let i = choose|i: int|
            0 <= i && i + part.len() <= s.len() && #[trigger] s.subrange(i, i + part.len()) == part;
        assert(occurs_at(s, part, i));
    }
}

/// A file is a model exactly if its extension is `bin`, its name in small letters begins with
/// `ggml-` and speaks neither of `for-tests` nor of `silero`, and it has ten mebibytes or more.
pub proof fn law_models_are_told_by_name_and_size(name: Seq<char>, size: u64, ext: Seq<char>)
    ensures
        is_model(Some(ext), Some(name), Some(size)) <==> {
            &&& ext == "bin"@
            &&& "ggml-"@.is_prefix_of(lowercase(name))
            &&& !speaks_of(lowercase(name), "for-tests"@)
            &&& !speaks_of(lowercase(name), "silero"@)
            &&& size >= 10 * 1024 * 1024
        },
        !is_model(None, Some(name), Some(size)),
        !is_model(Some(ext), None, Some(size)),
        !is_model(Some(ext), Some(name), None),
{
    lemma_speaks_of(lowercase(name), "for-tests"@);
    lemma_speaks_of(lowercase(name), "silero"@);
}

/// Large models for many languages come first, then medium ones, then all others for many languages,
/// and models for English alone come last.
pub proof fn law_models_are_ranked(a: Seq<char>)
    ensures
        speaks_of(a, ".en"@) ==> rank_of(a) == 3,
        !speaks_of(a, ".en"@) && speaks_of(a, "large"@) ==> rank_of(a) == 0,
        !speaks_of(a, ".en"@) && !speaks_of(a, "large"@) && speaks_of(a, "medium"@) ==> rank_of(a)
            == 1,
        !speaks_of(a, ".en"@) && !speaks_of(a, "large"@) && !speaks_of(a, "medium"@) ==> rank_of(a)
            == 2,
{
    lemma_speaks_of(a, ".en"@);
    lemma_speaks_of(a, "large"@);
    lemma_speaks_of(a, "medium"@);
}

/// A model of a lower rank comes before one of a higher; of models of the same rank that one comes
/// first whose path is smaller in the first character in which they differ, or is the start of the
/// other.
pub proof fn law_models_of_one_rank_go_by_path(
    start: Seq<char>,
    x: char,
    a: Seq<char>,
    y: char,
    b: Seq<char>,
)
    ensures
        ({
            let p = start + seq![x] + a;
            let q = start + seq![y] + b;
            let rp = rank_of(lowercase(p));
            let rq = rank_of(lowercase(q));
            &&& rp < rq ==> model_before(p, q)
            &&& rp > rq ==> !model_before(p, q)
            &&& rp == rq && x < y ==> model_before(p, q)
            &&& rp == rq && x > y ==> !model_before(p, q)
            &&& rp == rank_of(lowercase(start)) ==> model_before(start, p) && !model_before(p, start)
        }),
{
    lemma_text_before(start, x, a, y, b);
    lemma_start_before(start, x, a);
}

proof fn lemma_text_before(start: Seq<char>, x: char, a: Seq<char>, y: char, b: Seq<char>)
    ensures
        x < y ==> text_before(start + seq![x] + a, start + seq![y] + b),
        x > y ==> !text_before(start + seq![x] + a, start + seq![y] + b),
    decreases start.len(),
{
    let p = start + seq![x] + a;
    let q = start + seq![y] + b;
    if start.len() > 0 {
        let less = start.skip(1);
        lemma_text_before(less, x, a, y, b);
        assert(p.skip(1) =~= less + seq![x] + a);
        assert(q.skip(1) =~= less + seq![y] + b);
        assert(p[0] == start[0] && q[0] == start[0]);
    } else {
        assert(p[0] == x && q[0] == y);
    }
}

proof fn lemma_start_before(start: Seq<char>, x: char, a: Seq<char>)
    ensures
        text_before(start, start + seq![x] + a),
        !text_before(start + seq![x] + a, start),
    decreases start.len(),
{
    let p = start + seq![x] + a;
    if start.len() > 0 {
        lemma_start_before(start.skip(1), x, a);
        assert(p.skip(1) =~= start.skip(1) + seq![x] + a);
        assert(p[0] == start[0]);
    }
}

// ---------------------------------------------------------------------------
// Tools
// ---------------------------------------------------------------------------

/// A search asks about its candidates in order, one after the other, until one is a hit: with only
/// misses it asks about the next, or ends where there is none, and with a hit it ends with the
/// first. The known places of a tool come before the folders that are searched.
pub proof fn law_search_asks_in_order(misses: Seq<bool>, more: Seq<bool>, total: int, extra: usize)
    requires
        forall|i: int| 0 <= i < misses.len() ==> !#[trigger] misses[i],
    ensures
        search(total, misses) == (if misses.len() < total {
            Search::Probe(misses.len() as int)
        } else {
            Search::Missing
        }),
        misses.len() < total ==> search(total, misses + seq![true] + more) == Search::Found(
            misses.len() as int,
        ),
        misses.len() < extra ==> candidate(extra, misses.len() as int) == Candidate::Extra(
            misses.len() as usize,
        ),
        extra <= misses.len() <= usize::MAX ==> candidate(extra, misses.len() as int)
            == Candidate::Dir((misses.len() - extra) as usize),
{
    lemma_first_yes(misses);
    let all = misses + seq![true] + more;
    lemma_first_yes(all);
    assert(all[misses.len() as int]);
    assert forall|i: int| 0 <= i < misses.len() implies !#[trigger] all[i] by {
        assert(all[i] == misses[i]);
    }
}

// ---------------------------------------------------------------------------
// Commands
// ---------------------------------------------------------------------------

/// An argument of letters, digits and the characters `./_-=:` is shown as it is.
pub proof fn law_plain_argument_is_shown_as_it_is(value: Seq<char>)
    requires
        forall|i: int|
            0 <= i < value.len() ==> {
                ||| alphanumeric(#[trigger] value[i])
                ||| value[i] == '.'
                ||| value[i] == '/'
                ||| value[i] == '_'
                ||| value[i] == '-'
                ||| value[i] == '='
                ||| value[i] == ':'
            },
    ensures
        shown_argument(value) == value,
{
}

/// An argument with any other character is shown in quotes.
pub proof fn law_other_argument_is_quoted(value: Seq<char>, i: int)
    requires
        0 <= i < value.len(),
        !alphanumeric(value[i]),
        value[i] != '.',
        value[i] != '/',
        value[i] != '_',
        value[i] != '-',
        value[i] != '=',
        value[i] != ':',
    ensures
        shown_argument(value)[0] == '"',
        shown_argument(value).last() == '"',
        shown_argument(value).len() >= 2,
        (forall|k: int|
            0 <= k < value.len() ==> ' ' <= #[trigger] value[k] <= '~' && value[k] != '"' && value[k]
                != '\\') ==> shown_argument(value) == seq!['"'] + value + seq!['"'],
{
    assert(!is_plain(value[i]));
}

/// A command is shown as its program and its arguments, each after a space.
pub proof fn law_command_is_shown_in_order(
    program: Seq<char>,
    args: Seq<Seq<char>>,
    more: Seq<char>,
)
    ensures
        shown_command(program, seq![more]) == program + seq![' '] + shown_argument(more),
        args.len() > 0 ==> shown_command(program, args.push(more)) == shown_command(program, args)
            + seq![' '] + shown_argument(more),
{
    reveal_strlit(" ");
    assert(" "@ =~= seq![' ']);
    let show = |a: Seq<char>| shown_argument(a);
    assert(seq![more].map_values(show) =~= seq![shown_argument(more)]);
    let all = args.push(more).map_values(show);
    assert(all =~= args.map_values(show).push(shown_argument(more)));
    assert(all.drop_last() =~= args.map_values(show));
    if args.len() > 0 {
        assert(shown_command(program, args.push(more)) =~= shown_command(program, args) + seq![' ']
            + shown_argument(more));
    }
}

/// Of what a failing command wrote, the last twenty lines are reported, or all if there are fewer.
pub proof fn law_last_twenty_lines_are_kept(before: Seq<Seq<char>>, last: Seq<Seq<char>>)
    ensures
        last.len() <= 20 ==> last_lines(last) == last,
        last.len() == 20 ==> last_lines(before + last) == last,
{
    if last.len() == 20 {
        let all = before + last;
        assert(all.skip(all.len() - 20) =~= last);
        if before.len() == 0 {
            assert(all =~= last);
        }
    }
}

/// A failing command is reported with its exit code, or with -1 where it has none, and with the
/// lines that were kept.
pub proof fn law_failure_tells_code_and_lines(code: i32, tail: Seq<Seq<char>>)
    ensures
        failure_text(None, tail) == failure_text(Some((-1) as i32), tail),
        code >= 0 ==> failure_text(Some(code), tail) == "Command failed with exit code "@ + decimal(
            code as nat,
        ) + ".\n"@ + joined(tail, "\n"@),
        code < 0 ==> failure_text(Some(code), tail) == "Command failed with exit code "@ + (seq!['-']
            + decimal((-(code as int)) as nat)) + ".\n"@ + joined(tail, "\n"@),
{
    reveal_strlit("-");
    assert("-"@ =~= seq!['-']);
}

// ---------------------------------------------------------------------------
// Arguments
// ---------------------------------------------------------------------------

/// The option is given, and the value follows it.
pub open spec fn given(args: Seq<Seq<char>>, option: Seq<char>, value: Seq<char>) -> bool {
    exists|k: int| 0 <= k && k + 1 < args.len() && #[trigger] args[k] == option && args[k + 1] == value
}

proof fn lemma_given(args: Seq<Seq<char>>, option: Seq<char>, value: Seq<char>, k: int)
    requires
        0 <= k,
        k + 1 < args.len(),
        args[k] == option,
        args[k + 1] == value,
    ensures
        given(args, option, value),
{
}

/// Whisper is given its model, the sound, and how its outputs are to be named; it is told to write
/// both a text and subtitles.
pub proof fn law_whisper_is_given_its_files(
    model: Seq<char>,
    wav: Seq<char>,
    prefix: Seq<char>,
    prompt: Option<Seq<char>>,
    max_len: Option<u32>,
)
    ensures
        ({
            let args = whisper_arguments(model, wav, prefix, prompt, max_len);
            &&& given(args, "-m"@, model)
            &&& given(args, "-f"@, wav)
            &&& given(args, "-of"@, prefix)
            &&& args.contains("-otxt"@)
            &&& args.contains("-osrt"@)
        }),
{
    let args = whisper_arguments(model, wav, prefix, prompt, max_len);
    lemma_given(args, "-m"@, model, 0);
    lemma_given(args, "-f"@, wav, 2);
    lemma_given(args, "-of"@, prefix, 6);
    assert(args[4] == "-otxt"@);
    assert(args[5] == "-osrt"@);
}

/// Whisper is given a greatest length exactly if it is above zero, and a prompt exactly if it has
/// characters other than white space, without the white space around it.
pub proof fn law_whisper_is_given_length_and_prompt(
    model: Seq<char>,
    wav: Seq<char>,
    prefix: Seq<char>,
    before: Seq<char>,
    prompt: Seq<char>,
    after: Seq<char>,
    n: u32,
)
    requires
        all_white(before),
        all_white(after),
        prompt.len() == 0 || framed(prompt),
    ensures
        ({
            let p = Some(before + prompt + after);
            let plain = whisper_arguments(model, wav, prefix, None, None);
            let length = if n > 0 {
                seq!["--max-len"@, decimal(n as nat)]
            } else {
                Seq::empty()
            };
            let asked = if prompt.len() > 0 {
                seq!["--prompt"@, prompt]
            } else {
                Seq::empty()
            };
            &&& whisper_arguments(model, wav, prefix, p, Some(n)) == plain + length + asked
            &&& whisper_arguments(model, wav, prefix, None, Some(n)) == plain + length
            &&& whisper_arguments(model, wav, prefix, p, None) == plain + asked
            &&& plain.len() == 8
        }),
{
    law_white_space_around_is_cut(before, prompt, after);
    let p = Some(before + prompt + after);
    let plain = whisper_arguments(model, wav, prefix, None, None);
    let length = if n > 0 {
        seq!["--max-len"@, decimal(n as nat)]
    } else {
        Seq::empty()
    };
    let asked = if prompt.len() > 0 {
        seq!["--prompt"@, prompt]
    } else {
        Seq::empty()
    };
    assert(whisper_arguments(model, wav, prefix, p, Some(n)) =~= plain + length + asked);
    assert(whisper_arguments(model, wav, prefix, None, Some(n)) =~= plain + length);
    assert(whisper_arguments(model, wav, prefix, p, None) =~= plain + asked);
}

/// The sound for Whisper is made of the input, without pictures, as 16-bit samples at 16 kHz in one
/// channel, and the output is named last.
pub proof fn law_sound_is_made_as_whisper_reads_it(input: Seq<char>, output: Seq<char>)
    ensures
        ({
            let args = wav_arguments(input, output);
            &&& given(args, "-i"@, input)
            &&& given(args, "-acodec"@, "pcm_s16le"@)
            &&& given(args, "-ar"@, "16000"@)
            &&& given(args, "-ac"@, "1"@)
            &&& args.contains("-vn"@)
            &&& args.contains("-y"@)
            &&& args.last() == output
        }),
{
    let args = wav_arguments(input, output);
    lemma_given(args, "-i"@, input, 1);
    lemma_given(args, "-acodec"@, "pcm_s16le"@, 4);
    lemma_given(args, "-ar"@, "16000"@, 6);
    lemma_given(args, "-ac"@, "1"@, 8);
    assert(args[3] == "-vn"@);
    assert(args[0] == "-y"@);
}

/// Captions are asked for without the media, made by people or not, in English, as SubRip files,
/// with the description and the metadata of the video.
pub proof fn law_captions_are_asked_for(template: Seq<char>, url: Seq<char>)
    ensures
        ({
            let args = caption_arguments(template, url);
            &&& args.contains("--skip-download"@)
            &&& args.contains("--write-subs"@)
            &&& args.contains("--write-auto-subs"@)
            &&& args.contains("--write-description"@)
            &&& args.contains("--write-info-json"@)
            &&& given(args, "--sub-langs"@, "en.*"@)
            &&& given(args, "--sub-format"@, "srt/vtt/best"@)
            &&& given(args, "--convert-subs"@, "srt"@)
            &&& given(args, "-o"@, template)
            &&& args.last() == url
        }),
{
    let args = caption_arguments(template, url);
    assert(args[0] == "--skip-download"@);
    assert(args[1] == "--write-subs"@);
    assert(args[2] == "--write-auto-subs"@);
    assert(args[3] == "--write-description"@);
    assert(args[4] == "--write-info-json"@);
    lemma_given(args, "--sub-langs"@, "en.*"@, 5);
    lemma_given(args, "--sub-format"@, "srt/vtt/best"@, 7);
    lemma_given(args, "--convert-subs"@, "srt"@, 9);
    lemma_given(args, "-o"@, template, 11);
}

/// Media is asked for in its format, of one video alone, with its description and metadata, and
/// under its template; yt-dlp is told of ffmpeg exactly if it is known, and then a video, and only
/// a video, is merged into MP4.
pub proof fn law_media_is_asked_for(
    format: Seq<char>,
    video: bool,
    path: Seq<char>,
    template: Seq<char>,
    url: Seq<char>,
)
    ensures
        ({
            let alone = media_arguments(format, video, None, template, url);
            let args = media_arguments(format, video, Some(path), template, url);
            let extra = seq!["--ffmpeg-location"@, path] + (if video {
                seq!["--merge-output-format"@, "mp4"@]
            } else {
                Seq::empty()
            });
            &&& alone.contains("--no-playlist"@)
            &&& alone.contains("--no-keep-video"@)
            &&& alone.contains("--write-description"@)
            &&& alone.contains("--write-info-json"@)
            &&& alone.contains("--embed-metadata"@)
            &&& given(alone, "-f"@, format)
            &&& given(alone, "-o"@, template)
            &&& alone.last() == url
            &&& alone.len() == 10
            &&& args == alone.take(7) + extra + alone.skip(7)
        }),
{
    let alone = media_arguments(format, video, None, template, url);
    let args = media_arguments(format, video, Some(path), template, url);
    let extra = seq!["--ffmpeg-location"@, path] + (if video {
        seq!["--merge-output-format"@, "mp4"@]
    } else {
        Seq::empty()
    });
    assert(alone[0] == "--no-playlist"@);
    assert(alone[1] == "--no-keep-video"@);
    assert(alone[2] == "--write-description"@);
    assert(alone[3] == "--write-info-json"@);
    assert(alone[4] == "--embed-metadata"@);
    lemma_given(alone, "-f"@, format, 5);
    lemma_given(alone, "-o"@, template, 7);
    assert(args =~= alone.take(7) + extra + alone.skip(7));
}

/// A video is first asked for as H.264 with AAC in MP4, sound first as AAC in M4A, and both at last
/// as whatever is best.
pub proof fn law_best_formats_come_first()
    ensures
        formats(true).first()
            == "bv*[ext=mp4][vcodec^=avc1]+ba[ext=m4a][acodec^=mp4a]/b[ext=mp4][vcodec^=avc1][acodec^=mp4a]"@,
        formats(true)[1] == "bv*[ext=mp4][vcodec^=avc1]+ba[ext=m4a]/b[ext=mp4][vcodec^=avc1]"@,
        formats(true)[2] == "bv*[ext=mp4]+ba[ext=m4a]/b[ext=mp4]/bv*+ba/b"@,
        formats(true)[3] == "bv*+ba/b"@,
        formats(true).last() == "best"@,
        formats(false).first() == "ba[ext=m4a][acodec^=mp4a]/ba[ext=m4a]/ba[acodec^=mp4a]/ba/b"@,
        formats(false)[1] == "ba[ext=m4a]/ba/b"@,
        formats(false)[2] == "ba/b"@,
        formats(false).last() == "best"@,
{
}

// ---------------------------------------------------------------------------
// Common words
// ---------------------------------------------------------------------------

/// The common words are exactly these.
pub proof fn law_common_words(w: Seq<char>)
    ensures
        stopword_set().contains(w) <==> {
            ||| w == "a"@ || w == "an"@ || w == "and"@ || w == "are"@ || w == "as"@ || w == "at"@
            ||| w == "be"@ || w == "been"@ || w == "being"@ || w == "but"@ || w == "by"@
            ||| w == "can"@ || w == "could"@ || w == "did"@ || w == "do"@ || w == "does"@
            ||| w == "for"@ || w == "from"@ || w == "had"@ || w == "has"@ || w == "have"@
            ||| w == "he"@ || w == "her"@ || w == "here"@ || w == "hers"@ || w == "him"@
            ||| w == "his"@ || w == "how"@ || w == "i"@ || w == "if"@ || w == "in"@
            ||| w == "into"@ || w == "is"@ || w == "it"@ || w == "its"@ || w == "just"@
            ||| w == "let"@ || w == "lets"@ || w == "me"@ || w == "mine"@ || w == "my"@
            ||| w == "no"@ || w == "not"@ || w == "now"@ || w == "of"@ || w == "on"@
            ||| w == "or"@ || w == "our"@ || w == "ours"@ || w == "out"@ || w == "over"@
            ||| w == "own"@ || w == "she"@ || w == "should"@ || w == "so"@ || w == "some"@
            ||| w == "than"@ || w == "that"@ || w == "the"@ || w == "their"@ || w == "theirs"@
            ||| w == "them"@ || w == "then"@ || w == "there"@ || w == "these"@ || w == "they"@
            ||| w == "this"@ || w == "those"@ || w == "through"@ || w == "to"@ || w == "too"@
            ||| w == "under"@ || w == "until"@ || w == "up"@ || w == "us"@ || w == "very"@
            ||| w == "was"@ || w == "we"@ || w == "were"@ || w == "what"@ || w == "when"@
            ||| w == "where"@ || w == "which"@ || w == "while"@ || w == "who"@ || w == "whom"@
            ||| w == "why"@ || w == "will"@ || w == "with"@ || w == "would"@ || w == "yes"@
            ||| w == "you"@ || w == "your"@ || w == "yours"@
        },
{
}

// ---------------------------------------------------------------------------
// Metadata files, and what is removed
// ---------------------------------------------------------------------------

/// A file with metadata counts as saved exactly if it is in the folder of the outputs; one that
/// could not be saved is warned of, with its kind and the error, and no other is.
pub proof fn law_unsaved_metadata_is_warned_of(error: String, there: bool, ext: Seq<char>)
    ensures
        SidecarOutcome::Checked(there).saved() == there,
        !SidecarOutcome::NotSaved(error).saved(),
        SidecarOutcome::Checked(there).warning(ext) == Seq::<Event>::empty(),
        SidecarOutcome::NotSaved(error).warning(ext).len() == 1,
        SidecarOutcome::NotSaved(error).warning(ext)[0].level == "warn"@,
        SidecarOutcome::NotSaved(error).warning(ext)[0].stage == "metadata"@,
        SidecarOutcome::NotSaved(error).warning(ext)[0].message == "Could not save "@ + ext + ": "@
            + error@,
{
}

/// The user is told by name of the metadata that was saved, and of nothing if none was.
pub proof fn law_saved_metadata_is_told_by_name(base: Seq<char>)
    ensures
        ({
            let told = |d: bool, i: bool|
                saved_sidecars(base, Sidecars { description: d, info_json: i });
            let lead = "Saved metadata sidecar(s): "@;
            &&& told(false, false) == Seq::<Event>::empty()
            &&& told(true, false).len() == 1 && told(true, false)[0].message == lead + (base
                + ".description"@)
            &&& told(false, true).len() == 1 && told(false, true)[0].message == lead + (base
                + ".info.json"@)
            &&& told(true, true).len() == 1 && told(true, true)[0].message == lead + ((base
                + ".description"@) + ", "@ + (base + ".info.json"@))
        }),
{
    let name = |o: Output| o.name(base);
    let d = base + ".description"@;
    let i = base + ".info.json"@;
    let both = Sidecars { description: true, info_json: true };
    let one = Sidecars { description: true, info_json: false };
    let other = Sidecars { description: false, info_json: true };
    assert(sidecar_files(both).map_values(name) =~= seq![d, i]);
    assert(sidecar_files(one).map_values(name) =~= seq![d]);
    assert(sidecar_files(other).map_values(name) =~= seq![i]);
    reveal_with_fuel(joined, 2);
    assert(seq![d, i].drop_last() =~= seq![d]);
}

/// The user is told of what was removed and, as a warning, of what could not be; what was not there
/// is passed over.
pub proof fn law_removals_are_told(path: Seq<char>, error: String)
    ensures
        clean_event(path, CleanOutcome::Absent) is None,
        clean_event(path, CleanOutcome::Removed) == Some(
            (Event { level: "stage"@, stage: "cleanup"@, message: "Removed "@ + path }),
        ),
        clean_event(path, CleanOutcome::Failed(error)) == Some(
            (Event {
                level: "warn"@,
                stage: "cleanup"@,
                message: "Could not remove "@ + path + ": "@ + error@,
            }),
        ),
{
}

/// A file of a merge that could not be read or written is named, with the error.
pub proof fn law_files_of_a_merge_are_named(error: Seq<char>)
    ensures
        HybridFile::ReadWhisper.failed(error) == "Could not read whisper SRT: "@ + error,
        HybridFile::ReadYoutube.failed(error) == "Could not read youtube SRT: "@ + error,
        HybridFile::WriteSrt.failed(error) == "Could not write hybrid SRT: "@ + error,
        HybridFile::WriteTxt.failed(error) == "Could not write hybrid TXT: "@ + error,
        HybridFile::WriteFlagged.failed(error) == "Could not write flagged segments: "@ + error,
{
}

// ---------------------------------------------------------------------------
// Each once
// ---------------------------------------------------------------------------

/// The paths of the models are those of the files that are models and at a place where no model was
/// found before, and no others.
pub proof fn law_each_model_is_offered_once(found: Seq<Model>, i: int)
    requires
        0 <= i < found.len(),
        is_model(found[i].extension, found[i].name, found[i].size),
        forall|j: int|
            0 <= j < i && is_model(
                (#[trigger] found[j]).extension,
                found[j].name,
                found[j].size,
            ) ==> found[j].place != found[i].place,
    ensures
        model_paths(found).contains(found[i].path),
{
    let pick = |k: int| is_new_model(found, k);
    lemma_positions(found.len(), pick);
    assert forall|j: int| 0 <= j < i && (#[trigger] found[j]).plausible() implies found[j].place
        != found[i].place by {}
    assert(pick(i));
    let at = positions(found.len(), pick);
    let k = choose|k: int| 0 <= k < at.len() && at[k] == i;
    assert(model_paths(found)[k] == found[i].path);
}

/// Every path that is offered is that of a model, and no two are of models at the same place.
pub proof fn law_offered_models_are_models(found: Seq<Model>, a: int, b: int)
    requires
        0 <= a < b < model_paths(found).len(),
    ensures
        exists|i: int, j: int|
            #![trigger found[i], found[j]]
            0 <= i < j < found.len() && found[i].path == model_paths(found)[a] && found[j].path
                == model_paths(found)[b] && found[i].place != found[j].place && is_model(
                found[i].extension,
                found[i].name,
                found[i].size,
            ) && is_model(found[j].extension, found[j].name, found[j].size),
{
    let pick = |k: int| is_new_model(found, k);
    lemma_positions(found.len(), pick);
    let at = positions(found.len(), pick);
    let i = at[a];
    let j = at[b];
    assert(pick(i) && pick(j));
    assert(found[i].plausible());
}

/// Of folders that are the same, the first is searched, and no other.
pub proof fn law_each_folder_is_searched_once(all: Seq<Seq<Seq<u8>>>, i: int, j: int)
    requires
        0 <= i < all.len(),
        0 <= j < i,
    ensures
        is_first_of_kind(all, 0),
        all[j] == all[i] ==> !is_first_of_kind(all, i),
        is_first_of_kind(all, i) <==> forall|k: int| 0 <= k < i ==> #[trigger] all[k] != all[i],
{
}

/// The folders that are searched before those of the `PATH`, in order.
pub proof fn law_standard_folders()
    ensures
        standard_folders().len() == 4,
        standard_folders()[0] == "/opt/homebrew/bin"@,
        standard_folders()[1] == "/usr/local/bin"@,
        standard_folders()[2] == "/usr/bin"@,
        standard_folders()[3] == "/bin"@,
{
}

} // verus!
