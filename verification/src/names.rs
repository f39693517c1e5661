//! Names of files: made from titles, from other files, from the clock.
use vstd::prelude::*;

use crate::events::joined_text;
use crate::find::strip_suffix;
use crate::number::push_decimal;
use crate::text::{chars_of, text_between};
use crate::trim::{split_lines, trim};
#[allow(unused_imports)]
use crate::find::before_suffix;
#[allow(unused_imports)]
use crate::number::{decimal, digits_value};
#[allow(unused_imports)]
use crate::srt_laws::lemma_decimal_reads_back;
#[allow(unused_imports)]
use crate::text::{alphanumeric, str_view, texts, white_space};
#[allow(unused_imports)]
use crate::trim::{text_lines, trimmed, trimmed_end, trimmed_start};

verus! {

// ---------------------------------------------------------------------------
// Safe names
// ---------------------------------------------------------------------------

/// The character may stand in the name of a file: a letter, a digit, a space, a dot, an
/// underscore or a dash.
pub open spec fn name_char(c: char) -> bool {
    alphanumeric(c) || c == ' ' || c == '.' || c == '_' || c == '-'
}

/// The name with an underscore for every character that may not stand in the name of a file.
pub open spec fn cleaned(name: Seq<char>) -> Seq<char> {
    name.map_values(
        |c: char|
            if name_char(c) {
                c
            } else {
                '_'
            },
    )
}

/// `s` without the dots at its start.
pub open spec fn undotted_start(s: Seq<char>) -> Seq<char>
    decreases s.len(),
{
    if s.len() > 0 && s[0] == '.' {
        undotted_start(s.skip(1))
    } else {
        s
    }
}

/// `s` without the dots at its end.
pub open spec fn undotted_end(s: Seq<char>) -> Seq<char>
    decreases s.len(),
{
    if s.len() > 0 && s.last() == '.' {
        undotted_end(s.drop_last())
    } else {
        s
    }
}

/// A name for a file, made from any text: cleaned, without white space and then without dots at
/// either end; `transcript` if nothing is left.
pub open spec fn sanitized(name: Seq<char>) -> Seq<char> {
    let kept = undotted_end(undotted_start(trimmed(cleaned(name))));
    if kept.len() == 0 {
        "transcript"@
    } else {
        kept
    }
}

/// A name for a file, made from any text.
pub fn sanitize(name: &str) -> (r: String)
    ensures
        r@ == sanitized(name@),
{
    let v = chars_of(name);
    let mut out = String::new();
    let mut i: usize = 0;
    assert(out@ =~= cleaned(v@.take(0)));
    while i < v.len()
        invariant
            i <= v@.len(),
            out@ == cleaned(v@.take(i as int)),
        decreases v@.len() - i,
    {
        let c = v[i];
        let kept = if c.is_alphanumeric() || c == ' ' || c == '.' || c == '_' || c == '-' {
            c
        } else {
            '_'
        };
        assert(cleaned(v@.take(i + 1)) =~= cleaned(v@.take(i as int)).push(kept));
        out.push(kept);
        i += 1;
    }
    assert(v@.take(v@.len() as int) =~= v@);
    let white = trim(out.as_str());
    let t = chars_of(white.as_str());
    let mut from: usize = 0;
    assert(t@.skip(0) =~= t@);
    while from < t.len() && t[from] == '.'
        invariant
            from <= t@.len(),
            undotted_start(t@) == undotted_start(t@.skip(from as int)),
        decreases t@.len() - from,
    {
        assert(t@.skip(from as int).skip(1) =~= t@.skip(from + 1));
        from += 1;
    }
    let mut to: usize = t.len();
    assert(t@.skip(from as int) =~= t@.subrange(from as int, t@.len() as int));
    while to > from && t[to - 1] == '.'
        invariant
            from <= to <= t@.len(),
            undotted_end(t@.subrange(from as int, t@.len() as int)) == undotted_end(
                t@.subrange(from as int, to as int),
            ),
        decreases to,
    {
        assert(t@.subrange(from as int, to as int).drop_last() =~= t@.subrange(
            from as int,
            to - 1,
        ));
        to -= 1;
    }
    if from == to {
        return "transcript".to_string();
    }
    text_between(&t, from, to)
}

/// All characters may stand in the name of a file.
pub open spec fn all_name_chars(s: Seq<char>) -> bool {
    forall|i: int| 0 <= i < s.len() ==> name_char(#[trigger] s[i])
}

proof fn lemma_trimmed_name(s: Seq<char>)
    requires
        all_name_chars(s),
    ensures
        all_name_chars(trimmed(s)),
{
    lemma_trimmed_start_name(s);
    lemma_trimmed_end_name(trimmed_start(s));
}

proof fn lemma_trimmed_start_name(s: Seq<char>)
    requires
        all_name_chars(s),
    ensures
        all_name_chars(trimmed_start(s)),
    decreases s.len(),
{
    if s.len() > 0 && white_space(s[0]) {
        lemma_trimmed_start_name(s.skip(1));
    }
}

proof fn lemma_trimmed_end_name(s: Seq<char>)
    requires
        all_name_chars(s),
    ensures
        all_name_chars(trimmed_end(s)),
    decreases s.len(),
{
    if s.len() > 0 && white_space(s.last()) {
        lemma_trimmed_end_name(s.drop_last());
    }
}

proof fn lemma_undotted_start(s: Seq<char>)
    ensures
        all_name_chars(s) ==> all_name_chars(undotted_start(s)),
        undotted_start(s).len() > 0 ==> undotted_start(s)[0] != '.',
    decreases s.len(),
{
    if s.len() > 0 && s[0] == '.' {
        lemma_undotted_start(s.skip(1));
        if all_name_chars(s) {
            assert(all_name_chars(s.skip(1)));
        }
    }
}

proof fn lemma_undotted_end(s: Seq<char>)
    ensures
        all_name_chars(s) ==> all_name_chars(undotted_end(s)),
        undotted_end(s).len() > 0 ==> undotted_end(s).last() != '.' && undotted_end(s)[0] == s[0],
    decreases s.len(),
{
    if s.len() > 0 && s.last() == '.' {
        lemma_undotted_end(s.drop_last());
        if all_name_chars(s) {
            assert(all_name_chars(s.drop_last()));
        }
    }
}

/// A name made from a text is never empty, has only characters that may stand in the name of a
/// file, so that it names no other folder, and has no dot at either end, so that it is neither
/// hidden nor the name of this or the parent folder.
pub proof fn law_sanitized_name_is_a_name(name: Seq<char>)
    ensures
        sanitized(name).len() > 0,
        all_name_chars(sanitized(name)),
        !sanitized(name).contains('/'),
        !sanitized(name).contains('\\'),
        sanitized(name)[0] != '.',
        sanitized(name).last() != '.',
{
    reveal_strlit("transcript");
    let t = trimmed(cleaned(name));
    lemma_trimmed_name(cleaned(name));
    lemma_undotted_start(t);
    lemma_undotted_end(undotted_start(t));
    assert(all_name_chars(sanitized(name)));
    assert(!name_char('/'));
    assert(!name_char('\\'));
}

/// A text that is a name already, with nothing to clean or to cut, stays as it is.
pub proof fn law_good_name_stays(name: Seq<char>)
    requires
        name.len() > 0,
        forall|i: int| 0 <= i < name.len() ==> name_char(#[trigger] name[i]),
        name[0] != '.',
        name.last() != '.',
        !white_space(name[0]),
        !white_space(name.last()),
    ensures
        sanitized(name) == name,
{
    assert(cleaned(name) =~= name);
}

// ---------------------------------------------------------------------------
// What outputs are named after
// ---------------------------------------------------------------------------

/// The name of outputs made from a local file, by the stem of the file; `transcript` where the
/// stem is absent or no text.
pub fn base_from_input(stem: Option<&str>) -> (r: String)
    ensures
        r@ == sanitized(
            match stem {
                Some(s) => s@,
                None => "transcript"@,
            },
        ),
{
    match stem {
        Some(s) => sanitize(s),
        None => sanitize("transcript"),
    }
}

/// The name of outputs made from a video whose title query printed `output`.
pub open spec fn title_base(output: Option<Seq<char>>) -> Seq<char> {
    match output {
        Some(s) => if text_lines(s).len() > 0 {
            sanitized(text_lines(s)[0])
        } else {
            "youtube-transcript"@
        },
        None => "youtube-transcript"@,
    }
}

/// The name of outputs made from a video, by the first line that the title query printed;
/// `youtube-transcript` where it failed or printed nothing.
pub fn get_youtube_title(output: Option<&str>) -> (r: String)
    ensures
        r@ == title_base(str_view(output)),
{
    match output {
        Some(s) => {
            let lines = split_lines(s);
            assert(texts(lines@).len() == lines@.len());
            if lines.len() > 0 {
                assert(texts(lines@)[0] == lines@[0]@);
                sanitize(lines[0].as_str())
            } else {
                "youtube-transcript".to_string()
            }
        },
        None => "youtube-transcript".to_string(),
    }
}

/// The name of the outputs of a merge: the name asked for, if one was, else the stem of the
/// Whisper file without the mark that Whisper outputs have.
pub open spec fn merge_base_of(output_base: Option<Seq<char>>, stem: Option<Seq<char>>) -> Seq<char> {
    let asked = match output_base {
        Some(s) => trimmed(s),
        None => Seq::empty(),
    };
    let whisper = match stem {
        Some(s) => s,
        None => "hybrid-transcript"@,
    };
    sanitized(
        if asked.len() > 0 {
            asked
        } else {
            before_suffix(whisper, ".whisper"@)
        },
    )
}

/// The name of the outputs of a merge.
pub fn merge_base(output_base: Option<&str>, stem: Option<&str>) -> (r: String)
    ensures
        r@ == merge_base_of(str_view(output_base), str_view(stem)),
{
    let asked = match output_base {
        Some(s) => trim(s),
        None => String::new(),
    };
    if !asked.as_str().is_empty() {
        return sanitize(asked.as_str());
    }
    let whisper = match stem {
        Some(s) => s,
        None => "hybrid-transcript",
    };
    let unmarked = strip_suffix(whisper, ".whisper");
    sanitize(unmarked.as_str())
}

// ---------------------------------------------------------------------------
// Temporary folders
// ---------------------------------------------------------------------------

/// The name of the temporary folder of a job that starts at this time.
pub open spec fn temp_name(millis: nat) -> Seq<char> {
    ".yt-transcribe-tmp-"@ + decimal(millis)
}

/// The name of the temporary folder of a job that starts `millis` milliseconds after the epoch.
pub fn temp_dir_name(millis: u128) -> (r: String)
    ensures
        r@ == temp_name(millis as nat),
{
    let mut out = ".yt-transcribe-tmp-".to_string();
    push_decimal(&mut out, millis);
    out
}

/// What is said where the temporary folder could not be made.
pub fn temp_dir_failure(error: &str) -> (r: String)
    ensures
        r@ == "Could not create temp folder: "@ + error@,
{
    joined_text("Could not create temp folder: ", error)
}

/// Jobs that start at different milliseconds have different temporary folders.
pub proof fn law_temp_names_differ(a: nat, b: nat)
    requires
        a != b,
    ensures
        temp_name(a) != temp_name(b),
{
    if temp_name(a) == temp_name(b) {
        let mark = ".yt-transcribe-tmp-"@.len() as int;
        assert(temp_name(a).skip(mark) =~= decimal(a));
        assert(temp_name(b).skip(mark) =~= decimal(b));
        lemma_decimal_reads_back(a);
        lemma_decimal_reads_back(b);
    }
}

} // verus!
