//! Files in a folder: which are finished media, which are left-overs, which is the newest.
use vstd::prelude::*;

use crate::find::{ends_with, starts_with, strip_prefix};
use crate::number::is_all_digits;
use crate::text::{chars_of, same_text};
#[allow(unused_imports)]
use crate::align::stream;
#[allow(unused_imports)]
use crate::find::after_prefix;
#[allow(unused_imports)]
use crate::number::all_digits;
#[allow(unused_imports)]
use crate::text::{ascii_small, str_view, text_view};

verus! {

/// An entry of a folder: whether it is a file, its name, stem and extension as far as they are
/// text, and when it was modified, if that is known, in nanoseconds from the epoch.
#[derive(Debug, Clone)]
pub struct FileEntry {
    pub is_file: bool,
    pub name: Option<String>,
    pub stem: Option<String>,
    pub extension: Option<String>,
    pub modified: Option<i128>,
}

/// An entry of a folder as mathematical values.
pub struct Entry {
    pub is_file: bool,
    pub name: Option<Seq<char>>,
    pub stem: Option<Seq<char>>,
    pub extension: Option<Seq<char>>,
    pub modified: Option<i128>,
}

impl View for FileEntry {
    type V = Entry;

    open spec fn view(&self) -> Entry {
        Entry {
            is_file: self.is_file,
            name: text_view(self.name),
            stem: text_view(self.stem),
            extension: text_view(self.extension),
            modified: self.modified,
        }
    }
}

/// The entries of a list.
pub open spec fn entries_of(v: Seq<FileEntry>) -> Seq<Entry> {
    v.map_values(|e: FileEntry| e@)
}

/// The positions below `n` that are picked, in order.
pub open spec fn positions(n: nat, pick: spec_fn(int) -> bool) -> Seq<int>
    decreases n,
{
    if n == 0 {
        Seq::empty()
    } else {
        let before = positions((n - 1) as nat, pick);
        if pick(n - 1) {
            before.push(n - 1)
        } else {
            before
        }
    }
}

/// Positions as mathematical values.
pub open spec fn places(v: Seq<usize>) -> Seq<int> {
    v.map_values(|i: usize| i as int)
}

/// What holds of the positions that are picked: they are the picked ones, and in order.
pub proof fn lemma_positions(n: nat, pick: spec_fn(int) -> bool)
    ensures
        forall|k: int|
            0 <= k < positions(n, pick).len() ==> 0 <= #[trigger] positions(n, pick)[k] < n && pick(
                positions(n, pick)[k],
            ),
        forall|a: int, b: int|
            0 <= a < b < positions(n, pick).len() ==> #[trigger] positions(n, pick)[a]
                < #[trigger] positions(n, pick)[b],
        forall|i: int| 0 <= i < n && #[trigger] pick(i) ==> positions(n, pick).contains(i),
    decreases n,
{
    if n > 0 {
        let before = positions((n - 1) as nat, pick);
        let all = positions(n, pick);
        lemma_positions((n - 1) as nat, pick);
        assert forall|i: int| 0 <= i < n && #[trigger] pick(i) implies all.contains(i) by {
            if i < n - 1 {
                let k = choose|k: int| 0 <= k < before.len() && before[k] == i;
                assert(all[k] == i);
            } else {
                assert(all[all.len() - 1] == i);
            }
        }
    }
}

// ---------------------------------------------------------------------------
// Extensions
// ---------------------------------------------------------------------------

/// The two texts differ at most in the case of ASCII letters.
pub open spec fn same_letters(a: Seq<char>, b: Seq<char>) -> bool {
    &&& a.len() == b.len()
    &&& forall|i: int| 0 <= i < a.len() ==> ascii_small(#[trigger] a[i]) == ascii_small(b[i])
}

fn small(c: char) -> (r: char)
    ensures
        r == ascii_small(c),
{
    if 'A' <= c && c <= 'Z' {
        let u: u8 = c as u8;
        (u + 32u8) as char
    } else {
        c
    }
}

/// Whether the two texts differ at most in the case of ASCII letters.
pub fn eq_ignore_ascii_case(a: &str, b: &str) -> (r: bool)
    ensures
        r == same_letters(a@, b@),
{
    let x = chars_of(a);
    let y = chars_of(b);
    if x.len() != y.len() {
        return false;
    }
    let mut i: usize = 0;
    while i < x.len()
        invariant
            i <= x@.len(),
            x@.len() == y@.len(),
            x@ == a@,
            y@ == b@,
            forall|k: int| 0 <= k < i ==> ascii_small(#[trigger] x@[k]) == ascii_small(y@[k]),
        decreases x@.len() - i,
    {
        if small(x[i]) != small(y[i]) {
            return false;
        }
        i += 1;
    }
    true
}

/// The entry is a file with one of the extensions, in whatever case.
pub open spec fn has_extension(e: Entry, wanted: Seq<Seq<char>>) -> bool {
    &&& e.is_file
    &&& e.extension is Some
    &&& exists|k: int|
        0 <= k < wanted.len() && same_letters(e.extension->0, #[trigger] wanted[k])
}

fn has_one_of(e: &FileEntry, extensions: &[&str]) -> (r: bool)
    ensures
        r == has_extension(e@, stream(extensions@)),
{
    if !e.is_file {
        return false;
    }
    match &e.extension {
        Some(ext) => {
            let mut i: usize = 0;
            while i < extensions.len()
                invariant
                    i <= extensions@.len(),
                    e@.is_file,
                    e@.extension == Some(ext@),
                    forall|k: int|
                        0 <= k < i ==> !same_letters(
                            ext@,
                            #[trigger] stream(extensions@)[k],
                        ),
                decreases extensions@.len() - i,
            {
                assert(stream(extensions@)[i as int] == extensions@[i as int]@);
                if eq_ignore_ascii_case(ext.as_str(), extensions[i]) {
                    return true;
                }
                i += 1;
            }
            false
        },
        None => false,
    }
}

// ---------------------------------------------------------------------------
// Media
// ---------------------------------------------------------------------------

/// The extensions of audio and video files.
pub open spec fn media_extensions() -> Seq<Seq<char>> {
    seq![
        "mp4"@,
        "m4a"@,
        "mp3"@,
        "webm"@,
        "mkv"@,
        "mov"@,
        "aac"@,
        "opus"@,
        "ogg"@,
    ]
}

/// The entry is an audio or video file.
pub open spec fn is_media(e: Entry) -> bool {
    has_extension(e, media_extensions())
}

fn media(e: &FileEntry) -> (r: bool)
    ensures
        r == is_media(e@),
{
    let extensions: [&str; 9] = [
        "mp4",
        "m4a",
        "mp3",
        "webm",
        "mkv",
        "mov",
        "aac",
        "opus",
        "ogg",
    ];
    assert(stream(extensions@) =~= media_extensions());
    has_one_of(e, extensions.as_slice())
}

/// The positions of the audio and video files of a folder.
pub fn media_files(entries: &[FileEntry]) -> (r: Vec<usize>)
    ensures
        places(r@) == positions(
            entries@.len(),
            |i: int| is_media(entries_of(entries@)[i]),
        ),
{
    let ghost pick = |i: int| is_media(entries_of(entries@)[i]);
    let mut r: Vec<usize> = Vec::new();
    let mut i: usize = 0;
    assert(places(r@) =~= positions(0, pick));
    while i < entries.len()
        invariant
            i <= entries@.len(),
            pick == (|i: int| is_media(entries_of(entries@)[i])),
            places(r@) == positions(i as nat, pick),
        decreases entries@.len() - i,
    {
        assert(entries_of(entries@)[i as int] == entries@[i as int]@);
        if media(&entries[i]) {
            assert(places(r@.push(i)) =~= places(r@).push(i as int));
            r.push(i);
        }
        i += 1;
    }
    r
}

/// The stem is exactly the name of the outputs.
pub open spec fn is_finished(stem: Option<Seq<char>>, base: Seq<char>) -> bool {
    stem == Some(base)
}

/// The stem is the name of the outputs, a dot, `f`, and the digits of a format: what yt-dlp calls
/// a single stream before it merges several.
pub open spec fn is_stream_of(stem: Option<Seq<char>>, base: Seq<char>) -> bool {
    exists|digits: Seq<char>|
        #![trigger all_digits(digits)]
        stem == Some(base + ".f"@ + digits) && digits.len() > 0 && all_digits(digits)
}

/// Whether the stem of a file is exactly the name of the outputs.
pub fn media_file_matches_base(stem: Option<&str>, base: &str) -> (r: bool)
    ensures
        r == is_finished(str_view(stem), base@),
{
    match stem {
        Some(s) => same_text(s, base),
        None => false,
    }
}

/// Whether the stem of a file is that of a single stream of a download that is named so.
pub fn media_file_is_format_artifact(stem: Option<&str>, base: &str) -> (r: bool)
    ensures
        r == is_stream_of(str_view(stem), base@),
{
    match stem {
        Some(s) => match strip_prefix(s, base) {
            Some(suffix) => match strip_prefix(suffix.as_str(), ".f") {
                Some(format_id) => {
                    let r = !format_id.as_str().is_empty() && is_all_digits(format_id.as_str());
                    proof {
                        assert(s@ =~= base@ + ".f"@ + format_id@);
                        assert forall|d: Seq<char>| s@ == base@ + ".f"@ + d implies d
                            == format_id@ by {
                            assert((base@ + ".f"@ + d).skip((base@ + ".f"@).len() as int) =~= d);
                            assert((base@ + ".f"@ + format_id@).skip((base@ + ".f"@).len() as int)
                                =~= format_id@);
                        }
                    }
                    r
                },
                None => {
                    proof {
                        assert forall|d: Seq<char>| s@ != base@ + ".f"@ + d by {
                            if s@ == base@ + ".f"@ + d {
                                assert(suffix@ =~= ".f"@ + d);
                                assert(".f"@.is_prefix_of(suffix@));
                            }
                        }
                    }
                    false
                },
            },
            None => {
                proof {
                    assert forall|d: Seq<char>| s@ != base@ + ".f"@ + d by {
                        if s@ == base@ + ".f"@ + d {
                            assert(base@.is_prefix_of(s@));
                        }
                    }
                }
                false
            },
        },
        None => false,
    }
}

/// A finished file is never taken for a single stream that is to be removed.
pub proof fn law_finished_file_is_no_stream(stem: Option<Seq<char>>, base: Seq<char>)
    ensures
        !(is_finished(stem, base) && is_stream_of(stem, base)),
{
    if is_finished(stem, base) && is_stream_of(stem, base) {
        let digits = choose|digits: Seq<char>|
            #![trigger all_digits(digits)]
            stem == Some(base + ".f"@ + digits) && digits.len() > 0 && all_digits(digits);
        assert(stem->0.len() == base.len() + ".f"@.len() + digits.len());
    }
}

/// What is removed after a download is none of the finished files.
pub proof fn law_no_finished_file_is_removed(entries: Seq<Entry>, base: Seq<char>, i: int)
    requires
        positions(
            entries.len(),
            |i: int| is_media(entries[i]) && is_stream_of(entries[i].stem, base),
        ).contains(i),
    ensures
        !positions(
            entries.len(),
            |i: int| is_media(entries[i]) && is_finished(entries[i].stem, base),
        ).contains(i),
{
    let part = |i: int| is_media(entries[i]) && is_stream_of(entries[i].stem, base);
    let whole = |i: int| is_media(entries[i]) && is_finished(entries[i].stem, base);
    lemma_positions(entries.len(), part);
    lemma_positions(entries.len(), whole);
    law_finished_file_is_no_stream(entries[i].stem, base);
}

/// The positions of the finished downloads of a folder that could be read.
pub fn downloaded_media_files(entries: Option<&[FileEntry]>, base: &str) -> (r: Option<Vec<usize>>)
    ensures
        match (entries, r) {
            (Some(es), Some(v)) => places(v@) == positions(
                es@.len(),
                |i: int|
                    is_media(entries_of(es@)[i]) && is_finished(
                        entries_of(es@)[i].stem,
                        base@,
                    ),
            ),
            (None, None) => true,
            _ => false,
        },
{
    match entries {
        Some(es) => Some(media_named(es, base, true)),
        None => None,
    }
}

/// The positions of the single streams that a download left in a folder that could be read.
pub fn yt_dlp_format_artifacts(entries: Option<&[FileEntry]>, base: &str) -> (r: Option<Vec<usize>>)
    ensures
        match (entries, r) {
            (Some(es), Some(v)) => places(v@) == positions(
                es@.len(),
                |i: int|
                    is_media(entries_of(es@)[i]) && is_stream_of(
                        entries_of(es@)[i].stem,
                        base@,
                    ),
            ),
            (None, None) => true,
            _ => false,
        },
{
    match entries {
        Some(es) => Some(media_named(es, base, false)),
        None => None,
    }
}

fn stem_of(e: &FileEntry) -> (r: Option<&str>)
    ensures
        str_view(r) == e@.stem,
{
    match &e.stem {
        Some(s) => Some(s.as_str()),
        None => None,
    }
}

fn media_named(entries: &[FileEntry], base: &str, finished: bool) -> (r: Vec<usize>)
    ensures
        finished ==> places(r@) == positions(
            entries@.len(),
            |i: int|
                is_media(entries_of(entries@)[i]) && is_finished(
                    entries_of(entries@)[i].stem,
                    base@,
                ),
        ),
        !finished ==> places(r@) == positions(
            entries@.len(),
            |i: int|
                is_media(entries_of(entries@)[i]) && is_stream_of(
                    entries_of(entries@)[i].stem,
                    base@,
                ),
        ),
{
    let ghost es = entries_of(entries@);
    let ghost whole = |i: int| is_media(es[i]) && is_finished(es[i].stem, base@);
    let ghost part = |i: int| is_media(es[i]) && is_stream_of(es[i].stem, base@);
    let mut r: Vec<usize> = Vec::new();
    let mut i: usize = 0;
    assert(places(r@) =~= positions(0, whole));
    assert(places(r@) =~= positions(0, part));
    while i < entries.len()
        invariant
            i <= entries@.len(),
            es == entries_of(entries@),
            whole == (|i: int| is_media(es[i]) && is_finished(es[i].stem, base@)),
            part == (|i: int| is_media(es[i]) && is_stream_of(es[i].stem, base@)),
            finished ==> places(r@) == positions(i as nat, whole),
            !finished ==> places(r@) == positions(i as nat, part),
        decreases entries@.len() - i,
    {
        assert(es[i as int] == entries@[i as int]@);
        let stem = stem_of(&entries[i]);
        let wanted = if finished {
            media_file_matches_base(stem, base)
        } else {
            media_file_is_format_artifact(stem, base)
        };
        if media(&entries[i]) && wanted {
            assert(places(r@.push(i)) =~= places(r@).push(i as int));
            r.push(i);
        }
        i += 1;
    }
    r
}

// ---------------------------------------------------------------------------
// Age
// ---------------------------------------------------------------------------

/// The first time is before the second; a time that is not known is before every other.
pub open spec fn older(a: Option<i128>, b: Option<i128>) -> bool {
    match (a, b) {
        (None, Some(_)) => true,
        (Some(x), Some(y)) => x < y,
        _ => false,
    }
}

fn is_older(a: Option<i128>, b: Option<i128>) -> (r: bool)
    ensures
        r == older(a, b),
{
    match (a, b) {
        (None, Some(_)) => true,
        (Some(x), Some(y)) => x < y,
        _ => false,
    }
}

/// Entry `i` is the newest of those with one of the extensions; of several, the last.
pub open spec fn is_newest(entries: Seq<Entry>, wanted: Seq<Seq<char>>, i: int) -> bool {
    &&& 0 <= i < entries.len()
    &&& has_extension(entries[i], wanted)
    &&& forall|j: int|
        0 <= j < entries.len() && j != i && has_extension(#[trigger] entries[j], wanted) ==> older(
            entries[j].modified,
            entries[i].modified,
        ) || (j < i && entries[j].modified == entries[i].modified)
}

/// The newest file with one of the extensions, in a folder that could be read.
pub fn newest_file_with_exts(entries: Option<&[FileEntry]>, extensions: &[&str]) -> (r: Option<
    usize,
>)
    ensures
        match (entries, r) {
            (Some(es), Some(i)) => is_newest(entries_of(es@), stream(extensions@), i as int),
            (Some(es), None) => forall|j: int|
                0 <= j < es@.len() ==> !has_extension(
                    #[trigger] entries_of(es@)[j],
                    stream(extensions@),
                ),
            (None, _) => r is None,
        },
{
    let es = match entries {
        Some(es) => es,
        None => {
            return None;
        },
    };
    let ghost all = entries_of(es@);
    let ghost wanted = stream(extensions@);
    let mut best: Option<usize> = None;
    let mut i: usize = 0;
    while i < es.len()
        invariant
            i <= es@.len(),
            all == entries_of(es@),
            wanted == stream(extensions@),
            match best {
                Some(b) => b < i && is_newest(all.take(i as int), wanted, b as int),
                None => forall|j: int| 0 <= j < i ==> !has_extension(#[trigger] all[j], wanted),
            },
        decreases es@.len() - i,
    {
        let ghost seen = all.take(i as int);
        let ghost next = all.take(i + 1);
        proof {
            assert(all[i as int] == es@[i as int]@);
            assert forall|j: int| 0 <= j < next.len() implies #[trigger] next[j] == all[j] by {}
            assert forall|j: int| 0 <= j < seen.len() implies #[trigger] seen[j] == next[j] by {}
        }
        if has_one_of(&es[i], extensions) {
            best = match best {
                Some(b) => if is_older(es[i].modified, es[b].modified) {
                    Some(b)
                } else {
                    Some(i)
                },
                None => Some(i),
            };
        }
        i += 1;
    }
    assert(all.take(all.len() as int) =~= all);
    best
}

/// The newest caption file of a folder that could be read.
pub fn newest_captions(entries: Option<&[FileEntry]>) -> (r: Option<usize>)
    ensures
        match (entries, r) {
            (Some(es), Some(i)) => is_newest(entries_of(es@), seq!["srt"@, "vtt"@], i as int),
            (Some(es), None) => forall|j: int|
                0 <= j < es@.len() ==> !has_extension(
                    #[trigger] entries_of(es@)[j],
                    seq!["srt"@, "vtt"@],
                ),
            (None, _) => r is None,
        },
{
    let extensions: [&str; 2] = ["srt", "vtt"];
    assert(stream(extensions@) =~= seq!["srt"@, "vtt"@]);
    newest_file_with_exts(entries, extensions.as_slice())
}

/// Whether the extension of a caption file, as far as it is text, is exactly that of SubRip.
pub fn is_subrip(extension: Option<&str>) -> (r: bool)
    ensures
        r == (str_view(extension) == Some("srt"@)),
{
    match extension {
        Some(e) => same_text(e, "srt"),
        None => false,
    }
}

/// Position `i` stands before position `j` when the files are listed from the newest to the
/// oldest; of files of the same time the later one stands first.
pub open spec fn stands_first(modified: Seq<Option<i128>>, i: int, j: int) -> bool {
    older(modified[j], modified[i]) || (modified[i] == modified[j] && i > j)
}

/// `order` lists every position once, from the newest file to the oldest.
pub open spec fn newest_order(modified: Seq<Option<i128>>, order: Seq<int>) -> bool {
    &&& order.len() == modified.len()
    &&& forall|k: int| 0 <= k < order.len() ==> 0 <= #[trigger] order[k] < modified.len()
    &&& forall|i: int| 0 <= i < modified.len() ==> #[trigger] order.contains(i)
    &&& forall|a: int, b: int|
        0 <= a < b < order.len() ==> stands_first(
            modified,
            #[trigger] order[a],
            #[trigger] order[b],
        )
}

/// The positions of files, from the newest to the oldest.
pub fn newest_first(modified: &[Option<i128>]) -> (r: Vec<usize>)
    ensures
        newest_order(modified@, places(r@)),
{
    let mut r: Vec<usize> = Vec::new();
    let mut i: usize = 0;
    while i < modified.len()
        invariant
            i <= modified@.len(),
            newest_order(modified@.take(i as int), places(r@)),
        decreases modified@.len() - i,
    {
        let ghost seen = modified@.take(i as int);
        let ghost order = places(r@);
        proof {
            assert forall|k: int| 0 <= k < r@.len() implies #[trigger] r@[k] < i by {
                assert(order[k] == r@[k]);
            }
        }
        let mut at: usize = 0;
        while at < r.len() && is_older(modified[i], modified[r[at]])
            invariant
                i < modified@.len(),
                at <= r@.len(),
                seen == modified@.take(i as int),
                order == places(r@),
                newest_order(seen, order),
                forall|k: int| 0 <= k < r@.len() ==> #[trigger] r@[k] < i,
                forall|k: int| 0 <= k < r@.len() ==> #[trigger] order[k] == r@[k],
                forall|k: int|
                    0 <= k < at ==> older(modified@[i as int], modified@[#[trigger] order[k]]),
            decreases r@.len() - at,
        {
            at += 1;
        }
        proof {
            let next = modified@.take(i + 1);
            let placed = order.insert(at as int, i as int);
            assert(places(r@.insert(at as int, i)) =~= placed);
            assert forall|k: int| 0 <= k < seen.len() implies #[trigger] seen[k] == next[k] by {}
            assert(next[i as int] == modified@[i as int]);
            assert forall|p: int| 0 <= p < next.len() implies #[trigger] placed.contains(p) by {
                if p < i {
                    assert(order.contains(p));
                    let k = choose|k: int| 0 <= k < order.len() && order[k] == p;
                    if k < at {
                        assert(placed[k] == p);
                    } else {
                        assert(placed[k + 1] == p);
                    }
                } else {
                    assert(placed[at as int] == p);
                }
            }
            assert forall|a: int, b: int| 0 <= a < b < placed.len() implies stands_first(
                next,
                #[trigger] placed[a],
                #[trigger] placed[b],
            ) by {
                let x = if a < at {
                    a
                } else {
                    a - 1
                };
                let y = if b < at {
                    b
                } else {
                    b - 1
                };
                if a == at {
                    let first = order[at as int];
                    assert(placed[b] == order[y]);
                    assert(!older(modified@[i as int], modified@[first]));
                    if y > at {
                        assert(stands_first(seen, order[at as int], order[y]));
                    }
                } else if b == at {
                    assert(placed[a] == order[x]);
                } else {
                    assert(placed[a] == order[x]);
                    assert(placed[b] == order[y]);
                    assert(stands_first(seen, order[x], order[y]));
                }
            }
        }
        r.insert(at, i);
        i += 1;
    }
    assert(modified@.take(modified@.len() as int) =~= modified@);
    r
}

// ---------------------------------------------------------------------------
// Sidecars
// ---------------------------------------------------------------------------

/// Where a file that goes with a download was found: under its exact name, or at a position of
/// the folder.
#[derive(Debug, Clone, Copy, PartialEq, Eq, Structural)]
pub enum SidecarPlace {
    Direct,
    Listed(usize),
}

/// The name of a file that goes with a download.
pub open spec fn dotted(stem: Seq<char>, ext: Seq<char>) -> Seq<char> {
    stem + "."@ + ext
}

/// The name of a file that goes with a download: the stem, a dot and the extension.
pub fn sidecar_name(stem: &str, ext: &str) -> (r: String)
    ensures
        r@ == dotted(stem@, ext@),
{
    let mut r = stem.to_string();
    r.append(".");
    r.append(ext);
    r
}

/// The entry is a file that starts with the stem and a dot, and ends with a dot and the extension.
pub open spec fn is_sidecar(e: Entry, stem: Seq<char>, ext: Seq<char>) -> bool {
    &&& e.is_file
    &&& e.name is Some
    &&& (stem + "."@).is_prefix_of(e.name->0)
    &&& ("."@ + ext).is_suffix_of(e.name->0)
}

/// Where a file that goes with a download is: under its exact name if there is one, else the first
/// entry whose name starts and ends as the exact name does.
pub fn find_sidecar(
    direct_is_file: bool,
    entries: Option<&[FileEntry]>,
    stem: &str,
    ext: &str,
) -> (r: Option<SidecarPlace>)
    ensures
        match r {
            Some(SidecarPlace::Direct) => direct_is_file,
            Some(SidecarPlace::Listed(i)) => {
                &&& !direct_is_file
                &&& entries matches Some(es)
                &&& i < es@.len()
                &&& is_sidecar(entries_of(es@)[i as int], stem@, ext@)
                &&& forall|j: int|
                    0 <= j < i ==> !is_sidecar(#[trigger] entries_of(es@)[j], stem@, ext@)
            },
            None => {
                &&& !direct_is_file
                &&& entries matches Some(es) ==> forall|j: int|
                    0 <= j < es@.len() ==> !is_sidecar(
                        #[trigger] entries_of(es@)[j],
                        stem@,
                        ext@,
                    )
            },
        },
{
    if direct_is_file {
        return Some(SidecarPlace::Direct);
    }
    let es = match entries {
        Some(es) => es,
        None => {
            return None;
        },
    };
    let mut prefix = stem.to_string();
    prefix.append(".");
    let mut suffix = ".".to_string();
    suffix.append(ext);
    let mut i: usize = 0;
    while i < es.len()
        invariant
            i <= es@.len(),
            !direct_is_file,
            entries == Some(es),
            prefix@ == stem@ + "."@,
            suffix@ == "."@ + ext@,
            forall|j: int| 0 <= j < i ==> !is_sidecar(#[trigger] entries_of(es@)[j], stem@, ext@),
        decreases es@.len() - i,
    {
        assert(entries_of(es@)[i as int] == es@[i as int]@);
        if es[i].is_file {
            if let Some(name) = &es[i].name {
                assert(es@[i as int]@.name == Some(name@));
                if starts_with(name.as_str(), prefix.as_str()) && ends_with(
                    name.as_str(),
                    suffix.as_str(),
                ) {
                    return Some(SidecarPlace::Listed(i));
                }
            }
        }
        i += 1;
    }
    None
}

} // verus!
