//! The command-line tools of a job: where they are looked for, and what was found.
use vstd::prelude::*;

#[allow(unused_imports)]
use crate::files::{places, positions};
#[allow(unused_imports)]
use crate::text::{lemma_texts_push, text_view, texts};

verus! {

// ---------------------------------------------------------------------------
// Places
// ---------------------------------------------------------------------------

/// A place in the file system, by the bytes of its components.
#[derive(Debug, Clone)]
pub struct Place {
    pub parts: Vec<Vec<u8>>,
}

impl View for Place {
    type V = Seq<Seq<u8>>;

    open spec fn view(&self) -> Seq<Seq<u8>> {
        self.parts@.map_values(|p: Vec<u8>| p@)
    }
}

/// The places of a list.
pub open spec fn places_of(v: Seq<Place>) -> Seq<Seq<Seq<u8>>> {
    v.map_values(|p: Place| p@)
}

fn same_bytes(a: &Vec<u8>, b: &Vec<u8>) -> (r: bool)
    ensures
        r == (a@ == b@),
{
    if a.len() != b.len() {
        return false;
    }
    let mut i: usize = 0;
    while i < a.len()
        invariant
            i <= a@.len(),
            a@.len() == b@.len(),
            forall|k: int| 0 <= k < i ==> a@[k] == b@[k],
        decreases a@.len() - i,
    {
        if a[i] != b[i] {
            return false;
        }
        i += 1;
    }
    assert(a@ =~= b@);
    true
}

/// Whether two places are the same.
pub fn same_place(a: &Place, b: &Place) -> (r: bool)
    ensures
        r == (a@ == b@),
{
    assert(a@.len() == a.parts@.len() && b@.len() == b.parts@.len());
    if a.parts.len() != b.parts.len() {
        return false;
    }
    let mut i: usize = 0;
    while i < a.parts.len()
        invariant
            i <= a.parts@.len(),
            a.parts@.len() == b.parts@.len(),
            forall|k: int| 0 <= k < i ==> a@[k] == b@[k],
        decreases a.parts@.len() - i,
    {
        assert(a@[i as int] == a.parts@[i as int]@);
        assert(b@[i as int] == b.parts@[i as int]@);
        if !same_bytes(&a.parts[i], &b.parts[i]) {
            return false;
        }
        i += 1;
    }
    assert(a@ =~= b@);
    true
}

// ---------------------------------------------------------------------------
// Folders that are searched
// ---------------------------------------------------------------------------

/// The folders that are searched before those of the `PATH`.
pub open spec fn standard_folders() -> Seq<Seq<char>> {
    seq!["/opt/homebrew/bin"@, "/usr/local/bin"@, "/usr/bin"@, "/bin"@]
}

/// The folders that are searched before those of the `PATH`.
pub fn standard_dirs() -> (r: Vec<String>)
    ensures
        texts(r@) == standard_folders(),
{
    let r = vec![
        "/opt/homebrew/bin".to_string(),
        "/usr/local/bin".to_string(),
        "/usr/bin".to_string(),
        "/bin".to_string(),
    ];
    assert(texts(r@) =~= standard_folders());
    r
}

/// The place is the first of its kind.
pub open spec fn is_first_of_kind(all: Seq<Seq<Seq<u8>>>, i: int) -> bool {
    forall|j: int| 0 <= j < i ==> #[trigger] all[j] != all[i]
}

/// The positions of the folders that are searched: of folders that are the same only the first is.
pub fn path_entries(folders: &[Place]) -> (r: Vec<usize>)
    ensures
        places(r@) == positions(
            folders@.len(),
            |i: int| is_first_of_kind(places_of(folders@), i),
        ),
{
    let ghost all = places_of(folders@);
    let ghost pick = |i: int| is_first_of_kind(places_of(folders@), i);
    let mut r: Vec<usize> = Vec::new();
    let mut i: usize = 0;
    assert(places(r@) =~= positions(0, pick));
    while i < folders.len()
        invariant
            i <= folders@.len(),
            all == places_of(folders@),
            pick == (|i: int| is_first_of_kind(places_of(folders@), i)),
            places(r@) == positions(i as nat, pick),
        decreases folders@.len() - i,
    {
        let mut first = true;
        let mut j: usize = 0;
        while j < i && first
            invariant
                j <= i < folders@.len(),
                all == places_of(folders@),
                first ==> forall|k: int| 0 <= k < j ==> #[trigger] all[k] != all[i as int],
                !first ==> !is_first_of_kind(all, i as int),
            decreases i - j + (if first {
                1int
            } else {
                0int
            }),
        {
            assert(all[i as int] == folders@[i as int]@);
            assert(all[j as int] == folders@[j as int]@);
            if same_place(&folders[j], &folders[i]) {
                first = false;
            } else {
                j += 1;
            }
        }
        assert(first == is_first_of_kind(all, i as int));
        if first {
            assert(places(r@.push(i)) =~= places(r@).push(i as int));
            r.push(i);
        }
        i += 1;
    }
    r
}

// ---------------------------------------------------------------------------
// Searching for the first hit
// ---------------------------------------------------------------------------

/// What to do in a search after some answers: ask about another candidate, or stop.
#[derive(Debug, Clone, Copy, PartialEq, Eq, Structural)]
pub enum Search<C> {
    Probe(C),
    Found(C),
    Missing,
}

/// The position of the first `true`.
pub open spec fn first_yes(answers: Seq<bool>) -> Option<int>
    decreases answers.len(),
{
    if answers.len() == 0 {
        None
    } else {
        match first_yes(answers.drop_last()) {
            Some(i) => Some(i),
            None => if answers.last() {
                Some(answers.len() - 1)
            } else {
                None
            },
        }
    }
}

/// The first `true` is the first.
pub proof fn lemma_first_yes(answers: Seq<bool>)
    ensures
        match first_yes(answers) {
            Some(i) => 0 <= i < answers.len() && answers[i] && forall|j: int|
                0 <= j < i ==> !#[trigger] answers[j],
            None => forall|j: int| 0 <= j < answers.len() ==> !#[trigger] answers[j],
        },
    decreases answers.len(),
{
    if answers.len() > 0 {
        lemma_first_yes(answers.drop_last());
        assert forall|j: int| 0 <= j < answers.len() - 1 implies #[trigger] answers[j]
            == answers.drop_last()[j] by {}
    }
}

fn find_yes(answers: &[bool]) -> (r: Option<usize>)
    ensures
        match r {
            Some(i) => first_yes(answers@) == Some(i as int) && i < answers@.len(),
            None => first_yes(answers@) is None,
        },
{
    let mut i: usize = 0;
    proof {
        lemma_first_yes(answers@);
    }
    while i < answers.len()
        invariant
            i <= answers@.len(),
            forall|j: int| 0 <= j < i ==> !#[trigger] answers@[j],
            match first_yes(answers@) {
                Some(f) => 0 <= f < answers@.len() && answers@[f] && forall|j: int|
                    0 <= j < f ==> !#[trigger] answers@[j],
                None => forall|j: int| 0 <= j < answers@.len() ==> !#[trigger] answers@[j],
            },
        decreases answers@.len() - i,
    {
        if answers[i] {
            return Some(i);
        }
        i += 1;
    }
    None
}

/// A search among the first `total` positions, asked about in order: it stops at the first that is
/// a hit, or when there are no more.
pub open spec fn search(total: int, answers: Seq<bool>) -> Search<int> {
    match first_yes(answers) {
        Some(i) => if i < total {
            Search::Found(i)
        } else {
            Search::Missing
        },
        None => if answers.len() < total {
            Search::Probe(answers.len() as int)
        } else {
            Search::Missing
        },
    }
}

/// A candidate for a tool: one of the places where it is known to be built, or a folder that is
/// searched.
#[derive(Debug, Clone, Copy, PartialEq, Eq, Structural)]
pub enum Candidate {
    Extra(usize),
    Dir(usize),
}

/// The candidate at a position: the known places come first.
pub open spec fn candidate(extra: usize, i: int) -> Candidate {
    if i < extra {
        Candidate::Extra(i as usize)
    } else {
        Candidate::Dir((i - extra) as usize)
    }
}

/// Where a tool is, or where to look for it next. `answers` says of each candidate so far whether
/// it is a file.
pub fn find_executable(extra: usize, dirs: usize, answers: &[bool]) -> (r: Search<Candidate>)
    ensures
        r == match search(extra + dirs, answers@) {
            Search::Probe(i) => Search::Probe(candidate(extra, i)),
            Search::Found(i) => Search::Found(candidate(extra, i)),
            Search::Missing => Search::Missing,
        },
{
    match find_yes(answers) {
        Some(i) => if i < extra {
            Search::Found(Candidate::Extra(i))
        } else if i - extra < dirs {
            Search::Found(Candidate::Dir(i - extra))
        } else {
            Search::Missing
        },
        None => {
            let i: usize = answers.len();
            if i < extra {
                Search::Probe(Candidate::Extra(i))
            } else if i - extra < dirs {
                Search::Probe(Candidate::Dir(i - extra))
            } else {
                Search::Missing
            }
        },
    }
}

/// Which of the downloaded files has sound, or which to inspect next. `answers` says of each file
/// so far whether it has.
pub fn find_audio_media(files: usize, answers: &[bool]) -> (r: Search<usize>)
    ensures
        r == match search(files as int, answers@) {
            Search::Probe(i) => Search::Probe(i as usize),
            Search::Found(i) => Search::Found(i as usize),
            Search::Missing => Search::Missing,
        },
{
    match find_yes(answers) {
        Some(i) => if i < files {
            Search::Found(i)
        } else {
            Search::Missing
        },
        None => if answers.len() < files {
            Search::Probe(answers.len())
        } else {
            Search::Missing
        },
    }
}

/// A search that has an answer for every candidate finds the first hit, if there is one, and asks
/// no more.
pub proof fn law_search_finds_the_first_hit(answers: Seq<bool>)
    ensures
        match search(answers.len() as int, answers) {
            Search::Found(i) => answers[i] && forall|j: int| 0 <= j < i ==> !#[trigger] answers[j],
            Search::Missing => forall|j: int| 0 <= j < answers.len() ==> !#[trigger] answers[j],
            Search::Probe(_) => false,
        },
{
    lemma_first_yes(answers);
}

// ---------------------------------------------------------------------------
// The tools
// ---------------------------------------------------------------------------

/// A tool to look for: the name of its file, and where below the home folder it may have been
/// built.
#[derive(Debug)]
pub struct ToolSearch {
    pub name: String,
    pub below_home: Vec<String>,
}

/// The tool is looked for under this name, and at these places below the home folder.
pub open spec fn looks_for(t: ToolSearch, name: Seq<char>, below_home: Seq<Seq<char>>) -> bool {
    t.name@ == name && texts(t.below_home@) == below_home
}

/// The tools that a job needs, as they are looked for: yt-dlp, ffmpeg and whisper-cli.
pub fn detect_tools() -> (r: Vec<ToolSearch>)
    ensures
        r@.len() == 3,
        looks_for(r@[0], "yt-dlp"@, Seq::empty()),
        looks_for(r@[1], "ffmpeg"@, Seq::empty()),
        looks_for(
            r@[2],
            "whisper-cli"@,
            seq![
                "whisper.cpp/build/bin/whisper-cli"@,
                "Downloads/whisper.cpp/build/bin/whisper-cli"@,
            ],
        ),
{
    let yt_dlp = ToolSearch { name: "yt-dlp".to_string(), below_home: Vec::new() };
    let ffmpeg = ToolSearch { name: "ffmpeg".to_string(), below_home: Vec::new() };
    let whisper_cli = ToolSearch {
        name: "whisper-cli".to_string(),
        below_home: vec![
            "whisper.cpp/build/bin/whisper-cli".to_string(),
            "Downloads/whisper.cpp/build/bin/whisper-cli".to_string(),
        ],
    };
    assert(texts(yt_dlp.below_home@) =~= Seq::empty());
    assert(texts(ffmpeg.below_home@) =~= Seq::empty());
    assert(texts(whisper_cli.below_home@) =~= seq![
        "whisper.cpp/build/bin/whisper-cli"@,
        "Downloads/whisper.cpp/build/bin/whisper-cli"@,
    ]);
    vec![yt_dlp, ffmpeg, whisper_cli]
}

/// Where the tools are; one that was not found has no place. `P` is how a place is named.
#[derive(Debug)]
pub struct ToolPaths<P> {
    pub yt_dlp: Option<P>,
    pub ffmpeg: Option<P>,
    pub whisper_cli: Option<P>,
}

/// Whether a tool was found, and where.
#[derive(Debug)]
pub struct DependencyStatus {
    pub name: String,
    pub found: bool,
    pub path: Option<String>,
}

/// The tools and the models of a machine.
#[derive(Debug)]
pub struct EnvironmentReport {
    pub dependencies: Vec<DependencyStatus>,
    pub models: Vec<String>,
}

/// The status of the tool with this name that was found at this place, or was not.
pub open spec fn reports(d: DependencyStatus, name: Seq<char>, path: Option<Seq<char>>) -> bool {
    &&& d.name@ == name
    &&& d.found == (path is Some)
    &&& text_view(d.path) == path
}

fn status(name: &str, path: Option<String>) -> (r: DependencyStatus)
    ensures
        reports(r, name@, text_view(path)),
{
    let found = path.is_some();
    DependencyStatus { name: name.to_string(), found, path }
}

/// The report on the tools that were found and on the models of the machine.
pub fn check_environment(tools: ToolPaths<String>, models: Vec<String>) -> (r: EnvironmentReport)
    ensures
        r.dependencies@.len() == 3,
        reports(r.dependencies@[0], "yt-dlp"@, text_view(tools.yt_dlp)),
        reports(r.dependencies@[1], "ffmpeg"@, text_view(tools.ffmpeg)),
        reports(r.dependencies@[2], "whisper-cli"@, text_view(tools.whisper_cli)),
        r.models == models,
{
    EnvironmentReport {
        dependencies: vec![
            status("yt-dlp", tools.yt_dlp),
            status("ffmpeg", tools.ffmpeg),
            status("whisper-cli", tools.whisper_cli),
        ],
        models,
    }
}

} // verus!
