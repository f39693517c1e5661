//! The Whisper models of a machine: which files are models, and which are offered first.
use vstd::prelude::*;

use crate::find::{contains, starts_with};
use crate::text::{chars_of, same_text};
use crate::tools::{same_place, Place};
#[allow(unused_imports)]
use crate::files::positions;
#[allow(unused_imports)]
use crate::find::contains_text;
#[allow(unused_imports)]
use crate::text::{lemma_texts_push, lowercase, str_view, text_view, texts};

verus! {

// ---------------------------------------------------------------------------
// What a model is
// ---------------------------------------------------------------------------

/// The least size of a model, in bytes.
pub const LEAST_MODEL: u64 = 10_485_760;

/// The file is taken for a Whisper model: its extension is `bin`, its name in small letters starts
/// with `ggml-` and speaks neither of tests nor of voice activity, and it is large enough. What is
/// not known of a file, or is no text, speaks against it.
pub open spec fn is_model(
    extension: Option<Seq<char>>,
    name: Option<Seq<char>>,
    size: Option<u64>,
) -> bool {
    &&& extension == Some("bin"@)
    &&& name is Some
    &&& model_name(lowercase(name->0))
    &&& size is Some
    &&& size->0 >= LEAST_MODEL
}

/// The name, in small letters, is that of a Whisper model.
pub open spec fn model_name(lower: Seq<char>) -> bool {
    &&& "ggml-"@.is_prefix_of(lower)
    &&& !contains_text(lower, "for-tests"@)
    &&& !contains_text(lower, "silero"@)
}

/// Whether a name, in small letters, is that of a Whisper model.
pub fn is_model_name(lower: &str) -> (r: bool)
    ensures
        r == model_name(lower@),
{
    starts_with(lower, "ggml-") && !contains(lower, "for-tests") && !contains(lower, "silero")
}

/// Whether a file is taken for a Whisper model.
pub fn is_plausible_whisper_model(
    extension: Option<&str>,
    name: Option<&str>,
    size: Option<u64>,
) -> (r: bool)
    ensures
        r == is_model(str_view(extension), str_view(name), size),
{
    match extension {
        Some(e) => {
            if !same_text(e, "bin") {
                return false;
            }
        },
        None => {
            return false;
        },
    }
    match name {
        Some(n) => {
            let lower = n.to_lowercase();
            if !is_model_name(lower.as_str()) {
                return false;
            }
        },
        None => {
            return false;
        },
    }
    match size {
        Some(bytes) => bytes >= LEAST_MODEL,
        None => false,
    }
}

// ---------------------------------------------------------------------------
// Which model comes first
// ---------------------------------------------------------------------------

/// The rank of a model by its path in small letters: large ones, then medium ones, then all others
/// that know many languages, then those that know only English.
pub open spec fn rank_of(lower: Seq<char>) -> u8 {
    if contains_text(lower, ".en"@) {
        3
    } else if contains_text(lower, "large"@) {
        0
    } else if contains_text(lower, "medium"@) {
        1
    } else {
        2
    }
}

/// The rank of a model by its path in small letters.
pub fn rank_lowercase(lower: &str) -> (r: u8)
    ensures
        r == rank_of(lower@),
{
    let english = contains(lower, ".en");
    if contains(lower, "large") && !english {
        0
    } else if contains(lower, "medium") && !english {
        1
    } else if !english {
        2
    } else {
        3
    }
}

/// The rank of a model by its path; a lower rank comes first.
pub fn model_rank(path: &str) -> (r: u8)
    ensures
        r == rank_of(lowercase(path@)),
{
    let lower = path.to_lowercase();
    rank_lowercase(lower.as_str())
}

/// The first text comes before the second in the order of their characters.
pub open spec fn text_before(a: Seq<char>, b: Seq<char>) -> bool
    decreases a.len(),
{
    if b.len() == 0 {
        false
    } else if a.len() == 0 {
        true
    } else if a[0] != b[0] {
        a[0] < b[0]
    } else {
        text_before(a.skip(1), b.skip(1))
    }
}

/// Whether the first text comes before the second in the order of their characters.
pub fn comes_before(a: &str, b: &str) -> (r: bool)
    ensures
        r == text_before(a@, b@),
{
    let x = chars_of(a);
    let y = chars_of(b);
    let mut i: usize = 0;
    assert(x@.skip(0) =~= x@);
    assert(y@.skip(0) =~= y@);
    while i < x.len() && i < y.len()
        invariant
            i <= x@.len(),
            i <= y@.len(),
            text_before(x@.skip(i as int), y@.skip(i as int)) == text_before(a@, b@),
        decreases x@.len() - i,
    {
        let ghost p = x@.skip(i as int);
        let ghost q = y@.skip(i as int);
        if x[i] != y[i] {
            assert(p[0] != q[0]);
            return x[i] < y[i];
        }
        assert(p.skip(1) =~= x@.skip(i + 1));
        assert(q.skip(1) =~= y@.skip(i + 1));
        i += 1;
    }
    i < y.len()
}

proof fn lemma_text_order(a: Seq<char>, b: Seq<char>, c: Seq<char>)
    requires
        text_before(a, b),
        text_before(b, c),
    ensures
        text_before(a, c),
    decreases a.len(),
{
    if a.len() > 0 && a[0] == b[0] && b[0] == c[0] {
        lemma_text_order(a.skip(1), b.skip(1), c.skip(1));
    }
}

/// The first model comes before the second: by its rank, and among equals by its path.
pub open spec fn model_before(a: Seq<char>, b: Seq<char>) -> bool {
    let x = rank_of(lowercase(a));
    let y = rank_of(lowercase(b));
    x < y || (x == y && text_before(a, b))
}

fn ranks_before(a: &str, b: &str) -> (r: bool)
    ensures
        r == model_before(a@, b@),
{
    let x = model_rank(a);
    let y = model_rank(b);
    x < y || (x == y && comes_before(a, b))
}

proof fn lemma_model_order(a: Seq<char>, b: Seq<char>, c: Seq<char>)
    requires
        model_before(a, b),
        model_before(b, c),
    ensures
        model_before(a, c),
{
    if rank_of(lowercase(a)) == rank_of(lowercase(c)) {
        lemma_text_order(a, b, c);
    }
}

/// The models stand in order.
pub open spec fn in_order(models: Seq<Seq<char>>) -> bool {
    forall|i: int, j: int|
        0 <= i < j < models.len() ==> !model_before(#[trigger] models[j], #[trigger] models[i])
}

proof fn lemma_text_order_total(a: Seq<char>, b: Seq<char>)
    ensures
        a != b ==> text_before(a, b) || text_before(b, a),
        a == b ==> !text_before(a, b),
    decreases a.len(),
{
    if a.len() > 0 && b.len() > 0 {
        lemma_text_order_total(a.skip(1), b.skip(1));
        if a[0] == b[0] && a.skip(1) == b.skip(1) {
            assert(a =~= seq![a[0]] + a.skip(1));
            assert(b =~= seq![b[0]] + b.skip(1));
        }
    } else if a.len() == 0 && b.len() == 0 {
        assert(a =~= b);
    }
}

/// Of two different models one comes before the other, and no model before itself: the order
/// leaves nothing open.
pub proof fn law_model_order_is_total(a: Seq<char>, b: Seq<char>)
    ensures
        a != b ==> model_before(a, b) || model_before(b, a),
        !(model_before(a, b) && model_before(b, a)),
{
    lemma_text_order_total(a, b);
    if model_before(a, b) && model_before(b, a) {
        lemma_model_order(a, b, a);
        lemma_text_order_total(a, a);
    }
}

// ---------------------------------------------------------------------------
// The models of a machine
// ---------------------------------------------------------------------------

/// A file in a folder of models: its place, its path as text, its extension and name as far as
/// they are text, and its size if it is known.
#[derive(Debug, Clone)]
pub struct ModelFile {
    pub place: Place,
    pub path: String,
    pub extension: Option<String>,
    pub name: Option<String>,
    pub size: Option<u64>,
}

/// A file in a folder of models as mathematical values.
pub struct Model {
    pub place: Seq<Seq<u8>>,
    pub path: Seq<char>,
    pub extension: Option<Seq<char>>,
    pub name: Option<Seq<char>>,
    pub size: Option<u64>,
}

impl Model {
    /// The file is taken for a Whisper model.
    pub open spec fn plausible(self) -> bool {
        is_model(self.extension, self.name, self.size)
    }
}

impl View for ModelFile {
    type V = Model;

    open spec fn view(&self) -> Model {
        Model {
            place: self.place@,
            path: self.path@,
            extension: text_view(self.extension),
            name: text_view(self.name),
            size: self.size,
        }
    }
}

/// The files of a list.
pub open spec fn models_of(v: Seq<ModelFile>) -> Seq<Model> {
    v.map_values(|m: ModelFile| m@)
}

/// The file is a model, and no model before it is at the same place.
pub open spec fn is_new_model(found: Seq<Model>, i: int) -> bool {
    &&& found[i].plausible()
    &&& forall|j: int|
        0 <= j < i && (#[trigger] found[j]).plausible() ==> found[j].place != found[i].place
}

/// The paths of the models among the files that were found, each place once.
pub open spec fn model_paths(found: Seq<Model>) -> Seq<Seq<char>> {
    positions(found.len(), |i: int| is_new_model(found, i)).map_values(|i: int| found[i].path)
}

fn plausible(m: &ModelFile) -> (r: bool)
    ensures
        r == m@.plausible(),
{
    let extension = match &m.extension {
        Some(s) => Some(s.as_str()),
        None => None,
    };
    let name = match &m.name {
        Some(s) => Some(s.as_str()),
        None => None,
    };
    is_plausible_whisper_model(extension, name, m.size)
}

fn insert_in_order(models: &mut Vec<String>, path: String)
    requires
        in_order(texts(old(models)@)),
    ensures
        in_order(texts(final(models)@)),
        texts(final(models)@).to_multiset() == texts(old(models)@).to_multiset().insert(path@),
{
    let ghost before = texts(models@);
    let mut at: usize = 0;
    while at < models.len() && !ranks_before(path.as_str(), models[at].as_str())
        invariant
            at <= models@.len(),
            before == texts(models@),
            forall|k: int| 0 <= k < at ==> !model_before(path@, #[trigger] before[k]),
        decreases models@.len() - at,
    {
        assert(before[at as int] == models@[at as int]@);
        at += 1;
    }
    let ghost x = path@;
    let ghost after = before.insert(at as int, x);
    proof {
        assert(texts(models@.insert(at as int, path)) =~= after);
        if at < before.len() {
            assert(before[at as int] == models@[at as int]@);
        }
        assert forall|i: int, j: int| 0 <= i < j < after.len() implies !model_before(
            #[trigger] after[j],
            #[trigger] after[i],
        ) by {
            let p = if i < at {
                i
            } else {
                i - 1
            };
            let q = if j < at {
                j
            } else {
                j - 1
            };
            if i == at {
                assert(after[j] == before[q]);
                if model_before(before[q], x) {
                    lemma_model_order(before[q], x, before[at as int]);
                    if q == at {
                        law_model_order_is_total(before[q], before[q]);
                    }
                }
            } else if j == at {
                assert(after[i] == before[p]);
            } else {
                assert(after[i] == before[p]);
                assert(after[j] == before[q]);
            }
        }
        broadcast use vstd::seq_lib::group_to_multiset_ensures;
        vstd::seq_lib::to_multiset_insert(before, at as int, x);
    }
    models.insert(at, path);
}

/// The paths of the models among the files that were found, in the order in which they are
/// offered.
pub fn scan_models(found: &[ModelFile]) -> (r: Vec<String>)
    ensures
        in_order(texts(r@)),
        texts(r@).to_multiset() == model_paths(models_of(found@)).to_multiset(),
{
    let ghost all = models_of(found@);
    let ghost pick = |i: int| is_new_model(all, i);
    let ghost path = |i: int| all[i].path;
    let mut models: Vec<String> = Vec::new();
    let mut i: usize = 0;
    proof {
        assert(texts(models@) =~= Seq::empty());
        assert(positions(0, pick).map_values(path) =~= Seq::empty());
    }
    while i < found.len()
        invariant
            i <= found@.len(),
            all == models_of(found@),
            pick == (|i: int| is_new_model(all, i)),
            path == (|i: int| all[i].path),
            in_order(texts(models@)),
            texts(models@).to_multiset() == positions(i as nat, pick).map_values(
                path,
            ).to_multiset(),
        decreases found@.len() - i,
    {
        assert(all[i as int] == found@[i as int]@);
        let mut new = plausible(&found[i]);
        let mut j: usize = 0;
        while j < i && new
            invariant
                j <= i < found@.len(),
                all == models_of(found@),
                new ==> all[i as int].plausible(),
                new ==> forall|k: int|
                    0 <= k < j && (#[trigger] all[k]).plausible() ==> all[k].place
                        != all[i as int].place,
                !new ==> !is_new_model(all, i as int),
            decreases i - j + (if new {
                1int
            } else {
                0int
            }),
        {
            assert(all[i as int] == found@[i as int]@);
            assert(all[j as int] == found@[j as int]@);
            if plausible(&found[j]) && same_place(&found[j].place, &found[i].place) {
                new = false;
            } else {
                j += 1;
            }
        }
        assert(new == is_new_model(all, i as int));
        if new {
            let p = found[i].path.clone();
            proof {
                let before = positions(i as nat, pick).map_values(path);
                assert(positions((i + 1) as nat, pick).map_values(path) =~= before.push(p@));
                broadcast use vstd::seq_lib::group_to_multiset_ensures;
                assert(before.push(p@).to_multiset() =~= before.to_multiset().insert(p@));
            }
            insert_in_order(&mut models, p);
        }
        i += 1;
    }
    models
}

/// The folders below the home folder that are scanned for models.
pub fn model_dirs(has_home: bool) -> (r: Vec<String>)
    ensures
        texts(r@) == (if has_home {
            seq!["whisper.cpp/models"@, "Downloads/whisper.cpp/models"@]
        } else {
            Seq::empty()
        }),
{
    let mut dirs: Vec<String> = Vec::new();
    assert(texts(dirs@) =~= Seq::empty());
    if has_home {
        dirs.push("whisper.cpp/models".to_string());
        dirs.push("Downloads/whisper.cpp/models".to_string());
        assert(texts(dirs@) =~= seq!["whisper.cpp/models"@, "Downloads/whisper.cpp/models"@]);
    }
    dirs
}

} // verus!
