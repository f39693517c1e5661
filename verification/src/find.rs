//! Searching a text for another, replacing it, and joining texts.
use vstd::prelude::*;

use crate::text::{chars_of, text_between};
#[allow(unused_imports)]
use crate::text::texts;

verus! {

/// `pat` stands in `s` at position `i`.
pub open spec fn occurs_at(s: Seq<char>, pat: Seq<char>, i: int) -> bool {
    &&& 0 <= i
    &&& i + pat.len() <= s.len()
    &&& s.subrange(i, i + pat.len()) == pat
}

/// `pat` stands somewhere in `s`.
pub open spec fn contains_text(s: Seq<char>, pat: Seq<char>) -> bool {
    exists|i: int| occurs_at(s, pat, i)
}

/// The first position of `s`, from `from` on, at which `pat` stands.
pub open spec fn first_at(s: Seq<char>, pat: Seq<char>, from: int) -> Option<int>
    decreases s.len() + 1 - from,
{
    if from < 0 || from + pat.len() > s.len() {
        None
    } else if occurs_at(s, pat, from) {
        Some(from)
    } else {
        first_at(s, pat, from + 1)
    }
}

/// `first_at` finds the least position, and finds one whenever there is one.
pub proof fn lemma_first_at(s: Seq<char>, pat: Seq<char>, from: int)
    requires
        0 <= from,
    ensures
        match first_at(s, pat, from) {
            Some(p) => {
                &&& from <= p
                &&& occurs_at(s, pat, p)
                &&& forall|i: int| from <= i < p ==> !occurs_at(s, pat, i)
            },
            None => forall|i: int| from <= i ==> !occurs_at(s, pat, i),
        },
    decreases s.len() + 1 - from,
{
    if from + pat.len() <= s.len() && !occurs_at(s, pat, from) {
        lemma_first_at(s, pat, from + 1);
    }
}

/// Whether `pat` stands in `v` at position `i`.
pub fn matches_at(v: &Vec<char>, pat: &Vec<char>, i: usize) -> (r: bool)
    ensures
        r == occurs_at(v@, pat@, i as int),
{
    if i > v.len() || pat.len() > v.len() - i {
        return false;
    }
    let mut k: usize = 0;
    while k < pat.len()
        invariant
            k <= pat@.len(),
            i + pat.len() <= v.len(),
            forall|m: int| 0 <= m < k ==> v@[i + m] == pat@[m],
        decreases pat@.len() - k,
    {
        if v[i + k] != pat[k] {
            assert(v@.subrange(i as int, i + pat@.len())[k as int] != pat@[k as int]);
            return false;
        }
        k += 1;
    }
    assert(v@.subrange(i as int, i + pat@.len()) =~= pat@);
    true
}

/// The first position of `v`, from `from` on, at which `pat` stands.
pub fn find_from(v: &Vec<char>, pat: &Vec<char>, from: usize) -> (r: Option<usize>)
    ensures
        match r {
            Some(p) => first_at(v@, pat@, from as int) == Some(p as int) && p + pat.len() <= v.len()
                && from <= p,
            None => first_at(v@, pat@, from as int) is None,
        },
{
    let mut i: usize = from;
    while i <= v.len() && pat.len() <= v.len() - i
        invariant
            from <= i,
            first_at(v@, pat@, from as int) == first_at(v@, pat@, i as int),
        decreases v@.len() + 1 - i,
    {
        if matches_at(v, pat, i) {
            return Some(i);
        }
        if i == v.len() {
            assert(v@.subrange(i as int, i as int) =~= pat@);
            return None;
        }
        i += 1;
    }
    None
}

/// Whether `pat` stands somewhere in `s`.
pub fn contains(s: &str, pat: &str) -> (r: bool)
    ensures
        r == contains_text(s@, pat@),
{
    let v = chars_of(s);
    let p = chars_of(pat);
    proof {
        lemma_first_at(s@, pat@, 0);
    }
    find_from(&v, &p, 0).is_some()
}

/// Whether `s` begins with `pat`.
pub fn starts_with(s: &str, pat: &str) -> (r: bool)
    ensures
        r == pat@.is_prefix_of(s@),
{
    let v = chars_of(s);
    let p = chars_of(pat);
    matches_at(&v, &p, 0)
}

/// Whether `s` ends with `pat`.
pub fn ends_with(s: &str, pat: &str) -> (r: bool)
    ensures
        r == pat@.is_suffix_of(s@),
{
    let v = chars_of(s);
    let p = chars_of(pat);
    if p.len() > v.len() {
        return false;
    }
    matches_at(&v, &p, v.len() - p.len())
}

/// `s` with every occurrence of `pat`, from left to right and without overlap, replaced by `with`.
pub open spec fn replaced(s: Seq<char>, pat: Seq<char>, with: Seq<char>) -> Seq<char>
    decreases s.len(),
{
    if s.len() == 0 || pat.len() == 0 {
        s
    } else if pat.is_prefix_of(s) {
        with + replaced(s.skip(pat.len() as int), pat, with)
    } else {
        seq![s[0]] + replaced(s.skip(1), pat, with)
    }
}

/// `s` with every occurrence of `pat` replaced by `with`.
pub fn replace(s: &str, pat: &str, with: &str) -> (r: String)
    requires
        pat@.len() > 0,
    ensures
        r@ == replaced(s@, pat@, with@),
{
    let v = chars_of(s);
    let p = chars_of(pat);
    let mut out = String::new();
    let mut i: usize = 0;
    assert(v@.skip(0) =~= v@);
    assert(out@ + replaced(v@, pat@, with@) =~= replaced(v@, pat@, with@));
    while i < v.len()
        invariant
            i <= v@.len(),
            v@ == s@,
            p@ == pat@,
            p@.len() > 0,
            out@ + replaced(v@.skip(i as int), pat@, with@) == replaced(s@, pat@, with@),
        decreases v@.len() - i,
    {
        let ghost rest = v@.skip(i as int);
        let ghost before = out@;
        if matches_at(&v, &p, i) {
            proof {
                assert(rest.subrange(0, p@.len() as int) =~= v@.subrange(i as int, i + p@.len()));
                assert(pat@.is_prefix_of(rest));
                assert(rest.skip(p@.len() as int) =~= v@.skip(i + p@.len()));
            }
            out.append(with);
            i += p.len();
            assert(out@ + replaced(v@.skip(i as int), pat@, with@) =~= before + replaced(
                rest,
                pat@,
                with@,
            ));
        } else {
            proof {
                if pat@.is_prefix_of(rest) {
                    assert(rest.subrange(0, p@.len() as int) =~= v@.subrange(
                        i as int,
                        i + p@.len(),
                    ));
                }
                assert(rest.skip(1) =~= v@.skip(i + 1));
            }
            out.push(v[i]);
            i += 1;
            assert(out@ + replaced(v@.skip(i as int), pat@, with@) =~= before + replaced(
                rest,
                pat@,
                with@,
            ));
        }
    }
    assert(out@ + replaced(v@.skip(i as int), pat@, with@) =~= out@);
    out
}

/// The texts of `parts`, with `sep` between every two of them.
pub open spec fn joined(parts: Seq<Seq<char>>, sep: Seq<char>) -> Seq<char>
    decreases parts.len(),
{
    if parts.len() == 0 {
        Seq::empty()
    } else if parts.len() == 1 {
        parts[0]
    } else {
        joined(parts.drop_last(), sep) + sep + parts.last()
    }
}

/// The texts of `parts`, with `sep` between every two of them.
pub fn join(parts: &Vec<String>, sep: &str) -> (r: String)
    ensures
        r@ == joined(texts(parts@), sep@),
{
    let mut out = String::new();
    let mut i: usize = 0;
    while i < parts.len()
        invariant
            i <= parts@.len(),
            out@ == joined(texts(parts@).take(i as int), sep@),
        decreases parts@.len() - i,
    {
        let ghost next = texts(parts@).take(i + 1);
        assert(next.drop_last() =~= texts(parts@).take(i as int));
        assert(next.last() == parts@[i as int]@);
        if i > 0 {
            out.append(sep);
        }
        let ghost before = out@;
        out.append(parts[i].as_str());
        assert(i == 0 ==> out@ =~= parts@[0]@);
        i += 1;
    }
    assert(texts(parts@).take(parts@.len() as int) =~= texts(parts@));
    out
}

/// Whether `s` begins with `pat`, and if so what follows it.
pub open spec fn after_prefix(s: Seq<char>, pat: Seq<char>) -> Option<Seq<char>> {
    if pat.is_prefix_of(s) {
        Some(s.skip(pat.len() as int))
    } else {
        None
    }
}

/// What follows `pat` at the start of `s`, if `s` begins with it.
pub fn strip_prefix(s: &str, pat: &str) -> (r: Option<String>)
    ensures
        match r {
            Some(t) => after_prefix(s@, pat@) == Some(t@),
            None => after_prefix(s@, pat@) is None,
        },
{
    let v = chars_of(s);
    let p = chars_of(pat);
    if matches_at(&v, &p, 0) {
        assert(v@.skip(p@.len() as int) =~= v@.subrange(p@.len() as int, v@.len() as int));
        Some(text_between(&v, p.len(), v.len()))
    } else {
        None
    }
}

/// What precedes `pat` at the end of `s`, or the whole of `s` if it does not end with it.
pub open spec fn before_suffix(s: Seq<char>, pat: Seq<char>) -> Seq<char> {
    if pat.is_suffix_of(s) {
        s.take(s.len() - pat.len())
    } else {
        s
    }
}

/// What precedes `pat` at the end of `s`, or the whole of `s` if it does not end with it.
pub fn strip_suffix(s: &str, pat: &str) -> (r: String)
    ensures
        r@ == before_suffix(s@, pat@),
{
    let v = chars_of(s);
    let p = chars_of(pat);
    if p.len() <= v.len() && matches_at(&v, &p, v.len() - p.len()) {
        assert(v@.take(v@.len() - p@.len()) =~= v@.subrange(0, v@.len() - p@.len()));
        text_between(&v, 0, v.len() - p.len())
    } else {
        assert(v@ =~= v@.subrange(0, v@.len() as int));
        text_between(&v, 0, v.len())
    }
}

} // verus!
