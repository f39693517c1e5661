//! Trimming white space and splitting text into pieces.
use vstd::prelude::*;

use crate::text::{chars_of, text_between};
#[allow(unused_imports)]
use crate::text::{alphanumeric, lemma_texts_push, texts, white_space};

verus! {

/// `s` without its leading white space.
pub open spec fn trimmed_start(s: Seq<char>) -> Seq<char>
    decreases s.len(),
{
    if s.len() > 0 && white_space(s[0]) {
        trimmed_start(s.skip(1))
    } else {
        s
    }
}

/// `s` without its trailing white space.
pub open spec fn trimmed_end(s: Seq<char>) -> Seq<char>
    decreases s.len(),
{
    if s.len() > 0 && white_space(s.last()) {
        trimmed_end(s.drop_last())
    } else {
        s
    }
}

/// `s` without the white space at either end.
pub open spec fn trimmed(s: Seq<char>) -> Seq<char> {
    trimmed_end(trimmed_start(s))
}

/// The first position of `v` from `from` on that holds no white space, or the end.
pub fn skip_white(v: &Vec<char>, from: usize) -> (i: usize)
    requires
        from <= v@.len(),
    ensures
        from <= i <= v@.len(),
        trimmed_start(v@.skip(from as int)) == v@.skip(i as int),
        forall|k: int| from <= k < i ==> white_space(#[trigger] v@[k]),
        i < v@.len() ==> !white_space(v@[i as int]),
{
    let mut i: usize = from;
    while i < v.len() && v[i].is_whitespace()
        invariant
            from <= i <= v@.len(),
            trimmed_start(v@.skip(from as int)) == trimmed_start(v@.skip(i as int)),
            forall|k: int| from <= k < i ==> white_space(#[trigger] v@[k]),
        decreases v@.len() - i,
    {
        assert(v@.skip(i as int).skip(1) =~= v@.skip(i + 1));
        i += 1;
    }
    i
}

/// One past the last position of `v`, between `from` and `to`, that holds no white space.
pub fn skip_white_back(v: &Vec<char>, from: usize, to: usize) -> (j: usize)
    requires
        from <= to <= v@.len(),
    ensures
        from <= j <= to,
        trimmed_end(v@.subrange(from as int, to as int)) == v@.subrange(from as int, j as int),
{
    let mut j: usize = to;
    while j > from && v[j - 1].is_whitespace()
        invariant
            from <= j <= to <= v@.len(),
            trimmed_end(v@.subrange(from as int, to as int)) == trimmed_end(
                v@.subrange(from as int, j as int),
            ),
        decreases j,
    {
        assert(v@.subrange(from as int, j as int).drop_last() =~= v@.subrange(from as int, j - 1));
        j -= 1;
    }
    j
}

/// `s` without the white space at either end.
pub fn trim(s: &str) -> (r: String)
    ensures
        r@ == trimmed(s@),
{
    let v = chars_of(s);
    let i = skip_white(&v, 0);
    let j = skip_white_back(&v, i, v.len());
    assert(v@.skip(0) =~= v@);
    assert(v@.skip(i as int) =~= v@.subrange(i as int, v@.len() as int));
    text_between(&v, i, j)
}

/// `s` without its trailing white space.
pub fn trim_end(s: &str) -> (r: String)
    ensures
        r@ == trimmed_end(s@),
{
    let v = chars_of(s);
    let j = skip_white_back(&v, 0, v.len());
    assert(v@.subrange(0, v@.len() as int) =~= v@);
    text_between(&v, 0, j)
}

/// The characters at which a text is split.
#[derive(Clone, Copy)]
pub enum Separator {
    /// One character.
    One(char),
    /// Any white space.
    White,
    /// Anything but letters, digits and the apostrophe.
    NonWord,
}

impl Separator {
    pub open spec fn separates(self, c: char) -> bool {
        match self {
            Separator::One(x) => c == x,
            Separator::White => white_space(c),
            Separator::NonWord => !alphanumeric(c) && c != '\'',
        }
    }

    /// Whether a text is split at `c`.
    pub fn is_at(&self, c: char) -> (r: bool)
        ensures
            r == self.separates(c),
    {
        match self {
            Separator::One(x) => c == *x,
            Separator::White => c.is_whitespace(),
            Separator::NonWord => !c.is_alphanumeric() && c != '\'',
        }
    }
}

/// The pieces of `s` between the elements at which it is split: always at least one.
pub open spec fn split<T>(s: Seq<T>, at: spec_fn(T) -> bool) -> Seq<Seq<T>>
    decreases s.len(),
{
    if s.len() == 0 {
        seq![Seq::empty()]
    } else {
        let before = split(s.drop_last(), at);
        if at(s.last()) {
            before.push(Seq::empty())
        } else {
            before.drop_last().push(before.last().push(s.last()))
        }
    }
}

pub proof fn lemma_split_some<T>(s: Seq<T>, at: spec_fn(T) -> bool)
    ensures
        split(s, at).len() >= 1,
    decreases s.len(),
{
    if s.len() > 0 {
        lemma_split_some(s.drop_last(), at);
    }
}

/// The pieces of a text between the characters at which it is split.
pub open spec fn pieces(s: Seq<char>, sep: Separator) -> Seq<Seq<char>> {
    split(s, |c: char| sep.separates(c))
}

/// The pieces of `s` between the characters at which it is split, in order.
pub fn split_text(s: &str, sep: Separator) -> (r: Vec<String>)
    ensures
        texts(r@) == pieces(s@, sep),
{
    let v = chars_of(s);
    let mut r: Vec<String> = Vec::new();
    let mut start: usize = 0;
    let mut i: usize = 0;
    let ghost at = |c: char| sep.separates(c);
    assert(v@.subrange(0, 0) =~= Seq::empty());
    assert(texts(r@).push(v@.subrange(0, 0)) =~= split(v@.take(0), at));
    while i < v.len()
        invariant
            start <= i <= v@.len(),
            at == (|c: char| sep.separates(c)),
            texts(r@).push(v@.subrange(start as int, i as int)) == split(v@.take(i as int), at),
        decreases v@.len() - i,
    {
        assert(v@.take(i + 1).drop_last() =~= v@.take(i as int));
        let ghost before = split(v@.take(i as int), at);
        if sep.is_at(v[i]) {
            let piece = text_between(&v, start, i);
            proof {
                lemma_texts_push(r@, piece);
            }
            r.push(piece);
            start = i + 1;
            assert(v@.subrange(start as int, i + 1) =~= Seq::empty());
        } else {
            assert(v@.subrange(start as int, i + 1) =~= v@.subrange(start as int, i as int).push(
                v@[i as int],
            ));
            assert(before.drop_last() =~= texts(r@));
        }
        i += 1;
    }
    assert(v@.take(v@.len() as int) =~= v@);
    let piece = text_between(&v, start, i);
    proof {
        lemma_texts_push(r@, piece);
    }
    r.push(piece);
    r
}

/// The texts of `s` that are not empty, in order.
pub open spec fn non_empty(s: Seq<Seq<char>>) -> Seq<Seq<char>> {
    s.filter(|t: Seq<char>| t.len() > 0)
}

/// The words of a text: its pieces between white space, empty ones left out.
pub open spec fn words(s: Seq<char>) -> Seq<Seq<char>> {
    non_empty(pieces(s, Separator::White))
}

/// The words of `s`, in order.
pub fn split_words(s: &str) -> (r: Vec<String>)
    ensures
        texts(r@) == words(s@),
{
    let all = split_text(s, Separator::White);
    let mut r: Vec<String> = Vec::new();
    let ghost keep = |t: Seq<char>| t.len() > 0;
    let mut i: usize = 0;
    assert(texts(all@).take(0).filter(keep) =~= Seq::empty()) by {
        reveal(Seq::filter);
    }
    assert(texts(r@) =~= Seq::empty());
    while i < all.len()
        invariant
            i <= all@.len(),
            keep == (|t: Seq<char>| t.len() > 0),
            texts(all@) == pieces(s@, Separator::White),
            texts(r@) == texts(all@).take(i as int).filter(keep),
        decreases all@.len() - i,
    {
        proof {
            assert(texts(all@).take(i + 1) =~= texts(all@).take(i as int).push(all@[i as int]@));
            texts(all@).take(i as int).lemma_filter_push(all@[i as int]@, keep);
        }
        if !all[i].as_str().is_empty() {
            let w = all[i].clone();
            proof {
                lemma_texts_push(r@, w);
            }
            r.push(w);
        }
        i += 1;
    }
    assert(texts(all@).take(all@.len() as int) =~= texts(all@));
    r
}

/// The lines of a text as `split` at line feeds gives them, each without the carriage return that
/// ended it; an empty last one is no line.
pub open spec fn text_lines(s: Seq<char>) -> Seq<Seq<char>> {
    let all = pieces(s, Separator::One('\n'));
    let ended = all.drop_last().map_values(|t: Seq<char>| without_return(t));
    if all.last().len() == 0 {
        ended
    } else {
        ended.push(all.last())
    }
}

/// `t` without one carriage return at its end.
pub open spec fn without_return(t: Seq<char>) -> Seq<char> {
    if t.len() > 0 && t.last() == '\r' {
        t.drop_last()
    } else {
        t
    }
}

fn drop_return(t: &str) -> (r: String)
    ensures
        r@ == without_return(t@),
{
    let v = chars_of(t);
    let n = v.len();
    if n > 0 && v[n - 1] == '\r' {
        assert(v@.drop_last() =~= v@.subrange(0, n - 1));
        text_between(&v, 0, n - 1)
    } else {
        assert(v@ =~= v@.subrange(0, n as int));
        text_between(&v, 0, n)
    }
}

/// The lines of `s`, in order.
pub fn split_lines(s: &str) -> (r: Vec<String>)
    ensures
        texts(r@) == text_lines(s@),
{
    let all = split_text(s, Separator::One('\n'));
    let ghost p = pieces(s@, Separator::One('\n'));
    proof {
        lemma_split_some(s@, |c: char| Separator::One('\n').separates(c));
        assert(texts(all@).len() == all@.len());
    }
    let n = all.len() - 1;
    let ghost strip = |t: Seq<char>| without_return(t);
    let mut r: Vec<String> = Vec::new();
    let mut i: usize = 0;
    assert(texts(r@) =~= p.take(0).map_values(strip));
    while i < n
        invariant
            i <= n,
            n + 1 == all@.len(),
            strip == (|t: Seq<char>| without_return(t)),
            texts(all@) == p,
            texts(r@) == p.take(i as int).map_values(strip),
        decreases n - i,
    {
        let line = drop_return(&all[i]);
        proof {
            assert(p[i as int] == all@[i as int]@);
            lemma_texts_push(r@, line);
            assert(p.take(i + 1).map_values(strip) =~= p.take(i as int).map_values(strip).push(
                line@,
            ));
        }
        r.push(line);
        i += 1;
    }
    assert(p.take(n as int) =~= p.drop_last());
    assert(p.last() == all@[n as int]@);
    if !all[n].as_str().is_empty() {
        let line = all[n].clone();
        proof {
            lemma_texts_push(r@, line);
        }
        r.push(line);
    }
    r
}

} // verus!
