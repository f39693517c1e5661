//! What an alignment of two streams is, what it scores, and which one is chosen.
use vstd::prelude::*;

#[allow(unused_imports)]
use crate::align::{best_score, chosen, is_alignment, lemma_best, lemma_chosen, score_of, AlignOp};

verus! {

/// The words of the first stream that the columns name, in order.
pub open spec fn firsts(ops: Seq<AlignOp>) -> Seq<int>
    decreases ops.len(),
{
    if ops.len() == 0 {
        Seq::empty()
    } else {
        let before = firsts(ops.drop_last());
        match ops.last() {
            AlignOp::Match(x, _) => before.push(x as int),
            AlignOp::Sub(x, _) => before.push(x as int),
            AlignOp::InsertA(x) => before.push(x as int),
            AlignOp::InsertB(_) => before,
        }
    }
}

/// The words of the second stream that the columns name, in order.
pub open spec fn seconds(ops: Seq<AlignOp>) -> Seq<int>
    decreases ops.len(),
{
    if ops.len() == 0 {
        Seq::empty()
    } else {
        let before = seconds(ops.drop_last());
        match ops.last() {
            AlignOp::Match(_, y) => before.push(y as int),
            AlignOp::Sub(_, y) => before.push(y as int),
            AlignOp::InsertA(_) => before,
            AlignOp::InsertB(y) => before.push(y as int),
        }
    }
}

/// The numbers from zero up to, but not including, `n`.
pub open spec fn up_to(n: int) -> Seq<int> {
    Seq::new(n as nat, |k: int| k)
}

/// The column tells equal words from different ones.
pub open spec fn tells_apart<T>(op: AlignOp, a: Seq<T>, b: Seq<T>) -> bool {
    match op {
        AlignOp::Match(x, y) => a[x as int] == b[y as int],
        AlignOp::Sub(x, y) => a[x as int] != b[y as int],
        _ => true,
    }
}

proof fn lemma_up_to(n: int, s: Seq<int>, x: int)
    requires
        n >= 0,
        s.push(x) == up_to(n),
    ensures
        n > 0,
        x == n - 1,
        s == up_to(n - 1),
{
    let t = s.push(x);
    assert(t.len() == n);
    assert(t[s.len() as int] == x);
    assert(up_to(n)[n - 1] == n - 1);
    assert forall|k: int| 0 <= k < s.len() implies s[k] == up_to(n - 1)[k] by {
        assert(t[k] == s[k]);
        assert(up_to(n)[k] == k);
    }
    assert(s =~= up_to(n - 1));
}

/// An alignment names every word of both streams exactly once and in order, and tells pairs of
/// equal words from pairs of different ones; and whatever does so is an alignment.
pub proof fn law_alignment_names_every_word_once<T>(
    ops: Seq<AlignOp>,
    a: Seq<T>,
    b: Seq<T>,
    i: int,
    j: int,
)
    requires
        0 <= i,
        0 <= j,
    ensures
        is_alignment(ops, a, b, i, j) <==> {
            &&& firsts(ops) == up_to(i)
            &&& seconds(ops) == up_to(j)
            &&& forall|k: int| 0 <= k < ops.len() ==> tells_apart(#[trigger] ops[k], a, b)
        },
    decreases ops.len(),
{
    if ops.len() == 0 {
        if i == 0 && j == 0 {
            assert(firsts(ops) =~= up_to(i));
            assert(seconds(ops) =~= up_to(j));
        } else {
            assert(firsts(ops).len() == 0 && seconds(ops).len() == 0);
            assert(up_to(i).len() == i && up_to(j).len() == j);
        }
    } else {
        let before = ops.drop_last();
        let last = ops.last();
        let all = forall|k: int| 0 <= k < ops.len() ==> tells_apart(#[trigger] ops[k], a, b);
        let few = forall|k: int| 0 <= k < before.len() ==> tells_apart(#[trigger] before[k], a, b);
        assert(all == (few && tells_apart(last, a, b))) by {
            if few && tells_apart(last, a, b) {
                assert forall|k: int| 0 <= k < ops.len() implies tells_apart(#[trigger] ops[k], a, b) by {
                    if k < before.len() {
                        assert(before[k] == ops[k]);
                    }
                }
            }
            if all {
                assert(tells_apart(ops[ops.len() - 1], a, b));
                assert forall|k: int| 0 <= k < before.len() implies tells_apart(#[trigger] before[k], a, b) by {
                    assert(before[k] == ops[k]);
                }
            }
        }
        let (x, y, pi, pj) = match last {
            AlignOp::Match(x, y) => (x as int, y as int, i - 1, j - 1),
            AlignOp::Sub(x, y) => (x as int, y as int, i - 1, j - 1),
            AlignOp::InsertA(x) => (x as int, 0int, i - 1, j),
            AlignOp::InsertB(y) => (0int, y as int, i, j - 1),
        };
        if pi >= 0 && pj >= 0 {
            law_alignment_names_every_word_once(before, a, b, pi, pj);
            assert(up_to(i) =~= if pi < i {
                up_to(i - 1).push(i - 1)
            } else {
                up_to(i)
            });
            assert(up_to(j) =~= if pj < j {
                up_to(j - 1).push(j - 1)
            } else {
                up_to(j)
            });
        }
        if firsts(ops) == up_to(i) && pi < i {
            lemma_up_to(i, firsts(before), x);
        }
        if seconds(ops) == up_to(j) && pj < j {
            lemma_up_to(j, seconds(before), y);
        }
    }
}

/// A column of equal words scores two, and every other column takes one away.
pub proof fn law_score_counts_columns(ops: Seq<AlignOp>)
    ensures
        score_of(ops) == 3 * ops.filter(|o: AlignOp| o is Match).len() - ops.len(),
    decreases ops.len(),
{
    reveal(Seq::filter);
    let equal = |o: AlignOp| o is Match;
    if ops.len() > 0 {
        let before = ops.drop_last();
        law_score_counts_columns(before);
        before.lemma_filter_push(ops.last(), equal);
        assert(before.push(ops.last()) =~= ops);
    } else {
        assert(ops.filter(equal) =~= Seq::empty());
    }
}

/// The chosen alignment is one of the best, and among these it pairs the last words if any of them
/// does, else leaves the last word of the first stream alone if any of them does; what it does
/// before is chosen in the same way.
pub proof fn law_pairs_are_preferred(
    other: Seq<AlignOp>,
    a: Seq<Seq<char>>,
    b: Seq<Seq<char>>,
    i: nat,
    j: nat,
)
    requires
        i <= usize::MAX,
        j <= usize::MAX,
        is_alignment(other, a, b, i as int, j as int),
    ensures
        is_alignment(chosen(a, b, i, j), a, b, i as int, j as int),
        score_of(other) <= score_of(chosen(a, b, i, j)),
        score_of(other) == score_of(chosen(a, b, i, j)) && other.len() > 0 ==> {
            let c = chosen(a, b, i, j);
            &&& c.len() > 0
            &&& other.last() is Match || other.last() is Sub ==> c.last() is Match || c.last() is Sub
            &&& other.last() is InsertA ==> !(c.last() is InsertB)
            &&& c.drop_last() == (match c.last() {
                AlignOp::Match(_, _) => chosen(a, b, (i - 1) as nat, (j - 1) as nat),
                AlignOp::Sub(_, _) => chosen(a, b, (i - 1) as nat, (j - 1) as nat),
                AlignOp::InsertA(_) => chosen(a, b, (i - 1) as nat, j),
                AlignOp::InsertB(_) => chosen(a, b, i, (j - 1) as nat),
            })
        },
{
    let c = chosen(a, b, i, j);
    lemma_chosen(a, b, i, j);
    lemma_best(other, a, b, i, j);
    if score_of(other) == score_of(c) && other.len() > 0 {
        let before = other.drop_last();
        match other.last() {
            AlignOp::Match(_, _) => {
                lemma_best(before, a, b, (i - 1) as nat, (j - 1) as nat);
            },
            AlignOp::Sub(_, _) => {
                lemma_best(before, a, b, (i - 1) as nat, (j - 1) as nat);
            },
            AlignOp::InsertA(_) => {
                lemma_best(before, a, b, (i - 1) as nat, j);
            },
            AlignOp::InsertB(_) => {
                lemma_best(before, a, b, i, (j - 1) as nat);
            },
        }
        if i > 0 && j > 0 {
            assert(c.drop_last() =~= chosen(a, b, (i - 1) as nat, (j - 1) as nat) || c.drop_last()
                =~= chosen(a, b, (i - 1) as nat, j) || c.drop_last() =~= chosen(
                a,
                b,
                i,
                (j - 1) as nat,
            ));
        }
        assert(c.drop_last() =~= (match c.last() {
            AlignOp::Match(_, _) => chosen(a, b, (i - 1) as nat, (j - 1) as nat),
            AlignOp::Sub(_, _) => chosen(a, b, (i - 1) as nat, (j - 1) as nat),
            AlignOp::InsertA(_) => chosen(a, b, (i - 1) as nat, j),
            AlignOp::InsertB(_) => chosen(a, b, i, (j - 1) as nat),
        }));
    }
}

// ---------------------------------------------------------------------------
// Streams of which all words but one agree
// ---------------------------------------------------------------------------

proof fn lemma_gap_costs(a: Seq<Seq<char>>, b: Seq<Seq<char>>, i: nat, j: nat)
    ensures
        i <= j ==> best_score(a, b, i, j) <= 2 * i - (j - i),
        j <= i ==> best_score(a, b, i, j) <= 2 * j - (i - j),
    decreases i + j,
{
    if i > 0 && j > 0 {
        lemma_gap_costs(a, b, (i - 1) as nat, (j - 1) as nat);
        lemma_gap_costs(a, b, (i - 1) as nat, j);
        lemma_gap_costs(a, b, i, (j - 1) as nat);
    }
}

/// The columns that pair the words of two streams position by position.
pub open spec fn side_by_side(a: Seq<Seq<char>>, b: Seq<Seq<char>>, n: nat) -> Seq<AlignOp> {
    Seq::new(
        n,
        |k: int|
            if a[k] == b[k] {
                AlignOp::Match(k as usize, k as usize)
            } else {
                AlignOp::Sub(k as usize, k as usize)
            },
    )
}

proof fn lemma_one_difference(a: Seq<Seq<char>>, b: Seq<Seq<char>>, d: int, i: nat)
    requires
        i <= usize::MAX,
        a[d] != b[d],
        forall|k: int| 0 <= k < i && k != d ==> #[trigger] a[k] == b[k],
        0 <= d,
    ensures
        best_score(a, b, i, i) == (if i <= d {
            2 * i as int
        } else {
            2 * i - 3
        }),
        chosen(a, b, i, i) == side_by_side(a, b, i),
    decreases i,
{
    if i > 0 {
        let p = (i - 1) as nat;
        lemma_one_difference(a, b, d, p);
        lemma_gap_costs(a, b, p, i);
        lemma_gap_costs(a, b, i, p);
        if p != d {
            assert(a[p as int] == b[p as int]);
        }
        assert(chosen(a, b, i, i) =~= side_by_side(a, b, p).push(
            if a[i - 1] == b[i - 1] {
                AlignOp::Match((i - 1) as usize, (i - 1) as usize)
            } else {
                AlignOp::Sub((i - 1) as usize, (i - 1) as usize)
            },
        ));
    }
    assert(chosen(a, b, i, i) =~= side_by_side(a, b, i));
}

/// Two streams of the same length that differ in one word alone are paired word by word, so that
/// the different words meet.
pub proof fn law_single_difference_is_paired(a: Seq<Seq<char>>, b: Seq<Seq<char>>, d: int)
    requires
        a.len() == b.len(),
        a.len() <= usize::MAX,
        0 <= d < a.len(),
        a[d] != b[d],
        forall|k: int| 0 <= k < a.len() && k != d ==> #[trigger] a[k] == b[k],
    ensures
        chosen(a, b, a.len(), b.len()) == side_by_side(a, b, a.len()),
{
    lemma_one_difference(a, b, d, a.len());
}

} // verus!
