//! Edit distance between two words.
use vstd::prelude::*;

use crate::text::chars_of;
#[allow(unused_imports)]
use crate::align::{is_alignment, AlignOp};

verus! {

pub open spec fn min(x: nat, y: nat) -> nat {
    if x <= y {
        x
    } else {
        y
    }
}

/// The least number of characters to insert, remove or change to make the first `j` characters of
/// `b` out of the first `i` characters of `a`.
pub open spec fn distance(a: Seq<char>, b: Seq<char>, i: nat, j: nat) -> nat
    decreases i + j,
{
    if i == 0 {
        j
    } else if j == 0 {
        i
    } else {
        min(
            min(
                distance(a, b, (i - 1) as nat, j) + 1,
                distance(a, b, i, (j - 1) as nat) + 1,
            ),
            distance(a, b, (i - 1) as nat, (j - 1) as nat) + if a[i - 1] == b[j - 1] {
                0nat
            } else {
                1nat
            },
        )
    }
}

/// The edit distance of two words.
pub open spec fn word_distance(a: Seq<char>, b: Seq<char>) -> nat {
    distance(a, b, a.len(), b.len())
}

/// The number of edits that an alignment of two words amounts to.
pub open spec fn edits(ops: Seq<AlignOp>) -> nat
    decreases ops.len(),
{
    if ops.len() == 0 {
        0
    } else {
        edits(ops.drop_last()) + match ops.last() {
            AlignOp::Match(_, _) => 0nat,
            _ => 1nat,
        }
    }
}

/// The distance lies between the difference of the lengths and the greater length.
pub proof fn lemma_distance_bounds(a: Seq<char>, b: Seq<char>, i: nat, j: nat)
    ensures
        distance(a, b, i, j) <= i || distance(a, b, i, j) <= j,
        distance(a, b, i, j) >= i - j,
        distance(a, b, i, j) >= j - i,
    decreases i + j,
{
    if i > 0 && j > 0 {
        lemma_distance_bounds(a, b, (i - 1) as nat, (j - 1) as nat);
        lemma_distance_bounds(a, b, (i - 1) as nat, j);
        lemma_distance_bounds(a, b, i, (j - 1) as nat);
    }
}

proof fn lemma_least(ops: Seq<AlignOp>, a: Seq<char>, b: Seq<char>, i: nat, j: nat)
    requires
        is_alignment(ops, a, b, i as int, j as int),
    ensures
        distance(a, b, i, j) <= edits(ops),
    decreases ops.len(),
{
    if ops.len() > 0 {
        let before = ops.drop_last();
        match ops.last() {
            AlignOp::Match(x, y) => {
                lemma_least(before, a, b, (i - 1) as nat, (j - 1) as nat);
            },
            AlignOp::Sub(x, y) => {
                lemma_least(before, a, b, (i - 1) as nat, (j - 1) as nat);
            },
            AlignOp::InsertA(x) => {
                lemma_least(before, a, b, (i - 1) as nat, j);
            },
            AlignOp::InsertB(y) => {
                lemma_least(before, a, b, i, (j - 1) as nat);
            },
        }
    }
}

proof fn lemma_reached(a: Seq<char>, b: Seq<char>, i: nat, j: nat) -> (ops: Seq<AlignOp>)
    requires
        i <= usize::MAX,
        j <= usize::MAX,
    ensures
        is_alignment(ops, a, b, i as int, j as int),
        edits(ops) == distance(a, b, i, j),
    decreases i + j,
{
    if i == 0 && j == 0 {
        Seq::empty()
    } else if i > 0 && (j == 0 || distance(a, b, i, j) == distance(a, b, (i - 1) as nat, j) + 1) {
        let before = lemma_reached(a, b, (i - 1) as nat, j);
        let ops = before.push(AlignOp::InsertA((i - 1) as usize));
        assert(ops.drop_last() =~= before);
        ops
    } else if i == 0 || distance(a, b, i, j) == distance(a, b, i, (j - 1) as nat) + 1 {
        let before = lemma_reached(a, b, i, (j - 1) as nat);
        let ops = before.push(AlignOp::InsertB((j - 1) as usize));
        assert(ops.drop_last() =~= before);
        ops
    } else {
        let before = lemma_reached(a, b, (i - 1) as nat, (j - 1) as nat);
        let op = if a[i - 1] == b[j - 1] {
            AlignOp::Match((i - 1) as usize, (j - 1) as usize)
        } else {
            AlignOp::Sub((i - 1) as usize, (j - 1) as usize)
        };
        let ops = before.push(op);
        assert(ops.drop_last() =~= before);
        ops
    }
}

/// The distance of two words is the least number of edits of any alignment of their characters.
pub proof fn law_distance_is_least(a: Seq<char>, b: Seq<char>)
    requires
        a.len() <= usize::MAX,
        b.len() <= usize::MAX,
    ensures
        exists|ops: Seq<AlignOp>| #[trigger]
            is_alignment(ops, a, b, a.len() as int, b.len() as int) && edits(ops)
                == word_distance(a, b),
        forall|ops: Seq<AlignOp>| #[trigger]
            is_alignment(ops, a, b, a.len() as int, b.len() as int) ==> word_distance(a, b)
                <= edits(ops),
{
    let ops = lemma_reached(a, b, a.len(), b.len());
    assert forall|ops: Seq<AlignOp>| #[trigger]
        is_alignment(ops, a, b, a.len() as int, b.len() as int) implies word_distance(a, b) <= edits(
        ops,
    ) by {
        lemma_least(ops, a, b, a.len(), b.len());
    }
}

proof fn lemma_symmetric(a: Seq<char>, b: Seq<char>, i: nat, j: nat)
    ensures
        distance(a, b, i, j) == distance(b, a, j, i),
    decreases i + j,
{
    if i > 0 && j > 0 {
        lemma_symmetric(a, b, (i - 1) as nat, (j - 1) as nat);
        lemma_symmetric(a, b, (i - 1) as nat, j);
        lemma_symmetric(a, b, i, (j - 1) as nat);
    }
}

pub proof fn lemma_zero(a: Seq<char>, b: Seq<char>, i: nat, j: nat)
    requires
        i <= a.len(),
        j <= b.len(),
    ensures
        distance(a, b, i, j) == 0 <==> a.take(i as int) == b.take(j as int),
    decreases i + j,
{
    let x = a.take(i as int);
    let y = b.take(j as int);
    lemma_distance_bounds(a, b, i, j);
    if i == 0 || j == 0 {
        if i == 0 && j == 0 {
            assert(x =~= y);
        } else {
            assert(x.len() != y.len());
        }
    } else if i != j {
        assert(x.len() != y.len());
    } else {
        lemma_zero(a, b, (i - 1) as nat, (j - 1) as nat);
        assert(x =~= a.take(i - 1).push(a[i - 1]));
        assert(y =~= b.take(j - 1).push(b[j - 1]));
        if x == y {
            assert(a.take(i - 1) =~= x.drop_last());
            assert(b.take(j - 1) =~= y.drop_last());
            assert(x.last() == y.last());
        }
    }
}

/// The distance is symmetric, and zero between equal words alone.
pub proof fn law_distance_is_a_measure(a: Seq<char>, b: Seq<char>)
    ensures
        word_distance(a, b) == word_distance(b, a),
        word_distance(a, b) == 0 <==> a == b,
{
    lemma_symmetric(a, b, a.len(), b.len());
    lemma_zero(a, b, a.len(), b.len());
    assert(a.take(a.len() as int) =~= a);
    assert(b.take(b.len() as int) =~= b);
}

/// `row` holds the distances of the first `i` characters of `a` to 0, 1, 2, ... characters of `b`.
spec fn row_holds(row: Seq<usize>, a: Seq<char>, b: Seq<char>, i: nat) -> bool {
    forall|j: int| 0 <= j < row.len() ==> #[trigger] row[j] == distance(a, b, i, j as nat)
}

/// The edit distance of two words.
pub fn edit_distance(a: &str, b: &str) -> (r: usize)
    ensures
        r == word_distance(a@, b@),
{
    let x = chars_of(a);
    let y = chars_of(b);
    let n = x.len();
    let m = y.len();
    let mut prev: Vec<usize> = Vec::new();
    prev.push(0);
    let mut j: usize = 0;
    while j < m
        invariant
            j <= m,
            m == b@.len(),
            prev@.len() == j + 1,
            row_holds(prev@, a@, b@, 0),
        decreases m - j,
    {
        j += 1;
        prev.push(j);
    }
    // A row has one entry more than the second word has characters, and its length is a `usize`.
    assert(prev.len() == m + 1);
    let mut i: usize = 0;
    while i < n
        invariant
            i <= n,
            n == x@.len(),
            m == y@.len(),
            x@ == a@,
            y@ == b@,
            m < usize::MAX,
            prev@.len() == m + 1,
            row_holds(prev@, a@, b@, i as nat),
        decreases n - i,
    {
        let mut cur: Vec<usize> = Vec::new();
        cur.push(i + 1);
        let mut j: usize = 0;
        while j < m
            invariant
                i < n,
                j <= m,
                n == x@.len(),
                m == y@.len(),
                x@ == a@,
                y@ == b@,
                m < usize::MAX,
                prev@.len() == m + 1,
                row_holds(prev@, a@, b@, i as nat),
                cur@.len() == j + 1,
                row_holds(cur@, a@, b@, (i + 1) as nat),
            decreases m - j,
        {
            proof {
                lemma_distance_bounds(a@, b@, i as nat, (j + 1) as nat);
                lemma_distance_bounds(a@, b@, i as nat, j as nat);
                assert(prev@[j as int] == distance(a@, b@, i as nat, j as nat));
                assert(prev@[j + 1] == distance(a@, b@, i as nat, (j + 1) as nat));
                assert(cur@[j as int] == distance(a@, b@, (i + 1) as nat, j as nat));
            }
            let cost: usize = if x[i] == y[j] {
                0
            } else {
                1
            };
            let mut alone: usize = prev[j + 1];
            if cur[j] < alone {
                alone = cur[j];
            }
            let mut best: usize = alone + 1;
            let paired: usize = prev[j] + cost;
            if paired < best {
                best = paired;
            }
            cur.push(best);
            j += 1;
            assert(best == distance(a@, b@, (i + 1) as nat, j as nat));
        }
        prev = cur;
        i += 1;
    }
    prev[m]
}

} // verus!
