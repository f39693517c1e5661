//! Global alignment of two word streams (Needleman-Wunsch).
//!
//! A pair of equal words scores 2; a pair of different words, and a word of one stream that has no
//! partner in the other, score -1. Among the alignments of the best score the one is chosen that,
//! read from the end, pairs words wherever it can, and otherwise leaves a word of the first stream
//! alone before one of the second.
use vstd::prelude::*;

use crate::text::chars_of;

verus! {

/// One column of an alignment; the numbers are positions in the first and the second stream.
#[derive(Debug, Clone, Copy)]
pub enum AlignOp {
    /// Equal words.
    Match(usize, usize),
    /// Different words.
    Sub(usize, usize),
    /// A word of the first stream alone.
    InsertA(usize),
    /// A word of the second stream alone.
    InsertB(usize),
}

/// The words of a stream.
pub open spec fn stream(a: Seq<&str>) -> Seq<Seq<char>> {
    a.map_values(|s: &str| s@)
}

/// What a pair of words scores.
pub open spec fn pair_score(x: Seq<char>, y: Seq<char>) -> int {
    if x == y {
        2
    } else {
        -1
    }
}

pub open spec fn max(x: int, y: int) -> int {
    if x >= y {
        x
    } else {
        y
    }
}

/// The best score of an alignment of the first `i` words of `a` with the first `j` words of `b`.
pub open spec fn best_score(a: Seq<Seq<char>>, b: Seq<Seq<char>>, i: nat, j: nat) -> int
    decreases i + j,
{
    if i == 0 {
        -(j as int)
    } else if j == 0 {
        -(i as int)
    } else {
        max(
            max(
                best_score(a, b, (i - 1) as nat, (j - 1) as nat) + pair_score(a[i - 1], b[j - 1]),
                best_score(a, b, (i - 1) as nat, j) - 1,
            ),
            best_score(a, b, i, (j - 1) as nat) - 1,
        )
    }
}

/// The chosen alignment of the first `i` words of `a` with the first `j` words of `b`.
pub open spec fn chosen(a: Seq<Seq<char>>, b: Seq<Seq<char>>, i: nat, j: nat) -> Seq<AlignOp>
    decreases i + j,
{
    if i == 0 && j == 0 {
        Seq::empty()
    } else if i > 0 && j > 0 && best_score(a, b, i, j) == best_score(
        a,
        b,
        (i - 1) as nat,
        (j - 1) as nat,
    ) + pair_score(a[i - 1], b[j - 1]) {
        chosen(a, b, (i - 1) as nat, (j - 1) as nat).push(
            if a[i - 1] == b[j - 1] {
                AlignOp::Match((i - 1) as usize, (j - 1) as usize)
            } else {
                AlignOp::Sub((i - 1) as usize, (j - 1) as usize)
            },
        )
    } else if i > 0 && (j == 0 || best_score(a, b, i, j) == best_score(a, b, (i - 1) as nat, j) - 1) {
        chosen(a, b, (i - 1) as nat, j).push(AlignOp::InsertA((i - 1) as usize))
    } else {
        chosen(a, b, i, (j - 1) as nat).push(AlignOp::InsertB((j - 1) as usize))
    }
}

/// `ops` aligns the first `i` elements of `a` with the first `j` of `b`: it names every one of
/// them exactly once and in order, and tells equal pairs from different ones.
pub open spec fn is_alignment<T>(
    ops: Seq<AlignOp>,
    a: Seq<T>,
    b: Seq<T>,
    i: int,
    j: int,
) -> bool
    decreases ops.len(),
{
    if ops.len() == 0 {
        i == 0 && j == 0
    } else {
        let before = ops.drop_last();
        match ops.last() {
            AlignOp::Match(x, y) => {
                &&& i > 0 && j > 0 && x == i - 1 && y == j - 1
                &&& a[i - 1] == b[j - 1]
                &&& is_alignment(before, a, b, i - 1, j - 1)
            },
            AlignOp::Sub(x, y) => {
                &&& i > 0 && j > 0 && x == i - 1 && y == j - 1
                &&& a[i - 1] != b[j - 1]
                &&& is_alignment(before, a, b, i - 1, j - 1)
            },
            AlignOp::InsertA(x) => i > 0 && x == i - 1 && is_alignment(before, a, b, i - 1, j),
            AlignOp::InsertB(y) => j > 0 && y == j - 1 && is_alignment(before, a, b, i, j - 1),
        }
    }
}

/// What an alignment scores.
pub open spec fn score_of(ops: Seq<AlignOp>) -> int
    decreases ops.len(),
{
    if ops.len() == 0 {
        0
    } else {
        score_of(ops.drop_last()) + match ops.last() {
            AlignOp::Match(_, _) => 2int,
            _ => -1int,
        }
    }
}

pub proof fn lemma_score_bounds(a: Seq<Seq<char>>, b: Seq<Seq<char>>, i: nat, j: nat)
    ensures
        -max(i as int, j as int) <= best_score(a, b, i, j) <= 2 * i,
        best_score(a, b, i, j) <= 2 * j,
    decreases i + j,
{
    if i > 0 && j > 0 {
        lemma_score_bounds(a, b, (i - 1) as nat, (j - 1) as nat);
        lemma_score_bounds(a, b, (i - 1) as nat, j);
        lemma_score_bounds(a, b, i, (j - 1) as nat);
    }
}

/// The chosen alignment is one, and its score is the best.
pub proof fn lemma_chosen(a: Seq<Seq<char>>, b: Seq<Seq<char>>, i: nat, j: nat)
    requires
        i <= usize::MAX,
        j <= usize::MAX,
    ensures
        is_alignment(chosen(a, b, i, j), a, b, i as int, j as int),
        score_of(chosen(a, b, i, j)) == best_score(a, b, i, j),
    decreases i + j,
{
    let c = chosen(a, b, i, j);
    if i == 0 && j == 0 {
    } else if i > 0 && j > 0 && best_score(a, b, i, j) == best_score(
        a,
        b,
        (i - 1) as nat,
        (j - 1) as nat,
    ) + pair_score(a[i - 1], b[j - 1]) {
        lemma_chosen(a, b, (i - 1) as nat, (j - 1) as nat);
        assert(c.drop_last() =~= chosen(a, b, (i - 1) as nat, (j - 1) as nat));
    } else if i > 0 && (j == 0 || best_score(a, b, i, j) == best_score(a, b, (i - 1) as nat, j) - 1) {
        lemma_chosen(a, b, (i - 1) as nat, j);
        assert(c.drop_last() =~= chosen(a, b, (i - 1) as nat, j));
    } else {
        lemma_chosen(a, b, i, (j - 1) as nat);
        assert(c.drop_last() =~= chosen(a, b, i, (j - 1) as nat));
    }
}

/// No alignment scores more than `best_score`.
pub proof fn lemma_best(
    ops: Seq<AlignOp>,
    a: Seq<Seq<char>>,
    b: Seq<Seq<char>>,
    i: nat,
    j: nat,
)
    requires
        is_alignment(ops, a, b, i as int, j as int),
    ensures
        score_of(ops) <= best_score(a, b, i, j),
    decreases ops.len(),
{
    if ops.len() > 0 {
        let before = ops.drop_last();
        match ops.last() {
            AlignOp::Match(x, y) => {
                lemma_best(before, a, b, (i - 1) as nat, (j - 1) as nat);
            },
            AlignOp::Sub(x, y) => {
                lemma_best(before, a, b, (i - 1) as nat, (j - 1) as nat);
            },
            AlignOp::InsertA(x) => {
                lemma_best(before, a, b, (i - 1) as nat, j);
            },
            AlignOp::InsertB(y) => {
                lemma_best(before, a, b, i, (j - 1) as nat);
            },
        }
    }
}

/// The characters of each word.
fn word_chars(a: &[&str]) -> (r: Vec<Vec<char>>)
    ensures
        r@.len() == a@.len(),
        forall|k: int| 0 <= k < r@.len() ==> #[trigger] r@[k]@ == stream(a@)[k],
{
    let mut r: Vec<Vec<char>> = Vec::new();
    let mut i: usize = 0;
    while i < a.len()
        invariant
            i <= a@.len(),
            r@.len() == i,
            forall|k: int| 0 <= k < i ==> #[trigger] r@[k]@ == stream(a@)[k],
        decreases a@.len() - i,
    {
        r.push(chars_of(a[i]));
        i += 1;
    }
    r
}

fn same_chars(x: &Vec<char>, y: &Vec<char>) -> (r: bool)
    ensures
        r == (x@ == y@),
{
    if x.len() != y.len() {
        return false;
    }
    let mut i: usize = 0;
    while i < x.len()
        invariant
            i <= x@.len(),
            x@.len() == y@.len(),
            forall|k: int| 0 <= k < i ==> x@[k] == y@[k],
        decreases x@.len() - i,
    {
        if x[i] != y[i] {
            return false;
        }
        i += 1;
    }
    assert(x@ =~= y@);
    true
}

/// `row` holds the best scores of the first `i` words of `a` with 0, 1, 2, ... words of `b`.
spec fn row_holds(row: Seq<i128>, a: Seq<Seq<char>>, b: Seq<Seq<char>>, i: nat) -> bool {
    forall|j: int| 0 <= j < row.len() ==> #[trigger] row[j] == best_score(a, b, i, j as nat)
}

/// The table of best scores.
fn score_table(a: &Vec<Vec<char>>, b: &Vec<Vec<char>>, Ghost(wa): Ghost<Seq<Seq<char>>>, Ghost(wb): Ghost<
    Seq<Seq<char>>,
>) -> (table: Vec<Vec<i128>>)
    requires
        wa.len() == a@.len(),
        wb.len() == b@.len(),
        forall|k: int| 0 <= k < a@.len() ==> #[trigger] a@[k]@ == wa[k],
        forall|k: int| 0 <= k < b@.len() ==> #[trigger] b@[k]@ == wb[k],
    ensures
        table@.len() == a@.len() + 1,
        forall|i: int|
            0 <= i < table@.len() ==> (#[trigger] table@[i])@.len() == b@.len() + 1 && row_holds(
                table@[i]@,
                wa,
                wb,
                i as nat,
            ),
{
    let gap: i128 = -1;
    let match_score: i128 = 2;
    let mismatch: i128 = -1;
    let n = a.len();
    let m = b.len();
    let mut first: Vec<i128> = Vec::new();
    first.push(0);
    let mut j: usize = 0;
    while j < m
        invariant
            j <= m,
            m == b@.len(),
            gap == -1,
            first@.len() == j + 1,
            row_holds(first@, wa, wb, 0),
        decreases m - j,
    {
        j += 1;
        first.push((j as i128) * gap);
    }
    let mut table: Vec<Vec<i128>> = Vec::new();
    table.push(first);
    let mut i: usize = 0;
    while i < n
        invariant
            i <= n,
            n == a@.len(),
            m == b@.len(),
            gap == -1,
            match_score == 2,
            mismatch == -1,
            wa.len() == n,
            wb.len() == m,
            forall|k: int| 0 <= k < a@.len() ==> #[trigger] a@[k]@ == wa[k],
            forall|k: int| 0 <= k < b@.len() ==> #[trigger] b@[k]@ == wb[k],
            table@.len() == i + 1,
            forall|k: int|
                0 <= k < table@.len() ==> (#[trigger] table@[k])@.len() == m + 1 && row_holds(
                    table@[k]@,
                    wa,
                    wb,
                    k as nat,
                ),
        decreases n - i,
    {
        let mut row: Vec<i128> = Vec::new();
        row.push(((i + 1) as i128) * gap);
        let mut j: usize = 0;
        assert(row_holds(table@[i as int]@, wa, wb, i as nat));
        while j < m
            invariant
                i < n,
                j <= m,
                n == a@.len(),
                m == b@.len(),
                gap == -1,
                match_score == 2,
                mismatch == -1,
                wa.len() == n,
                wb.len() == m,
                forall|k: int| 0 <= k < a@.len() ==> #[trigger] a@[k]@ == wa[k],
                forall|k: int| 0 <= k < b@.len() ==> #[trigger] b@[k]@ == wb[k],
                table@.len() == i + 1,
                table@[i as int]@.len() == m + 1,
                row_holds(table@[i as int]@, wa, wb, i as nat),
                row@.len() == j + 1,
                row_holds(row@, wa, wb, (i + 1) as nat),
            decreases m - j,
        {
            proof {
                lemma_score_bounds(wa, wb, i as nat, j as nat);
                lemma_score_bounds(wa, wb, i as nat, (j + 1) as nat);
                lemma_score_bounds(wa, wb, (i + 1) as nat, j as nat);
                assert(table@[i as int]@[j as int] == best_score(wa, wb, i as nat, j as nat));
                assert(table@[i as int]@[j + 1] == best_score(wa, wb, i as nat, (j + 1) as nat));
                assert(row@[j as int] == best_score(wa, wb, (i + 1) as nat, j as nat));
            }
            let diag: i128 = table[i][j] + if same_chars(&a[i], &b[j]) {
                match_score
            } else {
                mismatch
            };
            let up: i128 = table[i][j + 1] + gap;
            let left: i128 = row[j] + gap;
            let mut best: i128 = diag;
            if up > best {
                best = up;
            }
            if left > best {
                best = left;
            }
            row.push(best);
            j += 1;
            assert(best == best_score(wa, wb, (i + 1) as nat, j as nat));
        }
        table.push(row);
        i += 1;
    }
    table
}

/// The chosen alignment of the two word streams. It is an alignment, and no other alignment of
/// them scores more.
pub fn needleman_wunsch(a: &[&str], b: &[&str]) -> (ops: Vec<AlignOp>)
    ensures
        ops@ == chosen(stream(a@), stream(b@), a@.len(), b@.len()),
        is_alignment(ops@, stream(a@), stream(b@), a@.len() as int, b@.len() as int),
        forall|other: Seq<AlignOp>|
            #[trigger] is_alignment(other, stream(a@), stream(b@), a@.len() as int, b@.len() as int)
                ==> score_of(other) <= score_of(ops@),
{
    let ghost wa = stream(a@);
    let ghost wb = stream(b@);
    let ca = word_chars(a);
    let cb = word_chars(b);
    let table = score_table(&ca, &cb, Ghost(wa), Ghost(wb));
    let gap: i128 = -1;
    let n = a.len();
    let m = b.len();
    let mut back: Vec<AlignOp> = Vec::new();
    let mut i: usize = n;
    let mut j: usize = m;
    assert(chosen(wa, wb, n as nat, m as nat) =~= chosen(wa, wb, i as nat, j as nat)
        + back@.reverse());
    while i > 0 || j > 0
        invariant
            i <= n,
            j <= m,
            n == a@.len(),
            m == b@.len(),
            gap == -1,
            wa == stream(a@),
            wb == stream(b@),
            ca@.len() == n,
            cb@.len() == m,
            forall|k: int| 0 <= k < ca@.len() ==> #[trigger] ca@[k]@ == wa[k],
            forall|k: int| 0 <= k < cb@.len() ==> #[trigger] cb@[k]@ == wb[k],
            table@.len() == n + 1,
            forall|k: int|
                0 <= k < table@.len() ==> (#[trigger] table@[k])@.len() == m + 1 && row_holds(
                    table@[k]@,
                    wa,
                    wb,
                    k as nat,
                ),
            chosen(wa, wb, n as nat, m as nat) == chosen(wa, wb, i as nat, j as nat)
                + back@.reverse(),
        decreases i + j,
    {
        let ghost before = back@;
        let ghost here = chosen(wa, wb, i as nat, j as nat);
        let mut op = AlignOp::InsertB(0);
        let mut paired = false;
        proof {
            lemma_score_bounds(wa, wb, i as nat, j as nat);
            assert(row_holds(table@[i as int]@, wa, wb, i as nat));
            assert(table@[i as int]@[j as int] == best_score(wa, wb, i as nat, j as nat));
        }
        if i > 0 && j > 0 {
            proof {
                lemma_score_bounds(wa, wb, (i - 1) as nat, (j - 1) as nat);
                assert(row_holds(table@[i - 1]@, wa, wb, (i - 1) as nat));
                assert(table@[i - 1]@[j - 1] == best_score(wa, wb, (i - 1) as nat, (j - 1) as nat));
            }
            let equal = same_chars(&ca[i - 1], &cb[j - 1]);
            let step: i128 = if equal {
                2
            } else {
                -1
            };
            if table[i][j] == table[i - 1][j - 1] + step {
                paired = true;
                op = if equal {
                    AlignOp::Match(i - 1, j - 1)
                } else {
                    AlignOp::Sub(i - 1, j - 1)
                };
            }
        }
        if paired {
            i -= 1;
            j -= 1;
        } else {
            let mut alone = false;
            if i > 0 {
                proof {
                    lemma_score_bounds(wa, wb, (i - 1) as nat, j as nat);
                    assert(row_holds(table@[i - 1]@, wa, wb, (i - 1) as nat));
                    assert(table@[i - 1]@[j as int] == best_score(wa, wb, (i - 1) as nat, j as nat));
                }
                alone = table[i][j] == table[i - 1][j] + gap;
            }
            if alone {
                op = AlignOp::InsertA(i - 1);
                i -= 1;
            } else {
                op = AlignOp::InsertB(j - 1);
                j -= 1;
            }
        }
        back.push(op);
        assert(here =~= chosen(wa, wb, i as nat, j as nat).push(op));
        assert(back@.reverse() =~= seq![op] + before.reverse());
        assert(here + before.reverse() =~= chosen(wa, wb, i as nat, j as nat) + back@.reverse());
    }
    let mut ops: Vec<AlignOp> = Vec::new();
    let mut k: usize = back.len();
    while k > 0
        invariant
            k <= back@.len(),
            ops@.len() == back@.len() - k,
            forall|x: int| 0 <= x < ops@.len() ==> #[trigger] ops@[x] == back@[back@.len() - 1 - x],
        decreases k,
    {
        k -= 1;
        ops.push(back[k]);
    }
    assert(ops@ =~= back@.reverse());
    proof {
        assert(chosen(wa, wb, 0, 0) + back@.reverse() =~= back@.reverse());
        lemma_chosen(wa, wb, n as nat, m as nat);
        assert forall|other: Seq<AlignOp>| #[trigger]
            is_alignment(other, wa, wb, n as int, m as int) implies score_of(other) <= score_of(
            ops@,
        ) by {
            lemma_best(other, wa, wb, n as nat, m as nat);
        }
    }
    ops
}

} // verus!
