//! Picking the best of a list of scores.

use crate::single::{greater, gt, is_nan};
use vstd::prelude::*;

verus! {

/// Does the score at `i` come before the one at `j`: is it greater, or as great
/// and earlier?
pub open spec fn beats(scores: Seq<u32>, i: int, j: int) -> bool {
    greater(scores[i], scores[j]) || (!greater(scores[j], scores[i]) && i < j)
}

/// Do the indices ascend?
pub open spec fn ascending(v: Seq<usize>) -> bool {
    forall|a: int, b: int| 0 <= a < b < v.len() ==> #[trigger] v[a] < #[trigger] v[b]
}

/// Are these the indices of the `k` best scores, in ascending order? Where
/// there are fewer scores, all are.
pub open spec fn is_top(scores: Seq<u32>, k: nat, v: Seq<usize>) -> bool {
    &&& ascending(v)
    &&& v.len() == (if k < scores.len() {
        k
    } else {
        scores.len()
    })
    &&& forall|a: int| 0 <= a < v.len() ==> #[trigger] v[a] < scores.len()
    &&& (forall|i: int| 0 <= i < scores.len() ==> !is_nan(#[trigger] scores[i])) ==> forall|
        i: int,
        j: int,
    |
        #![trigger v.contains(i as usize), v.contains(j as usize)]
        0 <= i < scores.len() && 0 <= j < scores.len() && v.contains(i as usize) && !v.contains(
            j as usize,
        ) ==> beats(scores, i, j)
}

/// How many of the marks are set.
spec fn marks_set(marks: Seq<bool>) -> nat
    decreases marks.len(),
{
    if marks.len() == 0 {
        0
    } else {
        marks_set(marks.drop_last()) + (if marks.last() {
            1nat
        } else {
            0
        })
    }
}

/// Setting one mark more.
proof fn lemma_set_mark(marks: Seq<bool>, i: int)
    requires
        0 <= i < marks.len(),
        !marks[i],
    ensures
        marks_set(marks.update(i, true)) == marks_set(marks) + 1,
    decreases marks.len(),
{
    let after = marks.update(i, true);
    if i == marks.len() - 1 {
        assert(after.drop_last() =~= marks.drop_last());
    } else {
        lemma_set_mark(marks.drop_last(), i);
        assert(after.drop_last() =~= marks.drop_last().update(i, true));
    }
}

/// Where fewer marks are set than there are, one is not.
proof fn lemma_some_unset(marks: Seq<bool>)
    requires
        marks_set(marks) < marks.len(),
    ensures
        exists|i: int| 0 <= i < marks.len() && !#[trigger] marks[i],
    decreases marks.len(),
{
    if marks.last() {
        let shorter = marks.drop_last();
        lemma_some_unset(shorter);
        let i = choose|i: int| 0 <= i < shorter.len() && !#[trigger] shorter[i];
        assert(!marks[i]);
    } else {
        assert(!marks[marks.len() - 1]);
    }
}

/// No marks are set where none is.
proof fn lemma_none_set(marks: Seq<bool>)
    requires
        forall|i: int| 0 <= i < marks.len() ==> !#[trigger] marks[i],
    ensures
        marks_set(marks) == 0,
    decreases marks.len(),
{
    if marks.len() > 0 {
        let shorter = marks.drop_last();
        assert forall|i: int| 0 <= i < shorter.len() implies !#[trigger] shorter[i] by {
            assert(!marks[i]);
        }
        assert(!marks[marks.len() - 1]);
        lemma_none_set(shorter);
    }
}

/// Is every marked score before every unmarked one?
spec fn leads_rest(scores: Seq<u32>, marks: Seq<bool>) -> bool {
    (forall|i: int| 0 <= i < scores.len() ==> !is_nan(#[trigger] scores[i])) ==> forall|
        i: int,
        j: int,
    |
        #![trigger marks[i], marks[j]]
        0 <= i < scores.len() && 0 <= j < scores.len() && marks[i] && !marks[j] ==> beats(
            scores,
            i,
            j,
        )
}

/// Finds the best score that is not marked.
fn best_unmarked(scores: &Vec<u32>, marks: &Vec<bool>) -> (r: usize)
    requires
        marks@.len() == scores@.len(),
        marks_set(marks@) < marks@.len(),
    ensures
        r < scores@.len(),
        !marks@[r as int],
        (forall|i: int| 0 <= i < scores@.len() ==> !is_nan(#[trigger] scores@[i])) ==> forall|j: int|
            0 <= j < scores@.len() && !#[trigger] marks@[j] && j != r ==> beats(
                scores@,
                r as int,
                j,
            ),
{
    let mut best: Option<usize> = None;
    for i in 0..scores.len()
        invariant
            marks@.len() == scores@.len(),
            match best {
                None => forall|j: int| 0 <= j < i ==> #[trigger] marks@[j],
                Some(b) => {
                    &&& b < i
                    &&& !marks@[b as int]
                    &&& (forall|i: int| 0 <= i < scores@.len() ==> !is_nan(#[trigger] scores@[i]))
                        ==> forall|j: int|
                        0 <= j < i && !#[trigger] marks@[j] && j != b ==> beats(
                            scores@,
                            b as int,
                            j,
                        )
                },
            },
    {
        if !marks[i] {
            best = match best {
                None => Some(i),
                Some(b) => if gt(scores[i], scores[b]) {
                    Some(i)
                } else {
                    Some(b)
                },
            };
        }
    }
    match best {
        Some(b) => b,
        None => {
            proof {
                lemma_some_unset(marks@);
            }
            0
        },
    }
}

/// The indices of the `k` best scores, in ascending order.
pub fn top_k(scores: &Vec<u32>, k: usize) -> (r: Vec<usize>)
    ensures
        is_top(scores@, k as nat, r@),
{
    let n: usize = scores.len();
    let rounds: usize = if k < n {
        k
    } else {
        n
    };
    let mut marks: Vec<bool> = vec![false; n];
    proof {
        lemma_none_set(marks@);
    }
    for round in 0..rounds
        invariant
            n == scores@.len(),
            marks@.len() == n,
            rounds <= n,
            marks_set(marks@) == round,
            leads_rest(scores@, marks@),
    {
        let b = best_unmarked(scores, &marks);
        proof {
            lemma_set_mark(marks@, b as int);
        }
        let ghost before = marks@;
        marks.set(b, true);
        assert forall|i: int, j: int|
            #![trigger marks@[i], marks@[j]]
            (forall|i: int| 0 <= i < scores@.len() ==> !is_nan(#[trigger] scores@[i])) && 0 <= i
                < scores@.len() && 0 <= j < scores@.len() && marks@[i] && !marks@[j] implies beats(
            scores@,
            i,
            j,
        ) by {
            assert(!before[j]);
            if i != b {
                assert(before[i]);
            }
        }
    }
    let mut out: Vec<usize> = Vec::new();
    assert(marks@.take(0) =~= Seq::empty());
    for i in 0..n
        invariant
            n == scores@.len(),
            marks@.len() == n,
            out@.len() == marks_set(marks@.take(i as int)),
            ascending(out@),
            forall|a: int| 0 <= a < out@.len() ==> #[trigger] out@[a] < i && marks@[out@[a] as int],
            forall|j: int| 0 <= j < i && #[trigger] marks@[j] ==> out@.contains(j as usize),
    {
        let ghost before = out@;
        assert(marks@.take(i + 1).drop_last() =~= marks@.take(i as int));
        if marks[i] {
            out.push(i);
            assert(out@[before.len() as int] == i);
            assert forall|j: int| 0 <= j < i + 1 && #[trigger] marks@[j] implies out@.contains(
                j as usize,
            ) by {
                if j < i {
                    let a = choose|a: int| 0 <= a < before.len() && before[a] == j as usize;
                    assert(out@[a] == j as usize);
                }
            }
        }
    }
    assert(marks@.take(n as int) =~= marks@);
    assert forall|i: int, j: int|
        #![trigger out@.contains(i as usize), out@.contains(j as usize)]
        (forall|i: int| 0 <= i < scores@.len() ==> !is_nan(#[trigger] scores@[i])) && 0 <= i
            < scores@.len() && 0 <= j < scores@.len() && out@.contains(i as usize)
            && !out@.contains(j as usize) implies beats(scores@, i, j) by {
        let a = choose|a: int| 0 <= a < out@.len() && out@[a] == i as usize;
        assert(marks@[out@[a] as int]);
        assert(!marks@[j]);
    }
    out
}

/// Ascending lists of the same indices are the same.
proof fn lemma_ascending_lists_agree(a: Seq<usize>, b: Seq<usize>)
    requires
        ascending(a),
        ascending(b),
        a.len() == b.len(),
        forall|i: usize| #[trigger] a.contains(i) <==> b.contains(i),
    ensures
        a == b,
    decreases a.len(),
{
    if a.len() > 0 {
        let x = a.last();
        let y = b.last();
        assert(a[a.len() - 1] == x && b[b.len() - 1] == y);
        assert(a.contains(x) && b.contains(y));
        assert(b.contains(x) && a.contains(y));
        let p = choose|p: int| 0 <= p < b.len() && b[p] == x;
        let q = choose|q: int| 0 <= q < a.len() && a[q] == y;
        assert(x == y);
        let c = a.drop_last();
        let d = b.drop_last();
        assert forall|i: usize| #[trigger] c.contains(i) <==> d.contains(i) by {
            if c.contains(i) {
                let k = choose|k: int| 0 <= k < c.len() && c[k] == i;
                assert(a[k] == i && i < x);
                assert(a.contains(i));
                let l = choose|l: int| 0 <= l < b.len() && b[l] == i;
                assert(d[l] == i);
            }
            if d.contains(i) {
                let k = choose|k: int| 0 <= k < d.len() && d[k] == i;
                assert(b[k] == i && i < y);
                assert(b.contains(i) ==> a.contains(i));
                let l = choose|l: int| 0 <= l < a.len() && a[l] == i;
                assert(c[l] == i);
            }
        }
        lemma_ascending_lists_agree(c, d);
        assert(a =~= c.push(x));
        assert(b =~= d.push(y));
    } else {
        assert(a =~= b);
    }
}

/// Of two lists of equal length without repetitions, neither can have an index
/// more than the other.
proof fn lemma_other_index(a: Seq<usize>, b: Seq<usize>, i: usize) -> (j: usize)
    requires
        ascending(a),
        ascending(b),
        a.len() == b.len(),
        a.contains(i),
        !b.contains(i),
    ensures
        b.contains(j),
        !a.contains(j),
{
    if forall|j: usize| #[trigger] b.contains(j) ==> a.contains(j) {
        a.unique_seq_to_set();
        b.unique_seq_to_set();
        let s = a.to_set();
        let t = b.to_set();
        assert forall|j: usize| #[trigger] t.contains(j) implies s.contains(j) by {
            assert(b.contains(j));
        }
        vstd::set_lib::lemma_subset_equality(t, s);
        assert(s.contains(i));
        assert(t.contains(i));
        assert(false);
    }
    choose|j: usize| #[trigger] b.contains(j) && !a.contains(j)
}

/// Where every score is a number there is one shortlist only: the best scores
/// are settled, and so is their order.
pub proof fn shortlist_is_settled(scores: Seq<u32>, k: nat, a: Seq<usize>, b: Seq<usize>)
    requires
        scores.len() <= usize::MAX,
        forall|i: int| 0 <= i < scores.len() ==> !is_nan(#[trigger] scores[i]),
        is_top(scores, k, a),
        is_top(scores, k, b),
    ensures
        a == b,
{
    assert forall|i: usize| #[trigger] a.contains(i) <==> b.contains(i) by {
        if a.contains(i) {
            lemma_in_both(scores, k, a, b, i);
        }
        if b.contains(i) {
            lemma_in_both(scores, k, b, a, i);
        }
    }
    lemma_ascending_lists_agree(a, b);
}

/// An index of one shortlist is one of the other.
proof fn lemma_in_both(scores: Seq<u32>, k: nat, a: Seq<usize>, b: Seq<usize>, i: usize)
    requires
        forall|i: int| 0 <= i < scores.len() ==> !is_nan(#[trigger] scores[i]),
        is_top(scores, k, a),
        is_top(scores, k, b),
        a.contains(i),
    ensures
        b.contains(i),
{
    if !b.contains(i) {
        let j = lemma_other_index(a, b, i);
        let p = choose|p: int| 0 <= p < a.len() && a[p] == i;
        let q = choose|q: int| 0 <= q < b.len() && b[q] == j;
        assert(a[p] < scores.len() && b[q] < scores.len());
        assert(a.contains((i as int) as usize) && !a.contains((j as int) as usize));
        assert(beats(scores, i as int, j as int));
        assert(b.contains((j as int) as usize) && !b.contains((i as int) as usize));
        assert(beats(scores, j as int, i as int));
    }
}

} // verus!
