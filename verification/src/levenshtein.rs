//! Edit distance between character sequences, the basis of the title
//! matcher's similarity score.

use vstd::prelude::*;

verus! {

pub open spec fn min3(a: nat, b: nat, c: nat) -> nat {
    if a <= b && a <= c {
        a
    } else if b <= c {
        b
    } else {
        c
    }
}

/// Levenshtein edit distance: the least number of single-character
/// insertions, deletions and substitutions turning `a` into `b`.
pub open spec fn lev(a: Seq<char>, b: Seq<char>) -> nat
    decreases a.len() + b.len(),
{
    if a.len() == 0 {
        b.len()
    } else if b.len() == 0 {
        a.len()
    } else {
        let sub_cost: nat = if a.last() == b.last() {
            0
        } else {
            1
        };
        min3(
            lev(a.drop_last(), b) + 1,
            lev(a, b.drop_last()) + 1,
            lev(a.drop_last(), b.drop_last()) + sub_cost,
        )
    }
}

/// The distance never exceeds the longer input's length.
pub proof fn lemma_lev_bound(a: Seq<char>, b: Seq<char>)
    ensures
        lev(a, b) <= a.len() + b.len(),
        a.len() <= b.len() ==> lev(a, b) <= b.len(),
        b.len() <= a.len() ==> lev(a, b) <= a.len(),
    decreases a.len() + b.len(),
{
    if a.len() == 0 || b.len() == 0 {
    } else {
        lemma_lev_bound(a.drop_last(), b);
        lemma_lev_bound(a, b.drop_last());
        lemma_lev_bound(a.drop_last(), b.drop_last());
    }
}

/// The dynamic-programming recurrence over prefixes, bridging the
/// last-character recursion above to a row-by-row computation.
proof fn lemma_lev_step(a: Seq<char>, b: Seq<char>, i: int, j: int)
    requires
        1 <= i <= a.len(),
        1 <= j <= b.len(),
    ensures
        lev(a.take(i), b.take(j)) == min3(
            lev(a.take(i - 1), b.take(j)) + 1,
            lev(a.take(i), b.take(j - 1)) + 1,
            lev(a.take(i - 1), b.take(j - 1)) + if a[i - 1] == b[j - 1] {
                0nat
            } else {
                1nat
            },
        ),
{
    let ai = a.take(i);
    let bj = b.take(j);
    assert(ai.len() == i && bj.len() == j);
    assert(ai.drop_last() =~= a.take(i - 1));
    assert(bj.drop_last() =~= b.take(j - 1));
    assert(ai.last() == a[i - 1]);
    assert(bj.last() == b[j - 1]);
}

/// Adds one without overflowing; the saturated value never wins the
/// three-way minimum below, so the distance itself is unaffected.
fn add_one_capped(x: usize) -> (r: usize)
    ensures
        r == if x < usize::MAX {
            x + 1
        } else {
            usize::MAX as int
        },
{
    if x < usize::MAX {
        x + 1
    } else {
        usize::MAX
    }
}

/// Computes `lev(a@, b@)` by dynamic programming over prefixes.
pub fn levenshtein(a: &Vec<char>, b: &Vec<char>) -> (r: usize)
    ensures
        r == lev(a@, b@),
{
    let n = a.len();
    let m = b.len();
    let mut prev: Vec<usize> = Vec::new();
    prev.push(0);
    assert(lev(a@.take(0), b@.take(0)) == 0);
    let mut j0: usize = 0;
    while j0 < m
        invariant
            m == b@.len(),
            j0 <= m,
            prev@.len() == j0 + 1,
            forall|j: int| 0 <= j <= j0 ==> prev@[j] == lev(a@.take(0), b@.take(j)),
        decreases m - j0,
    {
        assert(lev(a@.take(0), b@.take(j0 + 1)) == j0 + 1) by {
            assert(a@.take(0).len() == 0);
            assert(b@.take(j0 + 1).len() == j0 + 1);
        }
        prev.push(j0 + 1);
        j0 += 1;
    }
    let mut rows: usize = 0;
    while rows < n
        invariant
            n == a@.len(),
            m == b@.len(),
            rows <= n,
            prev@.len() == m + 1,
            forall|j: int| 0 <= j <= m ==> prev@[j] == lev(a@.take(rows as int), b@.take(j)),
        decreases n - rows,
    {
        let i = rows + 1;
        let mut cur: Vec<usize> = Vec::new();
        assert(lev(a@.take(i as int), b@.take(0)) == i) by {
            assert(b@.take(0).len() == 0);
            assert(a@.take(i as int).len() == i);
        }
        cur.push(i);
        let mut cols: usize = 0;
        while cols < m
            invariant
                n == a@.len(),
                m == b@.len(),
                1 <= i <= n,
                cols <= m,
                prev@.len() == m + 1,
                cur@.len() == cols + 1,
                forall|k: int| 0 <= k <= m ==> prev@[k] == lev(a@.take(i - 1), b@.take(k)),
                forall|k: int| 0 <= k <= cols ==> cur@[k] == lev(a@.take(i as int), b@.take(k)),
            decreases m - cols,
        {
            let j = cols + 1;
            proof {
                lemma_lev_step(a@, b@, i as int, j as int);
                lemma_lev_bound(a@.take(i as int), b@.take(j - 1));
                lemma_lev_bound(a@.take(i - 1), b@.take(j - 1));
            }
            let del = add_one_capped(prev[j]);
            let ins = add_one_capped(cur[j - 1]);
            let sub_base = prev[j - 1];
            let sub = if a[i - 1] == b[j - 1] {
                sub_base
            } else {
                sub_base + 1
            };
            let mut best = del;
            if ins < best {
                best = ins;
            }
            if sub < best {
                best = sub;
            }
            assert(best == lev(a@.take(i as int), b@.take(j as int)));
            cur.push(best);
            cols = j;
        }
        prev = cur;
        rows = i;
    }
    assert(a@.take(n as int) =~= a@);
    assert(b@.take(m as int) =~= b@);
    prev[m]
}

} // verus!
