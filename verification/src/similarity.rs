//! The edit distance that ranks the lines closest to a pattern that was not found.
use vstd::prelude::*;

use crate::text::str_chars;

verus! {

pub open spec fn min3(x: nat, y: nat, z: nat) -> nat {
    if x <= y && x <= z {
        x
    } else if y <= z {
        y
    } else {
        z
    }
}

/// The Levenshtein distance: the fewest insertions, deletions and substitutions of single
/// characters that turn `a` into `b`.
pub open spec fn lev(a: Seq<char>, b: Seq<char>) -> nat
    decreases a.len() + b.len(),
{
    if a.len() == 0 {
        b.len()
    } else if b.len() == 0 {
        a.len()
    } else {
        min3(
            lev(a.drop_last(), b.drop_last()) + if a.last() == b.last() {
                0nat
            } else {
                1nat
            },
            lev(a.drop_last(), b) + 1,
            lev(a, b.drop_last()) + 1,
        )
    }
}

/// The distance is at most the longer length.
pub proof fn lemma_lev_bound(a: Seq<char>, b: Seq<char>)
    ensures
        lev(a, b) <= if a.len() >= b.len() {
            a.len()
        } else {
            b.len()
        },
    decreases a.len() + b.len(),
{
    if a.len() > 0 && b.len() > 0 {
        lemma_lev_bound(a.drop_last(), b.drop_last());
    }
}

/// The distance of a text to itself is zero.
pub proof fn lemma_lev_self(a: Seq<char>)
    ensures
        lev(a, a) == 0,
    decreases a.len(),
{
    if a.len() > 0 {
        lemma_lev_self(a.drop_last());
    }
}

/// The Levenshtein distance between `a` and `b`, row by row.
pub fn levenshtein(a: &str, b: &str) -> (d: usize)
    requires
        a@.len() < usize::MAX,
        b@.len() < usize::MAX,
    ensures
        d == lev(a@, b@),
{
    let ac = str_chars(a);
    let bc = str_chars(b);
    let n = ac.len();
    let m = bc.len();
    let mut prev: Vec<usize> = Vec::new();
    proof {
        assert(ac@.take(0).len() == 0);
    }
    prev.push(0);
    let mut j: usize = 0;
    while j < m
        invariant
            j <= m,
            m == bc@.len(),
            prev@.len() == j + 1,
            forall|q: int| 0 <= q <= j ==> #[trigger] prev@[q] == lev(ac@.take(0), bc@.take(q)),
        decreases m - j,
    {
        prev.push(j + 1);
        j = j + 1;
    }
    let mut i: usize = 0;
    while i < n
        invariant
            i <= n == ac@.len(),
            m == bc@.len(),
            n < usize::MAX,
            m < usize::MAX,
            prev@.len() == m + 1,
            forall|q: int| 0 <= q <= m ==> #[trigger] prev@[q] == lev(ac@.take(i as int), bc@.take(q)),
        decreases n - i,
    {
        let ghost ai = ac@.take(i as int);
        let ghost ai1 = ac@.take(i + 1);
        proof {
            assert(ai1.drop_last() =~= ai);
            assert(ai1.last() == ac@[i as int]);
            assert(bc@.take(0) =~= Seq::<char>::empty());
            lemma_lev_bound(ai1, bc@.take(0));
        }
        let mut curr: Vec<usize> = Vec::new();
        curr.push(i + 1);
        let mut k: usize = 0;
        while k < m
            invariant
                k <= m == bc@.len(),
                i < n == ac@.len(),
                n < usize::MAX,
                m < usize::MAX,
                ai == ac@.take(i as int),
                ai1 == ac@.take(i + 1),
                ai1.drop_last() == ai,
                ai1.last() == ac@[i as int],
                prev@.len() == m + 1,
                forall|q: int| 0 <= q <= m ==> #[trigger] prev@[q] == lev(ai, bc@.take(q)),
                curr@.len() == k + 1,
                forall|q: int| 0 <= q <= k ==> #[trigger] curr@[q] == lev(ai1, bc@.take(q)),
            decreases m - k,
        {
            let ghost bk1 = bc@.take(k + 1);
            proof {
                assert(bk1.drop_last() =~= bc@.take(k as int));
                assert(bk1.last() == bc@[k as int]);
                lemma_lev_bound(ai, bc@.take(k as int));
                lemma_lev_bound(ai, bk1);
                lemma_lev_bound(ai1, bc@.take(k as int));
            }
            let cost: usize = if ac[i] == bc[k] {
                0
            } else {
                1
            };
            let sub = prev[k] + cost;
            let del = prev[k + 1] + 1;
            let ins = curr[k] + 1;
            let best = if sub <= del && sub <= ins {
                sub
            } else if del <= ins {
                del
            } else {
                ins
            };
            proof {
                assert(lev(ai1, bk1) == min3(
                    lev(ai, bc@.take(k as int)) + if ai1.last() == bk1.last() {
                        0nat
                    } else {
                        1nat
                    },
                    lev(ai, bk1) + 1,
                    lev(ai1, bc@.take(k as int)) + 1,
                ));
            }
            curr.push(best);
            k = k + 1;
        }
        prev = curr;
        i = i + 1;
    }
    proof {
        assert(ac@.take(n as int) =~= ac@);
        assert(bc@.take(m as int) =~= bc@);
    }
    prev[m]
}

/// The distance does not depend on which text is taken first.
pub proof fn lemma_lev_symmetric(a: Seq<char>, b: Seq<char>)
    ensures
        lev(a, b) == lev(b, a),
    decreases a.len() + b.len(),
{
    if a.len() > 0 && b.len() > 0 {
        lemma_lev_symmetric(a.drop_last(), b.drop_last());
        lemma_lev_symmetric(a.drop_last(), b);
        lemma_lev_symmetric(a, b.drop_last());
    }
}

} // verus!
