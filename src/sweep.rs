//! The all-pairs collision sweep: which pair of balls is tried next, and how
//! many collided.
//!
//! A sweep over `n` balls tries every pair `(i, j)` with `i < j < n` once,
//! the lower index first, in lexicographic order: ascending `i`, and for each
//! `i` ascending `j`. The caller tries each pair and hands back whether it
//! collided.
use vstd::prelude::*;

verus! {

/// `(i, j)` is a pair of distinct balls out of `n`, the lower index first.
pub open spec fn is_pair(n: int, p: (int, int)) -> bool {
    0 <= p.0 < p.1 < n
}

/// `a` comes before `b` in lexicographic order.
pub open spec fn before(a: (int, int), b: (int, int)) -> bool {
    a.0 < b.0 || (a.0 == b.0 && a.1 < b.1)
}

/// The pair tried after `(i, j)` in a sweep over `n` balls, if any.
pub open spec fn next_pair(n: int, i: int, j: int) -> Option<(usize, usize)> {
    if j + 1 < n {
        Some((i as usize, (j + 1) as usize))
    } else if i + 2 < n {
        Some(((i + 1) as usize, (i + 2) as usize))
    } else {
        None
    }
}

/// The pair that a sweep over `n` balls starts with, if any.
pub fn first_pair(n: usize) -> (r: Option<(usize, usize)>)
    ensures
        r == (if n >= 2 {
            Some((0usize, 1usize))
        } else {
            None::<(usize, usize)>
        }),
{
    if n >= 2 {
        Some((0, 1))
    } else {
        None
    }
}

/// One step of a sweep over `n` balls: pair `(i, j)` was tried and
/// `collided` says whether it collided. Returns the count of collisions so
/// far and the pair to try next, if any.
pub fn sweep_step(n: usize, i: usize, j: usize, count: u64, collided: bool) -> (r: (
    u64,
    Option<(usize, usize)>,
))
    requires
        i < j < n,
        count < u64::MAX,
    ensures
        r.0 == (if collided {
            count + 1
        } else {
            count as int
        }),
        r.1 == next_pair(n as int, i as int, j as int),
{
    let count = if collided {
        count + 1
    } else {
        count
    };
    if j + 1 < n {
        (count, Some((i, j + 1)))
    } else if i + 2 < n {
        (count, Some((i + 1, i + 2)))
    } else {
        (count, None)
    }
}

/// A sweep starts with the first pair in lexicographic order.
pub proof fn lemma_first_pair_least(n: int)
    requires
        n >= 2,
    ensures
        is_pair(n, (0, 1)),
        forall|p: (int, int)| is_pair(n, p) ==> p == (0int, 1int) || before((0, 1), p),
{
}

/// A sweep steps from each pair to the next one in lexicographic order and
/// ends after the last: the pair it moves to comes after `(i, j)` with no
/// pair in between, and it stops exactly when no pair comes after `(i, j)`.
/// Starting from the first pair, it therefore tries every pair exactly once,
/// in that order.
pub proof fn lemma_sweep_visits_in_order(n: int, i: int, j: int)
    requires
        is_pair(n, (i, j)),
        n <= usize::MAX,
    ensures
        match next_pair(n, i, j) {
            Some(q) => {
                &&& is_pair(n, (q.0 as int, q.1 as int))
                &&& before((i, j), (q.0 as int, q.1 as int))
                &&& forall|p: (int, int)|
                    is_pair(n, p) && before((i, j), p) ==> !before(p, (q.0 as int, q.1 as int))
            },
            None => forall|p: (int, int)| is_pair(n, p) ==> !before((i, j), p),
        },
{
    if j + 1 < n {
        assert(next_pair(n, i, j) == Some((i as usize, (j + 1) as usize)));
    } else if i + 2 < n {
        assert(next_pair(n, i, j) == Some(((i + 1) as usize, (i + 2) as usize)));
    }
}

} // verus!
