//! A fixed-bin frequency counter.
//!
//! Samples and bin bounds are order keys (`u32`): any encoding that keeps the
//! order of the measured quantity will do, such as the order-preserving
//! encoding of an `f32` (`key::order_key`, which takes no NaN). The bins
//! are half-open: a sample lands in the first bin whose upper bound is
//! strictly greater than it. Above the last finite bound stands one more bin
//! without an upper bound, so every sample lands.
use vstd::prelude::*;

use crate::render::{bar_chart, chart_row, counts_text, text_of};

verus! {

/// Index of the first bound strictly greater than `v`, searching from `i`;
/// `b.len()` when there is none.
pub open spec fn first_above_from(b: Seq<u32>, v: u32, i: int) -> int
    decreases b.len() - i,
{
    if i < 0 || i >= b.len() || b[i] > v {
        if i < 0 { 0 } else { i }
    } else {
        first_above_from(b, v, i + 1)
    }
}

/// The bin that a sample `v` lands in: the index of the first bound strictly
/// greater than `v`, or `b.len()` (the unbounded bin) when there is none.
pub open spec fn bin_of(b: Seq<u32>, v: u32) -> int {
    first_above_from(b, v, 0)
}

/// The bounds are strictly increasing.
pub open spec fn strictly_increasing(b: Seq<u32>) -> bool {
    forall|i: int, j: int| 0 <= i < j < b.len() ==> b[i] < b[j]
}

/// How many of `samples` land in bin `k`.
pub open spec fn tally(b: Seq<u32>, samples: Seq<u32>, k: int) -> nat
    decreases samples.len(),
{
    if samples.len() == 0 {
        0
    } else {
        tally(b, samples.drop_last(), k) + if bin_of(b, samples.last()) == k { 1nat } else { 0nat }
    }
}

/// Sum of a sequence of counters.
pub open spec fn sum(s: Seq<u64>) -> int
    decreases s.len(),
{
    if s.len() == 0 {
        0
    } else {
        sum(s.drop_last()) + s.last()
    }
}

proof fn lemma_sum_bump(s: Seq<u64>, k: int)
    requires
        0 <= k < s.len(),
        s[k] < u64::MAX,
    ensures
        sum(s.update(k, (s[k] + 1) as u64)) == sum(s) + 1,
    decreases s.len(),
{
    let t = s.update(k, (s[k] + 1) as u64);
    if k == s.len() - 1 {
        assert(t.drop_last() =~= s.drop_last());
    } else {
        lemma_sum_bump(s.drop_last(), k);
        assert(t.drop_last() =~= s.drop_last().update(k, (s[k] + 1) as u64));
    }
}

proof fn lemma_sum_prefix_le(s: Seq<u64>, i: int)
    requires
        0 <= i <= s.len(),
    ensures
        sum(s.subrange(0, i)) <= sum(s),
    decreases s.len(),
{
    if i < s.len() {
        lemma_sum_prefix_le(s.drop_last(), i);
        assert(s.drop_last().subrange(0, i) =~= s.subrange(0, i));
    } else {
        assert(s.subrange(0, i) =~= s);
    }
}

proof fn lemma_sum_zeros(s: Seq<u64>)
    requires
        forall|i: int| 0 <= i < s.len() ==> s[i] == 0,
    ensures
        sum(s) == 0,
    decreases s.len(),
{
    if s.len() > 0 {
        lemma_sum_zeros(s.drop_last());
    }
}

proof fn lemma_sum_le(s: Seq<u64>, k: int)
    requires
        0 <= k < s.len(),
    ensures
        s[k] <= sum(s),
        0 <= sum(s),
    decreases s.len(),
{
    if s.len() > 0 {
        lemma_sum_nonneg(s.drop_last());
        if k < s.len() - 1 {
            lemma_sum_le(s.drop_last(), k);
        }
    }
}

proof fn lemma_sum_nonneg(s: Seq<u64>)
    ensures
        0 <= sum(s),
    decreases s.len(),
{
    if s.len() > 0 {
        lemma_sum_nonneg(s.drop_last());
    }
}

proof fn lemma_first_above_range(b: Seq<u32>, v: u32, i: int)
    requires
        0 <= i <= b.len(),
    ensures
        i <= first_above_from(b, v, i) <= b.len(),
        forall|j: int| i <= j < first_above_from(b, v, i) ==> b[j] <= v,
        first_above_from(b, v, i) < b.len() ==> b[first_above_from(b, v, i)] > v,
    decreases b.len() - i,
{
    if i < b.len() && b[i] <= v {
        lemma_first_above_range(b, v, i + 1);
    }
}

/// A sample lands in the bin of the least bound that exceeds it: every bound
/// before its bin is at most the sample, and the bound of its bin (unless it
/// is the unbounded one) is greater. With strictly increasing bounds that bin
/// is the only one with both properties.
pub proof fn lemma_bin_of_least_bound_above(b: Seq<u32>, v: u32)
    requires
        strictly_increasing(b),
    ensures
        0 <= bin_of(b, v) <= b.len(),
        forall|j: int| 0 <= j < bin_of(b, v) ==> b[j] <= v,
        bin_of(b, v) < b.len() ==> v < b[bin_of(b, v)],
        forall|k: int|
            0 <= k <= b.len() && (forall|j: int| 0 <= j < k ==> b[j] <= v) && (k < b.len()
                ==> v < b[k]) ==> k == bin_of(b, v),
{
    lemma_first_above_range(b, v, 0);
    assert forall|k: int|
        0 <= k <= b.len() && (forall|j: int| 0 <= j < k ==> b[j] <= v) && (k < b.len() ==> v
            < b[k]) implies k == bin_of(b, v) by {
        let r = bin_of(b, v);
        if k < r {
            assert(b[k] <= v);
        } else if r < k {
            assert(b[r] <= v);
        }
    }
}

/// Searches the bin that `value` lands in.
fn find_bin(bounds: &Vec<u32>, value: u32) -> (r: usize)
    ensures
        r as int == bin_of(bounds@, value),
{
    let mut i: usize = 0;
    while i < bounds.len() && bounds[i] <= value
        invariant
            0 <= i <= bounds@.len(),
            first_above_from(bounds@, value, i as int) == bin_of(bounds@, value),
        decreases bounds@.len() - i,
    {
        i = i + 1;
    }
    i
}

/// A vector of `n` zero counters.
fn zeros(n: usize) -> (r: Vec<u64>)
    ensures
        r@.len() == n,
        forall|k: int| 0 <= k < n ==> r@[k] == 0,
{
    let mut r: Vec<u64> = Vec::new();
    while r.len() < n
        invariant
            r@.len() <= n,
            forall|k: int| 0 <= k < r@.len() ==> r@[k] == 0,
        decreases n - r@.len(),
    {
        r.push(0);
    }
    r
}

proof fn lemma_tally_empty(b: Seq<u32>, k: int)
    ensures
        tally(b, Seq::<u32>::empty(), k) == 0,
{
}

proof fn lemma_tally_push(b: Seq<u32>, samples: Seq<u32>, v: u32, k: int)
    ensures
        tally(b, samples.push(v), k) == tally(b, samples, k) + if bin_of(b, v) == k {
            1nat
        } else {
            0nat
        },
{
    assert(samples.push(v).drop_last() =~= samples);
}

/// Adds `b` to the strictly increasing `out`, at its place, unless it is
/// there already.
fn insert_sorted(out: &mut Vec<u32>, b: u32)
    requires
        strictly_increasing(old(out)@),
    ensures
        strictly_increasing(final(out)@),
        forall|x: u32| final(out)@.contains(x) <==> (old(out)@.contains(x) || x == b),
        final(out)@.len() <= old(out)@.len() + 1,
{
    let mut p: usize = 0;
    while p < out.len() && out[p] < b
        invariant
            0 <= p <= out@.len(),
            forall|q: int| 0 <= q < p ==> out@[q] < b,
        decreases out@.len() - p,
    {
        p = p + 1;
    }
    if p < out.len() && out[p] == b {
        return;
    }
    let ghost prev = out@;
    out.insert(p, b);
    proof {
        let cur = out@;
        assert(cur =~= prev.insert(p as int, b));
        assert forall|i: int, j: int| 0 <= i < j < cur.len() implies cur[i] < cur[j] by {
            if j < p {
            } else if j == p {
            } else if i < p {
                assert(prev[i] < b);
                assert(b < prev[p as int]);
                assert(prev[p as int] <= prev[j - 1]);
            } else if i == p {
                assert(b < prev[p as int]);
                assert(prev[p as int] <= prev[j - 1]);
            } else {
            }
        }
        assert forall|x: u32| cur.contains(x) <==> (prev.contains(x) || x == b) by {
            if cur.contains(x) {
                let i = choose|i: int| 0 <= i < cur.len() && cur[i] == x;
                if i < p {
                    assert(prev[i] == x);
                } else if i > p {
                    assert(prev[i - 1] == x);
                }
            }
            if prev.contains(x) {
                let i = choose|i: int| 0 <= i < prev.len() && prev[i] == x;
                if i < p {
                    assert(cur[i] == x);
                } else {
                    assert(cur[i + 1] == x);
                }
            }
            if x == b {
                assert(cur[p as int] == b);
            }
        }
    }
}

proof fn lemma_contains_prefix_step(s: Seq<u32>, k: int, x: u32)
    requires
        0 <= k < s.len(),
    ensures
        s.subrange(0, k + 1).contains(x) <==> (s.subrange(0, k).contains(x) || x == s[k]),
{
    let a = s.subrange(0, k);
    let c = s.subrange(0, k + 1);
    if c.contains(x) {
        let i = choose|i: int| 0 <= i < c.len() && c[i] == x;
        if i < k {
            assert(a[i] == x);
        }
    }
    if a.contains(x) {
        let i = choose|i: int| 0 <= i < a.len() && a[i] == x;
        assert(c[i] == x);
    }
    if x == s[k] {
        assert(c[k] == x);
    }
}

/// A histogram: strictly increasing finite upper bounds, and one counter per
/// bin, the last of which has no upper bound.
pub struct Histogram {
    bounds: Vec<u32>,
    counts: Vec<u64>,
    samples: Ghost<Seq<u32>>,
}

impl Histogram {
    /// The finite upper bounds, strictly increasing.
    pub closed spec fn bounds_view(&self) -> Seq<u32> {
        self.bounds@
    }

    /// One counter per bin; the last bin is unbounded above.
    pub closed spec fn counts_view(&self) -> Seq<u64> {
        self.counts@
    }

    /// The samples inserted since the histogram was made or last reset.
    pub closed spec fn samples(&self) -> Seq<u32> {
        self.samples@
    }

    pub closed spec fn wf(&self) -> bool {
        &&& strictly_increasing(self.bounds@)
        &&& self.counts@.len() == self.bounds@.len() + 1
        &&& forall|k: int|
            0 <= k < self.counts@.len() ==> #[trigger] self.counts@[k] == tally(
                self.bounds@,
                self.samples@,
                k,
            )
        &&& sum(self.counts@) == self.samples@.len()
        &&& sum(self.counts@) <= u64::MAX
    }

    /// Makes a histogram whose finite bounds are those given, sorted
    /// ascending with duplicates removed; every counter starts at zero.
    pub fn new_from_bounds(bounds: Vec<u32>) -> (h: Histogram)
        requires
            bounds@.len() < usize::MAX,
        ensures
            h.wf(),
            strictly_increasing(h.bounds_view()),
            forall|x: u32| h.bounds_view().contains(x) <==> bounds@.contains(x),
            h.counts_view().len() == h.bounds_view().len() + 1,
            forall|k: int| 0 <= k < h.counts_view().len() ==> h.counts_view()[k] == 0,
            h.samples() == Seq::<u32>::empty(),
    {
        let mut out: Vec<u32> = Vec::new();
        let mut k: usize = 0;
        while k < bounds.len()
            invariant
                0 <= k <= bounds@.len(),
                bounds@.len() < usize::MAX,
                out@.len() <= k,
                strictly_increasing(out@),
                forall|x: u32| out@.contains(x) <==> bounds@.subrange(0, k as int).contains(x),
            decreases bounds@.len() - k,
        {
            insert_sorted(&mut out, bounds[k]);
            proof {
                assert forall|x: u32| out@.contains(x) <==> bounds@.subrange(0, k + 1).contains(x) by {
                    lemma_contains_prefix_step(bounds@, k as int, x);
                }
            }
            k = k + 1;
        }
        assert(bounds@.subrange(0, bounds@.len() as int) =~= bounds@);
        let counts = zeros(out.len() + 1);
        let h = Histogram { bounds: out, counts, samples: Ghost(Seq::empty()) };
        proof {
            lemma_sum_zeros(h.counts@);
            assert forall|k: int| 0 <= k < h.counts@.len() implies #[trigger] h.counts@[k] == tally(
                h.bounds@,
                h.samples@,
                k,
            ) by {
                lemma_tally_empty(h.bounds@, k);
            }
        }
        h
    }

    /// Zeroes every counter; the bounds stay.
    pub fn reset(&mut self)
        requires
            old(self).wf(),
        ensures
            final(self).wf(),
            final(self).bounds_view() == old(self).bounds_view(),
            final(self).counts_view().len() == old(self).counts_view().len(),
            forall|k: int| 0 <= k < final(self).counts_view().len() ==> final(self).counts_view()[k] == 0,
            final(self).samples() == Seq::<u32>::empty(),
    {
        self.counts = zeros(self.counts.len());
        self.samples = Ghost(Seq::empty());
        proof {
            lemma_sum_zeros(self.counts@);
            assert forall|k: int| 0 <= k < self.counts@.len() implies #[trigger] self.counts@[k]
                == tally(self.bounds@, self.samples@, k) by {
                lemma_tally_empty(self.bounds@, k);
            }
        }
    }

    /// Counts `value` in the bin of the least bound strictly greater than it,
    /// or in the unbounded bin when no bound is.
    pub fn insert(&mut self, value: u32)
        requires
            old(self).wf(),
            sum(old(self).counts_view()) < u64::MAX,
        ensures
            final(self).wf(),
            final(self).bounds_view() == old(self).bounds_view(),
            final(self).counts_view() == old(self).counts_view().update(
                bin_of(old(self).bounds_view(), value),
                (old(self).counts_view()[bin_of(old(self).bounds_view(), value)] + 1) as u64,
            ),
            final(self).samples() == old(self).samples().push(value),
            sum(final(self).counts_view()) == sum(old(self).counts_view()) + 1,
    {
        let i = find_bin(&self.bounds, value);
        proof {
            lemma_first_above_range(self.bounds@, value, 0);
            lemma_sum_le(self.counts@, i as int);
            lemma_sum_bump(self.counts@, i as int);
        }
        let c = self.counts[i];
        self.counts.set(i, c + 1);
        let ghost prev = self.samples@;
        self.samples = Ghost(prev.push(value));
        proof {
            assert forall|k: int| 0 <= k < self.counts@.len() implies #[trigger] self.counts@[k]
                == tally(self.bounds@, self.samples@, k) by {
                lemma_tally_push(self.bounds@, prev, value, k);
            }
        }
    }

    /// The counters, one per bin.
    pub fn counts(&self) -> (r: &Vec<u64>)
        ensures
            r@ == self.counts_view(),
    {
        &self.counts
    }

    /// The finite upper bounds, strictly increasing.
    pub fn bounds(&self) -> (r: &Vec<u32>)
        ensures
            r@ == self.bounds_view(),
    {
        &self.bounds
    }
    /// Zeroes every counter, then counts each of `values` in turn.
    pub fn refill(&mut self, values: &Vec<u32>)
        requires
            old(self).wf(),
            values@.len() < u64::MAX,
        ensures
            final(self).wf(),
            final(self).bounds_view() == old(self).bounds_view(),
            final(self).samples() == values@,
    {
        self.reset();
        let mut i: usize = 0;
        while i < values.len()
            invariant
                0 <= i <= values@.len(),
                values@.len() < u64::MAX,
                self.wf(),
                self.bounds_view() == old(self).bounds_view(),
                self.samples() == values@.subrange(0, i as int),
            decreases values@.len() - i,
        {
            proof {
                lemma_counts_match_samples(self);
            }
            self.insert(values[i]);
            assert(self.samples() =~= values@.subrange(0, i + 1));
            i = i + 1;
        }
        assert(values@.subrange(0, values@.len() as int) =~= values@);
    }

    /// The histogram as text, with `labels[k]` written for the `k`-th finite
    /// bound: `"<count> < <label> | "` per bounded bin, then
    /// `"<count> < \u{221e}"` for the unbounded one.
    pub fn to_text(&self, labels: &Vec<String>) -> (r: String)
        requires
            self.wf(),
            labels@.len() == self.bounds_view().len(),
        ensures
            r@ == text_of(self.counts_view(), labels@),
    {
        counts_text(&self.counts, labels)
    }

    /// A bar chart of the counters, `height` rows from the top down, one
    /// column per bin, scaled so that the fullest bin reaches the top.
    pub fn plot_rows(&self, height: u64) -> (rows: Vec<String>)
        ensures
            rows@.len() == height,
            forall|k: int|
                0 <= k < height ==> #[trigger] rows@[k]@ == chart_row(
                    self.counts_view(),
                    height as nat,
                    (height - 1 - k) as nat,
                ),
    {
        bar_chart(&self.counts, height)
    }

    /// The sum of all counters.
    pub fn total(&self) -> (r: u64)
        requires
            self.wf(),
        ensures
            r == sum(self.counts_view()),
    {
        let mut t: u64 = 0;
        let mut i: usize = 0;
        while i < self.counts.len()
            invariant
                0 <= i <= self.counts@.len(),
                t == sum(self.counts@.subrange(0, i as int)),
                sum(self.counts@) <= u64::MAX,
            decreases self.counts@.len() - i,
        {
            proof {
                assert(self.counts@.subrange(0, i + 1).drop_last() =~= self.counts@.subrange(
                    0,
                    i as int,
                ));
                lemma_sum_prefix_le(self.counts@, i + 1);
            }
            t = t + self.counts[i];
            i = i + 1;
        }
        assert(self.counts@.subrange(0, self.counts@.len() as int) =~= self.counts@);
        t
    }
}

/// The counters of a histogram add up to the number of samples inserted
/// since it was made or last reset, and each counter holds exactly the
/// samples that land in its bin.
pub proof fn lemma_counts_match_samples(h: &Histogram)
    requires
        h.wf(),
    ensures
        strictly_increasing(h.bounds_view()),
        sum(h.counts_view()) == h.samples().len(),
        h.counts_view().len() == h.bounds_view().len() + 1,
        forall|k: int|
            0 <= k < h.counts_view().len() ==> #[trigger] h.counts_view()[k] == tally(
                h.bounds_view(),
                h.samples(),
                k,
            ),
{
}

} // verus!
