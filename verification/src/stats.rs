//! Frame statistics: histogram merging and percentile summaries.
//!
//! A histogram is a sequence of buckets, each a value interval with a
//! sample count. Histograms gathered separately (one per run, or one
//! per worker) are merged by sorting each by bucket lower bound and
//! adding counts rank by rank; a percentile — in per-mille, so `950`
//! asks for the 95th percentile — is the upper bound of the first
//! bucket at which the running count reaches the requested share of the
//! total. The comparison `running * 1000 >= total * pct` is exact, so
//! no rounding is involved anywhere.

use vstd::prelude::*;

use vstd::assert_multisets_equal;

verus! {

#[derive(Clone, Copy, PartialEq, Eq, Structural, Debug)]
pub struct Bucket {
    /// Lower bound of the interval, inclusive.
    pub min: i64,
    /// Upper bound of the interval.
    pub max: i64,
    /// Number of samples that fell into the interval.
    pub count: u64,
}

#[derive(Clone, Debug)]
pub struct Histogram {
    pub buckets: Vec<Bucket>,
}

/// Buckets ordered by lower bound.
pub open spec fn sorted_by_min(s: Seq<Bucket>) -> bool {
    forall|a: int, b: int| 0 <= a < b < s.len() ==> #[trigger] s[a].min <= #[trigger] s[b].min
}

/// Sum of the counts of the first `m` buckets.
pub open spec fn count_prefix(s: Seq<Bucket>, m: int) -> int
    decreases m,
{
    if m <= 0 {
        0
    } else {
        count_prefix(s, m - 1) + s[m - 1].count
    }
}

/// The counts of `b` added rank by rank onto `a`; ranks past the end
/// of `b` keep `a`'s bucket unchanged.
pub open spec fn merged_counts(a: Seq<Bucket>, b: Seq<Bucket>) -> Seq<Bucket> {
    Seq::new(
        a.len(),
        |i: int|
            if i < b.len() {
                Bucket { min: a[i].min, max: a[i].max, count: (a[i].count + b[i].count) as u64 }
            } else {
                a[i]
            },
    )
}

/// The percentile scan from rank `i` on: the `max` of the first bucket
/// whose running count reaches `pct` per-mille of the total, the last
/// bucket's `max` if none does.
pub open spec fn pctl_from(s: Seq<Bucket>, pct: int, i: int) -> int
    decreases s.len() - i,
{
    if i < 0 || i >= s.len() {
        0
    } else if count_prefix(s, i + 1) * 1000 >= count_prefix(s, s.len() as int) * pct || i
        == s.len() - 1 {
        s[i].max as int
    } else {
        pctl_from(s, pct, i + 1)
    }
}

/// The value reported for percentile `pct` (per-mille) of `s`.
pub open spec fn percentile_value(s: Seq<Bucket>, pct: int) -> int {
    pctl_from(s, pct, 0)
}

/// A prefix sum reads only the first `m` elements.
proof fn lemma_count_prefix_congruent(s1: Seq<Bucket>, s2: Seq<Bucket>, m: int)
    requires
        m <= s1.len(),
        m <= s2.len(),
        forall|j: int| 0 <= j < m ==> s1[j] == s2[j],
    ensures
        count_prefix(s1, m) == count_prefix(s2, m),
    decreases m,
{
    if m > 0 {
        lemma_count_prefix_congruent(s1, s2, m - 1);
    }
}

/// Removing one bucket removes exactly its count from the total.
proof fn lemma_count_remove(s: Seq<Bucket>, i: int)
    requires
        0 <= i < s.len(),
    ensures
        count_prefix(s, s.len() as int) == count_prefix(s.remove(i), s.len() - 1) + s[i].count,
    decreases s.len(),
{
    let n = s.len() as int;
    if i == n - 1 {
        lemma_count_prefix_congruent(s, s.remove(i), n - 1);
    } else {
        let t = s.take(n - 1);
        lemma_count_remove(t, i);
        lemma_count_prefix_congruent(s, t, n - 1);
        assert(t.remove(i) =~= s.remove(i).take(n - 2));
        lemma_count_prefix_congruent(s.remove(i), t.remove(i), n - 2);
        assert(s.remove(i)[n - 2] == s[n - 1]);
    }
}

/// Two sequences holding the same buckets hold the same total count.
proof fn lemma_count_total_permutation(s1: Seq<Bucket>, s2: Seq<Bucket>)
    requires
        s1.to_multiset() == s2.to_multiset(),
    ensures
        count_prefix(s1, s1.len() as int) == count_prefix(s2, s2.len() as int),
    decreases s1.len(),
{
    broadcast use vstd::seq_lib::group_to_multiset_ensures;

    if s1.len() == 0 {
        assert(s2.to_multiset().len() == 0);
    } else {
        let n1 = s1.len() as int;
        let x = s1[n1 - 1];
        assert(s1.to_multiset().count(x) > 0);
        assert(s2.contains(x));
        let i = choose|i: int| 0 <= i < s2.len() && s2[i] == x;
        let r1 = s1.remove(n1 - 1);
        let r2 = s2.remove(i);
        assert(r1.to_multiset() =~= r2.to_multiset()) by {
            assert(r1.to_multiset() == s1.to_multiset().remove(x));
            assert(r2.to_multiset() == s2.to_multiset().remove(x));
        }
        lemma_count_total_permutation(r1, r2);
        lemma_count_remove(s1, n1 - 1);
        lemma_count_remove(s2, i);
    }
}

impl Histogram {
    pub fn new() -> (r: Histogram)
        ensures
            r.buckets@.len() == 0,
    {
        Histogram { buckets: Vec::new() }
    }

    /// Sort the buckets by lower bound (selection sort — the population
    /// of buckets is tiny). Keeps exactly the same buckets, and
    /// therefore the same total count.
    pub fn sort_buckets(&mut self)
        ensures
            final(self).buckets@.len() == old(self).buckets@.len(),
            final(self).buckets@.to_multiset() == old(self).buckets@.to_multiset(),
            sorted_by_min(final(self).buckets@),
            count_prefix(final(self).buckets@, final(self).buckets@.len() as int) == count_prefix(
                old(self).buckets@,
                old(self).buckets@.len() as int,
            ),
    {
        broadcast use vstd::seq_lib::group_to_multiset_ensures;

        let ghost orig = self.buckets@;
        let mut work: Vec<Bucket> = Vec::new();
        core::mem::swap(&mut work, &mut self.buckets);
        let mut out: Vec<Bucket> = Vec::new();
        while work.len() > 0
            invariant
                out@.to_multiset().add(work@.to_multiset()) == orig.to_multiset(),
                out@.len() + work@.len() == orig.len(),
                sorted_by_min(out@),
                forall|a: int, b: int|
                    0 <= a < out@.len() && 0 <= b < work@.len() ==> #[trigger] out@[a].min
                        <= #[trigger] work@[b].min,
            decreases work@.len(),
        {
            let mut m: usize = 0;
            let mut idx: usize = 1;
            while idx < work.len()
                invariant
                    m < idx <= work@.len(),
                    work@.len() > 0,
                    forall|b: int| 0 <= b < idx ==> work@[m as int].min <= #[trigger] work@[b].min,
                decreases work@.len() - idx,
            {
                if work[idx].min < work[m].min {
                    m = idx;
                }
                idx = idx + 1;
            }
            let ghost old_work = work@;
            let ghost old_out = out@;
            let picked: Bucket = work.remove(m);
            out.push(picked);
            proof {
                broadcast use vstd::seq_lib::group_to_multiset_ensures;
                broadcast use vstd::multiset::group_multiset_axioms;

                assert(picked == old_work[m as int]);
                assert(old_work.to_multiset().count(picked) > 0) by {
                    assert(old_work.contains(picked));
                }
                assert(old_work.remove(m as int).to_multiset() == old_work.to_multiset().remove(
                    old_work[m as int],
                ));
                assert(old_out.push(picked).to_multiset() == old_out.to_multiset().insert(picked));
                assert(work@.to_multiset() == old_work.to_multiset().remove(picked));
                assert(out@.to_multiset() == old_out.to_multiset().insert(picked));
                assert_multisets_equal!(
                    out@.to_multiset().add(work@.to_multiset()),
                    orig.to_multiset()
                );
            }
        }
        core::mem::swap(&mut out, &mut self.buckets);
        proof {
            assert(self.buckets@.to_multiset() =~= orig.to_multiset()) by {
                assert(work@.to_multiset().len() == 0);
            }
            lemma_count_total_permutation(self.buckets@, orig);
        }
    }

    /// Add the counts of `other` onto this histogram, rank by rank;
    /// bucket bounds are kept as they are.
    pub fn merge_with(&mut self, other: &Histogram)
        requires
            other.buckets@.len() <= old(self).buckets@.len(),
            forall|i: int|
                0 <= i < other.buckets@.len() ==> old(self).buckets@[i].count
                    + #[trigger] other.buckets@[i].count <= u64::MAX,
        ensures
            final(self).buckets@ == merged_counts(old(self).buckets@, other.buckets@),
    {
        let n: usize = other.buckets.len();
        let mut i: usize = 0;
        while i < n
            invariant
                n == other.buckets@.len(),
                n <= self.buckets@.len(),
                self.buckets@.len() == old(self).buckets@.len(),
                i <= n,
                forall|q: int|
                    0 <= q < n ==> old(self).buckets@[q].count + #[trigger] other.buckets@[q].count
                        <= u64::MAX,
                forall|q: int|
                    i <= q < self.buckets@.len() ==> #[trigger] self.buckets@[q] == old(
                        self,
                    ).buckets@[q],
                forall|q: int|
                    0 <= q < i ==> #[trigger] self.buckets@[q] == merged_counts(
                        old(self).buckets@,
                        other.buckets@,
                    )[q],
            decreases n - i,
        {
            let b: Bucket = self.buckets[i];
            let add: u64 = other.buckets[i].count;
            self.buckets[i] = Bucket { min: b.min, max: b.max, count: b.count + add };
            i = i + 1;
        }
        proof {
            assert(self.buckets@ =~= merged_counts(old(self).buckets@, other.buckets@));
        }
    }
}

/// Copy a bucket vector (buckets are plain values).
fn copy_buckets(src: &Vec<Bucket>) -> (r: Vec<Bucket>)
    ensures
        r@ == src@,
{
    let mut out: Vec<Bucket> = Vec::new();
    let mut i: usize = 0;
    while i < src.len()
        invariant
            i <= src@.len(),
            out@.len() == i,
            forall|q: int| 0 <= q < i ==> #[trigger] out@[q] == src@[q],
        decreases src@.len() - i,
    {
        out.push(src[i]);
        i = i + 1;
    }
    proof {
        assert(out@ =~= src@);
    }
    out
}

/// Grand total of the counts of histograms `0 .. m`.
pub open spec fn grand_total(hs: Seq<Histogram>, m: int) -> int
    decreases m,
{
    if m <= 0 {
        0
    } else {
        grand_total(hs, m - 1) + count_prefix(hs[m - 1].buckets@, hs[m - 1].buckets@.len() as int)
    }
}

/// Merge histograms over identical bucket layouts: sort each by lower
/// bound and add counts rank by rank. The result is sorted, holds the
/// first histogram's bucket bounds, and its total count is the grand
/// total of all inputs — no sample is lost or invented.
pub fn merge_histograms(histograms: Vec<Histogram>) -> (r: Histogram)
    requires
        forall|i: int|
            0 <= i < histograms@.len() ==> #[trigger] histograms@[i].buckets@.len()
                == histograms@[0].buckets@.len(),
        forall|i: int, q: int|
            0 <= i < histograms@.len() && 0 <= q < histograms@[i].buckets@.len()
                ==> #[trigger] histograms@[i].buckets@[q].count <= 0xffff_ffff,
        histograms@.len() <= 0xffff_ffff,
    ensures
        histograms@.len() == 0 ==> r.buckets@.len() == 0,
        histograms@.len() > 0 ==> r.buckets@.len() == histograms@[0].buckets@.len()
            && sorted_by_min(r.buckets@) && count_prefix(r.buckets@, r.buckets@.len() as int)
            == grand_total(histograms@, histograms@.len() as int),
{
    if histograms.len() == 0 {
        return Histogram::new();
    }
    let mut result = Histogram { buckets: copy_buckets(&histograms[0].buckets) };
    result.sort_buckets();
    proof {
        lemma_count_bound(result.buckets@, histograms@[0].buckets@);
        assert(result.buckets@.len() == histograms@[0].buckets@.len());
        assert(grand_total(histograms@, 0) == 0);
        assert(grand_total(histograms@, 1) == count_prefix(
            histograms@[0].buckets@,
            histograms@[0].buckets@.len() as int,
        ));
    }
    let n: usize = histograms.len();
    let mut i: usize = 1;
    while i < n
        invariant
            n == histograms@.len(),
            0 < n <= 0xffff_ffff,
            1 <= i <= n,
            forall|q: int|
                0 <= q < n ==> #[trigger] histograms@[q].buckets@.len()
                    == histograms@[0].buckets@.len(),
            forall|q: int, b: int|
                0 <= q < n && 0 <= b < histograms@[q].buckets@.len()
                    ==> #[trigger] histograms@[q].buckets@[b].count <= 0xffff_ffff,
            result.buckets@.len() == histograms@[0].buckets@.len(),
            sorted_by_min(result.buckets@),
            count_prefix(result.buckets@, result.buckets@.len() as int) == grand_total(
                histograms@,
                i as int,
            ),
            forall|b: int|
                0 <= b < result.buckets@.len() ==> #[trigger] result.buckets@[b].count <= (i as int)
                    * 0xffff_ffff,
        decreases n - i,
    {
        let mut sorted_other = Histogram { buckets: copy_buckets(&histograms[i].buckets) };
        sorted_other.sort_buckets();
        proof {
            lemma_count_bound(sorted_other.buckets@, histograms@[i as int].buckets@);
            assert forall|q: int| 0 <= q < sorted_other.buckets@.len() implies result.buckets@[q].count
                + #[trigger] sorted_other.buckets@[q].count <= u64::MAX by {
                assert((i as int) * 0xffff_ffff + 0xffff_ffff <= 0xffff_ffff * 0xffff_ffff
                    + 0xffff_ffff) by (nonlinear_arith)
                    requires
                        1 <= i as int <= 0xffff_ffff,
                ;
            }
            lemma_merge_preserves(result.buckets@, sorted_other.buckets@);
        }
        result.merge_with(&sorted_other);
        i = i + 1;
    }
    result
}

/// Merging adds the totals, and keeps the bounds and the order.
proof fn lemma_merge_preserves(a: Seq<Bucket>, b: Seq<Bucket>)
    requires
        b.len() <= a.len(),
        forall|i: int| 0 <= i < b.len() ==> a[i].count + #[trigger] b[i].count <= u64::MAX,
    ensures
        merged_counts(a, b).len() == a.len(),
        forall|q: int|
            0 <= q < a.len() ==> #[trigger] merged_counts(a, b)[q].min == a[q].min && merged_counts(
                a,
                b,
            )[q].max == a[q].max,
        count_prefix(merged_counts(a, b), a.len() as int) == count_prefix(a, a.len() as int)
            + count_prefix(b, b.len() as int),
{
    lemma_merge_counts_prefix(a, b, a.len() as int);
}

/// Prefix form of the total-addition fact, for induction.
proof fn lemma_merge_counts_prefix(a: Seq<Bucket>, b: Seq<Bucket>, m: int)
    requires
        b.len() <= a.len(),
        m <= a.len(),
        forall|i: int| 0 <= i < b.len() ==> a[i].count + #[trigger] b[i].count <= u64::MAX,
    ensures
        count_prefix(merged_counts(a, b), m) == count_prefix(a, m) + count_prefix(
            b,
            if m <= b.len() {
                m
            } else {
                b.len() as int
            },
        ),
    decreases m,
{
    if m > 0 {
        lemma_merge_counts_prefix(a, b, m - 1);
    }
}

/// A sorted permutation keeps every count below the same bound.
proof fn lemma_count_bound(sorted: Seq<Bucket>, orig: Seq<Bucket>)
    requires
        sorted.to_multiset() == orig.to_multiset(),
        forall|q: int| 0 <= q < orig.len() ==> #[trigger] orig[q].count <= 0xffff_ffff,
    ensures
        forall|q: int| 0 <= q < sorted.len() ==> #[trigger] sorted[q].count <= 0xffff_ffff,
{
    broadcast use vstd::seq_lib::group_to_multiset_ensures;

    assert forall|q: int| 0 <= q < sorted.len() implies #[trigger] sorted[q].count
        <= 0xffff_ffff by {
        assert(sorted.to_multiset().count(sorted[q]) > 0);
        assert(orig.contains(sorted[q]));
    }
}

/// The percentile of a histogram, `pct` in per-mille: the `max` of the
/// first bucket whose running count reaches `pct` per-mille of the
/// total, the last bucket's `max` if none does.
pub fn calculate_percentile(histogram: &Histogram, pct: u32) -> (r: i64)
    requires
        histogram.buckets@.len() > 0,
        pct <= 1000,
        count_prefix(histogram.buckets@, histogram.buckets@.len() as int) <= u64::MAX,
    ensures
        r == percentile_value(histogram.buckets@, pct as int),
{
    let ghost s = histogram.buckets@;
    let n: usize = histogram.buckets.len();
    let mut total: u128 = 0;
    let mut j: usize = 0;
    while j < n
        invariant
            n == s.len(),
            s == histogram.buckets@,
            count_prefix(s, n as int) <= u64::MAX,
            j <= n,
            total == count_prefix(s, j as int),
            total <= u64::MAX || j < n,
        decreases n - j,
    {
        proof {
            lemma_count_prefix_mono(s, j as int + 1, n as int);
        }
        total = total + histogram.buckets[j].count as u128;
        j = j + 1;
    }
    proof {
        assert(total * (pct as u128) <= 0xffff_ffff_ffff_ffff_ffff) by (nonlinear_arith)
            requires
                0 <= total <= u64::MAX,
                0 <= pct <= 1000,
        ;
    }
    let target: u128 = total * (pct as u128);
    let mut current: u128 = 0;
    let mut i: usize = 0;
    loop
        invariant
            n == s.len(),
            s == histogram.buckets@,
            n > 0,
            pct <= 1000,
            count_prefix(s, n as int) <= u64::MAX,
            total == count_prefix(s, n as int),
            target == total * pct,
            i < n,
            current == count_prefix(s, i as int),
            pctl_from(s, pct as int, 0) == pctl_from(s, pct as int, i as int),
        decreases n - i,
    {
        proof {
            lemma_count_prefix_mono(s, i as int + 1, n as int);
        }
        current = current + histogram.buckets[i].count as u128;
        if current * 1000 >= target || i == n - 1 {
            proof {
                assert(pctl_from(s, pct as int, i as int) == s[i as int].max);
            }
            return histogram.buckets[i].max;
        }
        i = i + 1;
    }
}

/// Prefix sums of counts grow with the prefix.
proof fn lemma_count_prefix_mono(s: Seq<Bucket>, m1: int, m2: int)
    requires
        0 <= m1 <= m2 <= s.len(),
    ensures
        count_prefix(s, m1) <= count_prefix(s, m2),
        count_prefix(s, m1) >= 0,
    decreases m2,
{
    if m2 > 0 {
        if m1 == m2 {
            lemma_count_prefix_mono(s, if m1 > 0 { m1 - 1 } else { 0 }, m2 - 1);
        } else {
            lemma_count_prefix_mono(s, m1, m2 - 1);
        }
    }
}

} // verus!
