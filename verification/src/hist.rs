//! A histogram of numbers, for the median and the high percentiles.

use vstd::prelude::*;

verus! {

/// A histogram: how often each number was recorded.
pub struct Histogram {
    inner: Vec<(u64, usize)>,
    total: usize,
}

/// What a histogram says of the numbers that were recorded.
#[derive(Clone, Copy, Debug, PartialEq, Eq, Structural)]
pub struct Stats {
    /// How many numbers were recorded.
    pub total: usize,
    /// The median.
    pub median: u64,
    /// The number that nine in ten lie at or below.
    pub p90: u64,
    /// The number that 99 in a hundred lie at or below.
    pub p99: u64,
    /// The number that 999 in a thousand lie at or below.
    pub p999: u64,
}

/// How often the first `n` of the numbers were recorded, taken together.
pub open spec fn count_up_to(buckets: Seq<(u64, usize)>, n: int) -> int
    decreases n,
{
    if n <= 0 {
        0
    } else {
        count_up_to(buckets, n - 1) + buckets[n - 1].1
    }
}

/// Each number is larger than the one before it.
pub open spec fn numbers_ascend(buckets: Seq<(u64, usize)>) -> bool {
    forall|i: int, j: int| 0 <= i < j < buckets.len() ==> buckets[i].0 < buckets[j].0
}

/// Whether `number` is the smallest of the numbers such that more than
/// `threshold` of what was recorded lies at or below it.
pub open spec fn is_first_above(buckets: Seq<(u64, usize)>, threshold: int, number: u64) -> bool {
    exists|k: int|
        {
            &&& 0 <= k < buckets.len()
            &&& #[trigger] buckets[k].0 == number
            &&& count_up_to(buckets, k) <= threshold < count_up_to(buckets, k + 1)
        }
}

/// The buckets after `key` was recorded once more.
pub open spec fn recorded(buckets: Seq<(u64, usize)>, key: u64, at: int) -> Seq<(u64, usize)> {
    if at < buckets.len() && buckets[at].0 == key {
        buckets.update(at, (key, (buckets[at].1 + 1) as usize))
    } else {
        buckets.insert(at, (key, 1usize))
    }
}

/// The number of buckets whose number is smaller than `key`.
pub open spec fn place_of(buckets: Seq<(u64, usize)>, key: u64) -> int
    decreases buckets.len(),
{
    if buckets.len() == 0 {
        0
    } else if buckets.last().0 < key {
        place_of(buckets.drop_last(), key) + 1
    } else {
        place_of(buckets.drop_last(), key)
    }
}

/// In numbers that ascend, the place where they stop being smaller than
/// `key` is the place of `key`.
pub proof fn lemma_place_of(buckets: Seq<(u64, usize)>, key: u64, p: int)
    requires
        0 <= p <= buckets.len(),
        forall|i: int| 0 <= i < p ==> (#[trigger] buckets[i]).0 < key,
        forall|i: int| p <= i < buckets.len() ==> (#[trigger] buckets[i]).0 >= key,
    ensures
        place_of(buckets, key) == p,
    decreases buckets.len(),
{
    if buckets.len() > 0 {
        let rest = buckets.drop_last();
        assert(buckets.last() == buckets[buckets.len() - 1]);
        if p == buckets.len() {
            assert forall|i: int| 0 <= i < p - 1 implies (#[trigger] rest[i]).0 < key by {
                assert(rest[i] == buckets[i]);
            }
            lemma_place_of(rest, key, p - 1);
        } else {
            assert forall|i: int| 0 <= i < p implies (#[trigger] rest[i]).0 < key by {
                assert(rest[i] == buckets[i]);
            }
            assert forall|i: int| p <= i < rest.len() implies (#[trigger] rest[i]).0 >= key by {
                assert(rest[i] == buckets[i]);
            }
            lemma_place_of(rest, key, p);
        }
    }
}

/// Counting up to a place does not look at what stands at or behind it.
pub proof fn lemma_count_ignores_the_rest(a: Seq<(u64, usize)>, b: Seq<(u64, usize)>, n: int)
    requires
        n <= a.len(),
        n <= b.len(),
        forall|i: int| 0 <= i < n ==> a[i] == b[i],
    ensures
        count_up_to(a, n) == count_up_to(b, n),
    decreases n,
{
    if n > 0 {
        lemma_count_ignores_the_rest(a, b, n - 1);
    }
}

/// Counting a number once more adds one to every count that reaches it.
pub proof fn lemma_counted_once_more(buckets: Seq<(u64, usize)>, at: int, n: int)
    requires
        0 <= at < buckets.len(),
        0 <= n <= buckets.len(),
        buckets[at].1 < usize::MAX,
    ensures
        count_up_to(buckets.update(at, (buckets[at].0, (buckets[at].1 + 1) as usize)), n)
            == count_up_to(buckets, n) + if n > at {
            1int
        } else {
            0int
        },
    decreases n,
{
    if n > 0 {
        lemma_counted_once_more(buckets, at, n - 1);
    }
}

/// A new number that was recorded once adds one to every count that
/// reaches it.
pub proof fn lemma_new_number_counts(buckets: Seq<(u64, usize)>, key: u64, at: int, n: int)
    requires
        0 <= at <= n <= buckets.len(),
    ensures
        count_up_to(buckets.insert(at, (key, 1usize)), n + 1) == count_up_to(buckets, n) + 1,
    decreases n,
{
    let after = buckets.insert(at, (key, 1usize));
    if n > at {
        lemma_new_number_counts(buckets, key, at, n - 1);
        assert(after[n] == buckets[n - 1]);
    } else {
        lemma_count_ignores_the_rest(after, buckets, n);
        assert(after[n] == (key, 1usize));
    }
}

/// A higher threshold is passed at the same number or at a larger one: the
/// percentiles come in their order.
pub proof fn lemma_thresholds_ascend(
    buckets: Seq<(u64, usize)>,
    lower: int,
    higher: int,
    first: u64,
    second: u64,
)
    requires
        numbers_ascend(buckets),
        lower <= higher,
        is_first_above(buckets, lower, first),
        is_first_above(buckets, higher, second),
    ensures
        first <= second,
{
    let k = choose|k: int|
        {
            &&& 0 <= k < buckets.len()
            &&& #[trigger] buckets[k].0 == first
            &&& count_up_to(buckets, k) <= lower < count_up_to(buckets, k + 1)
        };
    let m = choose|m: int|
        {
            &&& 0 <= m < buckets.len()
            &&& #[trigger] buckets[m].0 == second
            &&& count_up_to(buckets, m) <= higher < count_up_to(buckets, m + 1)
        };
    if m < k {
        lemma_count_bounds(buckets, m + 1, k);
    }
}

impl View for Histogram {
    type V = Seq<(u64, usize)>;

    closed spec fn view(&self) -> Seq<(u64, usize)> {
        self.inner@
    }
}

impl Histogram {
    /// What holds of every histogram that the functions below hand out.
    pub closed spec fn wf(&self) -> bool {
        &&& numbers_ascend(self@)
        &&& self.total == count_up_to(self@, self@.len() as int)
        &&& forall|i: int| 0 <= i < self@.len() ==> (#[trigger] self@[i]).1 > 0
    }

    /// How many numbers were recorded.
    pub closed spec fn total(&self) -> int {
        self.total as int
    }

    /// The numbers of a histogram ascend, each was recorded at least once,
    /// and the counts of all add up to the total.
    pub proof fn lemma_wf(&self)
        requires
            self.wf(),
        ensures
            numbers_ascend(self@),
            forall|i: int| 0 <= i < self@.len() ==> (#[trigger] self@[i]).1 > 0,
            self.total() == count_up_to(self@, self@.len() as int),
    {
    }

    /// A histogram without numbers.
    pub fn new() -> (histogram: Self)
        ensures
            histogram.wf(),
            histogram@ == Seq::<(u64, usize)>::empty(),
            histogram.total() == 0,
    {
        Histogram { inner: Vec::new(), total: 0 }
    }

    /// Records a number. A histogram that has counted as far as it can
    /// stays as it is.
    pub fn record(&mut self, key: u64)
        requires
            old(self).wf(),
        ensures
            final(self).wf(),
            old(self).total() < usize::MAX ==> final(self)@ == recorded(
                old(self)@,
                key,
                place_of(old(self)@, key),
            ) && final(self).total() == old(self).total() + 1,
            old(self).total() >= usize::MAX ==> final(self)@ == old(self)@ && final(self).total()
                == old(self).total(),
    {
        if self.total == usize::MAX {
            return ;
        }
        let mut lo: usize = 0;
        let mut hi: usize = self.inner.len();
        while lo < hi
            invariant
                lo <= hi <= self@.len(),
                numbers_ascend(self@),
                forall|i: int| 0 <= i < lo ==> (#[trigger] self@[i]).0 < key,
                forall|i: int| hi <= i < self@.len() ==> (#[trigger] self@[i]).0 >= key,
            decreases hi - lo,
        {
            let mid: usize = lo + (hi - lo) / 2;
            if self.inner[mid].0 < key {
                assert forall|i: int| 0 <= i < mid + 1 implies (#[trigger] self@[i]).0 < key by {
                    if i < mid {
                        assert(self@[i].0 < self@[mid as int].0);
                    }
                }
                lo = mid + 1;
            } else {
                assert forall|i: int| mid <= i < self@.len() implies (#[trigger] self@[i]).0
                    >= key by {
                    if i > mid {
                        assert(self@[mid as int].0 < self@[i].0);
                    }
                }
                hi = mid;
            }
        }
        proof {
            lemma_place_of(self@, key, lo as int);
            lemma_count_bounds(self@, lo as int, self@.len() as int);
            if lo < self@.len() {
                lemma_count_bounds(self@, lo + 1, self@.len() as int);
            }
            if lo < self@.len() && self@[lo as int].0 == key {
                lemma_counted_once_more(self@, lo as int, self@.len() as int);
            } else {
                lemma_new_number_counts(self@, key, lo as int, self@.len() as int);
            }
        }
        if lo < self.inner.len() && self.inner[lo].0 == key {
            let count: usize = self.inner[lo].1;
            self.inner[lo] = (key, count + 1);
        } else {
            self.inner.insert(lo, (key, 1));
            proof {
                let after = self@;
                assert forall|i: int, j: int| 0 <= i < j < after.len() implies after[i].0
                    < after[j].0 by {
                    if i < lo && j > lo {
                        assert(after[i] == old(self)@[i]);
                        assert(after[j] == old(self)@[j - 1]);
                    } else if i < lo && j < lo {
                        assert(after[i] == old(self)@[i] && after[j] == old(self)@[j]);
                    } else if i > lo {
                        assert(after[i] == old(self)@[i - 1] && after[j] == old(self)@[j - 1]);
                    } else if i == lo {
                        assert(after[j] == old(self)@[j - 1]);
                        assert(old(self)@[j - 1].0 >= key);
                        assert(old(self)@[j - 1].0 != key) by {
                            if j - 1 > lo {
                                assert(old(self)@[lo as int].0 < old(self)@[j - 1].0);
                            }
                        }
                    }
                }
            }
        }
        self.total = self.total + 1;
    }

    /// The median and the high percentiles of the numbers that were
    /// recorded; none where none was recorded.
    pub fn stats(&self) -> (stats: Option<Stats>)
        requires
            self.wf(),
        ensures
            match stats {
                None => self.total() == 0,
                Some(stats) => {
                    &&& self.total() > 0
                    &&& stats.total == self.total()
                    &&& is_first_above(self@, self.total() / 2, stats.median)
                    &&& is_first_above(self@, self.total() * 90 / 100, stats.p90)
                    &&& is_first_above(self@, self.total() * 99 / 100, stats.p99)
                    &&& is_first_above(self@, self.total() * 999 / 1000, stats.p999)
                    &&& stats.median <= stats.p90 <= stats.p99 <= stats.p999
                },
            },
    {
        let total: usize = self.total;
        if total == 0 {
            return None;
        }
        let wide: u128 = total as u128;
        let median = self.first_above((wide / 2) as usize);
        let p90 = self.first_above((wide * 90 / 100) as usize);
        let p99 = self.first_above((wide * 99 / 100) as usize);
        let p999 = self.first_above((wide * 999 / 1000) as usize);
        proof {
            let n = self.total();
            lemma_thresholds_ascend(self@, n / 2, n * 90 / 100, median, p90);
            lemma_thresholds_ascend(self@, n * 90 / 100, n * 99 / 100, p90, p99);
            lemma_thresholds_ascend(self@, n * 99 / 100, n * 999 / 1000, p99, p999);
        }
        Some(Stats { total, median, p90, p99, p999 })
    }

    /// The smallest of the numbers such that more than `threshold` of what
    /// was recorded lies at or below it.
    fn first_above(&self, threshold: usize) -> (number: u64)
        requires
            self.wf(),
            threshold < self.total(),
        ensures
            is_first_above(self@, threshold as int, number),
    {
        let mut sum: usize = 0;
        let mut i: usize = 0;
        proof {
            lemma_count_bounds(self@, 0, self@.len() as int);
        }
        while i < self.inner.len()
            invariant
                i <= self@.len(),
                sum == count_up_to(self@, i as int),
                sum <= threshold,
                threshold < self.total(),
                self.total() == count_up_to(self@, self@.len() as int),
            decreases self@.len() - i,
        {
            proof {
                lemma_count_bounds(self@, i + 1, self@.len() as int);
            }
            let next: usize = sum + self.inner[i].1;
            if next > threshold {
                assert(self@[i as int].0 == self.inner@[i as int].0);
                return self.inner[i].0;
            }
            sum = next;
            i = i + 1;
        }
        // The counts add up to more than the threshold, so the loop has
        // returned before it ends.
        assert(false);
        0
    }
}

/// A count up to a place is at most the count up to a later place.
pub proof fn lemma_count_bounds(buckets: Seq<(u64, usize)>, n: int, m: int)
    requires
        0 <= n <= m <= buckets.len(),
    ensures
        0 <= count_up_to(buckets, n) <= count_up_to(buckets, m),
    decreases m,
{
    if n < m {
        lemma_count_bounds(buckets, n, m - 1);
    } else if n > 0 {
        lemma_count_bounds(buckets, n - 1, n - 1);
    }
}

} // verus!
