//! Per-category counters with duration samples, and their order-independent
//! merge.
//!
//! Every job produces a small `Statistics` delta; the scheduler folds the
//! deltas of all jobs into one aggregate. Workers finish in no fixed order,
//! so the merge is commutative and associative up to the order of the
//! samples inside a category: the counts and the multiset of samples of the
//! fold do not depend on the order or grouping of the merges.

use vstd::prelude::*;
use vstd::arithmetic::mul::lemma_mul_inequality;

use crate::text::{
    spec_decimal, spec_fmt_duration, format_u128, fmt_duration,
};

verus! {

/// The mathematical value of one category: how many events were counted and
/// which duration samples (in milliseconds) were recorded for them.
#[verifier::ext_equal]
pub ghost struct ItemModel {
    pub count: int,
    pub times: Seq<u64>,
}

impl ItemModel {
    /// The category value with nothing counted.
    pub open spec fn empty() -> ItemModel {
        ItemModel { count: 0, times: Seq::empty() }
    }

    /// Merging two category values: counts add, samples concatenate.
    pub open spec fn merged(self, other: ItemModel) -> ItemModel {
        ItemModel { count: self.count + other.count, times: self.times + other.times }
    }

    /// Two category values that agree on the count and on the multiset of
    /// samples; merge results are only ever fixed up to this relation,
    /// because sample order depends on completion order.
    pub open spec fn equiv(self, other: ItemModel) -> bool {
        self.count == other.count && self.times.to_multiset() == other.times.to_multiset()
    }
}

/// The sum of a sequence of duration samples.
pub open spec fn spec_sum(s: Seq<u64>) -> int
    decreases s.len(),
{
    if s.len() == 0 {
        0
    } else {
        spec_sum(s.drop_last()) + s.last()
    }
}

/// A sum of samples is non-negative and bounded by the number of samples
/// times the largest possible sample.
pub proof fn lemma_sum_bound(s: Seq<u64>)
    ensures
        0 <= spec_sum(s) <= s.len() * 0xffff_ffff_ffff_ffff,
    decreases s.len(),
{
    if s.len() > 0 {
        lemma_sum_bound(s.drop_last());
    }
}

/// One statistics category: a count of events and the duration samples
/// recorded for them. Categories that count events without measuring them
/// grow the count alone, so the count can exceed the number of samples, but
/// never falls below it in any value this library produces.
#[derive(Debug)]
pub struct StatisticsItem {
    count: u64,
    times: Vec<u64>,
}

impl View for StatisticsItem {
    type V = ItemModel;

    closed spec fn view(&self) -> ItemModel {
        ItemModel { count: self.count as int, times: self.times@ }
    }
}

impl Default for StatisticsItem {
    /// An empty category.
    fn default() -> (s: Self)
        ensures
            s@ == ItemModel::empty(),
    {
        let s = StatisticsItem { count: 0, times: Vec::new() };
        proof {
            assert(s@ =~= ItemModel::empty());
        }
        s
    }
}

impl StatisticsItem {
    /// Counts one event and records how long it took.
    pub fn record(&mut self, time: u64)
        requires
            old(self)@.count < u64::MAX,
        ensures
            final(self)@ =~= (ItemModel {
                count: old(self)@.count + 1,
                times: old(self)@.times.push(time),
            }),
    {
        self.times.push(time);
        self.count = self.count + 1;
    }

    /// Counts one event without a duration sample.
    pub fn inc(&mut self)
        requires
            old(self)@.count < u64::MAX,
        ensures
            final(self)@ =~= (ItemModel { count: old(self)@.count + 1, times: old(self)@.times }),
    {
        self.count = self.count + 1;
    }

    /// How many events were counted.
    pub fn count(&self) -> (r: u64)
        ensures
            r == self@.count,
    {
        self.count
    }

    /// A copy of the recorded duration samples, in recording order.
    pub fn samples(&self) -> (v: Vec<u64>)
        ensures
            v@ == self@.times,
    {
        let n = self.times.len();
        let mut v: Vec<u64> = Vec::new();
        let mut i: usize = 0;
        while i < n
            invariant
                n == self.times@.len(),
                i <= n,
                v@ =~= self.times@.take(i as int),
            decreases n - i,
        {
            v.push(self.times[i]);
            proof {
                assert(self.times@.take(i + 1) =~= self.times@.take(i as int).push(
                    self.times@[i as int],
                ));
            }
            i += 1;
        }
        proof {
            assert(self.times@.take(n as int) =~= self.times@);
        }
        v
    }

    /// The sum of the recorded duration samples.
    pub fn time_total(&self) -> (r: u128)
        ensures
            r == spec_sum(self@.times),
    {
        let n = self.times.len();
        let mut acc: u128 = 0;
        let mut i: usize = 0;
        proof {
            assert(self.times@.take(0int) =~= Seq::<u64>::empty());
        }
        while i < n
            invariant
                n == self.times@.len(),
                i <= n,
                acc == spec_sum(self.times@.take(i as int)),
            decreases n - i,
        {
            proof {
                lemma_sum_bound(self.times@.take(i as int));
                assert(i as int + 1 <= 0xffff_ffff_ffff_ffffint);
                lemma_mul_inequality(
                    i as int,
                    0xffff_ffff_ffff_fffeint,
                    0xffff_ffff_ffff_ffffint,
                );
                assert(self.times@.take(i + 1).drop_last() =~= self.times@.take(i as int));
                assert(self.times@.take(i + 1).last() == self.times@[i as int]);
            }
            acc = acc + (self.times[i] as u128);
            i += 1;
        }
        proof {
            assert(self.times@.take(n as int) =~= self.times@);
        }
        acc
    }

    /// The mean duration sample; zero when nothing was recorded, so
    /// reporting never divides by zero.
    pub fn time_avg(&self) -> (r: u128)
        ensures
            r == (if self@.times.len() == 0 {
                0int
            } else {
                spec_sum(self@.times) / (self@.times.len() as int)
            }),
    {
        let n = self.times.len();
        if n == 0 {
            0
        } else {
            proof {
                lemma_sum_bound(self@.times);
            }
            let t = self.time_total();
            t / (n as u128)
        }
    }

    /// Folds another category value into this one: counts add, samples
    /// concatenate.
    pub fn extend(&mut self, other: &StatisticsItem)
        requires
            old(self)@.count + other@.count <= u64::MAX,
        ensures
            final(self)@ =~= old(self)@.merged(other@),
    {
        self.count = self.count + other.count;
        let n = other.times.len();
        let mut i: usize = 0;
        while i < n
            invariant
                n == other.times@.len(),
                i <= n,
                self.times@ =~= old(self).times@ + other.times@.take(i as int),
                self.count == old(self).count + other.count,
            decreases n - i,
        {
            self.times.push(other.times[i]);
            proof {
                assert(old(self).times@ + other.times@.take(i + 1) =~= (old(self).times@
                    + other.times@.take(i as int)).push(other.times@[i as int]));
            }
            i += 1;
        }
        proof {
            assert(other.times@.take(n as int) =~= other.times@);
        }
    }

    /// The one-line report of a category: count, summed time, mean time.
    pub open spec fn spec_summary(m: ItemModel) -> Seq<char> {
        spec_decimal(m.count) + " files in "@ + spec_fmt_duration(spec_sum(m.times)) + " (avg "@
            + spec_fmt_duration(
            if m.times.len() == 0 {
                0int
            } else {
                spec_sum(m.times) / m.times.len() as int
            },
        ) + " per file)"@
    }

    /// Renders the category's count, total time and mean time.
    pub fn summary(&self) -> (s: String)
        ensures
            s@ == Self::spec_summary(self@),
    {
        proof {
            reveal_strlit(" files in ");
            reveal_strlit(" (avg ");
            reveal_strlit(" per file)");
        }
        let mut s = format_u128(self.count as u128);
        s.append(" files in ");
        let total = fmt_duration(self.time_total());
        s.append(total.as_str());
        s.append(" (avg ");
        let avg = fmt_duration(self.time_avg());
        s.append(avg.as_str());
        s.append(" per file)");
        proof {
            assert(s@ =~= Self::spec_summary(self@));
        }
        s
    }

    /// The category report with the summed time divided by the worker
    /// count; the report applies it to the total category, whose divided
    /// sum approximates the wall-clock run time of a pooled run.
    pub open spec fn spec_summary_nthreads(m: ItemModel, nthreads: u32) -> Seq<char>
        recommends
            nthreads > 0,
    {
        spec_decimal(m.count) + " files in approx. "@ + spec_fmt_duration(
            spec_sum(m.times) / nthreads as int,
        ) + " (avg "@ + spec_fmt_duration(
            if m.times.len() == 0 {
                0int
            } else {
                spec_sum(m.times) / m.times.len() as int
            },
        ) + " per file)"@
    }

    /// Renders the category with its total divided by the worker count.
    pub fn summary_nthreads(&self, nthreads: u32) -> (s: String)
        requires
            nthreads > 0,
        ensures
            s@ == Self::spec_summary_nthreads(self@, nthreads),
    {
        proof {
            reveal_strlit(" files in approx. ");
            reveal_strlit(" (avg ");
            reveal_strlit(" per file)");
            lemma_sum_bound(self@.times);
        }
        let mut s = format_u128(self.count as u128);
        s.append(" files in approx. ");
        let total = fmt_duration(self.time_total() / (nthreads as u128));
        s.append(total.as_str());
        s.append(" (avg ");
        let avg = fmt_duration(self.time_avg());
        s.append(avg.as_str());
        s.append(" per file)");
        proof {
            assert(s@ =~= Self::spec_summary_nthreads(self@, nthreads));
        }
        s
    }
}

/// The mathematical value of a whole statistics record, one category value
/// per category.
#[verifier::ext_equal]
pub ghost struct StatsModel {
    pub encoded: ItemModel,
    pub decoded: ItemModel,
    pub copied: ItemModel,
    pub moved: ItemModel,
    pub ignored: ItemModel,
    pub errors: ItemModel,
    pub total: ItemModel,
}

impl StatsModel {
    /// The record with nothing counted anywhere.
    pub open spec fn empty() -> StatsModel {
        StatsModel {
            encoded: ItemModel::empty(),
            decoded: ItemModel::empty(),
            copied: ItemModel::empty(),
            moved: ItemModel::empty(),
            ignored: ItemModel::empty(),
            errors: ItemModel::empty(),
            total: ItemModel::empty(),
        }
    }

    /// Category-wise merge.
    pub open spec fn merged(self, other: StatsModel) -> StatsModel {
        StatsModel {
            encoded: self.encoded.merged(other.encoded),
            decoded: self.decoded.merged(other.decoded),
            copied: self.copied.merged(other.copied),
            moved: self.moved.merged(other.moved),
            ignored: self.ignored.merged(other.ignored),
            errors: self.errors.merged(other.errors),
            total: self.total.merged(other.total),
        }
    }

    /// Category-wise agreement on counts and sample multisets.
    pub open spec fn equiv(self, other: StatsModel) -> bool {
        &&& self.encoded.equiv(other.encoded)
        &&& self.decoded.equiv(other.decoded)
        &&& self.copied.equiv(other.copied)
        &&& self.moved.equiv(other.moved)
        &&& self.ignored.equiv(other.ignored)
        &&& self.errors.equiv(other.errors)
        &&& self.total.equiv(other.total)
    }

    /// Whether two records can be merged without any category count leaving
    /// the machine range.
    pub open spec fn can_merge(self, other: StatsModel) -> bool {
        &&& self.encoded.count + other.encoded.count <= u64::MAX
        &&& self.decoded.count + other.decoded.count <= u64::MAX
        &&& self.copied.count + other.copied.count <= u64::MAX
        &&& self.moved.count + other.moved.count <= u64::MAX
        &&& self.ignored.count + other.ignored.count <= u64::MAX
        &&& self.errors.count + other.errors.count <= u64::MAX
        &&& self.total.count + other.total.count <= u64::MAX
    }
}

/// The statistics of a run or of one job: per category, how often it
/// happened and how long each occurrence took.
#[derive(Debug)]
pub struct Statistics {
    pub encoded: StatisticsItem,
    pub decoded: StatisticsItem,
    pub copied: StatisticsItem,
    pub moved: StatisticsItem,
    pub ignored: StatisticsItem,
    pub errors: StatisticsItem,
    pub total: StatisticsItem,
}

impl View for Statistics {
    type V = StatsModel;

    open spec fn view(&self) -> StatsModel {
        StatsModel {
            encoded: self.encoded@,
            decoded: self.decoded@,
            copied: self.copied@,
            moved: self.moved@,
            ignored: self.ignored@,
            errors: self.errors@,
            total: self.total@,
        }
    }
}

impl Default for Statistics {
    /// A record with nothing counted.
    fn default() -> (s: Self)
        ensures
            s@ == StatsModel::empty(),
    {
        let s = Statistics {
            encoded: StatisticsItem::default(),
            decoded: StatisticsItem::default(),
            copied: StatisticsItem::default(),
            moved: StatisticsItem::default(),
            ignored: StatisticsItem::default(),
            errors: StatisticsItem::default(),
            total: StatisticsItem::default(),
        };
        proof {
            assert(s@ =~= StatsModel::empty());
        }
        s
    }
}

impl Statistics {
    /// Folds another record into this one, category by category.
    pub fn extend(&mut self, other: &Statistics)
        requires
            old(self)@.can_merge(other@),
        ensures
            final(self)@ =~= old(self)@.merged(other@),
    {
        self.total.extend(&other.total);
        self.decoded.extend(&other.decoded);
        self.encoded.extend(&other.encoded);
        self.copied.extend(&other.copied);
        self.moved.extend(&other.moved);
        self.errors.extend(&other.errors);
        self.ignored.extend(&other.ignored);
    }

    /// The full report: per category its count, summed time and mean time;
    /// the `total` line additionally has its summed duration divided by the
    /// worker count, to approximate the wall-clock run time of a pooled
    /// run.
    pub open spec fn spec_report(m: StatsModel, nthreads: u32) -> Seq<char>
        recommends
            nthreads > 0,
    {
        "Total "@ + StatisticsItem::spec_summary_nthreads(m.total, nthreads) + "\n"@ + "Decoded "@
            + StatisticsItem::spec_summary(m.decoded) + "\n"@ + "Encoded "@
            + StatisticsItem::spec_summary(m.encoded) + "\n"@ + "Copied "@
            + StatisticsItem::spec_summary(m.copied) + "\n"@ + "Moved "@
            + StatisticsItem::spec_summary(m.moved) + "\n"@ + "Ignored "@
            + StatisticsItem::spec_summary(m.ignored) + "\n"@ + "Encountered errors on "@
            + StatisticsItem::spec_summary(m.errors) + "\n"@
    }

    /// Renders the run's totals, one line per category.
    pub fn report_nthreads(&self, nthreads: u32) -> (s: String)
        requires
            nthreads > 0,
        ensures
            s@ == Self::spec_report(self@, nthreads),
    {
        proof {
            reveal_strlit("Total ");
            reveal_strlit("Decoded ");
            reveal_strlit("Encoded ");
            reveal_strlit("Copied ");
            reveal_strlit("Moved ");
            reveal_strlit("Ignored ");
            reveal_strlit("Encountered errors on ");
            reveal_strlit("\n");
        }
        let mut s = String::new();
        s.append("Total ");
        let part = self.total.summary_nthreads(nthreads);
        s.append(part.as_str());
        s.append("\n");
        s.append("Decoded ");
        let part = self.decoded.summary();
        s.append(part.as_str());
        s.append("\n");
        s.append("Encoded ");
        let part = self.encoded.summary();
        s.append(part.as_str());
        s.append("\n");
        s.append("Copied ");
        let part = self.copied.summary();
        s.append(part.as_str());
        s.append("\n");
        s.append("Moved ");
        let part = self.moved.summary();
        s.append(part.as_str());
        s.append("\n");
        s.append("Ignored ");
        let part = self.ignored.summary();
        s.append(part.as_str());
        s.append("\n");
        s.append("Encountered errors on ");
        let part = self.errors.summary();
        s.append(part.as_str());
        s.append("\n");
        proof {
            assert(s@ =~= Self::spec_report(self@, nthreads));
        }
        s
    }
}

/// Whether a statistics record is a well-formed single-job delta: the total
/// category untouched, every sample belonging to a counted event, decode
/// and encode moving as a pair, and exactly one action category charged.
pub open spec fn job_delta_ok(m: StatsModel) -> bool {
    &&& m.total == ItemModel::empty()
    &&& m.decoded.count == m.decoded.times.len()
    &&& m.encoded.count == m.encoded.times.len()
    &&& m.copied.count == m.copied.times.len()
    &&& m.moved.count == m.moved.times.len()
    &&& m.ignored.count >= 0
    &&& m.errors.count >= 0
    &&& m.ignored.times.len() == 0
    &&& m.errors.times.len() == 0
    &&& m.encoded.count == m.decoded.count
    &&& m.decoded.count + m.copied.count + m.moved.count + m.ignored.count + m.errors.count == 1
}

/// The delta charged for a job that never reached its own conclusion: the
/// resolver refused a path for it, its metadata could not be read, or its
/// output directory could not be created.
pub open spec fn spec_error_delta() -> StatsModel {
    StatsModel { errors: ItemModel { count: 1, times: Seq::empty() }, ..StatsModel::empty() }
}

/// Decides at run time whether a record is a well-formed single-job delta,
/// so that unverified callers can check what they pass on.
pub fn is_job_delta(s: &Statistics) -> (r: bool)
    ensures
        r == job_delta_ok(s@),
{
    let one_action: bool = {
        let counted = s.decoded.count as u128 + s.copied.count as u128 + s.moved.count as u128
            + s.ignored.count as u128 + s.errors.count as u128;
        counted == 1
    };
    let r = s.total.count == 0 && s.total.times.len() == 0 && s.decoded.count as u128
        == s.decoded.times.len() as u128 && s.encoded.count as u128 == s.encoded.times.len() as u128
        && s.copied.count as u128 == s.copied.times.len() as u128 && s.moved.count as u128
        == s.moved.times.len() as u128 && s.ignored.times.len() == 0 && s.errors.times.len() == 0
        && s.encoded.count == s.decoded.count && one_action;
    proof {
        if r {
            assert(s@.total =~= ItemModel::empty());
        }
    }
    r
}

/// The empty record is the unit of merging, on either side.
pub proof fn lemma_merge_identity(a: StatsModel)
    ensures
        StatsModel::empty().merged(a) == a,
        a.merged(StatsModel::empty()) == a,
{
    assert(StatsModel::empty().merged(a) =~~= a);
    assert(a.merged(StatsModel::empty()) =~~= a);
}

/// Merging is commutative up to sample order: either order of a merge
/// yields the same counts and the same multiset of samples per category.
pub proof fn lemma_merge_commutative(a: StatsModel, b: StatsModel)
    ensures
        a.merged(b).equiv(b.merged(a)),
{
    lemma_item_merge_commutative(a.encoded, b.encoded);
    lemma_item_merge_commutative(a.decoded, b.decoded);
    lemma_item_merge_commutative(a.copied, b.copied);
    lemma_item_merge_commutative(a.moved, b.moved);
    lemma_item_merge_commutative(a.ignored, b.ignored);
    lemma_item_merge_commutative(a.errors, b.errors);
    lemma_item_merge_commutative(a.total, b.total);
}

/// One category's merge is commutative up to sample order.
pub proof fn lemma_item_merge_commutative(a: ItemModel, b: ItemModel)
    ensures
        a.merged(b).equiv(b.merged(a)),
{
    vstd::seq_lib::lemma_multiset_commutative(a.times, b.times);
    vstd::seq_lib::lemma_multiset_commutative(b.times, a.times);
    assert(a.times.to_multiset().add(b.times.to_multiset()) =~= b.times.to_multiset().add(
        a.times.to_multiset(),
    ));
}

/// Merging is associative, exactly: grouping does not change the result at
/// all, sample order included.
pub proof fn lemma_merge_associative(a: StatsModel, b: StatsModel, c: StatsModel)
    ensures
        a.merged(b).merged(c) == a.merged(b.merged(c)),
{
    assert(a.merged(b).merged(c) =~~= a.merged(b.merged(c)));
}

} // verus!
