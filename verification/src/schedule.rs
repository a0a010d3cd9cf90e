//! The scheduler's aggregation core: folding per-job statistics deltas and
//! per-arrival wall-clock gaps into the run's totals.
//!
//! Jobs may run sequentially or on a pool of workers; results then arrive
//! in completion order, not submission order. The aggregate must not depend
//! on that order, so the fold is proved to give the same counts and the
//! same multisets of duration samples for every permutation of the deltas.
//! The `total` category records the gap between consecutive arrivals; under
//! a pool those gaps approximate per-job latency and are the one part of
//! the aggregate whose individual samples may differ between modes.

use vstd::prelude::*;

use crate::statistics::{ItemModel, Statistics, StatsModel, job_delta_ok, spec_error_delta};

verus! {

/// The left-to-right fold of job deltas into one aggregate record.
pub open spec fn spec_fold_deltas(deltas: Seq<StatsModel>) -> StatsModel
    decreases deltas.len(),
{
    if deltas.len() == 0 {
        StatsModel::empty()
    } else {
        spec_fold_deltas(deltas.drop_last()).merged(deltas.last())
    }
}

/// The aggregate of a run: the fold of the job deltas, with the arrival
/// gaps recorded in the total category.
pub open spec fn spec_run_result(deltas: Seq<StatsModel>, gaps: Seq<u64>) -> StatsModel {
    let f = spec_fold_deltas(deltas);
    StatsModel {
        total: f.total.merged(ItemModel { count: gaps.len() as int, times: gaps }),
        ..f
    }
}

/// Conservation of work: folding one well-formed delta per job charges
/// exactly one action category per job, so the counts of the five action
/// categories add up to the number of jobs, decode and encode stay in step,
/// every sample stays attached to a counted event, and the total category
/// is untouched.
pub proof fn lemma_conservation(deltas: Seq<StatsModel>)
    requires
        forall|i: int| 0 <= i < deltas.len() ==> job_delta_ok(#[trigger] deltas[i]),
    ensures
        ({
            let f = spec_fold_deltas(deltas);
            &&& f.decoded.count + f.copied.count + f.moved.count + f.ignored.count + f.errors.count
                == deltas.len()
            &&& f.encoded.count == f.decoded.count
            &&& f.total == ItemModel::empty()
            &&& f.decoded.count == f.decoded.times.len()
            &&& f.encoded.count == f.encoded.times.len()
            &&& f.copied.count == f.copied.times.len()
            &&& f.moved.count == f.moved.times.len()
            &&& f.ignored.times.len() == 0
            &&& f.errors.times.len() == 0
            &&& f.ignored.count >= 0
            &&& f.errors.count >= 0
        }),
    decreases deltas.len(),
{
    if deltas.len() == 0 {
        assert(spec_fold_deltas(deltas).total =~= ItemModel::empty());
    } else {
        lemma_conservation(deltas.drop_last());
        let f0 = spec_fold_deltas(deltas.drop_last());
        let d = deltas.last();
        assert(job_delta_ok(d));
        assert(f0.total.merged(d.total) =~= ItemModel::empty());
    }
}

/// The delta the scheduler charges for a job that failed before it could
/// conclude itself: one error, nothing else.
pub fn failed_job_delta() -> (s: Statistics)
    ensures
        s@ == spec_error_delta(),
        job_delta_ok(s@),
{
    let mut s = Statistics::default();
    s.errors.inc();
    proof {
        assert(s@ =~~= spec_error_delta());
    }
    s
}

/// Folds the deltas of a finished run, recording one arrival gap per job in
/// the total category. Both execution modes hand their collected results to
/// this one fold, in whatever order they arrived.
pub fn fold_run(deltas: &Vec<Statistics>, gaps: &Vec<u64>) -> (r: Statistics)
    requires
        gaps@.len() == deltas@.len(),
        forall|i: int| 0 <= i < deltas@.len() ==> job_delta_ok(#[trigger] deltas@[i]@),
    ensures
        r@ == spec_run_result(deltas@.map(|i: int, s: Statistics| s@), gaps@),
{
    let ghost dv = deltas@.map(|i: int, s: Statistics| s@);
    let n = deltas.len();
    let mut acc = Statistics::default();
    let mut i: usize = 0;
    proof {
        assert(acc@ =~~= spec_run_result(dv.take(0int), gaps@.take(0int)));
    }
    while i < n
        invariant
            n == deltas@.len(),
            n == gaps@.len(),
            dv == deltas@.map(|k: int, s: Statistics| s@),
            forall|k: int| 0 <= k < n ==> job_delta_ok(#[trigger] deltas@[k]@),
            i <= n,
            acc@ == spec_run_result(dv.take(i as int), gaps@.take(i as int)),
        decreases n - i,
    {
        proof {
            assert(forall|k: int| 0 <= k < dv.len() ==> job_delta_ok(#[trigger] dv[k]));
            assert(forall|k: int|
                0 <= k < i ==> dv.take(i as int)[k] == dv[k] && job_delta_ok(#[trigger] dv.take(
                    i as int,
                )[k]));
            lemma_conservation(dv.take(i as int));
            assert(dv[i as int] == deltas@[i as int]@);
            assert(job_delta_ok(dv[i as int]));
        }
        acc.total.record(gaps[i]);
        acc.extend(&deltas[i]);
        proof {
            assert(dv.take(i + 1).drop_last() =~= dv.take(i as int));
            assert(dv.take(i + 1).last() == dv[i as int]);
            assert(gaps@.take(i + 1) =~= gaps@.take(i as int).push(gaps@[i as int]));
            assert(acc@ =~~= spec_run_result(dv.take(i + 1), gaps@.take(i + 1)));
        }
        i += 1;
    }
    proof {
        assert(dv.take(n as int) =~= dv);
        assert(gaps@.take(n as int) =~= gaps@);
    }
    acc
}

/// Merging respects the up-to-sample-order relation on both sides.
proof fn lemma_item_merged_congruence(a: ItemModel, a2: ItemModel, b: ItemModel, b2: ItemModel)
    requires
        a.equiv(a2),
        b.equiv(b2),
    ensures
        a.merged(b).equiv(a2.merged(b2)),
{
    vstd::seq_lib::lemma_multiset_commutative(a.times, b.times);
    vstd::seq_lib::lemma_multiset_commutative(a2.times, b2.times);
    assert(a.times.to_multiset().add(b.times.to_multiset()) =~= a2.times.to_multiset().add(
        b2.times.to_multiset(),
    ));
}

/// Merging whole records respects the relation too.
proof fn lemma_merged_congruence(a: StatsModel, a2: StatsModel, b: StatsModel, b2: StatsModel)
    requires
        a.equiv(a2),
        b.equiv(b2),
    ensures
        a.merged(b).equiv(a2.merged(b2)),
{
    lemma_item_merged_congruence(a.encoded, a2.encoded, b.encoded, b2.encoded);
    lemma_item_merged_congruence(a.decoded, a2.decoded, b.decoded, b2.decoded);
    lemma_item_merged_congruence(a.copied, a2.copied, b.copied, b2.copied);
    lemma_item_merged_congruence(a.moved, a2.moved, b.moved, b2.moved);
    lemma_item_merged_congruence(a.ignored, a2.ignored, b.ignored, b2.ignored);
    lemma_item_merged_congruence(a.errors, a2.errors, b.errors, b2.errors);
    lemma_item_merged_congruence(a.total, a2.total, b.total, b2.total);
}

/// Two merges in a row can swap their right-hand sides without changing
/// counts or sample multisets.
proof fn lemma_merged_exchange(a: StatsModel, b: StatsModel, c: StatsModel)
    ensures
        a.merged(b).merged(c).equiv(a.merged(c).merged(b)),
{
    crate::statistics::lemma_merge_associative(a, b, c);
    crate::statistics::lemma_merge_associative(a, c, b);
    crate::statistics::lemma_merge_commutative(b, c);
    lemma_merged_congruence(a, a, b.merged(c), c.merged(b));
}

/// Any one delta can be pulled out of the fold without changing counts or
/// sample multisets.
proof fn lemma_fold_pull_out(s: Seq<StatsModel>, i: int)
    requires
        0 <= i < s.len(),
    ensures
        spec_fold_deltas(s).equiv(spec_fold_deltas(s.remove(i)).merged(s[i])),
    decreases s.len(),
{
    lemma_equiv_reflexive(spec_fold_deltas(s));
    if i == s.len() - 1 {
        assert(s.remove(i) =~= s.drop_last());
    } else {
        let dl = s.drop_last();
        lemma_fold_pull_out(dl, i);
        lemma_merged_congruence(
            spec_fold_deltas(dl),
            spec_fold_deltas(dl.remove(i)).merged(dl[i]),
            s.last(),
            s.last(),
        );
        lemma_equiv_reflexive(s.last());
        lemma_merged_exchange(spec_fold_deltas(dl.remove(i)), dl[i], s.last());
        assert(s.remove(i).drop_last() =~= dl.remove(i));
        assert(s.remove(i).last() == s.last());
    }
}

proof fn lemma_equiv_reflexive(a: StatsModel)
    ensures
        a.equiv(a),
{
}

/// Folding a permutation of the deltas gives the same counts and the same
/// multiset of duration samples in every category.
pub proof fn lemma_fold_permutation(s1: Seq<StatsModel>, s2: Seq<StatsModel>)
    requires
        s1.to_multiset() == s2.to_multiset(),
    ensures
        spec_fold_deltas(s1).equiv(spec_fold_deltas(s2)),
    decreases s1.len(),
{
    broadcast use vstd::seq_lib::group_to_multiset_ensures;

    if s1.len() == 0 {
        assert(s1.to_multiset().len() == s1.len());
        assert(s2.to_multiset().len() == s2.len());
        assert(s2.len() == 0);
        lemma_equiv_reflexive(spec_fold_deltas(s1));
    } else {
        let x = s1.last();
        let s1p = s1.drop_last();
        assert(s1 =~= s1p.push(x));
        assert(s1.to_multiset() == s1p.to_multiset().insert(x));
        assert(s1.to_multiset().count(x) > 0);
        assert(s2.to_multiset().count(x) > 0);
        assert(s2.contains(x));
        let j = choose|j: int| 0 <= j < s2.len() && s2[j] == x;
        let s2p = s2.remove(j);
        assert(s2p.to_multiset() == s2.to_multiset().remove(x));
        assert(s1p.to_multiset() =~= s1.to_multiset().remove(x));
        lemma_fold_permutation(s1p, s2p);
        lemma_fold_pull_out(s2, j);
        lemma_merged_congruence(spec_fold_deltas(s1p), spec_fold_deltas(s2p), x, x);
        lemma_equiv_reflexive(x);
    }
}

/// Cross-mode equivalence: a sequential run and a pooled run over the same
/// jobs — the same deltas, in any arrival order — agree on every category's
/// count and on every category's multiset of duration samples, except for
/// the individual samples of the total category, whose gaps depend on
/// arrival times; even there the counts agree when both runs collected one
/// gap per job.
pub proof fn lemma_cross_mode_equivalence(
    seq_deltas: Seq<StatsModel>,
    pooled_deltas: Seq<StatsModel>,
    seq_gaps: Seq<u64>,
    pooled_gaps: Seq<u64>,
)
    requires
        pooled_deltas.to_multiset() == seq_deltas.to_multiset(),
        pooled_gaps.len() == seq_gaps.len(),
    ensures
        ({
            let a = spec_run_result(seq_deltas, seq_gaps);
            let b = spec_run_result(pooled_deltas, pooled_gaps);
            &&& a.encoded.equiv(b.encoded)
            &&& a.decoded.equiv(b.decoded)
            &&& a.copied.equiv(b.copied)
            &&& a.moved.equiv(b.moved)
            &&& a.ignored.equiv(b.ignored)
            &&& a.errors.equiv(b.errors)
            &&& a.total.count == b.total.count
        }),
{
    lemma_fold_permutation(pooled_deltas, seq_deltas);
}

} // verus!
