//! The library's aggregation laws, stated and proved once over the spec
//! functions that the operation contracts use.

use crate::aggregator::GaugeState;
use crate::flush::gauge_avg;
use crate::hist::{seq_max, seq_min};
use crate::rstr::{lex_leq, lemma_lex_leq_total_ordering};
use crate::collector::sorted_key;
use vstd::prelude::*;
use vstd::seq_lib::lemma_sorted_unique;
use vstd::wrapping::u64_specs;

verus! {

/// The exact sum of a sequence of recorded values.
pub open spec fn int_total(vs: Seq<u64>) -> int
    decreases vs.len(),
{
    if vs.len() == 0 {
        0
    } else {
        int_total(vs.drop_last()) + vs.last()
    }
}

/// The counter value after the recorded values have been added in order,
/// each addition wrapping, starting from zero — what a sequence of
/// `count_add` calls leaves in a fresh window, by their contract.
pub open spec fn counter_after(vs: Seq<u64>) -> u64
    decreases vs.len(),
{
    if vs.len() == 0 {
        0u64
    } else {
        u64_specs::wrapping_add(counter_after(vs.drop_last()), vs.last())
    }
}

/// The gauge state after the recorded values have been folded in order,
/// starting from zero — what a sequence of `gauge` calls leaves in a fresh
/// window, by their contract.
pub open spec fn gauge_after(vs: Seq<u64>) -> GaugeState
    decreases vs.len(),
{
    if vs.len() == 0 {
        GaugeState { sum: 0, count: 0 }
    } else {
        let g = gauge_after(vs.drop_last());
        GaugeState {
            sum: u64_specs::wrapping_add(g.sum, vs.last()),
            count: u64_specs::wrapping_add(g.count, 1u64),
        }
    }
}

/// The partial sums of recorded values never exceed the whole sum.
proof fn lemma_int_total_bounds(vs: Seq<u64>)
    ensures
        0 <= int_total(vs),
        vs.len() > 0 ==> int_total(vs.drop_last()) <= int_total(vs),
    decreases vs.len(),
{
    if vs.len() > 0 {
        lemma_int_total_bounds(vs.drop_last());
    }
}

/// Counter total: any sequence of counter additions within one window,
/// whose exact sum fits the counter, leaves exactly that sum — so the flush
/// emits it.
pub proof fn lemma_counter_total(vs: Seq<u64>)
    requires
        int_total(vs) <= u64::MAX,
    ensures
        counter_after(vs) == int_total(vs),
    decreases vs.len(),
{
    if vs.len() > 0 {
        lemma_int_total_bounds(vs.drop_last());
        lemma_counter_total(vs.drop_last());
    }
}

/// Gauge average: any sequence of gauge recordings within one window,
/// whose exact sum fits, leaves their sum and their number — so the flush
/// emits their average, rounded down.
pub proof fn lemma_gauge_average(vs: Seq<u64>)
    requires
        int_total(vs) <= u64::MAX,
        vs.len() <= u64::MAX,
    ensures
        gauge_after(vs).sum == int_total(vs),
        gauge_after(vs).count == vs.len(),
        vs.len() > 0 ==> gauge_avg(gauge_after(vs)) == int_total(vs) / (vs.len() as int),
    decreases vs.len(),
{
    if vs.len() > 0 {
        lemma_int_total_bounds(vs.drop_last());
        lemma_gauge_average(vs.drop_last());
    }
}

/// Histogram extrema: among any recorded values, the tracked minimum and
/// maximum are themselves recorded values and bound every recorded value —
/// so the flush emits the exact extrema and the exact count.
pub proof fn lemma_histogram_extrema(vs: Seq<u64>)
    requires
        vs.len() > 0,
    ensures
        vs.contains(seq_min(vs)),
        vs.contains(seq_max(vs)),
        forall|i: int| 0 <= i < vs.len() ==> seq_min(vs) <= #[trigger] vs[i] <= seq_max(vs),
    decreases vs.len(),
{
    assert forall|i: int| 0 <= i < vs.len() implies seq_min(vs) <= #[trigger] vs[i] <= seq_max(
        vs,
    ) by {
        crate::hist::lemma_seq_min_max_bounds(vs, i);
    }
    if vs.len() == 1 {
        assert(vs[0] == seq_min(vs));
        assert(vs[0] == seq_max(vs));
    } else {
        lemma_histogram_extrema(vs.drop_first());
        if seq_min(vs) != vs[0] {
            let i = choose|i: int|
                0 <= i < vs.drop_first().len() && vs.drop_first()[i] == seq_min(vs.drop_first());
            assert(vs[i + 1] == seq_min(vs));
        }
        if seq_max(vs) != vs[0] {
            let i = choose|i: int|
                0 <= i < vs.drop_first().len() && vs.drop_first()[i] == seq_max(vs.drop_first());
            assert(vs[i + 1] == seq_max(vs));
        }
    }
}

/// Tag order irrelevance: recordings whose tag slices hold the same tags in
/// any order address the same aggregation key, because both sort to the
/// same sequence.
pub proof fn lemma_tag_order_irrelevant(metric: Seq<char>, t1: Seq<Seq<char>>, t2: Seq<Seq<char>>)
    requires
        t1.to_multiset() == t2.to_multiset(),
    ensures
        sorted_key(metric, t1) == sorted_key(metric, t2),
{
    lemma_lex_leq_total_ordering();
    t1.lemma_sort_by_ensures(lex_leq());
    t2.lemma_sort_by_ensures(lex_leq());
    lemma_sorted_unique(t1.sort_by(lex_leq()), t2.sort_by(lex_leq()), lex_leq());
    assert(sorted_key(metric, t1) =~= sorted_key(metric, t2));
}

} // verus!
