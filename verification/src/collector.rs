//! The metric collector: the recording operations, the double-buffered
//! window swap, and the flush pass that renders and evicts.
//!
//! Recording normalizes the caller's tag order by sorting, so any order of
//! the same tags addresses the same aggregate.  A flush swaps the current
//! window out, renders every contributing rollup into wire lines, packs
//! them into bounded datagrams, resets the contributing entries and evicts
//! the rest, and keeps the drained window for reuse: at most two windows
//! ever exist.

use crate::aggregator::{find_entry, keys_wf, lookup, Aggregator, GaugeState};
use crate::hist::SigFig;
use crate::key::{AggregatorEntryKey, KeyView, LookupKey};
use crate::rstr::{lex_leq, lemma_lex_leq_total_ordering, RylvStr};
use crate::tags::{rviews, sort_tags};
use crate::writer::StatsWriterSimple;
use vstd::prelude::*;
use vstd::seq_lib::lemma_sorted_unique;
use vstd::wrapping::u64_specs;

verus! {

/// Configuration for histogram precision: the precision class used for the
/// histogram cells of one metric name.
#[derive(Debug, Clone, Copy)]
pub struct HistogramConfig {
    sig_fig: SigFig,
}

impl HistogramConfig {
    /// The configured precision class.
    pub closed spec fn spec_sig_fig(&self) -> SigFig {
        self.sig_fig
    }

    /// Creates a histogram configuration with the given precision class.
    pub fn new(sig_fig: SigFig) -> (r: Self)
        ensures
            r.spec_sig_fig() == sig_fig,
    {
        Self { sig_fig }
    }
}

/// The precision class configured for a metric name: the first entry whose
/// name matches, or the default when none does.
pub open spec fn spec_config_for(
    cfgs: Seq<(String, HistogramConfig)>,
    metric: Seq<char>,
    default: SigFig,
) -> SigFig
    decreases cfgs.len(),
{
    if cfgs.len() == 0 {
        default
    } else if cfgs[0].0@ == metric {
        cfgs[0].1.spec_sig_fig()
    } else {
        spec_config_for(cfgs.drop_first(), metric, default)
    }
}

/// Looks up the precision class configured for a metric name.
fn config_for(cfgs: &Vec<(String, HistogramConfig)>, metric: &str, default: SigFig) -> (r: SigFig)
    ensures
        r == spec_config_for(cfgs@, metric@, default),
{
    let n = cfgs.len();
    let mut i: usize = 0;
    proof {
        assert(cfgs@.skip(0) =~= cfgs@);
    }
    while i < n
        invariant
            n == cfgs@.len(),
            i <= n,
            spec_config_for(cfgs@.skip(i as int), metric@, default) == spec_config_for(
                cfgs@,
                metric@,
                default,
            ),
        decreases n - i,
    {
        let e = vstd::std_specs::vec::vec_index(cfgs, i);
        proof {
            assert(cfgs@.skip(i as int)[0] == cfgs@[i as int]);
            assert(cfgs@.skip(i as int).drop_first() =~= cfgs@.skip(i + 1 as int));
        }
        if crate::key::str_eq(e.0.as_str(), metric) {
            return e.1.sig_fig;
        }
        i = i + 1;
    }
    proof {
        assert(cfgs@.skip(n as int).len() == 0);
    }
    default
}

/// The identity a recording addresses: the metric name together with the
/// tags in sorted order.  Any permutation of the same tags gives the same
/// identity.
pub open spec fn sorted_key(metric: Seq<char>, tags: Seq<Seq<char>>) -> KeyView {
    KeyView { metric, tags: tags.sort_by(lex_leq()) }
}

/// The collector: the current aggregation window that recordings update,
/// the drained window kept for reuse, and the line writer that packs the
/// rendered rollups into datagrams.
pub struct MetricCollector {
    current: Aggregator,
    available: Option<Aggregator>,
    writer: StatsWriterSimple,
    default_sig_fig: SigFig,
    histogram_configs: Vec<(String, HistogramConfig)>,
    next_id: u64,
    shut: bool,
}

impl MetricCollector {
    /// The counter entries of the current window.
    pub closed spec fn counts(&self) -> Seq<(AggregatorEntryKey, u64)> {
        self.current.count@
    }

    /// The gauge entries of the current window.
    pub closed spec fn gauges(&self) -> Seq<(AggregatorEntryKey, GaugeState)> {
        self.current.gauge@
    }

    /// The histogram entries of the current window.
    pub closed spec fn hists(&self) -> Seq<(AggregatorEntryKey, crate::hist::HistogramWrapper)> {
        self.current.histograms@
    }

    /// The counter entries of the drained window kept for reuse; empty when
    /// none is kept.
    pub closed spec fn stashed_counts(&self) -> Seq<(AggregatorEntryKey, u64)> {
        match self.available {
            Some(a) => a.count@,
            None => Seq::empty(),
        }
    }

    /// The gauge entries of the drained window kept for reuse.
    pub closed spec fn stashed_gauges(&self) -> Seq<(AggregatorEntryKey, GaugeState)> {
        match self.available {
            Some(a) => a.gauge@,
            None => Seq::empty(),
        }
    }

    /// The histogram entries of the drained window kept for reuse.
    pub closed spec fn stashed_hists(&self) -> Seq<
        (AggregatorEntryKey, crate::hist::HistogramWrapper),
    > {
        match self.available {
            Some(a) => a.histograms@,
            None => Seq::empty(),
        }
    }

    /// The prefix prepended verbatim to every line.
    pub closed spec fn prefix(&self) -> Seq<char> {
        self.writer.prefix()
    }

    /// The packet-size bound for datagrams.
    pub closed spec fn max_size(&self) -> nat {
        self.writer.max_size()
    }

    /// The per-metric precision configuration.
    pub closed spec fn configs(&self) -> Seq<(String, HistogramConfig)> {
        self.histogram_configs@
    }

    /// The default precision class.
    pub closed spec fn default_precision(&self) -> SigFig {
        self.default_sig_fig
    }

    /// Whether the collector has been shut down.
    pub closed spec fn is_shut(&self) -> bool {
        self.shut
    }

    /// How many aggregation windows exist: the current one, plus the
    /// drained one when it is kept.  Never more than two.
    pub closed spec fn generations(&self) -> nat {
        1 + (if self.available is Some {
            1nat
        } else {
            0nat
        })
    }

    /// Both windows are well formed and the writer holds nothing between
    /// calls.
    pub closed spec fn wf(&self) -> bool {
        &&& self.current.wf()
        &&& match self.available {
            Some(a) => a.wf(),
            None => true,
        }
        &&& self.writer.wf()
        &&& self.writer.queued().len() == 0
        &&& self.writer.pending().len() == 0
    }

    /// A fresh collector with the given prefix, packet-size bound, and
    /// histogram precision configuration.
    pub fn new(
        stats_prefix: String,
        max_udp_packet_size: u16,
        histogram_configs: Vec<(String, HistogramConfig)>,
        default_sig_fig: SigFig,
    ) -> (r: Self)
        ensures
            r.wf(),
            !r.is_shut(),
            r.counts().len() == 0,
            r.gauges().len() == 0,
            r.hists().len() == 0,
            r.stashed_counts().len() == 0,
            r.stashed_gauges().len() == 0,
            r.stashed_hists().len() == 0,
            r.prefix() == stats_prefix@,
            r.max_size() == max_udp_packet_size as nat,
            r.configs() == histogram_configs@,
            r.default_precision() == default_sig_fig,
            r.generations() <= 2,
    {
        MetricCollector {
            current: Aggregator::new(),
            available: None,
            writer: StatsWriterSimple::new(stats_prefix, max_udp_packet_size),
            default_sig_fig,
            histogram_configs,
            next_id: 0,
            shut: false,
        }
    }

    /// Everything except the counter map and the insertion ids is as it
    /// was.
    pub open spec fn only_counts_changed(&self, pre: &Self) -> bool {
        &&& self.gauges() == pre.gauges()
        &&& self.hists() == pre.hists()
        &&& self.stashed_counts() == pre.stashed_counts()
        &&& self.stashed_gauges() == pre.stashed_gauges()
        &&& self.stashed_hists() == pre.stashed_hists()
        &&& self.prefix() == pre.prefix()
        &&& self.max_size() == pre.max_size()
        &&& self.configs() == pre.configs()
        &&& self.default_precision() == pre.default_precision()
        &&& self.is_shut() == pre.is_shut()
        &&& self.generations() == pre.generations()
    }

    /// Adds `value` to the counter addressed by the metric name and the
    /// tags; the tag slice is sorted in place.  A counter starts at zero
    /// when the identity is new in this window, and the addition wraps.
    pub fn count_add(&mut self, metric: RylvStr<'_>, value: u64, tags: &mut Vec<RylvStr<'_>>)
        requires
            old(self).wf(),
        ensures
            final(self).wf(),
            final(self).only_counts_changed(old(self)),
            ({
                let kv = sorted_key(metric@, rviews(old(tags)@));
                let prev = match lookup(old(self).counts(), kv) {
                    Some(v) => v,
                    None => 0u64,
                };
                &&& lookup(final(self).counts(), kv) == Some(
                    u64_specs::wrapping_add(prev, value),
                )
                &&& forall|other: KeyView|
                    other != kv ==> #[trigger] lookup(final(self).counts(), other) == lookup(
                        old(self).counts(),
                        other,
                    )
            }),
    {
        sort_tags(tags);
        proof {
            lemma_lex_leq_total_ordering();
            rviews(old(tags)@).lemma_sort_by_ensures(lex_leq());
            lemma_sorted_unique(
                rviews(tags@),
                rviews(old(tags)@).sort_by(lex_leq()),
                lex_leq(),
            );
        }
        let lk = LookupKey::new(metric, tags.as_slice());
        let ghost kv = sorted_key(metric@, rviews(old(tags)@));
        proof {
            assert(lk.key_view() =~= kv);
        }
        let ghost pre = self.current.count@;
        match find_entry(&self.current.count, &lk) {
            Some(i) => {
                let e = vstd::std_specs::vec::vec_index_mut(&mut self.current.count, i);
                let newv = e.1.wrapping_add(value);
                e.1 = newv;
                proof {
                    assert(self.current.count@ == pre.update(i as int, (pre[i as int].0, newv)));
                    assert forall|other: KeyView|
                        #[trigger] lookup(self.current.count@, other) == (if other == kv {
                            Some(newv)
                        } else {
                            lookup(pre, other)
                        }) by {
                        crate::aggregator::lemma_lookup_update(pre, i as int, newv, other);
                    }
                    assert(keys_wf(self.current.count@));
                    assert forall|a: int, b: int|
                        0 <= a < b < self.current.count@.len() implies (#[trigger] self.current.count@[a]).0.key_view() != (#[trigger] self.current.count@[b]).0.key_view() by {
                        assert(self.current.count@[a].0 == pre[a].0);
                        assert(self.current.count@[b].0 == pre[b].0);
                    }
                }
            },
            None => {
                proof {
                    lemma_lookup_none_absent(pre, kv);
                }
                let id = self.next_id;
                self.next_id = self.next_id.wrapping_add(1);
                let key = lk.into_key(id);
                self.current.count.push((key, value));
                proof {
                    assert forall|other: KeyView|
                        #[trigger] lookup(self.current.count@, other) == (if other == kv {
                            Some(value)
                        } else {
                            lookup(pre, other)
                        }) by {
                        crate::aggregator::lemma_lookup_push(pre, (key, value), other);
                    }
                    assert(u64_specs::wrapping_add(0u64, value) == value);
                    assert(keys_wf(self.current.count@));
                    assert forall|a: int, b: int|
                        0 <= a < b < self.current.count@.len() implies (#[trigger] self.current.count@[a]).0.key_view() != (#[trigger] self.current.count@[b]).0.key_view() by {
                        if b == self.current.count@.len() - 1 {
                            assert(self.current.count@[a].0 == pre[a].0);
                            assert(pre[a].0.key_view() != kv);
                            assert(self.current.count@[b].0.key_view() == kv);
                        } else {
                            assert(self.current.count@[a].0 == pre[a].0);
                            assert(self.current.count@[b].0 == pre[b].0);
                        }
                    }
                }
            },
        }
    }

    /// Increments the counter addressed by the metric name and the tags by
    /// one; the tag slice is sorted in place.
    pub fn count(&mut self, metric: RylvStr<'_>, tags: &mut Vec<RylvStr<'_>>)
        requires
            old(self).wf(),
        ensures
            final(self).wf(),
            final(self).only_counts_changed(old(self)),
            ({
                let kv = sorted_key(metric@, rviews(old(tags)@));
                let prev = match lookup(old(self).counts(), kv) {
                    Some(v) => v,
                    None => 0u64,
                };
                &&& lookup(final(self).counts(), kv) == Some(u64_specs::wrapping_add(prev, 1u64))
                &&& forall|other: KeyView|
                    other != kv ==> #[trigger] lookup(final(self).counts(), other) == lookup(
                        old(self).counts(),
                        other,
                    )
            }),
    {
        self.count_add(metric, 1, tags);
    }
}

impl MetricCollector {
    /// Everything except the gauge map and the insertion ids is as it was.
    pub open spec fn only_gauges_changed(&self, pre: &Self) -> bool {
        &&& self.counts() == pre.counts()
        &&& self.hists() == pre.hists()
        &&& self.stashed_counts() == pre.stashed_counts()
        &&& self.stashed_gauges() == pre.stashed_gauges()
        &&& self.stashed_hists() == pre.stashed_hists()
        &&& self.prefix() == pre.prefix()
        &&& self.max_size() == pre.max_size()
        &&& self.configs() == pre.configs()
        &&& self.default_precision() == pre.default_precision()
        &&& self.is_shut() == pre.is_shut()
        &&& self.generations() == pre.generations()
    }

    /// Records a gauge value for the identity addressed by the metric name
    /// and the tags; the tag slice is sorted in place.  The window keeps the
    /// wrapping sum of the recorded values and their count; the flush emits
    /// their average.
    pub fn gauge(&mut self, metric: RylvStr<'_>, value: u64, tags: &mut Vec<RylvStr<'_>>)
        requires
            old(self).wf(),
        ensures
            final(self).wf(),
            final(self).only_gauges_changed(old(self)),
            ({
                let kv = sorted_key(metric@, rviews(old(tags)@));
                let prev = match lookup(old(self).gauges(), kv) {
                    Some(g) => g,
                    None => (GaugeState { sum: 0, count: 0 }),
                };
                &&& lookup(final(self).gauges(), kv) == Some(
                    (GaugeState {
                        sum: u64_specs::wrapping_add(prev.sum, value),
                        count: u64_specs::wrapping_add(prev.count, 1u64),
                    }),
                )
                &&& forall|other: KeyView|
                    other != kv ==> #[trigger] lookup(final(self).gauges(), other) == lookup(
                        old(self).gauges(),
                        other,
                    )
            }),
    {
        sort_tags(tags);
        proof {
            lemma_lex_leq_total_ordering();
            rviews(old(tags)@).lemma_sort_by_ensures(lex_leq());
            lemma_sorted_unique(
                rviews(tags@),
                rviews(old(tags)@).sort_by(lex_leq()),
                lex_leq(),
            );
        }
        let lk = LookupKey::new(metric, tags.as_slice());
        let ghost kv = sorted_key(metric@, rviews(old(tags)@));
        proof {
            assert(lk.key_view() =~= kv);
        }
        let ghost pre = self.current.gauge@;
        match find_entry(&self.current.gauge, &lk) {
            Some(i) => {
                let e = vstd::std_specs::vec::vec_index_mut(&mut self.current.gauge, i);
                let s0 = e.1.sum;
                let c0 = e.1.count;
                let newg = GaugeState { sum: s0.wrapping_add(value), count: c0.wrapping_add(1) };
                e.1 = newg;
                proof {
                    assert(self.current.gauge@ == pre.update(i as int, (pre[i as int].0, newg)));
                    assert forall|other: KeyView|
                        #[trigger] lookup(self.current.gauge@, other) == (if other == kv {
                            Some(newg)
                        } else {
                            lookup(pre, other)
                        }) by {
                        crate::aggregator::lemma_lookup_update(pre, i as int, newg, other);
                    }
                    assert(keys_wf(self.current.gauge@));
                    assert forall|a: int, b: int|
                        0 <= a < b < self.current.gauge@.len() implies (#[trigger] self.current.gauge@[a]).0.key_view() != (#[trigger] self.current.gauge@[b]).0.key_view() by {
                        assert(self.current.gauge@[a].0 == pre[a].0);
                        assert(self.current.gauge@[b].0 == pre[b].0);
                    }
                }
            },
            None => {
                proof {
                    lemma_lookup_none_absent(pre, kv);
                }
                let id = self.next_id;
                self.next_id = self.next_id.wrapping_add(1);
                let key = lk.into_key(id);
                let newg = GaugeState { sum: value, count: 1 };
                self.current.gauge.push((key, newg));
                proof {
                    assert forall|other: KeyView|
                        #[trigger] lookup(self.current.gauge@, other) == (if other == kv {
                            Some(newg)
                        } else {
                            lookup(pre, other)
                        }) by {
                        crate::aggregator::lemma_lookup_push(pre, (key, newg), other);
                    }
                    assert(keys_wf(self.current.gauge@));
                    assert forall|a: int, b: int|
                        0 <= a < b < self.current.gauge@.len() implies (#[trigger] self.current.gauge@[a]).0.key_view() != (#[trigger] self.current.gauge@[b]).0.key_view() by {
                        if b == self.current.gauge@.len() - 1 {
                            assert(self.current.gauge@[a].0 == pre[a].0);
                            assert(pre[a].0.key_view() != kv);
                            assert(self.current.gauge@[b].0.key_view() == kv);
                        } else {
                            assert(self.current.gauge@[a].0 == pre[a].0);
                            assert(self.current.gauge@[b].0 == pre[b].0);
                        }
                    }
                }
            },
        }
    }

    /// Everything except the histogram map, the pools, and the insertion
    /// ids is as it was.
    pub open spec fn only_hists_changed(&self, pre: &Self) -> bool {
        &&& self.counts() == pre.counts()
        &&& self.gauges() == pre.gauges()
        &&& self.stashed_counts() == pre.stashed_counts()
        &&& self.stashed_gauges() == pre.stashed_gauges()
        &&& self.stashed_hists() == pre.stashed_hists()
        &&& self.prefix() == pre.prefix()
        &&& self.max_size() == pre.max_size()
        &&& self.configs() == pre.configs()
        &&& self.default_precision() == pre.default_precision()
        &&& self.is_shut() == pre.is_shut()
        &&& self.generations() == pre.generations()
    }

    /// Records a histogram value for the identity addressed by the metric
    /// name and the tags; the tag slice is sorted in place.  A new cell
    /// takes the precision class configured for the metric name, or the
    /// default.
    pub fn histogram(&mut self, metric: RylvStr<'_>, value: u64, tags: &mut Vec<RylvStr<'_>>)
        requires
            old(self).wf(),
        ensures
            final(self).wf(),
            final(self).only_hists_changed(old(self)),
            ({
                let kv = sorted_key(metric@, rviews(old(tags)@));
                let prev = match crate::aggregator::hist_values_of(old(self).hists(), kv) {
                    Some(vs) => vs,
                    None => Seq::empty(),
                };
                &&& crate::aggregator::hist_values_of(final(self).hists(), kv) == Some(prev.push(value))
                &&& crate::aggregator::hist_sig_of(final(self).hists(), kv) == Some(
                    match crate::aggregator::hist_sig_of(old(self).hists(), kv) {
                        Some(f) => f,
                        None => spec_config_for(
                            old(self).configs(),
                            metric@,
                            old(self).default_precision(),
                        ).spec_value(),
                    },
                )
                &&& forall|other: KeyView|
                    other != kv ==> #[trigger] lookup(final(self).hists(), other) == lookup(
                        old(self).hists(),
                        other,
                    )
            }),
    {
        sort_tags(tags);
        proof {
            lemma_lex_leq_total_ordering();
            rviews(old(tags)@).lemma_sort_by_ensures(lex_leq());
            lemma_sorted_unique(
                rviews(tags@),
                rviews(old(tags)@).sort_by(lex_leq()),
                lex_leq(),
            );
        }
        let sig = config_for(&self.histogram_configs, metric.as_str(), self.default_sig_fig);
        let lk = LookupKey::new(metric, tags.as_slice());
        let ghost kv = sorted_key(metric@, rviews(old(tags)@));
        proof {
            assert(lk.key_view() =~= kv);
        }
        let ghost pre = self.current.histograms@;
        match find_entry(&self.current.histograms, &lk) {
            Some(i) => {
                let mut ent = self.current.histograms.remove(i);
                ent.1.record(value);
                let ghost newc = ent.1;
                self.current.histograms.insert(i, ent);
                proof {
                    assert(self.current.histograms@ =~= pre.update(
                        i as int,
                        (pre[i as int].0, newc),
                    ));
                    assert forall|other: KeyView|
                        #[trigger] lookup(self.current.histograms@, other) == (if other == kv {
                            Some(newc)
                        } else {
                            lookup(pre, other)
                        }) by {
                        crate::aggregator::lemma_lookup_update(pre, i as int, newc, other);
                    }
                    assert(keys_wf(self.current.histograms@));
                    assert forall|a: int, b: int|
                        0 <= a < b < self.current.histograms@.len() implies (#[trigger] self.current.histograms@[a]).0.key_view() != (#[trigger] self.current.histograms@[b]).0.key_view() by {
                        assert(self.current.histograms@[a].0 == pre[a].0);
                        assert(self.current.histograms@[b].0 == pre[b].0);
                    }
                    assert forall|j: int|
                        0 <= j < self.current.histograms@.len() implies (#[trigger] self.current.histograms@[j]).1.wf() by {
                        if j != i as int {
                            assert(self.current.histograms@[j].1 == pre[j].1);
                        }
                    }
                }
            },
            None => {
                proof {
                    lemma_lookup_none_absent(pre, kv);
                }
                let mut cell = self.current.get_histogram(sig);
                cell.record(value);
                let id = self.next_id;
                self.next_id = self.next_id.wrapping_add(1);
                let key = lk.into_key(id);
                let ghost newc = cell;
                self.current.histograms.push((key, cell));
                proof {
                    assert(newc.values@ =~= Seq::<u64>::empty().push(value));
                    assert forall|other: KeyView|
                        #[trigger] lookup(self.current.histograms@, other) == (if other == kv {
                            Some(newc)
                        } else {
                            lookup(pre, other)
                        }) by {
                        crate::aggregator::lemma_lookup_push(pre, (key, newc), other);
                    }
                    assert(keys_wf(self.current.histograms@));
                    assert forall|a: int, b: int|
                        0 <= a < b < self.current.histograms@.len() implies (#[trigger] self.current.histograms@[a]).0.key_view() != (#[trigger] self.current.histograms@[b]).0.key_view() by {
                        if b == self.current.histograms@.len() - 1 {
                            assert(self.current.histograms@[a].0 == pre[a].0);
                            assert(pre[a].0.key_view() != kv);
                            assert(self.current.histograms@[b].0.key_view() == kv);
                        } else {
                            assert(self.current.histograms@[a].0 == pre[a].0);
                            assert(self.current.histograms@[b].0 == pre[b].0);
                        }
                    }
                    assert forall|j: int|
                        0 <= j < self.current.histograms@.len() implies (#[trigger] self.current.histograms@[j]).1.wf() by {
                        if j < self.current.histograms@.len() - 1 {
                            assert(self.current.histograms@[j].1 == pre[j].1);
                        }
                    }
                }
            },
        }
    }
}

impl MetricCollector {
    /// Everything one flush of the current window emits: the counter lines,
    /// then the gauge lines, then the histogram lines, each map in entry
    /// order.
    pub open spec fn rendered(&self) -> Seq<char> {
        crate::flush::count_lines(self.prefix(), self.max_size(), self.counts())
            + crate::flush::gauge_lines(self.prefix(), self.max_size(), self.gauges())
            + crate::flush::hist_lines(self.prefix(), self.max_size(), self.hists())
    }

    /// How one flush moves the two windows: recordings resume on the window
    /// drained last time, and the window just drained keeps exactly the
    /// keys that contributed, with their values reset; the rest are
    /// evicted.
    pub open spec fn windows_rotated(pre: &Self, post: &Self) -> bool {
        &&& post.counts() == pre.stashed_counts()
        &&& post.gauges() == pre.stashed_gauges()
        &&& post.hists() == pre.stashed_hists()
        &&& forall|kv: KeyView|
            #[trigger] lookup(post.stashed_counts(), kv) == (match lookup(pre.counts(), kv) {
                Some(v) => if v > 0 {
                    Some(0u64)
                } else {
                    None
                },
                None => None,
            })
        &&& forall|kv: KeyView|
            #[trigger] lookup(post.stashed_gauges(), kv) == (match lookup(pre.gauges(), kv) {
                Some(g) => if g.count > 0 {
                    Some((GaugeState { sum: 0, count: 0 }))
                } else {
                    None
                },
                None => None,
            })
        &&& forall|kv: KeyView|
            #[trigger] crate::aggregator::hist_values_of(post.stashed_hists(), kv) == (
            match crate::aggregator::hist_values_of(pre.hists(), kv) {
                Some(vs) => if vs.len() > 0 {
                    Some(Seq::<u64>::empty())
                } else {
                    None
                },
                None => None,
            })
        &&& forall|kv: KeyView|
            (match crate::aggregator::hist_values_of(pre.hists(), kv) {
                Some(vs) => vs.len() > 0,
                None => false,
            }) ==> #[trigger] crate::aggregator::hist_sig_of(post.stashed_hists(), kv)
                == crate::aggregator::hist_sig_of(pre.hists(), kv)
        &&& post.prefix() == pre.prefix()
        &&& post.max_size() == pre.max_size()
        &&& post.configs() == pre.configs()
        &&& post.default_precision() == pre.default_precision()
        &&& post.generations() == 2
    }

    /// Drains the current window and returns its datagrams, oldest first.
    /// Every contributing rollup is rendered (a line too long for one
    /// datagram is dropped); no datagram exceeds the packet size; keys
    /// without a contribution are evicted; recordings resume on the window
    /// drained last time.
    pub fn flush(&mut self) -> (r: Vec<String>)
        requires
            old(self).wf(),
        ensures
            final(self).wf(),
            final(self).is_shut() == old(self).is_shut(),
            Self::windows_rotated(old(self), final(self)),
            crate::writer::string_views(r@).flatten() == old(self).rendered(),
            forall|i: int|
                0 <= i < r@.len() ==> 0 < crate::writer::byte_len(
                    #[trigger] crate::writer::string_views(r@)[i],
                ) <= old(self).max_size(),
    {
        let mut slot: Option<Aggregator> = None;
        std::mem::swap(&mut slot, &mut self.available);
        let mut snap = match slot {
            Some(a) => a,
            None => Aggregator::new(),
        };
        std::mem::swap(&mut snap, &mut self.current);
        proof {
            assert(self.writer.queued().flatten() =~= Seq::<char>::empty());
            assert(self.writer.emitted() =~= Seq::<char>::empty());
        }
        crate::flush::process_count(&mut self.writer, &mut snap.count);
        crate::flush::process_gauge(&mut self.writer, &mut snap.gauge);
        proof {
            assert(snap.wf());
        }
        crate::flush::process_histogram(&mut self.writer, &mut snap);
        proof {
            assert(self.writer.emitted() =~= old(self).rendered());
        }
        let out = self.writer.flush();
        self.available = Some(snap);
        proof {
            if old(self).available is None {
                assert(self.counts() =~= old(self).stashed_counts());
                assert(self.gauges() =~= old(self).stashed_gauges());
                assert(self.hists() =~= old(self).stashed_hists());
            }
        }
        out
    }

    /// Shuts the collector down: the first call drains one final flush and
    /// returns its datagrams; any later call changes nothing and returns no
    /// datagrams.
    pub fn shutdown(&mut self) -> (r: Vec<String>)
        requires
            old(self).wf(),
        ensures
            final(self).wf(),
            final(self).is_shut(),
            old(self).is_shut() ==> {
                &&& r@.len() == 0
                &&& final(self).counts() == old(self).counts()
                &&& final(self).gauges() == old(self).gauges()
                &&& final(self).hists() == old(self).hists()
                &&& final(self).stashed_counts() == old(self).stashed_counts()
                &&& final(self).stashed_gauges() == old(self).stashed_gauges()
                &&& final(self).stashed_hists() == old(self).stashed_hists()
                &&& final(self).prefix() == old(self).prefix()
                &&& final(self).max_size() == old(self).max_size()
                &&& final(self).configs() == old(self).configs()
                &&& final(self).default_precision() == old(self).default_precision()
                &&& final(self).generations() == old(self).generations()
            },
            !old(self).is_shut() ==> {
                &&& Self::windows_rotated(old(self), final(self))
                &&& crate::writer::string_views(r@).flatten() == old(self).rendered()
                &&& forall|i: int|
                    0 <= i < r@.len() ==> 0 < crate::writer::byte_len(
                        #[trigger] crate::writer::string_views(r@)[i],
                    ) <= old(self).max_size()
            },
    {
        if self.shut {
            return Vec::new();
        }
        self.shut = true;
        self.flush()
    }
}

/// The recording interface: fire-and-forget histogram, counter and gauge
/// updates, and a shutdown that drains one final flush.
pub trait MetricCollectorTrait {
    /// The implementor is in a usable state.
    spec fn inv(&self) -> bool;

    /// Records a histogram value; the tag slice is sorted in place.
    fn histogram(&mut self, metric: RylvStr<'_>, value: u64, tags: &mut Vec<RylvStr<'_>>)
        requires
            old(self).inv(),
        ensures
            final(self).inv(),
    ;

    /// Increments a counter by one; the tag slice is sorted in place.
    fn count(&mut self, metric: RylvStr<'_>, tags: &mut Vec<RylvStr<'_>>)
        requires
            old(self).inv(),
        ensures
            final(self).inv(),
    ;

    /// Increments a counter by `value`; the tag slice is sorted in place.
    fn count_add(&mut self, metric: RylvStr<'_>, value: u64, tags: &mut Vec<RylvStr<'_>>)
        requires
            old(self).inv(),
        ensures
            final(self).inv(),
    ;

    /// Records a gauge value; the tag slice is sorted in place.
    fn gauge(&mut self, metric: RylvStr<'_>, value: u64, tags: &mut Vec<RylvStr<'_>>)
        requires
            old(self).inv(),
        ensures
            final(self).inv(),
    ;

    /// Shuts the collector down, draining one final flush; a second call is
    /// a no-op.
    fn shutdown(&mut self) -> (r: Vec<String>)
        requires
            old(self).inv(),
        ensures
            final(self).inv(),
    ;
}

impl MetricCollectorTrait for MetricCollector {
    open spec fn inv(&self) -> bool {
        self.wf()
    }

    fn histogram(&mut self, metric: RylvStr<'_>, value: u64, tags: &mut Vec<RylvStr<'_>>) {
        MetricCollector::histogram(self, metric, value, tags);
    }

    fn count(&mut self, metric: RylvStr<'_>, tags: &mut Vec<RylvStr<'_>>) {
        MetricCollector::count(self, metric, tags);
    }

    fn count_add(&mut self, metric: RylvStr<'_>, value: u64, tags: &mut Vec<RylvStr<'_>>) {
        MetricCollector::count_add(self, metric, value, tags);
    }

    fn gauge(&mut self, metric: RylvStr<'_>, value: u64, tags: &mut Vec<RylvStr<'_>>) {
        MetricCollector::gauge(self, metric, value, tags);
    }

    fn shutdown(&mut self) -> (r: Vec<String>) {
        MetricCollector::shutdown(self)
    }
}

/// Two-generation bound: a collector never holds more than two aggregation
/// windows — the one recordings update and, at most, the drained one kept
/// for reuse.
pub proof fn lemma_two_generations(c: &MetricCollector)
    ensures
        c.generations() <= 2,
{
}

/// When an identity is not found, no entry carries it.
pub proof fn lemma_lookup_none_absent<V>(s: Seq<(AggregatorEntryKey, V)>, kv: KeyView)
    requires
        lookup(s, kv) is None,
    ensures
        forall|j: int| 0 <= j < s.len() ==> (#[trigger] s[j]).0.key_view() != kv,
    decreases s.len(),
{
    if s.len() > 0 {
        lemma_lookup_none_absent(s.drop_first(), kv);
        assert forall|j: int| 0 <= j < s.len() implies (#[trigger] s[j]).0.key_view() != kv by {
            if j > 0 {
                assert(s.drop_first()[j - 1] == s[j]);
            }
        }
    }
}

} // verus!
