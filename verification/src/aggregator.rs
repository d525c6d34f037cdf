//! One aggregation window's state: three maps from key identity to a value
//! of the window — counter, gauge, histogram — plus the per-precision pools
//! of reusable histogram cells.
//!
//! Each map stores its entries in insertion order with pairwise distinct
//! identities, so a key identity addresses at most one entry.

use crate::hist::{HistogramWrapper, SigFig, POOL_COUNT};
use crate::key::{AggregatorEntryKey, KeyView, LookupKey, RemoveKey};
use vstd::prelude::*;

verus! {

/// The running state of one gauge: the sum of the recorded values and how
/// many there were.
pub struct GaugeState {
    /// Sum of the recorded values.
    pub sum: u64,
    /// Number of recorded values.
    pub count: u64,
}

/// The wire type of a rendered line.
#[derive(Copy, Clone)]
pub enum MetricType {
    /// A counter line, type character `c`.
    Count,
    /// A gauge line, type character `g`.
    Gauge,
}

impl MetricType {
    /// The type character of this kind of line, as it appears on the wire.
    pub fn type_str(self) -> (r: &'static str)
        ensures
            self is Count ==> r@ == "c"@,
            self is Gauge ==> r@ == "g"@,
    {
        match self {
            MetricType::Count => "c",
            MetricType::Gauge => "g",
        }
    }
}

/// The value stored for a key identity, or `None` when no entry has it.
pub open spec fn lookup<V>(s: Seq<(AggregatorEntryKey, V)>, kv: KeyView) -> Option<V>
    decreases s.len(),
{
    if s.len() == 0 {
        None
    } else if s[0].0.key_view() == kv {
        Some(s[0].1)
    } else {
        lookup(s.drop_first(), kv)
    }
}

/// Every stored key is well formed.
pub open spec fn keys_wf<V>(s: Seq<(AggregatorEntryKey, V)>) -> bool {
    forall|i: int| 0 <= i < s.len() ==> (#[trigger] s[i]).0.wf()
}

/// No two entries share a key identity.
pub open spec fn distinct_keys<V>(s: Seq<(AggregatorEntryKey, V)>) -> bool {
    forall|i: int, j: int|
        0 <= i < j < s.len() ==> (#[trigger] s[i]).0.key_view() != (#[trigger] s[j]).0.key_view()
}

/// A well-formed map: well-formed keys, no duplicate identities.
pub open spec fn entries_wf<V>(s: Seq<(AggregatorEntryKey, V)>) -> bool {
    keys_wf(s) && distinct_keys(s)
}

/// An entry whose identity no earlier entry shares is what `lookup` finds.
pub proof fn lemma_lookup_at_index<V>(s: Seq<(AggregatorEntryKey, V)>, kv: KeyView, i: int)
    requires
        0 <= i < s.len(),
        s[i].0.key_view() == kv,
        forall|j: int| 0 <= j < i ==> (#[trigger] s[j]).0.key_view() != kv,
    ensures
        lookup(s, kv) == Some(s[i].1),
    decreases s.len(),
{
    if i > 0 {
        assert(s[0].0.key_view() != kv);
        lemma_lookup_at_index(s.drop_first(), kv, i - 1);
    }
}

/// An identity no entry has is not found.
pub proof fn lemma_lookup_absent<V>(s: Seq<(AggregatorEntryKey, V)>, kv: KeyView)
    requires
        forall|j: int| 0 <= j < s.len() ==> (#[trigger] s[j]).0.key_view() != kv,
    ensures
        lookup(s, kv) is None,
    decreases s.len(),
{
    if s.len() > 0 {
        lemma_lookup_absent(s.drop_first(), kv);
    }
}

/// Replacing the value at one index changes `lookup` for that entry's
/// identity alone.
pub proof fn lemma_lookup_update<V>(s: Seq<(AggregatorEntryKey, V)>, i: int, v: V, kv: KeyView)
    requires
        distinct_keys(s),
        0 <= i < s.len(),
    ensures
        lookup(s.update(i, (s[i].0, v)), kv) == if kv == s[i].0.key_view() {
            Some(v)
        } else {
            lookup(s, kv)
        },
    decreases s.len(),
{
    let t = s.update(i, (s[i].0, v));
    if i == 0 {
        assert(t[0] == (s[0].0, v));
        if s[0].0.key_view() != kv {
            assert(t.drop_first() =~= s.drop_first());
        }
    } else {
        assert(t[0] == s[0]);
        if s[0].0.key_view() == kv {
            assert(s[i].0.key_view() != kv);
        } else {
            assert(t.drop_first() =~= s.drop_first().update(i - 1, (s[i].0, v)));
            lemma_lookup_update(s.drop_first(), i - 1, v, kv);
        }
    }
}

/// Appending an entry with a fresh identity adds it to the map and changes
/// nothing else.
pub proof fn lemma_lookup_push<V>(
    s: Seq<(AggregatorEntryKey, V)>,
    e: (AggregatorEntryKey, V),
    kv: KeyView,
)
    requires
        forall|j: int| 0 <= j < s.len() ==> (#[trigger] s[j]).0.key_view() != e.0.key_view(),
    ensures
        lookup(s.push(e), kv) == if kv == e.0.key_view() {
            Some(e.1)
        } else {
            lookup(s, kv)
        },
    decreases s.len(),
{
    if s.len() == 0 {
        assert(s.push(e)[0] == e);
        if kv == e.0.key_view() {
            assert(lookup(s.push(e), kv) == Some(e.1));
        } else {
            assert(s.push(e).drop_first() =~= Seq::<(AggregatorEntryKey, V)>::empty());
            assert(lookup(Seq::<(AggregatorEntryKey, V)>::empty(), kv) is None);
            assert(lookup(s.push(e), kv) is None);
            assert(lookup(s, kv) is None);
        }
    } else {
        assert(s.push(e)[0] == s[0]);
        assert(s.push(e).drop_first() =~= s.drop_first().push(e));
        lemma_lookup_push(s.drop_first(), e, kv);
        if s[0].0.key_view() == kv {
            assert(lookup(s.push(e), kv) == Some(s[0].1));
            assert(lookup(s, kv) == Some(s[0].1));
        } else {
            assert(lookup(s.push(e), kv) == lookup(s.drop_first().push(e), kv));
            assert(lookup(s, kv) == lookup(s.drop_first(), kv));
        }
    }
}

/// Finds the entry a lookup key addresses: the index of the entry with the
/// same identity, or `None` when no entry has it.
pub fn find_entry<'a, V>(entries: &Vec<(AggregatorEntryKey, V)>, lk: &LookupKey<'a>) -> (r: Option<
    usize,
>)
    requires
        lk.wf(),
        keys_wf(entries@),
    ensures
        match r {
            Some(i) => i < entries@.len() && entries@[i as int].0.key_view() == lk.key_view()
                && lookup(entries@, lk.key_view()) == Some(entries@[i as int].1),
            None => lookup(entries@, lk.key_view()) is None,
        },
{
    let n = entries.len();
    let mut i: usize = 0;
    while i < n
        invariant
            n == entries@.len(),
            i <= n,
            lk.wf(),
            keys_wf(entries@),
            forall|j: int| 0 <= j < i ==> (#[trigger] entries@[j]).0.key_view() != lk.key_view(),
        decreases n - i,
    {
        let e = vstd::std_specs::vec::vec_index(entries, i);
        if lk.compare(&e.0) {
            proof {
                lemma_lookup_at_index(entries@, lk.key_view(), i as int);
            }
            return Some(i);
        }
        i = i + 1;
    }
    proof {
        lemma_lookup_absent(entries@, lk.key_view());
    }
    None
}

/// The index of the first entry carrying this hash and id, if any.
pub open spec fn match_index<V>(s: Seq<(AggregatorEntryKey, V)>, hash: u64, id: u64) -> Option<int>
    decreases s.len(),
{
    if s.len() == 0 {
        None
    } else if s[0].0.hash == hash && s[0].0.id == id {
        Some(0int)
    } else {
        match match_index(s.drop_first(), hash, id) {
            Some(i) => Some(i + 1),
            None => None,
        }
    }
}

/// Removes the first entry carrying the captured hash and id, if one is
/// still there.  An entry with the same content but another id — a later
/// re-insertion — is never touched: that is what the id is for.
pub fn remove_entry<V>(entries: &mut Vec<(AggregatorEntryKey, V)>, key: &RemoveKey) -> (r: Option<
    V,
>)
    ensures
        match match_index(old(entries)@, key.hash, key.id) {
            Some(i) => final(entries)@ == old(entries)@.remove(i) && r is Some,
            None => final(entries)@ == old(entries)@ && r is None,
        },
{
    let n = entries.len();
    let mut i: usize = 0;
    while i < n
        invariant
            entries@ == old(entries)@,
            n == entries@.len(),
            i <= n,
            forall|j: int|
                0 <= j < i ==> !((#[trigger] entries@[j]).0.hash == key.hash && entries@[j].0.id
                    == key.id),
        decreases n - i,
    {
        let e = vstd::std_specs::vec::vec_index(entries, i);
        if e.0.hash == key.hash && e.0.id == key.id {
            proof {
                lemma_match_index_at(entries@, key.hash, key.id, i as int);
            }
            let removed = entries.remove(i);
            return Some(removed.1);
        }
        i = i + 1;
    }
    proof {
        lemma_match_index_absent(entries@, key.hash, key.id);
    }
    None
}

proof fn lemma_match_index_at<V>(s: Seq<(AggregatorEntryKey, V)>, hash: u64, id: u64, i: int)
    requires
        0 <= i < s.len(),
        s[i].0.hash == hash && s[i].0.id == id,
        forall|j: int| 0 <= j < i ==> !((#[trigger] s[j]).0.hash == hash && s[j].0.id == id),
    ensures
        match_index(s, hash, id) == Some(i),
    decreases s.len(),
{
    if i > 0 {
        lemma_match_index_at(s.drop_first(), hash, id, i - 1);
    }
}

proof fn lemma_match_index_absent<V>(s: Seq<(AggregatorEntryKey, V)>, hash: u64, id: u64)
    requires
        forall|j: int| 0 <= j < s.len() ==> !((#[trigger] s[j]).0.hash == hash && s[j].0.id == id),
    ensures
        match_index(s, hash, id) is None,
    decreases s.len(),
{
    if s.len() > 0 {
        lemma_match_index_absent(s.drop_first(), hash, id);
    }
}

/// A found value is the value of an entry whose identity matches.
pub proof fn lemma_lookup_some_entry<V>(s: Seq<(AggregatorEntryKey, V)>, kv: KeyView)
    requires
        lookup(s, kv) is Some,
    ensures
        exists|i: int|
            0 <= i < s.len() && (#[trigger] s[i]).0.key_view() == kv && s[i].1 == lookup(s, kv)->0,
    decreases s.len(),
{
    if s[0].0.key_view() == kv {
        assert(s[0].0.key_view() == kv && s[0].1 == lookup(s, kv)->0);
    } else {
        lemma_lookup_some_entry(s.drop_first(), kv);
        let i = choose|i: int|
            0 <= i < s.drop_first().len() && (#[trigger] s.drop_first()[i]).0.key_view() == kv
                && s.drop_first()[i].1 == lookup(s.drop_first(), kv)->0;
        assert(s[i + 1].0.key_view() == kv && s[i + 1].1 == lookup(s, kv)->0);
    }
}

/// The values recorded in this window for an identity, in recording order;
/// `None` when the identity has no histogram entry.
pub open spec fn hist_values_of(
    s: Seq<(AggregatorEntryKey, HistogramWrapper)>,
    kv: KeyView,
) -> Option<Seq<u64>> {
    match lookup(s, kv) {
        Some(c) => Some(c.values@),
        None => None,
    }
}

/// The precision class of the histogram cell for an identity.
pub open spec fn hist_sig_of(
    s: Seq<(AggregatorEntryKey, HistogramWrapper)>,
    kv: KeyView,
) -> Option<u8> {
    match lookup(s, kv) {
        Some(c) => Some(c.sig_fig.spec_value()),
        None => None,
    }
}

/// One aggregation window: a map per value kind, plus the histogram pools.
pub struct Aggregator {
    /// Counter entries.
    pub count: Vec<(AggregatorEntryKey, u64)>,
    /// Gauge entries.
    pub gauge: Vec<(AggregatorEntryKey, GaugeState)>,
    /// Histogram entries.
    pub histograms: Vec<(AggregatorEntryKey, HistogramWrapper)>,
    /// Reusable empty histogram cells, one bucket per precision class.
    pub pool_histograms: Vec<Vec<HistogramWrapper>>,
}

impl Aggregator {
    /// Every pooled cell is empty, well formed, and sits in the bucket of
    /// its own precision class.
    pub open spec fn pools_wf(&self) -> bool {
        &&& self.pool_histograms@.len() == POOL_COUNT
        &&& forall|b: int, j: int|
            0 <= b < self.pool_histograms@.len() && 0 <= j < self.pool_histograms@[b]@.len() ==> {
                let c = #[trigger] self.pool_histograms@[b]@[j];
                c.wf() && c.values@.len() == 0 && c.sig_fig.spec_value() == b
            }
    }

    /// All three maps are well formed, every histogram cell agrees with its
    /// values, and the pools are in order.
    pub open spec fn wf(&self) -> bool {
        &&& entries_wf(self.count@)
        &&& entries_wf(self.gauge@)
        &&& entries_wf(self.histograms@)
        &&& forall|i: int|
            0 <= i < self.histograms@.len() ==> (#[trigger] self.histograms@[i]).1.wf()
        &&& self.pools_wf()
    }

    /// An empty window with empty pools.
    pub fn new() -> (r: Self)
        ensures
            r.wf(),
            r.count@.len() == 0,
            r.gauge@.len() == 0,
            r.histograms@.len() == 0,
            forall|b: int|
                0 <= b < r.pool_histograms@.len() ==> (#[trigger] r.pool_histograms@[b])@.len()
                    == 0,
    {
        let mut pools: Vec<Vec<HistogramWrapper>> = Vec::new();
        let mut b: usize = 0;
        while b < POOL_COUNT
            invariant
                b <= POOL_COUNT,
                pools@.len() == b,
                forall|bi: int| 0 <= bi < pools@.len() ==> (#[trigger] pools@[bi])@.len() == 0,
            decreases POOL_COUNT - b,
        {
            pools.push(Vec::new());
            b = b + 1;
        }
        Aggregator { count: Vec::new(), gauge: Vec::new(), histograms: Vec::new(), pool_histograms: pools }
    }

    /// An empty histogram cell of the given precision class: a pooled one
    /// when the bucket has one, a fresh one otherwise.
    pub fn get_histogram(&mut self, sig_fig: SigFig) -> (r: HistogramWrapper)
        requires
            old(self).pools_wf(),
        ensures
            final(self).pools_wf(),
            final(self).count == old(self).count,
            final(self).gauge == old(self).gauge,
            final(self).histograms == old(self).histograms,
            r.wf(),
            r.values@.len() == 0,
            r.sig_fig.spec_value() == sig_fig.spec_value(),
            ({
                let b = sig_fig.spec_value() as int;
                &&& forall|bi: int|
                    0 <= bi < old(self).pool_histograms@.len() && bi != b
                        ==> #[trigger] final(self).pool_histograms@[bi]
                        == old(self).pool_histograms@[bi]
                &&& final(self).pool_histograms@[b]@.len() == if old(
                    self,
                ).pool_histograms@[b]@.len() > 0 {
                    old(self).pool_histograms@[b]@.len() - 1
                } else {
                    0int
                }
            }),
    {
        let b = sig_fig.value() as usize;
        let bucket = vstd::std_specs::vec::vec_index_mut(&mut self.pool_histograms, b);
        match bucket.pop() {
            Some(h) => {
                proof {
                    let pre = old(self).pool_histograms@[b as int]@;
                    assert(old(self).pool_histograms@[b as int]@[pre.len() - 1] == h);
                }
                h
            },
            None => HistogramWrapper::new(sig_fig),
        }
    }

    /// Returns an evicted cell, cleared, to the bucket of its precision
    /// class.
    pub fn recycle_histogram(&mut self, cell: HistogramWrapper)
        requires
            old(self).pools_wf(),
        ensures
            final(self).pools_wf(),
            final(self).count == old(self).count,
            final(self).gauge == old(self).gauge,
            final(self).histograms == old(self).histograms,
            ({
                let b = cell.sig_fig.spec_value() as int;
                &&& forall|bi: int|
                    0 <= bi < old(self).pool_histograms@.len() && bi != b
                        ==> #[trigger] final(self).pool_histograms@[bi]
                        == old(self).pool_histograms@[bi]
                &&& final(self).pool_histograms@[b]@.len() == old(
                    self,
                ).pool_histograms@[b]@.len() + 1
            }),
    {
        let mut cell = cell;
        cell.reset();
        let b = cell.sig_fig.value() as usize;
        let bucket = vstd::std_specs::vec::vec_index_mut(&mut self.pool_histograms, b);
        bucket.push(cell);
    }
}

} // verus!
