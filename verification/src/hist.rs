//! Histogram cells.
//!
//! A cell records a window's values for one key: the exact count, minimum
//! and maximum, and the recorded values themselves, from which percentiles
//! are answered by rank in the sorted order.  Cells are pooled per precision
//! class so that an evicted cell can be reused without reallocation.

use crate::error::MetricsError;
use vstd::prelude::*;
use vstd::relations::{sorted_by, total_ordering};
use vstd::seq_lib::lemma_sorted_unique;
use vstd::string::StringExecFns;

verus! {

/// The largest accepted precision class.
pub const SIG_FIG_MAX: u8 = 5;

/// The default precision class.
pub const SIG_FIG_DEF: u8 = 3;

/// Number of pool buckets: one per valid precision class.
pub const POOL_COUNT: usize = SIG_FIG_MAX as usize + 1;

/// A histogram precision class: the number of significant figures kept
/// when values are summarized.  Always between zero and [`SIG_FIG_MAX`].
#[derive(Debug, Copy, Clone, PartialEq, Eq, Structural, Hash)]
pub struct SigFig {
    value: u8,
}

impl SigFig {
    /// The class as a number.
    pub closed spec fn spec_value(&self) -> u8 {
        self.value
    }

    /// Every reachable class is a valid one.
    #[verifier::type_invariant]
    pub closed spec fn inv(&self) -> bool {
        self.value <= SIG_FIG_MAX
    }

    /// Creates a precision class; any value above [`SIG_FIG_MAX`] is
    /// rejected.
    pub fn new(value: u8) -> (r: Result<Self, MetricsError>)
        ensures
            value <= SIG_FIG_MAX <==> r is Ok,
            r matches Ok(s) ==> s.spec_value() == value,
            r matches Err(e) ==> e.text() == "Invalid sig fig: must be 0, 1, 2, 3, 4 or 5"@,
    {
        if value > SIG_FIG_MAX {
            return Err(MetricsError::Custom(String::from_str(
                "Invalid sig fig: must be 0, 1, 2, 3, 4 or 5",
            )));
        }
        Ok(Self { value })
    }

    /// The number of significant figures.
    pub fn value(self) -> (r: u8)
        ensures
            r == self.spec_value(),
            r <= SIG_FIG_MAX,
    {
        proof {
            use_type_invariant(self);
        }
        self.value
    }
}

impl Default for SigFig {
    /// The default precision class, [`SIG_FIG_DEF`].
    fn default() -> (r: Self)
        ensures
            r.spec_value() == SIG_FIG_DEF,
    {
        Self { value: SIG_FIG_DEF }
    }
}

/// The least value in a nonempty sequence.
pub open spec fn seq_min(s: Seq<u64>) -> u64
    recommends
        s.len() > 0,
    decreases s.len(),
{
    if s.len() <= 1 {
        s[0]
    } else {
        let m = seq_min(s.drop_first());
        if s[0] <= m {
            s[0]
        } else {
            m
        }
    }
}

/// The greatest value in a nonempty sequence.
pub open spec fn seq_max(s: Seq<u64>) -> u64
    recommends
        s.len() > 0,
    decreases s.len(),
{
    if s.len() <= 1 {
        s[0]
    } else {
        let m = seq_max(s.drop_first());
        if s[0] >= m {
            s[0]
        } else {
            m
        }
    }
}

/// Appending a value moves the minimum down to it and the maximum up to it.
pub proof fn lemma_seq_min_max_push(s: Seq<u64>, v: u64)
    requires
        s.len() > 0,
    ensures
        seq_min(s.push(v)) == if v < seq_min(s) {
            v
        } else {
            seq_min(s)
        },
        seq_max(s.push(v)) == if v > seq_max(s) {
            v
        } else {
            seq_max(s)
        },
    decreases s.len(),
{
    if s.len() == 1 {
        assert(s.push(v).drop_first() =~= seq![v]);
        assert(seq_min(seq![v]) == v);
        assert(seq_max(seq![v]) == v);
        assert(s.push(v)[0] == s[0]);
    } else {
        assert(s.push(v).drop_first() =~= s.drop_first().push(v));
        lemma_seq_min_max_push(s.drop_first(), v);
        assert(s.push(v)[0] == s[0]);
        assert(seq_min(s) == if s[0] <= seq_min(s.drop_first()) { s[0] } else { seq_min(s.drop_first()) });
        assert(seq_max(s) == if s[0] >= seq_max(s.drop_first()) { s[0] } else { seq_max(s.drop_first()) });
    }
}

/// Every member of a nonempty sequence lies between its minimum and its
/// maximum.
pub proof fn lemma_seq_min_max_bounds(s: Seq<u64>, i: int)
    requires
        0 <= i < s.len(),
    ensures
        seq_min(s) <= s[i] <= seq_max(s),
    decreases s.len(),
{
    if s.len() > 1 && i > 0 {
        lemma_seq_min_max_bounds(s.drop_first(), i - 1);
    }
}

/// The order on recorded values.
pub open spec fn u64_leq() -> spec_fn(u64, u64) -> bool {
    |a: u64, b: u64| a <= b
}

/// The order on recorded values is total.
pub proof fn lemma_u64_leq_total_ordering()
    ensures
        total_ordering(u64_leq()),
{
}

/// The rank queried for the `p`-th percentile of `len` values: the position
/// `len * p / 100` in the sorted order, capped at the last one.
pub open spec fn percentile_rank(len: nat, p: u64) -> int
    recommends
        len > 0,
{
    let raw = (len * p) / 100;
    if raw >= len - 1 {
        len - 1
    } else {
        raw as int
    }
}

/// A histogram cell: one window's values for one key, with their count,
/// minimum and maximum tracked exactly.
pub struct HistogramWrapper {
    /// The least recorded value; `u64::MAX` when the cell is empty.
    pub min: u64,
    /// The greatest recorded value; zero when the cell is empty.
    pub max: u64,
    /// The recorded values, in recording order.
    pub values: Vec<u64>,
    /// The precision class of the pool bucket this cell belongs to.
    pub sig_fig: SigFig,
}

impl HistogramWrapper {
    /// The tracked extrema agree with the recorded values.
    pub open spec fn wf(&self) -> bool {
        &&& self.values@.len() == 0 ==> self.min == u64::MAX && self.max == 0
        &&& self.values@.len() > 0 ==> self.min == seq_min(self.values@) && self.max == seq_max(
            self.values@,
        )
    }

    /// An empty cell of the given precision class.
    pub fn new(sig_fig: SigFig) -> (r: Self)
        ensures
            r.wf(),
            r.values@.len() == 0,
            r.sig_fig == sig_fig,
    {
        HistogramWrapper { min: u64::MAX, max: 0, values: Vec::new(), sig_fig }
    }

    /// Clears the cell for reuse; the precision class is kept.
    pub fn reset(&mut self)
        ensures
            final(self).wf(),
            final(self).values@.len() == 0,
            final(self).sig_fig == old(self).sig_fig,
    {
        self.min = u64::MAX;
        self.max = 0;
        self.values.clear();
    }

    /// Records one value: the count grows by one and the extrema absorb the
    /// value.
    pub fn record(&mut self, value: u64)
        requires
            old(self).wf(),
        ensures
            final(self).wf(),
            final(self).values@ == old(self).values@.push(value),
            final(self).sig_fig == old(self).sig_fig,
            final(self).min == if value < old(self).min {
                value
            } else {
                old(self).min
            },
            final(self).max == if value > old(self).max {
                value
            } else {
                old(self).max
            },
    {
        proof {
            if self.values@.len() > 0 {
                lemma_seq_min_max_push(self.values@, value);
            }
        }
        if value < self.min {
            self.min = value;
        }
        if value > self.max {
            self.max = value;
        }
        self.values.push(value);
    }

    /// The number of values recorded since the last reset.
    pub fn count(&self) -> (r: u64)
        ensures
            r == self.values@.len(),
    {
        self.values.len() as u64
    }

    /// The recorded value of the given percentile rank: the value at
    /// position [`percentile_rank`] of the sorted recording order.  The
    /// result is always one of the recorded values.
    pub fn value_at_percentile(&self, p: u64) -> (r: u64)
        requires
            self.values@.len() > 0,
            p <= 100,
        ensures
            r == self.values@.sort_by(u64_leq())[percentile_rank(self.values@.len(), p)],
            self.values@.contains(r),
    {
        proof {
            lemma_u64_leq_total_ordering();
            self.values@.lemma_sort_by_ensures(u64_leq());
        }
        let len = self.values.len();
        let mut tmp: Vec<u64> = Vec::new();
        let mut i: usize = 0;
        while i < len
            invariant
                len == self.values@.len(),
                i <= len,
                tmp@ == self.values@.subrange(0, i as int),
            decreases len - i,
        {
            tmp.push(self.values[i]);
            proof {
                assert(tmp@ =~= self.values@.subrange(0, i + 1));
            }
            i = i + 1;
        }
        proof {
            assert(tmp@ =~= self.values@);
        }
        sort_values(&mut tmp);
        proof {
            broadcast use vstd::seq_lib::group_to_multiset_ensures;

            lemma_sorted_unique(tmp@, self.values@.sort_by(u64_leq()), u64_leq());
            assert(tmp@.len() == tmp@.to_multiset().len());
            assert(self.values@.len() == self.values@.to_multiset().len());
            assert((len as u128) * (p as u128) <= 0xffff_ffff_ffff_ffffu128 * 100)
                by (nonlinear_arith)
                requires
                    len as u128 <= 0xffff_ffff_ffff_ffffu128,
                    p as u128 <= 100,
            ;
        }
        let rawk: u128 = (len as u128) * (p as u128) / 100;
        let idx: usize = if rawk >= (len - 1) as u128 {
            len - 1
        } else {
            rawk as usize
        };
        let r = tmp[idx];
        proof {
            broadcast use vstd::seq_lib::group_to_multiset_ensures;

            assert(idx == percentile_rank(self.values@.len(), p));
            assert(tmp@[idx as int] == r);
            assert(tmp@.contains(r));
            assert(tmp@.to_multiset().count(r) > 0);
            assert(self.values@.to_multiset().count(r) > 0);
        }
        r
    }
}

/// Sorts recorded values ascending.
fn sort_values(values: &mut Vec<u64>)
    ensures
        sorted_by(final(values)@, u64_leq()),
        final(values)@.to_multiset() == old(values)@.to_multiset(),
{
    broadcast use vstd::seq_lib::group_to_multiset_ensures;

    let ghost orig = old(values)@;
    let mut out: Vec<u64> = Vec::new();
    proof {
        assert(out@.to_multiset().add(values@.to_multiset()) =~= orig.to_multiset());
    }
    while values.len() > 0
        invariant
            sorted_by(out@, u64_leq()),
            out@.to_multiset().add(values@.to_multiset()) == orig.to_multiset(),
            forall|i: int, j: int|
                0 <= i < out@.len() && 0 <= j < values@.len() ==> #[trigger] out@[i]
                    <= #[trigger] values@[j],
        decreases values.len(),
    {
        let mut m: usize = 0;
        let mut j: usize = 1;
        while j < values.len()
            invariant
                m < j,
                j <= values@.len(),
                forall|k: int| 0 <= k < j ==> values@[m as int] <= #[trigger] values@[k],
            decreases values@.len() - j,
        {
            if values[j] < values[m] {
                m = j;
            }
            j = j + 1;
        }
        let ghost pre = values@;
        let x = values.remove(m);
        proof {
            vstd::seq_lib::to_multiset_build(out@, x);
            vstd::seq_lib::to_multiset_remove(pre, m as int);
            pre.to_multiset_ensures();
            broadcast use vstd::multiset::group_multiset_axioms;

            assert(pre[m as int] == x);
            assert(pre.contains(x));
            assert(pre.to_multiset().count(x) > 0);
            assert(out@.push(x).to_multiset() == out@.to_multiset().insert(x));
            assert(values@.to_multiset() == pre.to_multiset().remove(x));
            assert(out@.push(x).to_multiset().add(values@.to_multiset()) =~= out@.to_multiset().add(
                pre.to_multiset(),
            ));
        }
        let ghost opre = out@;
        out.push(x);
        proof {
            assert forall|i: int, j: int|
                0 <= i < out@.len() && 0 <= j < out@.len() && i < j implies out@[i] <= out@[j] by {
                if j < out@.len() - 1 {
                    assert(u64_leq()(opre[i], opre[j]));
                } else {
                    assert(out@[j] == pre[m as int]);
                    assert(opre[i] <= pre[m as int]);
                }
            }
            assert(sorted_by(out@, u64_leq()));
            assert forall|i: int, j: int|
                0 <= i < out@.len() && 0 <= j < values@.len() implies #[trigger] out@[i]
                <= #[trigger] values@[j] by {
                let jj = if j < m { j } else { j + 1 };
                assert(values@[j] == pre[jj]);
                if i == out@.len() - 1 {
                    assert(out@[i] == pre[m as int]);
                    assert(pre[m as int] <= pre[jj]);
                } else {
                    assert(opre[i] <= pre[jj]);
                }
            }
        }
    }
    *values = out;
}

} // verus!
