//! The flush pass: rendering one drained window into wire lines.
//!
//! Each map is walked in entry order.  An entry with a contribution is
//! rendered (lines that would not fit in a datagram by themselves are
//! dropped), its value is reset, and it is retained; an entry without one is
//! evicted.  Evicted histogram cells go back to the pool of their precision
//! class.

use crate::aggregator::{entries_wf, keys_wf, lookup, Aggregator, GaugeState, MetricType};
use crate::fmt::dec_chars;
use crate::hist::{percentile_rank, seq_max, seq_min, u64_leq, HistogramWrapper};
use crate::key::{AggregatorEntryKey, KeyView};
use crate::tags::{cow_str, join_tags};
use crate::writer::{byte_len, line_bytes, line_chars, strs_views, StatsWriterSimple};
use vstd::prelude::*;

verus! {

/// One wire line, or nothing when the line alone would exceed the packet
/// size: such a line is dropped, never sent truncated.
pub open spec fn fitting_line(
    prefix: Seq<char>,
    max: nat,
    metrics: Seq<Seq<char>>,
    tags: Seq<char>,
    value: Seq<char>,
    mtype: Seq<char>,
) -> Seq<char> {
    if line_bytes(prefix, metrics, tags, value, mtype) <= max {
        line_chars(prefix, metrics, tags, value, mtype)
    } else {
        Seq::empty()
    }
}

/// What one counter entry emits: its line when the total is nonzero,
/// nothing otherwise.
pub open spec fn count_entry_lines(
    prefix: Seq<char>,
    max: nat,
    k: AggregatorEntryKey,
    v: u64,
) -> Seq<char> {
    if v > 0 {
        fitting_line(
            prefix,
            max,
            seq![k.metric@],
            join_tags(k.tags.views()),
            dec_chars(v),
            "c"@,
        )
    } else {
        Seq::empty()
    }
}

/// What a counter map emits, in entry order.
pub open spec fn count_lines(
    prefix: Seq<char>,
    max: nat,
    s: Seq<(AggregatorEntryKey, u64)>,
) -> Seq<char>
    decreases s.len(),
{
    if s.len() == 0 {
        Seq::empty()
    } else {
        count_lines(prefix, max, s.drop_last()) + count_entry_lines(
            prefix,
            max,
            s.last().0,
            s.last().1,
        )
    }
}

/// The emitted value of a gauge: the average of the recorded values,
/// rounded down.
pub open spec fn gauge_avg(g: GaugeState) -> u64
    recommends
        g.count > 0,
{
    (g.sum / g.count) as u64
}

/// What one gauge entry emits: the average when anything was recorded,
/// nothing otherwise.
pub open spec fn gauge_entry_lines(
    prefix: Seq<char>,
    max: nat,
    k: AggregatorEntryKey,
    g: GaugeState,
) -> Seq<char> {
    if g.count > 0 {
        fitting_line(
            prefix,
            max,
            seq![k.metric@],
            join_tags(k.tags.views()),
            dec_chars(gauge_avg(g)),
            "g"@,
        )
    } else {
        Seq::empty()
    }
}

/// What a gauge map emits, in entry order.
pub open spec fn gauge_lines(
    prefix: Seq<char>,
    max: nat,
    s: Seq<(AggregatorEntryKey, GaugeState)>,
) -> Seq<char>
    decreases s.len(),
{
    if s.len() == 0 {
        Seq::empty()
    } else {
        gauge_lines(prefix, max, s.drop_last()) + gauge_entry_lines(
            prefix,
            max,
            s.last().0,
            s.last().1,
        )
    }
}

/// What one histogram entry emits when anything was recorded: five derived
/// lines — the exact count and minimum, the median as the average, the
/// 99th percentile, and the exact maximum.
pub open spec fn hist_entry_lines(
    prefix: Seq<char>,
    max: nat,
    k: AggregatorEntryKey,
    c: HistogramWrapper,
) -> Seq<char> {
    if c.values@.len() == 0 {
        Seq::empty()
    } else {
        let tags = join_tags(k.tags.views());
        let sorted = c.values@.sort_by(u64_leq());
        let cnt = c.values@.len() as u64;
        let p50 = sorted[percentile_rank(c.values@.len(), 50)];
        let p99 = sorted[percentile_rank(c.values@.len(), 99)];
        fitting_line(prefix, max, seq![k.metric@, ".count"@], tags, dec_chars(cnt), "c"@)
            + fitting_line(
            prefix,
            max,
            seq![k.metric@, ".min"@],
            tags,
            dec_chars(seq_min(c.values@)),
            "g"@,
        ) + fitting_line(prefix, max, seq![k.metric@, ".avg"@], tags, dec_chars(p50), "g"@)
            + fitting_line(
            prefix,
            max,
            seq![k.metric@, ".99percentile"@],
            tags,
            dec_chars(p99),
            "g"@,
        ) + fitting_line(
            prefix,
            max,
            seq![k.metric@, ".max"@],
            tags,
            dec_chars(seq_max(c.values@)),
            "g"@,
        )
    }
}

/// What a histogram map emits, in entry order.
pub open spec fn hist_lines(
    prefix: Seq<char>,
    max: nat,
    s: Seq<(AggregatorEntryKey, HistogramWrapper)>,
) -> Seq<char>
    decreases s.len(),
{
    if s.len() == 0 {
        Seq::empty()
    } else {
        hist_lines(prefix, max, s.drop_last()) + hist_entry_lines(
            prefix,
            max,
            s.last().0,
            s.last().1,
        )
    }
}


/// Writes one wire line and accounts for it: the line lands in the emitted
/// stream exactly when it fits in a datagram by itself.
fn emit_line(
    writer: &mut StatsWriterSimple,
    segs: &Vec<&str>,
    tags: &str,
    value: &str,
    mtype: &str,
)
    requires
        old(writer).wf(),
    ensures
        final(writer).wf(),
        final(writer).prefix() == old(writer).prefix(),
        final(writer).max_size() == old(writer).max_size(),
        final(writer).emitted() == old(writer).emitted() + fitting_line(
            old(writer).prefix(),
            old(writer).max_size(),
            strs_views(segs@),
            tags@,
            value@,
            mtype@,
        ),
{
    let _ = writer.write(segs.as_slice(), tags, value, mtype);
    proof {
        let line = line_chars(old(writer).prefix(), strs_views(segs@), tags@, value@, mtype@);
        if byte_len(line) > old(writer).max_size() {
            assert(final(writer).emitted() =~= old(writer).emitted() + fitting_line(
                old(writer).prefix(),
                old(writer).max_size(),
                strs_views(segs@),
                tags@,
                value@,
                mtype@,
            ));
        } else {
            assert(final(writer).emitted() =~= old(writer).emitted() + fitting_line(
                old(writer).prefix(),
                old(writer).max_size(),
                strs_views(segs@),
                tags@,
                value@,
                mtype@,
            ));
        }
    }
}

/// Writes the line of one contributing counter entry.
fn emit_count_entry(writer: &mut StatsWriterSimple, key: &AggregatorEntryKey, v: u64)
    requires
        old(writer).wf(),
        key.wf(),
        v > 0,
    ensures
        final(writer).wf(),
        final(writer).prefix() == old(writer).prefix(),
        final(writer).max_size() == old(writer).max_size(),
        final(writer).emitted() == old(writer).emitted() + count_entry_lines(
            old(writer).prefix(),
            old(writer).max_size(),
            *key,
            v,
        ),
{
    let mut segs: Vec<&str> = Vec::new();
    segs.push(cow_str(&key.metric));
    let value_str = crate::fmt::u64_to_string(v);
    proof {
        assert(strs_views(segs@) =~= seq![key.metric@]);
    }
    emit_line(
        writer,
        &segs,
        cow_str(&key.tags.joined_tags),
        value_str.as_str(),
        MetricType::Count.type_str(),
    );
}

/// Renders a counter map: entries with a nonzero total emit their line and
/// are retained with the total reset to zero; the rest are evicted.
#[verifier::rlimit(60)]
pub fn process_count(writer: &mut StatsWriterSimple, entries: &mut Vec<(AggregatorEntryKey, u64)>)
    requires
        old(writer).wf(),
        entries_wf(old(entries)@),
    ensures
        final(writer).wf(),
        final(writer).prefix() == old(writer).prefix(),
        final(writer).max_size() == old(writer).max_size(),
        final(writer).emitted() == old(writer).emitted() + count_lines(
            old(writer).prefix(),
            old(writer).max_size(),
            old(entries)@,
        ),
        entries_wf(final(entries)@),
        forall|kv: KeyView|
            #[trigger] lookup(final(entries)@, kv) == (match lookup(old(entries)@, kv) {
                Some(v) => if v > 0 {
                    Some(0u64)
                } else {
                    None
                },
                None => None,
            }),
{
    let ghost orig = old(entries)@;
    let ghost prefix = old(writer).prefix();
    let ghost max = old(writer).max_size();
    let ghost emitted0 = old(writer).emitted();
    let mut kept: Vec<(AggregatorEntryKey, u64)> = Vec::new();
    let ghost mut done: int = 0;
    proof {
        assert(orig.take(0) =~= Seq::<(AggregatorEntryKey, u64)>::empty());
        assert(count_lines(prefix, max, orig.take(0)) =~= Seq::<char>::empty());
        assert(emitted0 + count_lines(prefix, max, orig.take(0)) =~= emitted0);
        assert forall|kv: KeyView|
            #[trigger] lookup(kept@, kv) == (match lookup(orig.take(0), kv) {
                Some(v) => if v > 0 {
                    Some(0u64)
                } else {
                    None
                },
                None => None,
            }) by {
            assert(lookup(kept@, kv) is None);
            assert(lookup(orig.take(0), kv) is None);
        }
    }
    while entries.len() > 0
        invariant
            0 <= done <= orig.len(),
            entries@ == orig.skip(done),
            entries_wf(orig),
            writer.wf(),
            writer.prefix() == prefix,
            writer.max_size() == max,
            writer.emitted() == emitted0 + count_lines(prefix, max, orig.take(done)),
            entries_wf(kept@),
            forall|kv: KeyView|
                #[trigger] lookup(kept@, kv) == (match lookup(orig.take(done), kv) {
                    Some(v) => if v > 0 {
                        Some(0u64)
                    } else {
                        None
                    },
                    None => None,
                }),
        decreases entries@.len(),
    {
        let e = entries.remove(0);
        proof {
            assert(orig.skip(done)[0] == orig[done]);
            assert(orig.skip(done).remove(0) =~= orig.skip(done + 1));
            assert(orig.take(done + 1).drop_last() =~= orig.take(done));
            assert(orig.take(done + 1).last() == orig[done]);
            assert(orig.take(done + 1) =~= orig.take(done).push(orig[done]));
        }
        let ghost kv = e.0.key_view();
        proof {
            assert forall|j: int| 0 <= j < done implies (#[trigger] orig.take(done)[j]).0.key_view()
                != kv by {
                assert(orig[j].0.key_view() != orig[done].0.key_view());
            }
            crate::aggregator::lemma_lookup_absent(orig.take(done), kv);
            crate::collector::lemma_lookup_none_absent(kept@, kv);
        }
        if e.1 > 0 {
            emit_count_entry(writer, &e.0, e.1);
            proof {
                assert(writer.emitted() =~= emitted0 + count_lines(prefix, max, orig.take(done + 1)));
            }
            let ghost kpre = kept@;
            kept.push((e.0, 0u64));
            proof {
                assert forall|kv2: KeyView|
                    #[trigger] lookup(kept@, kv2) == (match lookup(orig.take(done + 1), kv2) {
                        Some(v) => if v > 0 {
                            Some(0u64)
                        } else {
                            None
                        },
                        None => None,
                    }) by {
                    crate::aggregator::lemma_lookup_push(kpre, (orig[done].0, 0u64), kv2);
                    crate::aggregator::lemma_lookup_push(orig.take(done), orig[done], kv2);
                }
                assert(keys_wf(kept@));
                assert forall|a: int, b: int|
                    0 <= a < b < kept@.len() implies (#[trigger] kept@[a]).0.key_view() != (
                #[trigger] kept@[b]).0.key_view() by {
                    if b == kept@.len() - 1 {
                        assert(kept@[a] == kpre[a]);
                    } else {
                        assert(kept@[a] == kpre[a]);
                        assert(kept@[b] == kpre[b]);
                    }
                }
            }
        } else {
            proof {
                assert(count_entry_lines(prefix, max, orig[done].0, orig[done].1) =~= Seq::<
                    char,
                >::empty());
                assert(writer.emitted() =~= emitted0 + count_lines(prefix, max, orig.take(done + 1)));
                assert forall|kv2: KeyView|
                    #[trigger] lookup(kept@, kv2) == (match lookup(orig.take(done + 1), kv2) {
                        Some(v) => if v > 0 {
                            Some(0u64)
                        } else {
                            None
                        },
                        None => None,
                    }) by {
                    crate::aggregator::lemma_lookup_push(orig.take(done), orig[done], kv2);
                }
            }
        }
        proof {
            done = done + 1;
        }
    }
    proof {
        assert(orig.take(done) =~= orig);
    }
    let mut kept = kept;
    std::mem::swap(entries, &mut kept);
}

/// Writes the line of one contributing gauge entry: the average of the
/// window's values, rounded down.
fn emit_gauge_entry(writer: &mut StatsWriterSimple, key: &AggregatorEntryKey, sum: u64, count: u64)
    requires
        old(writer).wf(),
        key.wf(),
        count > 0,
    ensures
        final(writer).wf(),
        final(writer).prefix() == old(writer).prefix(),
        final(writer).max_size() == old(writer).max_size(),
        final(writer).emitted() == old(writer).emitted() + gauge_entry_lines(
            old(writer).prefix(),
            old(writer).max_size(),
            *key,
            (GaugeState { sum, count }),
        ),
{
    let mut segs: Vec<&str> = Vec::new();
    segs.push(cow_str(&key.metric));
    let avg = sum / count;
    let value_str = crate::fmt::u64_to_string(avg);
    proof {
        assert(strs_views(segs@) =~= seq![key.metric@]);
        assert(avg == gauge_avg(GaugeState { sum, count }));
    }
    emit_line(
        writer,
        &segs,
        cow_str(&key.tags.joined_tags),
        value_str.as_str(),
        MetricType::Gauge.type_str(),
    );
}

/// Renders a gauge map: entries with at least one recorded value emit their
/// average and are retained zeroed; the rest are evicted.
#[verifier::rlimit(60)]
pub fn process_gauge(
    writer: &mut StatsWriterSimple,
    entries: &mut Vec<(AggregatorEntryKey, GaugeState)>,
)
    requires
        old(writer).wf(),
        entries_wf(old(entries)@),
    ensures
        final(writer).wf(),
        final(writer).prefix() == old(writer).prefix(),
        final(writer).max_size() == old(writer).max_size(),
        final(writer).emitted() == old(writer).emitted() + gauge_lines(
            old(writer).prefix(),
            old(writer).max_size(),
            old(entries)@,
        ),
        entries_wf(final(entries)@),
        forall|kv: KeyView|
            #[trigger] lookup(final(entries)@, kv) == (match lookup(old(entries)@, kv) {
                Some(g) => if g.count > 0 {
                    Some((GaugeState { sum: 0, count: 0 }))
                } else {
                    None
                },
                None => None,
            }),
{
    let ghost orig = old(entries)@;
    let ghost prefix = old(writer).prefix();
    let ghost max = old(writer).max_size();
    let ghost emitted0 = old(writer).emitted();
    let mut kept: Vec<(AggregatorEntryKey, GaugeState)> = Vec::new();
    let ghost mut done: int = 0;
    proof {
        assert(orig.take(0) =~= Seq::<(AggregatorEntryKey, GaugeState)>::empty());
        assert(gauge_lines(prefix, max, orig.take(0)) =~= Seq::<char>::empty());
        assert(emitted0 + gauge_lines(prefix, max, orig.take(0)) =~= emitted0);
        assert forall|kv: KeyView|
            #[trigger] lookup(kept@, kv) == (match lookup(orig.take(0), kv) {
                Some(g) => if g.count > 0 {
                    Some((GaugeState { sum: 0, count: 0 }))
                } else {
                    None
                },
                None => None,
            }) by {
            assert(lookup(kept@, kv) is None);
            assert(lookup(orig.take(0), kv) is None);
        }
    }
    while entries.len() > 0
        invariant
            0 <= done <= orig.len(),
            entries@ == orig.skip(done),
            entries_wf(orig),
            writer.wf(),
            writer.prefix() == prefix,
            writer.max_size() == max,
            writer.emitted() == emitted0 + gauge_lines(prefix, max, orig.take(done)),
            entries_wf(kept@),
            forall|kv: KeyView|
                #[trigger] lookup(kept@, kv) == (match lookup(orig.take(done), kv) {
                    Some(g) => if g.count > 0 {
                        Some((GaugeState { sum: 0, count: 0 }))
                    } else {
                        None
                    },
                    None => None,
                }),
        decreases entries@.len(),
    {
        let e = entries.remove(0);
        proof {
            assert(orig.skip(done)[0] == orig[done]);
            assert(orig.skip(done).remove(0) =~= orig.skip(done + 1));
            assert(orig.take(done + 1).drop_last() =~= orig.take(done));
            assert(orig.take(done + 1).last() == orig[done]);
            assert(orig.take(done + 1) =~= orig.take(done).push(orig[done]));
        }
        let ghost kv = e.0.key_view();
        proof {
            assert forall|j: int| 0 <= j < done implies (#[trigger] orig.take(done)[j]).0.key_view()
                != kv by {
                assert(orig[j].0.key_view() != orig[done].0.key_view());
            }
            crate::aggregator::lemma_lookup_absent(orig.take(done), kv);
            crate::collector::lemma_lookup_none_absent(kept@, kv);
        }
        if e.1.count > 0 {
            emit_gauge_entry(writer, &e.0, e.1.sum, e.1.count);
            proof {
                assert(GaugeState { sum: e.1.sum, count: e.1.count } == orig[done].1);
                assert(writer.emitted() =~= emitted0 + gauge_lines(prefix, max, orig.take(done + 1)));
            }
            let ghost kpre = kept@;
            kept.push((e.0, GaugeState { sum: 0, count: 0 }));
            proof {
                assert forall|kv2: KeyView|
                    #[trigger] lookup(kept@, kv2) == (match lookup(orig.take(done + 1), kv2) {
                        Some(g) => if g.count > 0 {
                            Some((GaugeState { sum: 0, count: 0 }))
                        } else {
                            None
                        },
                        None => None,
                    }) by {
                    crate::aggregator::lemma_lookup_push(
                        kpre,
                        (orig[done].0, GaugeState { sum: 0, count: 0 }),
                        kv2,
                    );
                    crate::aggregator::lemma_lookup_push(orig.take(done), orig[done], kv2);
                }
                assert(keys_wf(kept@));
                assert forall|a: int, b: int|
                    0 <= a < b < kept@.len() implies (#[trigger] kept@[a]).0.key_view() != (
                #[trigger] kept@[b]).0.key_view() by {
                    if b == kept@.len() - 1 {
                        assert(kept@[a] == kpre[a]);
                    } else {
                        assert(kept@[a] == kpre[a]);
                        assert(kept@[b] == kpre[b]);
                    }
                }
            }
        } else {
            proof {
                assert(gauge_entry_lines(prefix, max, orig[done].0, orig[done].1) =~= Seq::<
                    char,
                >::empty());
                assert(writer.emitted() =~= emitted0 + gauge_lines(prefix, max, orig.take(done + 1)));
                assert forall|kv2: KeyView|
                    #[trigger] lookup(kept@, kv2) == (match lookup(orig.take(done + 1), kv2) {
                        Some(g) => if g.count > 0 {
                            Some((GaugeState { sum: 0, count: 0 }))
                        } else {
                            None
                        },
                        None => None,
                    }) by {
                    crate::aggregator::lemma_lookup_push(orig.take(done), orig[done], kv2);
                }
            }
        }
        proof {
            done = done + 1;
        }
    }
    proof {
        assert(orig.take(done) =~= orig);
    }
    let mut kept = kept;
    std::mem::swap(entries, &mut kept);
}

/// Writes the five lines of one contributing histogram entry: count,
/// minimum, average, 99th percentile, maximum.
#[verifier::rlimit(100)]
fn emit_hist_entry(writer: &mut StatsWriterSimple, key: &AggregatorEntryKey, cell: &HistogramWrapper)
    requires
        old(writer).wf(),
        key.wf(),
        cell.wf(),
        cell.values@.len() > 0,
    ensures
        final(writer).wf(),
        final(writer).prefix() == old(writer).prefix(),
        final(writer).max_size() == old(writer).max_size(),
        final(writer).emitted() == old(writer).emitted() + hist_entry_lines(
            old(writer).prefix(),
            old(writer).max_size(),
            *key,
            *cell,
        ),
{
    let ghost prefix = old(writer).prefix();
    let ghost max = old(writer).max_size();
    let ghost tags = join_tags(key.tags.views());
    let metric_str = cow_str(&key.metric);
    let tags_str = cow_str(&key.tags.joined_tags);
    let cnt = cell.count();
    let mn = cell.min;
    let mx = cell.max;
    let p50 = cell.value_at_percentile(50);
    let p99 = cell.value_at_percentile(99);

    let ghost e0 = writer.emitted();
    let mut segs: Vec<&str> = Vec::new();
    segs.push(metric_str);
    segs.push(".count");
    proof {
        assert(strs_views(segs@) =~= seq![key.metric@, ".count"@]);
    }
    let value_str = crate::fmt::u64_to_string(cnt);
    emit_line(writer, &segs, tags_str, value_str.as_str(), MetricType::Count.type_str());
    let ghost l1 = fitting_line(
        prefix,
        max,
        seq![key.metric@, ".count"@],
        tags,
        dec_chars(cell.values@.len() as u64),
        "c"@,
    );

    let mut segs: Vec<&str> = Vec::new();
    segs.push(metric_str);
    segs.push(".min");
    proof {
        assert(strs_views(segs@) =~= seq![key.metric@, ".min"@]);
    }
    let value_str = crate::fmt::u64_to_string(mn);
    emit_line(writer, &segs, tags_str, value_str.as_str(), MetricType::Gauge.type_str());
    let ghost l2 = fitting_line(
        prefix,
        max,
        seq![key.metric@, ".min"@],
        tags,
        dec_chars(seq_min(cell.values@)),
        "g"@,
    );

    let mut segs: Vec<&str> = Vec::new();
    segs.push(metric_str);
    segs.push(".avg");
    proof {
        assert(strs_views(segs@) =~= seq![key.metric@, ".avg"@]);
    }
    let value_str = crate::fmt::u64_to_string(p50);
    emit_line(writer, &segs, tags_str, value_str.as_str(), MetricType::Gauge.type_str());
    let ghost l3 = fitting_line(
        prefix,
        max,
        seq![key.metric@, ".avg"@],
        tags,
        dec_chars(cell.values@.sort_by(u64_leq())[percentile_rank(cell.values@.len(), 50)]),
        "g"@,
    );

    let mut segs: Vec<&str> = Vec::new();
    segs.push(metric_str);
    segs.push(".99percentile");
    proof {
        assert(strs_views(segs@) =~= seq![key.metric@, ".99percentile"@]);
    }
    let value_str = crate::fmt::u64_to_string(p99);
    emit_line(writer, &segs, tags_str, value_str.as_str(), MetricType::Gauge.type_str());
    let ghost l4 = fitting_line(
        prefix,
        max,
        seq![key.metric@, ".99percentile"@],
        tags,
        dec_chars(cell.values@.sort_by(u64_leq())[percentile_rank(cell.values@.len(), 99)]),
        "g"@,
    );

    let mut segs: Vec<&str> = Vec::new();
    segs.push(metric_str);
    segs.push(".max");
    proof {
        assert(strs_views(segs@) =~= seq![key.metric@, ".max"@]);
    }
    let value_str = crate::fmt::u64_to_string(mx);
    emit_line(writer, &segs, tags_str, value_str.as_str(), MetricType::Gauge.type_str());
    let ghost l5 = fitting_line(
        prefix,
        max,
        seq![key.metric@, ".max"@],
        tags,
        dec_chars(seq_max(cell.values@)),
        "g"@,
    );

    proof {
        assert(writer.emitted() =~= e0 + l1 + l2 + l3 + l4 + l5);
        assert(hist_entry_lines(prefix, max, *key, *cell) == l1 + l2 + l3 + l4 + l5);
        assert(writer.emitted() =~= old(writer).emitted() + hist_entry_lines(
            prefix,
            max,
            *key,
            *cell,
        ));
    }
}

/// Renders a histogram map: entries with recorded values emit their five
/// derived lines and are retained with a cleared cell; the rest are evicted
/// and their cells return to the pool of their precision class.
#[verifier::rlimit(60)]
pub fn process_histogram(writer: &mut StatsWriterSimple, agg: &mut Aggregator)
    requires
        old(writer).wf(),
        old(agg).wf(),
    ensures
        final(writer).wf(),
        final(writer).prefix() == old(writer).prefix(),
        final(writer).max_size() == old(writer).max_size(),
        final(writer).emitted() == old(writer).emitted() + hist_lines(
            old(writer).prefix(),
            old(writer).max_size(),
            old(agg).histograms@,
        ),
        final(agg).wf(),
        final(agg).count == old(agg).count,
        final(agg).gauge == old(agg).gauge,
        forall|kv: KeyView|
            #[trigger] crate::aggregator::hist_values_of(final(agg).histograms@, kv) == (
            match crate::aggregator::hist_values_of(old(agg).histograms@, kv) {
                Some(vs) => if vs.len() > 0 {
                    Some(Seq::<u64>::empty())
                } else {
                    None
                },
                None => None,
            }),
        forall|kv: KeyView|
            (match crate::aggregator::hist_values_of(old(agg).histograms@, kv) {
                Some(vs) => vs.len() > 0,
                None => false,
            }) ==> #[trigger] crate::aggregator::hist_sig_of(final(agg).histograms@, kv)
                == crate::aggregator::hist_sig_of(old(agg).histograms@, kv),
{
    let mut entries: Vec<(AggregatorEntryKey, HistogramWrapper)> = Vec::new();
    std::mem::swap(&mut entries, &mut agg.histograms);
    let ghost orig = entries@;
    let ghost prefix = old(writer).prefix();
    let ghost max = old(writer).max_size();
    let ghost emitted0 = old(writer).emitted();
    let mut kept: Vec<(AggregatorEntryKey, HistogramWrapper)> = Vec::new();
    let ghost mut done: int = 0;
    proof {
        assert(orig.take(0) =~= Seq::<(AggregatorEntryKey, HistogramWrapper)>::empty());
        assert(hist_lines(prefix, max, orig.take(0)) =~= Seq::<char>::empty());
        assert(emitted0 + hist_lines(prefix, max, orig.take(0)) =~= emitted0);
        assert forall|kv: KeyView| #[trigger] lookup(kept@, kv) is None && lookup(
            orig.take(0),
            kv,
        ) is None by {
            assert(lookup(kept@, kv) is None);
            assert(lookup(orig.take(0), kv) is None);
        }
    }
    while entries.len() > 0
        invariant
            0 <= done <= orig.len(),
            entries@ == orig.skip(done),
            entries_wf(orig),
            forall|i: int| 0 <= i < orig.len() ==> (#[trigger] orig[i]).1.wf(),
            writer.wf(),
            writer.prefix() == prefix,
            writer.max_size() == max,
            writer.emitted() == emitted0 + hist_lines(prefix, max, orig.take(done)),
            entries_wf(kept@),
            forall|i: int|
                0 <= i < kept@.len() ==> (#[trigger] kept@[i]).1.wf() && kept@[i].1.values@.len()
                    == 0,
            forall|kv: KeyView|
                #[trigger] lookup(kept@, kv) is Some == (match lookup(orig.take(done), kv) {
                    Some(c) => c.values@.len() > 0,
                    None => false,
                }),
            forall|kv: KeyView|
                (match lookup(orig.take(done), kv) {
                    Some(c) => c.values@.len() > 0,
                    None => false,
                }) ==> (#[trigger] lookup(kept@, kv))->0.sig_fig == lookup(
                    orig.take(done),
                    kv,
                )->0.sig_fig,
            agg.count == old(agg).count,
            agg.gauge == old(agg).gauge,
            agg.pools_wf(),
            agg.histograms@.len() == 0,
        decreases entries@.len(),
    {
        let e = entries.remove(0);
        proof {
            assert(orig.skip(done)[0] == orig[done]);
            assert(orig.skip(done).remove(0) =~= orig.skip(done + 1));
            assert(orig.take(done + 1).drop_last() =~= orig.take(done));
            assert(orig.take(done + 1).last() == orig[done]);
            assert(orig.take(done + 1) =~= orig.take(done).push(orig[done]));
        }
        let ghost kv = e.0.key_view();
        proof {
            assert forall|j: int| 0 <= j < done implies (#[trigger] orig.take(done)[j]).0.key_view()
                != kv by {
                assert(orig[j].0.key_view() != orig[done].0.key_view());
            }
            crate::aggregator::lemma_lookup_absent(orig.take(done), kv);
            crate::collector::lemma_lookup_none_absent(kept@, kv);
        }
        let cnt = e.1.count();
        if cnt > 0 {
            emit_hist_entry(writer, &e.0, &e.1);
            proof {
                assert(writer.emitted() =~= emitted0 + hist_lines(prefix, max, orig.take(done + 1)));
            }
            let mut cell = e.1;
            cell.reset();
            let ghost kpre = kept@;
            let ghost newc = cell;
            kept.push((e.0, cell));
            proof {
                assert forall|kv2: KeyView|
                    #[trigger] lookup(kept@, kv2) == (if kv2 == kv {
                        Some(newc)
                    } else {
                        lookup(kpre, kv2)
                    }) by {
                    crate::aggregator::lemma_lookup_push(kpre, (orig[done].0, newc), kv2);
                }
                assert forall|kv2: KeyView|
                    #[trigger] lookup(orig.take(done + 1), kv2) == (if kv2 == kv {
                        Some(orig[done].1)
                    } else {
                        lookup(orig.take(done), kv2)
                    }) by {
                    crate::aggregator::lemma_lookup_push(orig.take(done), orig[done], kv2);
                }
                assert(keys_wf(kept@));
                assert forall|a: int, b: int|
                    0 <= a < b < kept@.len() implies (#[trigger] kept@[a]).0.key_view() != (
                #[trigger] kept@[b]).0.key_view() by {
                    if b == kept@.len() - 1 {
                        assert(kept@[a] == kpre[a]);
                    } else {
                        assert(kept@[a] == kpre[a]);
                        assert(kept@[b] == kpre[b]);
                    }
                }
            }
        } else {
            agg.recycle_histogram(e.1);
            proof {
                assert(hist_entry_lines(prefix, max, orig[done].0, orig[done].1) =~= Seq::<
                    char,
                >::empty());
                assert(writer.emitted() =~= emitted0 + hist_lines(prefix, max, orig.take(done + 1)));
                assert forall|kv2: KeyView|
                    #[trigger] lookup(orig.take(done + 1), kv2) == (if kv2 == kv {
                        Some(orig[done].1)
                    } else {
                        lookup(orig.take(done), kv2)
                    }) by {
                    crate::aggregator::lemma_lookup_push(orig.take(done), orig[done], kv2);
                }
            }
        }
        proof {
            done = done + 1;
        }
    }
    proof {
        assert(orig.take(done) =~= orig);
        assert forall|kv: KeyView| (#[trigger] lookup(kept@, kv)) is Some implies (lookup(
            kept@,
            kv,
        )->0.values@.len() == 0 && lookup(kept@, kv)->0.wf()) by {
            crate::aggregator::lemma_lookup_some_entry(kept@, kv);
        }
    }
    let mut kept = kept;
    std::mem::swap(&mut agg.histograms, &mut kept);
}

} // verus!
