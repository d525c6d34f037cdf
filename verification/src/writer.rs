//! Rendering rollups into the DogStatsD wire format.
//!
//! Each rollup becomes one text line
//! `<prefix><metric>:<value>|<type>[|#<tags>]\n`; lines are packed into
//! datagrams that never exceed the configured packet size.  The writer only
//! assembles datagrams; handing them to a transport is the caller's concern.

use crate::error::MetricsError;
use vstd::prelude::*;
use vstd::string::StringExecFns;
use vstd::utf8::encode_utf8;

verus! {

/// The UTF-8 byte length of a character sequence: what the text occupies in
/// a datagram.
pub open spec fn byte_len(s: Seq<char>) -> nat {
    encode_utf8(s).len()
}

/// UTF-8 encoding distributes over concatenation.
pub proof fn lemma_encode_utf8_concat(a: Seq<char>, b: Seq<char>)
    ensures
        encode_utf8(a + b) == encode_utf8(a) + encode_utf8(b),
    decreases a.len(),
{
    if a.len() == 0 {
        assert(a + b =~= b);
        assert(encode_utf8(a) + encode_utf8(b) =~= encode_utf8(b));
    } else {
        assert((a + b).len() > 0);
        assert((a + b)[0] == a[0]);
        assert((a + b).drop_first() =~= a.drop_first() + b);
        lemma_encode_utf8_concat(a.drop_first(), b);
        assert(encode_utf8(a + b) =~= encode_utf8(a) + encode_utf8(b));
    }
}

/// A nonempty text occupies at least one byte.
pub proof fn lemma_byte_len_positive(s: Seq<char>)
    requires
        s.len() > 0,
    ensures
        byte_len(s) > 0,
{
    assert(encode_utf8(s) == vstd::utf8::encode_scalar(s[0] as u32) + encode_utf8(s.drop_first()));
    assert(vstd::utf8::encode_scalar(s[0] as u32).len() >= 1);
}

/// Byte length adds up over concatenation.
pub proof fn lemma_byte_len_concat(a: Seq<char>, b: Seq<char>)
    ensures
        byte_len(a + b) == byte_len(a) + byte_len(b),
{
    lemma_encode_utf8_concat(a, b);
}

/// The character contents of a slice of string slices.
pub open spec fn strs_views(s: Seq<&str>) -> Seq<Seq<char>> {
    s.map_values(|t: &str| t@)
}

/// The character contents of a sequence of owned strings.
pub open spec fn string_views(s: Seq<String>) -> Seq<Seq<char>> {
    s.map_values(|t: String| t@)
}

/// The total byte length of a sequence of metric name segments.
pub open spec fn segs_bytes(ts: Seq<Seq<char>>) -> nat
    decreases ts.len(),
{
    if ts.len() == 0 {
        0
    } else {
        byte_len(ts[0]) + segs_bytes(ts.drop_first())
    }
}

/// Appending a segment adds its byte length to the total.
pub proof fn lemma_segs_bytes_push(ts: Seq<Seq<char>>, t: Seq<char>)
    ensures
        segs_bytes(ts.push(t)) == segs_bytes(ts) + byte_len(t),
    decreases ts.len(),
{
    if ts.len() == 0 {
        assert(ts.push(t)[0] == t);
        assert(ts.push(t).drop_first() =~= Seq::<Seq<char>>::empty());
        assert(segs_bytes(Seq::<Seq<char>>::empty()) == 0);
        assert(segs_bytes(ts) == 0);
    } else {
        assert(ts.push(t)[0] == ts[0]);
        assert(ts.push(t).drop_first() =~= ts.drop_first().push(t));
        lemma_segs_bytes_push(ts.drop_first(), t);
    }
}

/// The byte length of concatenated segments is the sum of their byte
/// lengths.
pub proof fn lemma_flatten_bytes(ts: Seq<Seq<char>>)
    ensures
        byte_len(ts.flatten()) == segs_bytes(ts),
    decreases ts.len(),
{
    if ts.len() == 0 {
        assert(ts.flatten() =~= Seq::<char>::empty());
    } else {
        assert(ts.flatten() == ts[0] + ts.drop_first().flatten());
        lemma_byte_len_concat(ts[0], ts.drop_first().flatten());
        lemma_flatten_bytes(ts.drop_first());
    }
}

/// One wire line: the prefix, the metric name segments run together, a
/// colon, the value, a bar, the type character, the `|#`-marked joined tags
/// when any tag is present, and a final newline.
pub open spec fn line_chars(
    prefix: Seq<char>,
    metrics: Seq<Seq<char>>,
    tags: Seq<char>,
    value: Seq<char>,
    mtype: Seq<char>,
) -> Seq<char> {
    prefix + metrics.flatten() + seq![':'] + value + seq!['|'] + mtype + (if tags.len() > 0 {
        seq!['|', '#'] + tags
    } else {
        Seq::empty()
    }) + seq!['\n']
}

/// The byte length of a line, part by part.
pub open spec fn line_bytes(
    prefix: Seq<char>,
    metrics: Seq<Seq<char>>,
    tags: Seq<char>,
    value: Seq<char>,
    mtype: Seq<char>,
) -> nat {
    byte_len(line_chars(prefix, metrics, tags, value, mtype))
}

/// A line's byte length is the sum of its parts: the prefix, the segments,
/// the value, the type, three bytes of punctuation, and — when tags are
/// present — the tags and two more marker bytes.
pub proof fn lemma_line_bytes(
    prefix: Seq<char>,
    metrics: Seq<Seq<char>>,
    tags: Seq<char>,
    value: Seq<char>,
    mtype: Seq<char>,
)
    ensures
        line_bytes(prefix, metrics, tags, value, mtype) == byte_len(prefix) + segs_bytes(metrics)
            + byte_len(seq![':']) + byte_len(value) + byte_len(seq!['|']) + byte_len(mtype) + (
        if tags.len() > 0 {
            byte_len(seq!['|', '#']) + byte_len(tags)
        } else {
            0
        }) + byte_len(seq!['\n']),
{
    let tagsec: Seq<char> = if tags.len() > 0 {
        seq!['|', '#'] + tags
    } else {
        Seq::empty()
    };
    lemma_flatten_bytes(metrics);
    lemma_byte_len_concat(prefix, metrics.flatten());
    lemma_byte_len_concat(prefix + metrics.flatten(), seq![':']);
    lemma_byte_len_concat(prefix + metrics.flatten() + seq![':'], value);
    lemma_byte_len_concat(prefix + metrics.flatten() + seq![':'] + value, seq!['|']);
    lemma_byte_len_concat(prefix + metrics.flatten() + seq![':'] + value + seq!['|'], mtype);
    lemma_byte_len_concat(
        prefix + metrics.flatten() + seq![':'] + value + seq!['|'] + mtype,
        tagsec,
    );
    lemma_byte_len_concat(
        prefix + metrics.flatten() + seq![':'] + value + seq!['|'] + mtype + tagsec,
        seq!['\n'],
    );
    if tags.len() > 0 {
        lemma_byte_len_concat(seq!['|', '#'], tags);
    } else {
        assert(byte_len(tagsec) == 0);
    }
}


/// The UTF-8 byte length of a string.
pub fn byte_count(s: &str) -> (r: usize)
    ensures
        r == byte_len(s@),
{
    broadcast use vstd::slice::group_slice_axioms;

    s.as_bytes().len()
}

/// The byte length of the line these parts would form, saturated at
/// `usize::MAX`.  A result above the packet size always means the true
/// length is above it too, since packet sizes are far below the saturation
/// point.
pub fn metric_len(
    prefix: &str,
    metrics: &[&str],
    tags: &str,
    value: &str,
    metric_type: &str,
) -> (r: usize)
    ensures
        ({
            let total = line_bytes(prefix@, strs_views(metrics@), tags@, value@, metric_type@);
            r == if total > usize::MAX {
                usize::MAX as nat
            } else {
                total
            }
        }),
{
    proof {
        reveal_strlit(":");
        reveal_strlit("|");
        reveal_strlit("|#");
        reveal_strlit("\n");
        assert(":"@ =~= seq![':']);
        assert("|"@ =~= seq!['|']);
        assert("|#"@ =~= seq!['|', '#']);
        assert("\n"@ =~= seq!['\n']);
        lemma_line_bytes(prefix@, strs_views(metrics@), tags@, value@, metric_type@);
    }
    let mut acc: usize = byte_count(prefix);
    let n = metrics.len();
    let mut i: usize = 0;
    proof {
        assert(strs_views(metrics@).subrange(0, 0) =~= Seq::<Seq<char>>::empty());
        assert(segs_bytes(Seq::<Seq<char>>::empty()) == 0);
        assert(acc == byte_len(prefix@));
    }
    while i < n
        invariant
            n == metrics@.len(),
            i <= n,
            acc == sat_cap(
                byte_len(prefix@) + segs_bytes(strs_views(metrics@).subrange(0, i as int)),
            ),
        decreases n - i,
    {
        let seg = *vstd::slice::slice_index_get(metrics, i);
        acc = acc.saturating_add(byte_count(seg));
        proof {
            lemma_segs_bytes_push(
                strs_views(metrics@).subrange(0, i as int),
                strs_views(metrics@)[i as int],
            );
            assert(strs_views(metrics@).subrange(0, i + 1) =~= strs_views(metrics@).subrange(
                0,
                i as int,
            ).push(strs_views(metrics@)[i as int]));
        }
        i = i + 1;
    }
    proof {
        assert(strs_views(metrics@).subrange(0, n as int) =~= strs_views(metrics@));
    }
    acc = acc.saturating_add(byte_count(":"));
    acc = acc.saturating_add(byte_count(value));
    acc = acc.saturating_add(byte_count("|"));
    acc = acc.saturating_add(byte_count(metric_type));
    if !tags.is_empty() {
        acc = acc.saturating_add(byte_count("|#"));
        acc = acc.saturating_add(byte_count(tags));
    } else {
        proof {
            assert(tags@.len() == 0);
            assert(byte_len(tags@) == 0);
        }
    }
    acc = acc.saturating_add(byte_count("\n"));
    acc
}

/// A sum capped at what a `usize` can hold.
pub open spec fn sat_cap(v: nat) -> nat {
    if v > usize::MAX {
        usize::MAX as nat
    } else {
        v
    }
}

/// A line writer that packs wire lines into datagrams of at most the
/// configured packet size.  Line bytes are copied into the datagram under
/// assembly, so callers need not keep them alive past the call.
pub struct StatsWriterSimple {
    max_udp_packet_size: u16,
    stats_prefix: String,
    current_transmit: String,
    outbox: Vec<String>,
}

impl StatsWriterSimple {
    /// The datagrams already closed and awaiting transmission.
    pub closed spec fn queued(&self) -> Seq<Seq<char>> {
        string_views(self.outbox@)
    }

    /// The datagram under assembly.
    pub closed spec fn pending(&self) -> Seq<char> {
        self.current_transmit@
    }

    /// The prefix prepended verbatim to every line.
    pub closed spec fn prefix(&self) -> Seq<char> {
        self.stats_prefix@
    }

    /// The packet-size bound.
    pub closed spec fn max_size(&self) -> nat {
        self.max_udp_packet_size as nat
    }

    /// Everything written and not yet handed out, in order.
    pub open spec fn emitted(&self) -> Seq<char> {
        self.queued().flatten() + self.pending()
    }

    /// Every closed datagram is nonempty and within the packet size, and the
    /// datagram under assembly is within it as well.
    pub closed spec fn wf(&self) -> bool {
        &&& byte_len(self.pending()) <= self.max_size()
        &&& forall|i: int|
            0 <= i < self.queued().len() ==> 0 < byte_len(#[trigger] self.queued()[i])
                <= self.max_size()
    }

    /// A fresh writer with the given prefix and packet-size bound.
    pub fn new(stats_prefix: String, max_udp_packet_size: u16) -> (r: Self)
        ensures
            r.wf(),
            r.prefix() == stats_prefix@,
            r.max_size() == max_udp_packet_size as nat,
            r.queued().len() == 0,
            r.pending().len() == 0,
    {
        let r = StatsWriterSimple {
            max_udp_packet_size,
            stats_prefix,
            current_transmit: String::new(),
            outbox: Vec::new(),
        };
        proof {
            assert(byte_len(r.pending()) == 0);
        }
        r
    }

    /// Whether line bytes are copied on `write`; this writer copies.
    pub fn metric_copied(&self) -> (r: bool)
        ensures
            r,
    {
        true
    }

    /// Appends one wire line built from the given parts.  A line longer than
    /// the packet size is refused and nothing changes; otherwise the line
    /// goes into the datagram under assembly, which is closed first when the
    /// line would not fit into it.
    pub fn write(
        &mut self,
        metrics: &[&str],
        tags: &str,
        value: &str,
        metric_type: &str,
    ) -> (r: crate::MetricResult<()>)
        requires
            old(self).wf(),
        ensures
            final(self).wf(),
            final(self).prefix() == old(self).prefix(),
            final(self).max_size() == old(self).max_size(),
            ({
                let line = line_chars(
                    old(self).prefix(),
                    strs_views(metrics@),
                    tags@,
                    value@,
                    metric_type@,
                );
                if byte_len(line) > old(self).max_size() {
                    &&& r is Err
                    &&& final(self).queued() == old(self).queued()
                    &&& final(self).pending() == old(self).pending()
                } else {
                    &&& r is Ok
                    &&& final(self).emitted() == old(self).emitted() + line
                    &&& if byte_len(old(self).pending()) + byte_len(line) > old(
                        self,
                    ).max_size() {
                        final(self).queued() == old(self).queued().push(old(self).pending())
                            && final(self).pending() == line
                    } else {
                        final(self).queued() == old(self).queued() && final(self).pending() == old(
                            self,
                        ).pending() + line
                    }
                }
            }),
    {
        let ghost line = line_chars(
            self.prefix(),
            strs_views(metrics@),
            tags@,
            value@,
            metric_type@,
        );
        let mlen = metric_len(
            self.stats_prefix.as_str(),
            metrics,
            tags,
            value,
            metric_type,
        );
        let max = self.max_udp_packet_size as usize;
        if mlen > max {
            let msg = String::from_str("Metric is larger than ").concat(
                crate::fmt::u64_to_string(self.max_udp_packet_size as u64).as_str(),
            );
            return Err(MetricsError::Custom(msg));
        }
        let cur_len = byte_count(self.current_transmit.as_str());
        if cur_len + mlen > max {
            let mut closed = String::new();
            std::mem::swap(&mut closed, &mut self.current_transmit);
            let ghost opre = self.outbox@;
            self.outbox.push(closed);
            proof {
                assert(string_views(self.outbox@) =~= string_views(opre).push(closed@));
            }
        }
        let ghost base = self.current_transmit@;
        let ghost qed = string_views(self.outbox@);
        self.append_line_parts(metrics, tags, value, metric_type);
        proof {
            assert(self.current_transmit@ == base + line);
            lemma_byte_len_concat(base, line);
            assert(string_views(self.outbox@) == qed);
            if byte_len(old(self).pending()) + byte_len(line) > old(self).max_size() {
                assert(qed == old(self).queued().push(old(self).pending()));
                assert(base =~= Seq::<char>::empty());
                assert(self.current_transmit@ =~= line);
                old(self).queued().lemma_flatten_push(old(self).pending());
                assert(self.emitted() =~= old(self).emitted() + line);
            } else {
                assert(self.emitted() =~= old(self).emitted() + line);
            }
        }
        Ok(())
    }

    /// Appends the parts of one line to the datagram under assembly, in wire
    /// order.
    fn append_line_parts(&mut self, metrics: &[&str], tags: &str, value: &str, metric_type: &str)
        ensures
            final(self).current_transmit@ == old(self).current_transmit@ + line_chars(
                old(self).stats_prefix@,
                strs_views(metrics@),
                tags@,
                value@,
                metric_type@,
            ),
            final(self).outbox == old(self).outbox,
            final(self).stats_prefix == old(self).stats_prefix,
            final(self).max_udp_packet_size == old(self).max_udp_packet_size,
    {
        proof {
            reveal_strlit(":");
            reveal_strlit("|");
            reveal_strlit("|#");
            reveal_strlit("\n");
            assert(":"@ =~= seq![':']);
            assert("|"@ =~= seq!['|']);
            assert("|#"@ =~= seq!['|', '#']);
            assert("\n"@ =~= seq!['\n']);
        }
        let ghost base = self.current_transmit@;
        let prefix = self.stats_prefix.clone();
        self.current_transmit.append(prefix.as_str());
        let n = metrics.len();
        let mut i: usize = 0;
        proof {
            assert(strs_views(metrics@).subrange(0, 0).flatten() =~= Seq::<char>::empty());
            assert(self.current_transmit@ =~= base + self.stats_prefix@ + strs_views(
                metrics@,
            ).subrange(0, 0).flatten());
        }
        while i < n
            invariant
                n == metrics@.len(),
                i <= n,
                self.current_transmit@ == base + self.stats_prefix@ + strs_views(
                    metrics@,
                ).subrange(0, i as int).flatten(),
                self.outbox == old(self).outbox,
                self.stats_prefix == old(self).stats_prefix,
                self.max_udp_packet_size == old(self).max_udp_packet_size,
            decreases n - i,
        {
            let seg = *vstd::slice::slice_index_get(metrics, i);
            self.current_transmit.append(seg);
            proof {
                let vs = strs_views(metrics@);
                assert(vs.subrange(0, i + 1) =~= vs.subrange(0, i as int).push(vs[i as int]));
                vs.subrange(0, i as int).lemma_flatten_push(vs[i as int]);
                assert(self.current_transmit@ =~= base + self.stats_prefix@ + vs.subrange(
                    0,
                    i + 1,
                ).flatten());
            }
            i = i + 1;
        }
        proof {
            assert(strs_views(metrics@).subrange(0, n as int) =~= strs_views(metrics@));
        }
        self.current_transmit.append(":");
        self.current_transmit.append(value);
        self.current_transmit.append("|");
        self.current_transmit.append(metric_type);
        if !tags.is_empty() {
            self.current_transmit.append("|#");
            self.current_transmit.append(tags);
        }
        self.current_transmit.append("\n");
        proof {
            assert(self.current_transmit@ =~= old(self).current_transmit@ + line_chars(
                old(self).stats_prefix@,
                strs_views(metrics@),
                tags@,
                value@,
                metric_type@,
            ));
        }
    }

    /// Closes the datagram under assembly and hands out every finished
    /// datagram, oldest first; the writer is left empty.  Every datagram is
    /// nonempty and no longer than the packet size.
    pub fn flush(&mut self) -> (r: Vec<String>)
        requires
            old(self).wf(),
        ensures
            final(self).wf(),
            final(self).prefix() == old(self).prefix(),
            final(self).max_size() == old(self).max_size(),
            final(self).queued().len() == 0,
            final(self).pending().len() == 0,
            string_views(r@) == if old(self).pending().len() == 0 {
                old(self).queued()
            } else {
                old(self).queued().push(old(self).pending())
            },
            string_views(r@).flatten() == old(self).emitted(),
            forall|i: int|
                0 <= i < r@.len() ==> 0 < byte_len(#[trigger] string_views(r@)[i]) <= old(
                    self,
                ).max_size(),
    {
        let mut out: Vec<String> = Vec::new();
        std::mem::swap(&mut out, &mut self.outbox);
        if !self.current_transmit.as_str().is_empty() {
            let mut closed = String::new();
            std::mem::swap(&mut closed, &mut self.current_transmit);
            let ghost opre = out@;
            out.push(closed);
            proof {
                assert(string_views(out@) =~= string_views(opre).push(closed@));
                lemma_byte_len_positive(closed@);
                string_views(opre).lemma_flatten_push(closed@);
            }
        } else {
            proof {
                assert(old(self).pending().len() == 0);
                assert(string_views(out@).flatten() + old(self).pending() =~= string_views(
                    out@,
                ).flatten());
            }
        }
        proof {
            assert(string_views(self.outbox@) =~= Seq::<Seq<char>>::empty());
            assert(byte_len(self.current_transmit@) == 0);
            assert forall|i: int| 0 <= i < out@.len() implies 0 < byte_len(
                #[trigger] string_views(out@)[i],
            ) <= old(self).max_size() by {
                if i < old(self).queued().len() {
                    assert(string_views(out@)[i] == old(self).queued()[i]);
                    assert(0 < byte_len(old(self).queued()[i]) <= old(self).max_size());
                } else {
                    assert(string_views(out@)[i] == old(self).pending());
                }
            }
        }
        out
    }

    /// Discards everything pending: the datagram under assembly and every
    /// closed datagram not yet handed out.
    pub fn reset(&mut self)
        ensures
            final(self).wf(),
            final(self).prefix() == old(self).prefix(),
            final(self).max_size() == old(self).max_size(),
            final(self).queued().len() == 0,
            final(self).pending().len() == 0,
    {
        self.current_transmit = String::new();
        self.outbox.clear();
        proof {
            assert(byte_len(self.current_transmit@) == 0);
        }
    }
}

} // verus!
