//! Aggregation keys.
//!
//! A metric identity is the pair of metric name and ordered tag contents.
//! Keys carry a hash derived from that content alone, so equal identities
//! always hash alike, and a monotonic `id` assigned at insertion time, used
//! only for safe removal: a removal prepared against one insertion can never
//! evict a later re-insertion of the same content.

use crate::rstr::{lemma_lex_le_antisymmetric, lemma_lex_le_reflexive, str_le, RylvStr};
use crate::tags::{cow_str, cow_views, materialize_tags, rviews, Tags};
use std::borrow::Cow;
use vstd::prelude::*;
use vstd::string::StrSliceExecFns;
use vstd::wrapping::u64_specs;

verus! {

/// Seed of the content hash.
pub const HASH_SEED: u64 = 0xcbf2_9ce4_8422_2325;

/// Multiplier of the content hash.
pub const HASH_PRIME: u64 = 0x0000_0100_0000_01b3;

/// The identity of an aggregation key: the metric name and the tag contents,
/// in order.  Two keys address the same aggregate exactly when their
/// identities are equal.
#[verifier::ext_equal]
pub struct KeyView {
    /// The metric name.
    pub metric: Seq<char>,
    /// The tag contents, in their stored order.
    pub tags: Seq<Seq<char>>,
}

/// One mixing step of the content hash.
pub open spec fn hash_mix(h: u64, c: u64) -> u64 {
    u64_specs::wrapping_mul(h ^ c, HASH_PRIME)
}

/// Folds a string's characters into a running hash.
pub open spec fn hash_chars(h: u64, s: Seq<char>) -> u64
    decreases s.len(),
{
    if s.len() == 0 {
        h
    } else {
        hash_chars(hash_mix(h, s[0] as u64), s.drop_first())
    }
}

/// Folds a sequence of tag contents into a running hash.
pub open spec fn hash_tags(h: u64, ts: Seq<Seq<char>>) -> u64
    decreases ts.len(),
{
    if ts.len() == 0 {
        h
    } else {
        hash_tags(hash_chars(h, ts[0]), ts.drop_first())
    }
}

/// The hash of a key identity: a function of the metric name and the tag
/// contents alone, so equal identities always hash alike.
pub open spec fn key_hash(metric: Seq<char>, tags: Seq<Seq<char>>) -> u64 {
    hash_tags(hash_chars(HASH_SEED, metric), tags)
}

/// Folds a string's characters into a running hash.
fn hash_str_into(h: u64, s: &str) -> (r: u64)
    ensures
        r == hash_chars(h, s@),
{
    let n = s.unicode_len();
    let mut cur = h;
    let mut i: usize = 0;
    proof {
        assert(s@.skip(0) =~= s@);
    }
    while i < n
        invariant
            n == s@.len(),
            i <= n,
            hash_chars(cur, s@.skip(i as int)) == hash_chars(h, s@),
        decreases n - i,
    {
        let c = s.get_char(i);
        proof {
            assert(s@.skip(i as int)[0] == s@[i as int]);
            assert(s@.skip(i as int).drop_first() =~= s@.skip(i + 1 as int));
        }
        cur = (cur ^ (c as u64)).wrapping_mul(HASH_PRIME);
        i = i + 1;
    }
    proof {
        assert(s@.skip(n as int).len() == 0);
    }
    cur
}

/// Hashes a metric name and a tag slice into the key identity hash.
pub fn hash_key(metric: &str, tags: &[RylvStr<'_>]) -> (r: u64)
    ensures
        r == key_hash(metric@, rviews(tags@)),
{
    let mut cur = hash_str_into(HASH_SEED, metric);
    let n = tags.len();
    let mut i: usize = 0;
    proof {
        assert(rviews(tags@).skip(0) =~= rviews(tags@));
    }
    while i < n
        invariant
            n == tags@.len(),
            i <= n,
            hash_tags(cur, rviews(tags@).skip(i as int)) == key_hash(metric@, rviews(tags@)),
        decreases n - i,
    {
        let tag = vstd::slice::slice_index_get(tags, i);
        proof {
            assert(rviews(tags@).skip(i as int)[0] == rviews(tags@)[i as int]);
            assert(rviews(tags@).skip(i as int).drop_first() =~= rviews(tags@).skip(i + 1 as int));
        }
        cur = hash_str_into(cur, tag.as_str());
        i = i + 1;
    }
    proof {
        assert(rviews(tags@).skip(n as int).len() == 0);
    }
    cur
}

/// Compares two strings for equal character content.
pub fn str_eq(a: &str, b: &str) -> (r: bool)
    ensures
        r == (a@ == b@),
{
    let r = str_le(a, b) && str_le(b, a);
    proof {
        if r {
            lemma_lex_le_antisymmetric(a@, b@);
        } else {
            lemma_lex_le_reflexive(a@);
        }
    }
    r
}

/// An owned aggregation key as stored in the aggregator maps.
pub struct AggregatorEntryKey {
    /// The metric name.
    pub metric: Cow<'static, str>,
    /// The materialized, ordered tag set.
    pub tags: Tags,
    /// The content hash, fixed at construction.
    pub hash: u64,
    /// The insertion id, used only for removal.
    pub id: u64,
}

/// The hash and insertion id of a stored key, captured ahead of an eviction.
/// The `id` guarantees that the eviction cannot touch an entry inserted after
/// the capture, even one with identical content.
pub struct RemoveKey {
    /// The content hash of the captured entry.
    pub hash: u64,
    /// The insertion id of the captured entry.
    pub id: u64,
}

impl AggregatorEntryKey {
    /// The identity this key addresses.
    pub open spec fn key_view(&self) -> KeyView {
        KeyView { metric: self.metric@, tags: self.tags.views() }
    }

    /// The stored hash matches the content and the joined tag form matches
    /// the tags.
    pub open spec fn wf(&self) -> bool {
        &&& self.tags.wf()
        &&& self.hash == key_hash(self.metric@, self.tags.views())
    }

    /// Captures the hash and id for a later removal.
    pub fn to_key(&self) -> (r: RemoveKey)
        ensures
            r.hash == self.hash,
            r.id == self.id,
    {
        RemoveKey { hash: self.hash, id: self.id }
    }
}

/// A transient, non-owning key used to probe the maps on the hot path.  It
/// borrows the caller's strings and is never stored.
pub struct LookupKey<'a> {
    /// The metric name.
    pub metric: RylvStr<'a>,
    /// The tag slice, already sorted by the caller.
    pub tags: &'a [RylvStr<'a>],
    /// The content hash.
    pub hash: u64,
}

impl<'a> LookupKey<'a> {
    /// The identity this lookup addresses.
    pub open spec fn key_view(&self) -> KeyView {
        KeyView { metric: self.metric@, tags: rviews(self.tags@) }
    }

    /// The carried hash matches the content.
    pub open spec fn wf(&self) -> bool {
        self.hash == key_hash(self.metric@, rviews(self.tags@))
    }

    /// Builds a lookup key over the caller's strings, hashing the content.
    pub fn new(metric: RylvStr<'a>, tags: &'a [RylvStr<'a>]) -> (r: LookupKey<'a>)
        ensures
            r.wf(),
            r.metric@ == metric@,
            r.tags@ == tags@,
    {
        let hash = hash_key(metric.as_str(), tags);
        LookupKey { metric, tags, hash }
    }

    /// Whether a stored key has the same identity.  The hash is checked
    /// first as a fast reject; for well-formed keys the result is exactly
    /// identity equality.
    pub fn compare(&self, c: &AggregatorEntryKey) -> (r: bool)
        requires
            self.wf(),
            c.wf(),
        ensures
            r == (self.key_view() == c.key_view()),
    {
        let r = c.hash == self.hash && str_eq(self.metric.as_str(), cow_str(&c.metric))
            && self.compare_tags(c.tags.tags.as_slice());
        proof {
            if self.key_view() == c.key_view() {
                assert(c.hash == self.hash);
            }
            if r {
                assert(self.key_view() =~= c.key_view());
            }
        }
        r
    }

    /// Whether the stored tag contents equal this lookup's tag contents.
    pub fn compare_tags(&self, tags: &[Cow<'static, str>]) -> (r: bool)
        ensures
            r == (rviews(self.tags@) == cow_views(tags@)),
    {
        let n = tags.len();
        if n != self.tags.len() {
            proof {
                assert(rviews(self.tags@).len() != cow_views(tags@).len());
            }
            return false;
        }
        let mut i: usize = 0;
        while i < n
            invariant
                n == tags@.len(),
                n == self.tags@.len(),
                i <= n,
                forall|k: int| 0 <= k < i ==> rviews(self.tags@)[k] == cow_views(tags@)[k],
            decreases n - i,
        {
            let a = vstd::slice::slice_index_get(self.tags, i);
            let b = vstd::slice::slice_index_get(tags, i);
            let eq = str_eq(a.as_str(), cow_str(b));
            proof {
                assert(rviews(self.tags@)[i as int] == self.tags@[i as int]@);
                assert(cow_views(tags@)[i as int] == tags@[i as int]@);
            }
            if !eq {
                return false;
            }
            i = i + 1;
        }
        proof {
            assert(rviews(self.tags@) =~= cow_views(tags@));
        }
        true
    }

    /// Materializes this lookup into an owned key under the given insertion
    /// id.  The identity and hash carry over unchanged.
    pub fn into_key(self, id: u64) -> (r: AggregatorEntryKey)
        requires
            self.wf(),
        ensures
            r.key_view() == self.key_view(),
            r.wf(),
            r.hash == self.hash,
            r.id == id,
    {
        let metric = self.metric.to_cow();
        let tags = materialize_tags(self.tags);
        proof {
            assert(KeyView { metric: metric@, tags: tags.views() } =~= self.key_view());
        }
        AggregatorEntryKey { metric, tags, hash: self.hash, id }
    }
}

} // verus!
