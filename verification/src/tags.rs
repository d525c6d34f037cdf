//! Materialized tag sets.
//!
//! A recording call supplies tags as a slice of string carriers.  Before they
//! form an aggregation key the tags are sorted lexicographically; when a new
//! key is stored they are materialized into owned strings together with a
//! precomputed comma-joined form used verbatim on the wire.

use crate::rstr::{lex_le, lex_leq, lemma_lex_le_connected, lemma_lex_le_reflexive, lemma_lex_le_transitive, str_le, RylvStr};
use std::borrow::Cow;
use vstd::prelude::*;
use vstd::relations::sorted_by;

verus! {

/// The character contents of a sequence of string carriers.
pub open spec fn rviews<'a>(s: Seq<RylvStr<'a>>) -> Seq<Seq<char>> {
    s.map_values(|t: RylvStr<'a>| t@)
}

/// The character contents of a sequence of owned tag strings.
pub open spec fn cow_views(s: Seq<Cow<'static, str>>) -> Seq<Seq<char>> {
    s.map_values(|t: Cow<'static, str>| t@)
}

/// The comma-joined form of a tag sequence: the tags in order, a single comma
/// between neighbours, no leading or trailing comma.
pub open spec fn join_tags(ts: Seq<Seq<char>>) -> Seq<char>
    decreases ts.len(),
{
    if ts.len() == 0 {
        Seq::empty()
    } else if ts.len() == 1 {
        ts[0]
    } else {
        ts[0] + seq![','] + join_tags(ts.drop_first())
    }
}

/// Extending a tag sequence on the right extends its joined form by a comma
/// and the new tag (by just the new tag when the sequence was empty).
pub proof fn lemma_join_tags_push(ts: Seq<Seq<char>>, t: Seq<char>)
    ensures
        join_tags(ts.push(t)) == if ts.len() == 0 {
            t
        } else {
            join_tags(ts) + seq![','] + t
        },
    decreases ts.len(),
{
    if ts.len() == 0 {
        assert(ts.push(t)[0] == t);
        assert(join_tags(ts.push(t)) == t);
    } else if ts.len() == 1 {
        assert(ts.push(t).drop_first() =~= seq![t]);
        assert(join_tags(seq![t]) == t);
        assert(ts.push(t)[0] == ts[0]);
        assert(join_tags(ts.push(t)) == ts[0] + seq![','] + t);
        assert(join_tags(ts) + seq![','] + t == ts[0] + seq![','] + t);
    } else {
        lemma_join_tags_push(ts.drop_first(), t);
        assert(ts.push(t).drop_first() =~= ts.drop_first().push(t));
        assert(join_tags(ts.push(t)) == ts[0] + seq![','] + join_tags(ts.drop_first().push(t)));
        assert(join_tags(ts) + seq![','] + t =~= ts[0] + seq![','] + (join_tags(ts.drop_first())
            + seq![','] + t));
    }
}

/// The joined form of `n` tags has the length of all tags together plus
/// `n - 1` separators (zero when there are no tags).
pub proof fn lemma_join_tags_len(ts: Seq<Seq<char>>)
    ensures
        ts.len() == 0 ==> join_tags(ts).len() == 0,
        ts.len() > 0 ==> join_tags(ts).len() == sum_tag_lens(ts) + ts.len() - 1,
    decreases ts.len(),
{
    if ts.len() == 1 {
        assert(sum_tag_lens(ts.drop_first()) == 0);
        assert(join_tags(ts) == ts[0]);
    } else if ts.len() > 1 {
        lemma_join_tags_len(ts.drop_first());
        assert(sum_tag_lens(ts) == ts[0].len() + sum_tag_lens(ts.drop_first()));
        assert(join_tags(ts) == ts[0] + seq![','] + join_tags(ts.drop_first()));
    }
}

/// The total character count of a sequence of tags.
pub open spec fn sum_tag_lens(ts: Seq<Seq<char>>) -> nat
    decreases ts.len(),
{
    if ts.len() == 0 {
        0
    } else {
        ts[0].len() + sum_tag_lens(ts.drop_first())
    }
}

/// An ordered, materialized tag set: the owned tags plus their precomputed
/// comma-joined concatenation.
pub struct Tags {
    /// The tags, in the order in which they were handed in.
    pub tags: Vec<Cow<'static, str>>,
    /// The comma-joined concatenation of `tags`.
    pub joined_tags: Cow<'static, str>,
}

impl Tags {
    /// The character contents of the tags, in order.
    pub open spec fn views(&self) -> Seq<Seq<char>> {
        cow_views(self.tags@)
    }

    /// The joined form is exactly the comma-joined concatenation of the tags.
    pub open spec fn wf(&self) -> bool {
        self.joined_tags@ == join_tags(self.views())
    }
}

/// The content of an owned tag string, whichever `Cow` variant carries it.
pub fn cow_str<'a>(c: &'a Cow<'static, str>) -> (r: &'a str)
    ensures
        r@ == c@,
{
    match c {
        Cow::Borrowed(s) => s,
        Cow::Owned(s) => s.as_str(),
    }
}

/// Materializes a tag slice into owned storage and precomputes the joined
/// form that is emitted on the wire.
pub fn materialize_tags(tags: &[RylvStr<'_>]) -> (r: Tags)
    ensures
        r.views() == rviews(tags@),
        r.wf(),
{
    let n = tags.len();
    let mut vec: Vec<Cow<'static, str>> = Vec::new();
    let mut joined = String::new();
    let mut i: usize = 0;
    proof {
        assert(cow_views(vec@) =~= rviews(tags@.subrange(0, 0)));
        assert(joined@ =~= join_tags(cow_views(vec@)));
    }
    while i < n
        invariant
            n == tags@.len(),
            i <= n,
            cow_views(vec@) == rviews(tags@.subrange(0, i as int)),
            joined@ == join_tags(cow_views(vec@)),
        decreases n - i,
    {
        let tag = vstd::slice::slice_index_get(tags, i).to_cow();
        let ghost vpre = vec@;
        if i > 0 {
            joined.append(",");
            proof {
                reveal_strlit(",");
                assert(","@ =~= seq![',']);
            }
        }
        joined.append(cow_str(&tag));
        vec.push(tag);
        proof {
            assert(cow_views(vec@) =~= cow_views(vpre).push(tags@[i as int]@));
            lemma_join_tags_push(cow_views(vpre), tags@[i as int]@);
            if i == 0 {
                assert(joined@ =~= tags@[i as int]@);
            }
            assert(rviews(tags@.subrange(0, i + 1)) =~= rviews(
                tags@.subrange(0, i as int),
            ).push(tags@[i as int]@));
        }
        i = i + 1;
    }
    proof {
        assert(tags@.subrange(0, n as int) =~= tags@);
    }
    Tags { tags: vec, joined_tags: Cow::Owned(joined) }
}

/// Sorts a tag slice in place by the lexicographic order on tag content.
/// The same tags in any order yield the same sorted sequence, so recordings
/// that differ only in tag order update the same aggregation key.
pub fn sort_tags(tags: &mut Vec<RylvStr<'_>>)
    ensures
        sorted_by(rviews(final(tags)@), lex_leq()),
        rviews(final(tags)@).to_multiset() == rviews(old(tags)@).to_multiset(),
{
    broadcast use vstd::seq_lib::group_to_multiset_ensures;

    let ghost orig = rviews(old(tags)@);
    let mut out: Vec<RylvStr<'_>> = Vec::new();
    proof {
        assert(rviews(out@).to_multiset().add(rviews(tags@).to_multiset()) =~= orig.to_multiset());
    }
    while tags.len() > 0
        invariant
            sorted_by(rviews(out@), lex_leq()),
            rviews(out@).to_multiset().add(rviews(tags@).to_multiset()) == orig.to_multiset(),
            forall|i: int, j: int|
                0 <= i < out@.len() && 0 <= j < tags@.len() ==> lex_le(
                    #[trigger] rviews(out@)[i],
                    #[trigger] rviews(tags@)[j],
                ),
        decreases tags.len(),
    {
        let m = index_of_min(tags);
        let ghost pre = tags@;
        let x = tags.remove(m);
        proof {
            broadcast use vstd::multiset::group_multiset_axioms;

            rviews(pre).to_multiset_ensures();
            vstd::seq_lib::to_multiset_build(rviews(out@), x@);
            vstd::seq_lib::to_multiset_remove(rviews(pre), m as int);
            assert(rviews(tags@) =~= rviews(pre).remove(m as int));
            assert(rviews(pre)[m as int] == x@);
            assert(rviews(pre).contains(x@));
            assert(rviews(pre).to_multiset().count(x@) > 0);
            assert(rviews(out@.push(x)) =~= rviews(out@).push(x@));
            assert(rviews(out@).push(x@).to_multiset() == rviews(out@).to_multiset().insert(x@));
            assert(rviews(pre).remove(m as int).to_multiset() == rviews(
                pre,
            ).to_multiset().remove(x@));
            assert(rviews(out@).to_multiset().insert(x@).add(
                rviews(pre).to_multiset().remove(x@),
            ) =~= rviews(out@).to_multiset().add(rviews(pre).to_multiset()));
        }
        let ghost opre = out@;
        out.push(x);
        proof {
            let ovs = rviews(out@);
            assert(ovs =~= rviews(opre).push(x@));
            assert forall|i: int, j: int|
                0 <= i < ovs.len() && 0 <= j < ovs.len() && i < j implies lex_leq()(
                ovs[i],
                ovs[j],
            ) by {
                if j < ovs.len() - 1 {
                    assert(lex_leq()(rviews(opre)[i], rviews(opre)[j]));
                } else {
                    assert(ovs[j] == rviews(pre)[m as int]);
                    assert(lex_le(rviews(opre)[i], rviews(pre)[m as int]));
                }
            }
            assert(sorted_by(ovs, lex_leq()));
            assert forall|i: int, j: int|
                0 <= i < out@.len() && 0 <= j < tags@.len() implies lex_le(
                #[trigger] rviews(out@)[i],
                #[trigger] rviews(tags@)[j],
            ) by {
                let jj = if j < m { j } else { j + 1 };
                assert(rviews(tags@)[j] == rviews(pre)[jj]);
                if i < out@.len() - 1 {
                    assert(lex_le(rviews(opre)[i], rviews(pre)[jj]));
                } else {
                    assert(rviews(out@)[i] == rviews(pre)[m as int]);
                    assert(lex_le(rviews(pre)[m as int], rviews(pre)[jj]));
                }
            }
        }
    }
    *tags = out;
}

/// The index of a lexicographically minimal tag in a nonempty tag slice.
fn index_of_min(tags: &Vec<RylvStr<'_>>) -> (m: usize)
    requires
        tags@.len() > 0,
    ensures
        m < tags@.len(),
        forall|k: int| 0 <= k < tags@.len() ==> lex_le(rviews(tags@)[m as int], #[trigger] rviews(tags@)[k]),
{
    let mut m: usize = 0;
    let mut j: usize = 1;
    proof {
        lemma_lex_le_reflexive(rviews(tags@)[0]);
    }
    while j < tags.len()
        invariant
            m < j,
            j <= tags@.len(),
            forall|k: int| 0 <= k < j ==> lex_le(rviews(tags@)[m as int], #[trigger] rviews(tags@)[k]),
        decreases tags@.len() - j,
    {
        if str_le(tags[j].as_str(), tags[m].as_str()) {
            proof {
                let vs = rviews(tags@);
                assert forall|k: int| 0 <= k < j + 1 implies lex_le(vs[j as int], #[trigger] vs[k]) by {
                    if k < j {
                        lemma_lex_le_transitive(vs[j as int], vs[m as int], vs[k]);
                    } else {
                        lemma_lex_le_reflexive(vs[j as int]);
                    }
                }
            }
            m = j;
        } else {
            proof {
                lemma_lex_le_connected(rviews(tags@)[m as int], rviews(tags@)[j as int]);
            }
        }
        j = j + 1;
    }
    m
}

} // verus!
