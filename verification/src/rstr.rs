//! A flexible string carrier used for metric names and tags.
//!
//! The three variants record where the text came from.  Promotion to an
//! owning `Cow` is zero-copy for `Static` (the `Cow` borrows the immortal
//! string) and copies for the other two variants.

use std::borrow::Cow;
use vstd::prelude::*;
use vstd::relations::total_ordering;
use vstd::string::StrSliceExecFns;

verus! {

/// Lexicographic order on character sequences, by code point.  This is the
/// order in which tag sets are normalized before they form aggregation keys.
pub open spec fn lex_le(a: Seq<char>, b: Seq<char>) -> bool
    decreases a.len(),
{
    if a.len() == 0 {
        true
    } else if b.len() == 0 {
        false
    } else if a[0] != b[0] {
        a[0] < b[0]
    } else {
        lex_le(a.drop_first(), b.drop_first())
    }
}

/// The lexicographic order as a binary relation value, for use with the
/// ordering predicates of `vstd::relations`.
pub open spec fn lex_leq() -> spec_fn(Seq<char>, Seq<char>) -> bool {
    |a: Seq<char>, b: Seq<char>| lex_le(a, b)
}

/// The lexicographic order is reflexive.
pub proof fn lemma_lex_le_reflexive(a: Seq<char>)
    ensures
        lex_le(a, a),
    decreases a.len(),
{
    if a.len() > 0 {
        lemma_lex_le_reflexive(a.drop_first());
    }
}

/// Any two character sequences are comparable.
pub proof fn lemma_lex_le_connected(a: Seq<char>, b: Seq<char>)
    ensures
        lex_le(a, b) || lex_le(b, a),
    decreases a.len(),
{
    if a.len() > 0 && b.len() > 0 {
        if a[0] == b[0] {
            lemma_lex_le_connected(a.drop_first(), b.drop_first());
        }
    }
}

/// Sequences ordered both ways are equal.
pub proof fn lemma_lex_le_antisymmetric(a: Seq<char>, b: Seq<char>)
    requires
        lex_le(a, b),
        lex_le(b, a),
    ensures
        a == b,
    decreases a.len(),
{
    if a.len() > 0 && b.len() > 0 && a[0] == b[0] {
        lemma_lex_le_antisymmetric(a.drop_first(), b.drop_first());
        assert(a =~= seq![a[0]] + a.drop_first());
        assert(b =~= seq![b[0]] + b.drop_first());
    } else {
        assert(a =~= b);
    }
}

/// The lexicographic order is transitive.
pub proof fn lemma_lex_le_transitive(a: Seq<char>, b: Seq<char>, c: Seq<char>)
    requires
        lex_le(a, b),
        lex_le(b, c),
    ensures
        lex_le(a, c),
    decreases a.len(),
{
    if a.len() > 0 && b.len() > 0 && c.len() > 0 && a[0] == b[0] && b[0] == c[0] {
        lemma_lex_le_transitive(a.drop_first(), b.drop_first(), c.drop_first());
    }
}

/// The lexicographic order is a total order, so sorting by it has a unique
/// result for a given multiset of tag strings.
pub proof fn lemma_lex_leq_total_ordering()
    ensures
        total_ordering(lex_leq()),
{
    assert forall|a: Seq<char>| #[trigger] lex_leq()(a, a) by {
        lemma_lex_le_reflexive(a);
    }
    assert forall|a: Seq<char>, b: Seq<char>|
        !(#[trigger] lex_leq()(a, b)) implies lex_leq()(b, a) by {
        lemma_lex_le_connected(a, b);
    }
    assert forall|a: Seq<char>, b: Seq<char>|
        #[trigger] lex_leq()(a, b) && #[trigger] lex_leq()(b, a) implies a == b by {
        lemma_lex_le_antisymmetric(a, b);
    }
    assert forall|a: Seq<char>, b: Seq<char>, c: Seq<char>|
        #[trigger] lex_leq()(a, b) && #[trigger] lex_leq()(b, c) implies lex_leq()(a, c) by {
        lemma_lex_le_transitive(a, b, c);
    }
}

/// Compares two strings in the lexicographic order on their characters.
pub fn str_le(a: &str, b: &str) -> (r: bool)
    ensures
        r == lex_le(a@, b@),
{
    let alen = a.unicode_len();
    let blen = b.unicode_len();
    let mut i: usize = 0;
    proof {
        assert(a@.skip(0) =~= a@);
        assert(b@.skip(0) =~= b@);
    }
    loop
        invariant
            alen == a@.len(),
            blen == b@.len(),
            i <= alen,
            i <= blen,
            lex_le(a@, b@) == lex_le(a@.skip(i as int), b@.skip(i as int)),
        decreases alen - i,
    {
        if i == alen {
            proof {
                assert(a@.skip(i as int).len() == 0);
            }
            return true;
        }
        if i == blen {
            proof {
                assert(b@.skip(i as int).len() == 0);
                assert(a@.skip(i as int).len() > 0);
            }
            return false;
        }
        let ca = a.get_char(i);
        let cb = b.get_char(i);
        if ca != cb {
            proof {
                assert(a@.skip(i as int)[0] == a@[i as int]);
                assert(b@.skip(i as int)[0] == b@[i as int]);
            }
            return ca < cb;
        }
        proof {
            assert(a@.skip(i as int)[0] == b@.skip(i as int)[0]);
            assert(a@.skip(i as int).drop_first() =~= a@.skip(i + 1 as int));
            assert(b@.skip(i as int).drop_first() =~= b@.skip(i + 1 as int));
        }
        i = i + 1;
    }
}

/// A string that is either a program-lifetime literal, a caller-scoped
/// borrow, or an owned heap string.  Equality and ordering are defined over
/// the character content, never over the variant.
pub enum RylvStr<'a> {
    /// A borrowed `&'static str`; promotion to a `Cow` is zero-copy.
    Static(&'static str),
    /// A borrowed non-static `&str`; promotion copies.
    Borrowed(&'a str),
    /// An owned string; promotion copies.
    Owned(String),
}

impl<'a> View for RylvStr<'a> {
    type V = Seq<char>;

    open spec fn view(&self) -> Seq<char> {
        match self {
            RylvStr::Static(s) => s@,
            RylvStr::Borrowed(s) => s@,
            RylvStr::Owned(s) => s@,
        }
    }
}

impl RylvStr<'_> {
    /// Wraps a `&'static str` for zero-copy promotion.
    pub fn from_static(s: &'static str) -> (r: RylvStr<'static>)
        ensures
            r@ == s@,
            r is Static,
    {
        RylvStr::Static(s)
    }

    /// The character content, whatever the variant.
    pub fn as_str(&self) -> (r: &str)
        ensures
            r@ == self@,
    {
        match self {
            RylvStr::Static(s) => s,
            RylvStr::Borrowed(s) => s,
            RylvStr::Owned(s) => s.as_str(),
        }
    }

    /// Promotes this value into an owning `Cow<'static, str>` with the same
    /// content.  The `Static` variant converts without copying.
    pub fn to_cow(&self) -> (r: Cow<'static, str>)
        ensures
            r@ == self@,
            self is Static ==> r is Borrowed,
    {
        match self {
            RylvStr::Static(s) => Cow::Borrowed(*s),
            RylvStr::Borrowed(s) => Cow::Owned((*s).to_owned()),
            RylvStr::Owned(s) => Cow::Owned(s.clone()),
        }
    }
}

} // verus!
