//! Laws of the canonical order: it is reflexive, transitive, it
//! identifies exactly equal normal forms, and swapping the operands
//! flips the outcome; so values with equal normal forms compare `Equal`.
//! On top of it: representation-equal values have equal normal forms,
//! the enumerated members of an interval agree with its closed-form
//! cardinality and bounds, and powerset indexing over a sorted base is
//! injective and picks sorted subsets.

use vstd::prelude::*;
use vstd::arithmetic::power2::{pow2, lemma2_to64, lemma_pow2_unfold};
use vstd::arithmetic::div_mod::{lemma_div_basics, lemma_div_denominator, lemma_fundamental_div_mod};
use vstd::arithmetic::power2::lemma_pow2_pos;
use crate::canon::{CanonValue, Cmp, ccmp, ccmp_named, ccmp_pairs, ccmp_seq, cmp_chars, rank};
use crate::norm::{bit_of, members_of, norm, norm_named, norm_pairs, norm_seq, part_seqs, picked_members};
use crate::value::{Value, named_same_rep, pairs_same_rep, seq_same_rep};

verus! {

/// The outcome of comparing the same operands in the other order.
pub open spec fn flip_cmp(c: Cmp) -> Cmp {
    match c {
        Cmp::Less => Cmp::Greater,
        Cmp::Equal => Cmp::Equal,
        Cmp::Greater => Cmp::Less,
    }
}

/// A sequence of normal forms in strictly increasing canonical order.
pub open spec fn sorted_strict(s: Seq<CanonValue>) -> bool {
    forall|i: int| 0 <= i && i + 1 < s.len() ==> ccmp(#[trigger] s[i], s[i + 1]) == Cmp::Less
}

/// Named entries in strictly increasing name order.
pub open spec fn sorted_named(s: Seq<(Seq<char>, CanonValue)>) -> bool {
    forall|i: int| 0 <= i && i + 1 < s.len() ==> cmp_chars((#[trigger] s[i]).0, s[i + 1].0) == Cmp::Less
}

/// Keyed entries in strictly increasing key order.
pub open spec fn sorted_pairs(s: Seq<(CanonValue, CanonValue)>) -> bool {
    forall|i: int| 0 <= i && i + 1 < s.len() ==> ccmp((#[trigger] s[i]).0, s[i + 1].0) == Cmp::Less
}

pub proof fn lemma_cmp_chars_refl(a: Seq<char>)
    ensures
        cmp_chars(a, a) == Cmp::Equal,
    decreases a.len(),
{
    reveal(cmp_chars);
    reveal(ccmp);
    reveal(ccmp_seq);
    reveal(ccmp_named);
    reveal(ccmp_pairs);
    if a.len() > 0 {
        lemma_cmp_chars_refl(a.skip(1));
    }
}

pub proof fn lemma_cmp_chars_eq(a: Seq<char>, b: Seq<char>)
    requires
        cmp_chars(a, b) == Cmp::Equal,
    ensures
        a == b,
    decreases a.len(),
{
    reveal(cmp_chars);
    reveal(ccmp);
    reveal(ccmp_seq);
    reveal(ccmp_named);
    reveal(ccmp_pairs);
    if a.len() == 0 {
        assert(a =~= b);
    } else {
        assert(b.len() > 0);
        lemma_cmp_chars_eq(a.skip(1), b.skip(1));
        assert(a.skip(1).len() == b.skip(1).len());
        assert(a.len() == b.len());
        assert forall|i: int| 0 <= i < a.len() implies a[i] == b[i] by {
            if i > 0 {
                assert(a[i] == a.skip(1)[i - 1]);
                assert(b[i] == b.skip(1)[i - 1]);
            }
        }
        assert(a =~= b);
    }
}

pub proof fn lemma_cmp_chars_flip(a: Seq<char>, b: Seq<char>)
    ensures
        cmp_chars(b, a) == flip_cmp(cmp_chars(a, b)),
    decreases a.len(),
{
    reveal(cmp_chars);
    reveal(ccmp);
    reveal(ccmp_seq);
    reveal(ccmp_named);
    reveal(ccmp_pairs);
    if a.len() > 0 && b.len() > 0 {
        lemma_cmp_chars_flip(a.skip(1), b.skip(1));
    }
}

pub proof fn lemma_ccmp_refl(a: CanonValue)
    ensures
        ccmp(a, a) == Cmp::Equal,
    decreases a,
{
    reveal(cmp_chars);
    reveal(ccmp);
    reveal(ccmp_seq);
    reveal(ccmp_named);
    reveal(ccmp_pairs);
    match a {
        CanonValue::Str(s) => lemma_cmp_chars_refl(s),
        CanonValue::SetOf(s) => lemma_ccmp_seq_refl(s),
        CanonValue::Tuple(s) => lemma_ccmp_seq_refl(s),
        CanonValue::Record(s) => lemma_ccmp_named_refl(s),
        CanonValue::Mapping(s) => lemma_ccmp_pairs_refl(s),
        CanonValue::List(s) => lemma_ccmp_seq_refl(s),
        CanonValue::Variant(l, p) => {
            lemma_cmp_chars_refl(l);
            lemma_ccmp_seq_refl(p);
        },
        _ => {},
    }
}

pub proof fn lemma_ccmp_seq_refl(s: Seq<CanonValue>)
    ensures
        ccmp_seq(s, s) == Cmp::Equal,
    decreases s,
{
    reveal(cmp_chars);
    reveal(ccmp);
    reveal(ccmp_seq);
    reveal(ccmp_named);
    reveal(ccmp_pairs);
    if s.len() > 0 {
        lemma_ccmp_refl(s[0]);
        lemma_ccmp_seq_refl(s.skip(1));
    }
}

pub proof fn lemma_ccmp_named_refl(s: Seq<(Seq<char>, CanonValue)>)
    ensures
        ccmp_named(s, s) == Cmp::Equal,
    decreases s,
{
    reveal(cmp_chars);
    reveal(ccmp);
    reveal(ccmp_seq);
    reveal(ccmp_named);
    reveal(ccmp_pairs);
    if s.len() > 0 {
        lemma_cmp_chars_refl(s[0].0);
        lemma_ccmp_refl(s[0].1);
        lemma_ccmp_named_refl(s.skip(1));
    }
}

pub proof fn lemma_ccmp_pairs_refl(s: Seq<(CanonValue, CanonValue)>)
    ensures
        ccmp_pairs(s, s) == Cmp::Equal,
    decreases s,
{
    reveal(cmp_chars);
    reveal(ccmp);
    reveal(ccmp_seq);
    reveal(ccmp_named);
    reveal(ccmp_pairs);
    if s.len() > 0 {
        lemma_ccmp_refl(s[0].0);
        lemma_ccmp_refl(s[0].1);
        lemma_ccmp_pairs_refl(s.skip(1));
    }
}

pub proof fn lemma_ccmp_eq(a: CanonValue, b: CanonValue)
    requires
        ccmp(a, b) == Cmp::Equal,
    ensures
        a == b,
    decreases a,
{
    reveal(cmp_chars);
    reveal(ccmp);
    reveal(ccmp_seq);
    reveal(ccmp_named);
    reveal(ccmp_pairs);
    match (a, b) {
        (CanonValue::Str(x), CanonValue::Str(y)) => lemma_cmp_chars_eq(x, y),
        (CanonValue::SetOf(x), CanonValue::SetOf(y)) => lemma_ccmp_seq_eq(x, y),
        (CanonValue::Tuple(x), CanonValue::Tuple(y)) => lemma_ccmp_seq_eq(x, y),
        (CanonValue::Record(x), CanonValue::Record(y)) => lemma_ccmp_named_eq(x, y),
        (CanonValue::Mapping(x), CanonValue::Mapping(y)) => lemma_ccmp_pairs_eq(x, y),
        (CanonValue::List(x), CanonValue::List(y)) => lemma_ccmp_seq_eq(x, y),
        (CanonValue::Variant(xl, xp), CanonValue::Variant(yl, yp)) => {
            lemma_cmp_chars_flip(xl, yl);
            lemma_cmp_chars_eq(xl, yl);
            lemma_ccmp_seq_eq(xp, yp);
        },
        _ => {},
    }
}

pub proof fn lemma_ccmp_seq_eq(a: Seq<CanonValue>, b: Seq<CanonValue>)
    requires
        ccmp_seq(a, b) == Cmp::Equal,
    ensures
        a == b,
    decreases a,
{
    reveal(cmp_chars);
    reveal(ccmp);
    reveal(ccmp_seq);
    reveal(ccmp_named);
    reveal(ccmp_pairs);
    if a.len() == 0 {
        assert(a =~= b);
    } else {
        lemma_ccmp_eq(a[0], b[0]);
        lemma_ccmp_seq_eq(a.skip(1), b.skip(1));
        assert forall|i: int| 0 <= i < a.len() implies a[i] == b[i] by {
            if i > 0 {
                assert(a[i] == a.skip(1)[i - 1]);
                assert(b[i] == b.skip(1)[i - 1]);
            }
        }
        assert(a =~= b);
    }
}

pub proof fn lemma_ccmp_named_eq(a: Seq<(Seq<char>, CanonValue)>, b: Seq<(Seq<char>, CanonValue)>)
    requires
        ccmp_named(a, b) == Cmp::Equal,
    ensures
        a == b,
    decreases a,
{
    reveal(cmp_chars);
    reveal(ccmp);
    reveal(ccmp_seq);
    reveal(ccmp_named);
    reveal(ccmp_pairs);
    if a.len() == 0 {
        assert(a =~= b);
    } else {
        lemma_cmp_chars_eq(a[0].0, b[0].0);
        lemma_ccmp_eq(a[0].1, b[0].1);
        lemma_ccmp_named_eq(a.skip(1), b.skip(1));
        assert forall|i: int| 0 <= i < a.len() implies a[i] == b[i] by {
            if i > 0 {
                assert(a[i] == a.skip(1)[i - 1]);
                assert(b[i] == b.skip(1)[i - 1]);
            }
        }
        assert(a =~= b);
    }
}

pub proof fn lemma_ccmp_pairs_eq(a: Seq<(CanonValue, CanonValue)>, b: Seq<(CanonValue, CanonValue)>)
    requires
        ccmp_pairs(a, b) == Cmp::Equal,
    ensures
        a == b,
    decreases a,
{
    reveal(cmp_chars);
    reveal(ccmp);
    reveal(ccmp_seq);
    reveal(ccmp_named);
    reveal(ccmp_pairs);
    if a.len() == 0 {
        assert(a =~= b);
    } else {
        lemma_ccmp_eq(a[0].0, b[0].0);
        lemma_ccmp_eq(a[0].1, b[0].1);
        lemma_ccmp_pairs_eq(a.skip(1), b.skip(1));
        assert forall|i: int| 0 <= i < a.len() implies a[i] == b[i] by {
            if i > 0 {
                assert(a[i] == a.skip(1)[i - 1]);
                assert(b[i] == b.skip(1)[i - 1]);
            }
        }
        assert(a =~= b);
    }
}

pub proof fn lemma_ccmp_flip(a: CanonValue, b: CanonValue)
    ensures
        ccmp(b, a) == flip_cmp(ccmp(a, b)),
    decreases a,
{
    reveal(cmp_chars);
    reveal(ccmp);
    reveal(ccmp_seq);
    reveal(ccmp_named);
    reveal(ccmp_pairs);
    match (a, b) {
        (CanonValue::Str(x), CanonValue::Str(y)) => lemma_cmp_chars_flip(x, y),
        (CanonValue::SetOf(x), CanonValue::SetOf(y)) => lemma_ccmp_seq_flip(x, y),
        (CanonValue::Tuple(x), CanonValue::Tuple(y)) => lemma_ccmp_seq_flip(x, y),
        (CanonValue::Record(x), CanonValue::Record(y)) => lemma_ccmp_named_flip(x, y),
        (CanonValue::Mapping(x), CanonValue::Mapping(y)) => lemma_ccmp_pairs_flip(x, y),
        (CanonValue::List(x), CanonValue::List(y)) => lemma_ccmp_seq_flip(x, y),
        (CanonValue::Variant(xl, xp), CanonValue::Variant(yl, yp)) => {
            lemma_cmp_chars_flip(xl, yl);
            lemma_ccmp_seq_flip(xp, yp);
        },
        _ => {},
    }
}

pub proof fn lemma_ccmp_seq_flip(a: Seq<CanonValue>, b: Seq<CanonValue>)
    ensures
        ccmp_seq(b, a) == flip_cmp(ccmp_seq(a, b)),
    decreases a,
{
    reveal(cmp_chars);
    reveal(ccmp);
    reveal(ccmp_seq);
    reveal(ccmp_named);
    reveal(ccmp_pairs);
    if a.len() > 0 && b.len() > 0 {
        lemma_ccmp_flip(a[0], b[0]);
        lemma_ccmp_seq_flip(a.skip(1), b.skip(1));
    }
}

pub proof fn lemma_ccmp_named_flip(a: Seq<(Seq<char>, CanonValue)>, b: Seq<(Seq<char>, CanonValue)>)
    ensures
        ccmp_named(b, a) == flip_cmp(ccmp_named(a, b)),
    decreases a,
{
    reveal(cmp_chars);
    reveal(ccmp);
    reveal(ccmp_seq);
    reveal(ccmp_named);
    reveal(ccmp_pairs);
    if a.len() > 0 && b.len() > 0 {
        lemma_cmp_chars_flip(a[0].0, b[0].0);
        lemma_ccmp_flip(a[0].1, b[0].1);
        lemma_ccmp_named_flip(a.skip(1), b.skip(1));
    }
}

pub proof fn lemma_ccmp_pairs_flip(a: Seq<(CanonValue, CanonValue)>, b: Seq<(CanonValue, CanonValue)>)
    ensures
        ccmp_pairs(b, a) == flip_cmp(ccmp_pairs(a, b)),
    decreases a,
{
    reveal(cmp_chars);
    reveal(ccmp);
    reveal(ccmp_seq);
    reveal(ccmp_named);
    reveal(ccmp_pairs);
    if a.len() > 0 && b.len() > 0 {
        lemma_ccmp_flip(a[0].0, b[0].0);
        lemma_ccmp_flip(a[0].1, b[0].1);
        lemma_ccmp_pairs_flip(a.skip(1), b.skip(1));
    }
}

/// The canonical order identifies two normal forms exactly when they are
/// equal: comparison, equality and (through the normal form) hashing can
/// never disagree.
pub proof fn lemma_order_reflects_equality(a: CanonValue, b: CanonValue)
    ensures
        (ccmp(a, b) == Cmp::Equal) <==> (a == b),
{
    if ccmp(a, b) == Cmp::Equal {
        lemma_ccmp_eq(a, b);
    }
    if a == b {
        lemma_ccmp_refl(a);
    }
}

/// Equivalence closure: any two values denoting the same mathematical
/// object (equal normal forms, whatever their representations) compare
/// `Equal` under the canonical order.
pub proof fn lemma_canonical_equivalence(v1: Value, v2: Value)
    requires
        norm(v1) == norm(v2),
    ensures
        ccmp(norm(v1), norm(v2)) == Cmp::Equal,
{
    lemma_ccmp_refl(norm(v1));
}


/// Cardinality agreement for intervals: the closed-form cardinality of a
/// well-formed interval equals the size of its enumerated member set.
pub proof fn lemma_interval_cardinality(lo: i64, hi: i64)
    requires
        Value::Interval(lo, hi).wf(),
    ensures
        members_of(norm(Value::Interval(lo, hi))).len() == Value::Interval(lo, hi).spec_card(),
{
    reveal(Value::wf);
    reveal(Value::spec_card);
    reveal(norm);
}

/// Containment agreement for intervals: the enumerated member set of a
/// well-formed interval holds exactly the integers within its bounds.
pub proof fn lemma_interval_members(lo: i64, hi: i64, n: int)
    requires
        Value::Interval(lo, hi).wf(),
    ensures
        members_of(norm(Value::Interval(lo, hi))).contains(CanonValue::Int(n)) <==> lo <= n <= hi,
{
    reveal(Value::wf);
    reveal(norm);
    let ms = members_of(norm(Value::Interval(lo, hi)));
    if lo <= n <= hi {
        assert(ms[n - lo] == CanonValue::Int(n));
    }
    if ms.contains(CanonValue::Int(n)) {
        let k = choose|k: int| 0 <= k < ms.len() && ms[k] == CanonValue::Int(n);
        assert(lo + k == n);
    }
}


/// The normal forms of a value sequence, entry by entry.
pub proof fn lemma_norm_seq_index(s: Seq<Value>)
    ensures
        norm_seq(s).len() == s.len(),
        forall|i: int| 0 <= i < s.len() ==> norm_seq(s)[i] == norm(#[trigger] s[i]),
    decreases s.len(),
{
    reveal(norm);
    if s.len() > 0 {
        let d = s.drop_last();
        lemma_norm_seq_index(d);
        assert(norm_seq(s) == norm_seq(d).push(norm(s.last())));
        assert forall|i: int| 0 <= i < s.len() implies norm_seq(s)[i] == norm(#[trigger] s[i]) by {
            if i < s.len() - 1 {
                assert(d[i] == s[i]);
                assert(norm_seq(s)[i] == norm_seq(d)[i]);
            }
        }
    }
}

/// The normal forms of named entries, entry by entry.
pub proof fn lemma_norm_named_index(s: Seq<(String, Value)>)
    ensures
        norm_named(s).len() == s.len(),
        forall|i: int|
            0 <= i < s.len() ==> norm_named(s)[i] == ((#[trigger] s[i]).0@, norm(s[i].1)),
    decreases s.len(),
{
    reveal(norm);
    if s.len() > 0 {
        let d = s.drop_last();
        lemma_norm_named_index(d);
        assert(norm_named(s) == norm_named(d).push((s.last().0@, norm(s.last().1))));
        assert forall|i: int|
            0 <= i < s.len() implies norm_named(s)[i] == ((#[trigger] s[i]).0@, norm(s[i].1)) by {
            if i < s.len() - 1 {
                assert(d[i] == s[i]);
                assert(norm_named(s)[i] == norm_named(d)[i]);
            }
        }
    }
}

/// The normal forms of keyed entries, entry by entry.
pub proof fn lemma_norm_pairs_index(s: Seq<(Value, Value)>)
    ensures
        norm_pairs(s).len() == s.len(),
        forall|i: int|
            0 <= i < s.len() ==> norm_pairs(s)[i] == (
                norm((#[trigger] s[i]).0),
                norm(s[i].1),
            ),
    decreases s.len(),
{
    reveal(norm);
    if s.len() > 0 {
        let d = s.drop_last();
        lemma_norm_pairs_index(d);
        assert(norm_pairs(s) == norm_pairs(d).push((norm(s.last().0), norm(s.last().1))));
        assert forall|i: int|
            0 <= i < s.len() implies norm_pairs(s)[i] == (norm((#[trigger] s[i]).0), norm(
                s[i].1,
            )) by {
            if i < s.len() - 1 {
                assert(d[i] == s[i]);
                assert(norm_pairs(s)[i] == norm_pairs(d)[i]);
            }
        }
    }
}


/// The canonical order is transitive.
pub proof fn lemma_ccmp_trans(a: CanonValue, b: CanonValue, c: CanonValue)
    requires
        ccmp(a, b) == Cmp::Less,
        ccmp(b, c) == Cmp::Less,
    ensures
        ccmp(a, c) == Cmp::Less,
    decreases a,
{
    reveal(cmp_chars);
    reveal(ccmp);
    reveal(ccmp_seq);
    reveal(ccmp_named);
    reveal(ccmp_pairs);
    if rank(a) == rank(b) && rank(b) == rank(c) {
        match (a, b, c) {
            (CanonValue::Str(x), CanonValue::Str(y), CanonValue::Str(z)) => {
                lemma_cmp_chars_trans(x, y, z);
            },
            (CanonValue::SetOf(x), CanonValue::SetOf(y), CanonValue::SetOf(z)) => {
                lemma_ccmp_seq_trans(x, y, z);
            },
            (CanonValue::Tuple(x), CanonValue::Tuple(y), CanonValue::Tuple(z)) => {
                lemma_ccmp_seq_trans(x, y, z);
            },
            (CanonValue::Record(x), CanonValue::Record(y), CanonValue::Record(z)) => {
                lemma_ccmp_named_trans(x, y, z);
            },
            (CanonValue::Mapping(x), CanonValue::Mapping(y), CanonValue::Mapping(z)) => {
                lemma_ccmp_pairs_trans(x, y, z);
            },
            (CanonValue::List(x), CanonValue::List(y), CanonValue::List(z)) => {
                lemma_ccmp_seq_trans(x, y, z);
            },
            (
                CanonValue::Variant(xl, xp),
                CanonValue::Variant(yl, yp),
                CanonValue::Variant(zl, zp),
            ) => {
                if cmp_chars(xl, yl) == Cmp::Equal {
                    lemma_cmp_chars_eq(xl, yl);
                } else if cmp_chars(yl, zl) == Cmp::Equal {
                    lemma_cmp_chars_eq(yl, zl);
                } else {
                    lemma_cmp_chars_trans(xl, yl, zl);
                }
                if cmp_chars(xl, yl) == Cmp::Equal && cmp_chars(yl, zl) == Cmp::Equal {
                    lemma_ccmp_seq_trans(xp, yp, zp);
                }
            },
            _ => {},
        }
    }
}

pub proof fn lemma_cmp_chars_trans(a: Seq<char>, b: Seq<char>, c: Seq<char>)
    requires
        cmp_chars(a, b) == Cmp::Less,
        cmp_chars(b, c) == Cmp::Less,
    ensures
        cmp_chars(a, c) == Cmp::Less,
    decreases a.len(),
{
    reveal(cmp_chars);
    reveal(ccmp);
    reveal(ccmp_seq);
    reveal(ccmp_named);
    reveal(ccmp_pairs);
    if a.len() > 0 && b.len() > 0 && c.len() > 0 {
        if a[0] == b[0] && b[0] == c[0] {
            lemma_cmp_chars_trans(a.skip(1), b.skip(1), c.skip(1));
        }
    }
}

pub proof fn lemma_ccmp_seq_trans(a: Seq<CanonValue>, b: Seq<CanonValue>, c: Seq<CanonValue>)
    requires
        ccmp_seq(a, b) == Cmp::Less,
        ccmp_seq(b, c) == Cmp::Less,
    ensures
        ccmp_seq(a, c) == Cmp::Less,
    decreases a,
{
    reveal(cmp_chars);
    reveal(ccmp);
    reveal(ccmp_seq);
    reveal(ccmp_named);
    reveal(ccmp_pairs);
    if a.len() > 0 && b.len() > 0 && c.len() > 0 {
        if ccmp(a[0], b[0]) == Cmp::Equal {
            lemma_ccmp_eq(a[0], b[0]);
            if ccmp(b[0], c[0]) == Cmp::Equal {
                lemma_ccmp_eq(b[0], c[0]);
                lemma_ccmp_seq_trans(a.skip(1), b.skip(1), c.skip(1));
            }
        } else if ccmp(b[0], c[0]) == Cmp::Equal {
            lemma_ccmp_eq(b[0], c[0]);
        } else {
            lemma_ccmp_trans(a[0], b[0], c[0]);
        }
    }
}

pub proof fn lemma_ccmp_named_trans(
    a: Seq<(Seq<char>, CanonValue)>,
    b: Seq<(Seq<char>, CanonValue)>,
    c: Seq<(Seq<char>, CanonValue)>,
)
    requires
        ccmp_named(a, b) == Cmp::Less,
        ccmp_named(b, c) == Cmp::Less,
    ensures
        ccmp_named(a, c) == Cmp::Less,
    decreases a,
{
    reveal(cmp_chars);
    reveal(ccmp);
    reveal(ccmp_seq);
    reveal(ccmp_named);
    reveal(ccmp_pairs);
    if a.len() > 0 && b.len() > 0 && c.len() > 0 {
        if cmp_chars(a[0].0, b[0].0) == Cmp::Equal {
            lemma_cmp_chars_eq(a[0].0, b[0].0);
        } else if cmp_chars(b[0].0, c[0].0) == Cmp::Equal {
            lemma_cmp_chars_eq(b[0].0, c[0].0);
        } else {
            lemma_cmp_chars_trans(a[0].0, b[0].0, c[0].0);
        }
        if cmp_chars(a[0].0, b[0].0) == Cmp::Equal && cmp_chars(b[0].0, c[0].0) == Cmp::Equal {
            if ccmp(a[0].1, b[0].1) == Cmp::Equal {
                lemma_ccmp_eq(a[0].1, b[0].1);
            } else if ccmp(b[0].1, c[0].1) == Cmp::Equal {
                lemma_ccmp_eq(b[0].1, c[0].1);
            } else {
                lemma_ccmp_trans(a[0].1, b[0].1, c[0].1);
            }
            if ccmp(a[0].1, b[0].1) == Cmp::Equal && ccmp(b[0].1, c[0].1) == Cmp::Equal {
                lemma_ccmp_named_trans(a.skip(1), b.skip(1), c.skip(1));
            }
        }
    }
}

pub proof fn lemma_ccmp_pairs_trans(
    a: Seq<(CanonValue, CanonValue)>,
    b: Seq<(CanonValue, CanonValue)>,
    c: Seq<(CanonValue, CanonValue)>,
)
    requires
        ccmp_pairs(a, b) == Cmp::Less,
        ccmp_pairs(b, c) == Cmp::Less,
    ensures
        ccmp_pairs(a, c) == Cmp::Less,
    decreases a,
{
    reveal(cmp_chars);
    reveal(ccmp);
    reveal(ccmp_seq);
    reveal(ccmp_named);
    reveal(ccmp_pairs);
    if a.len() > 0 && b.len() > 0 && c.len() > 0 {
        if ccmp(a[0].0, b[0].0) == Cmp::Equal {
            lemma_ccmp_eq(a[0].0, b[0].0);
        } else if ccmp(b[0].0, c[0].0) == Cmp::Equal {
            lemma_ccmp_eq(b[0].0, c[0].0);
        } else {
            lemma_ccmp_trans(a[0].0, b[0].0, c[0].0);
        }
        if ccmp(a[0].0, b[0].0) == Cmp::Equal && ccmp(b[0].0, c[0].0) == Cmp::Equal {
            if ccmp(a[0].1, b[0].1) == Cmp::Equal {
                lemma_ccmp_eq(a[0].1, b[0].1);
            } else if ccmp(b[0].1, c[0].1) == Cmp::Equal {
                lemma_ccmp_eq(b[0].1, c[0].1);
            } else {
                lemma_ccmp_trans(a[0].1, b[0].1, c[0].1);
            }
            if ccmp(a[0].1, b[0].1) == Cmp::Equal && ccmp(b[0].1, c[0].1) == Cmp::Equal {
                lemma_ccmp_pairs_trans(a.skip(1), b.skip(1), c.skip(1));
            }
        }
    }
}


/// The member enumerations behind a cartesian product, part by part.
pub proof fn lemma_part_seqs_index(s: Seq<Value>)
    ensures
        part_seqs(s).len() == s.len(),
        forall|i: int| 0 <= i < s.len() ==> part_seqs(s)[i] == members_of(norm(#[trigger] s[i])),
    decreases s.len(),
{
    reveal(norm);
    if s.len() > 0 {
        let d = s.drop_last();
        lemma_part_seqs_index(d);
        assert(part_seqs(s) == part_seqs(d).push(members_of(norm(s.last()))));
        assert forall|i: int|
            0 <= i < s.len() implies part_seqs(s)[i] == members_of(norm(#[trigger] s[i])) by {
            if i < s.len() - 1 {
                assert(d[i] == s[i]);
                assert(part_seqs(s)[i] == part_seqs(d)[i]);
            }
        }
    }
}

/// Values of the same representation have the same normal form: every
/// contract stated over representation equality (deep copies, the picked
/// powerset members) also holds at the level of canonical equality.
#[verifier::rlimit(100)]
#[verifier::spinoff_prover]
pub proof fn lemma_same_rep_norm(a: Value, b: Value)
    requires
        a.same_rep(b),
    ensures
        norm(a) == norm(b),
    decreases a,
{
    reveal(norm);
    match (a, b) {
        (Value::FinSet(x), Value::FinSet(y)) => lemma_seq_same_rep_norm(x@, y@),
        (Value::Tuple(x), Value::Tuple(y)) => lemma_seq_same_rep_norm(x@, y@),
        (Value::Record(x), Value::Record(y)) => lemma_named_same_rep_norm(x@, y@),
        (Value::FinMap(x), Value::FinMap(y)) => lemma_pairs_same_rep_norm(x@, y@),
        (Value::List(x), Value::List(y)) => lemma_seq_same_rep_norm(x@, y@),
        (Value::Variant(_, xp), Value::Variant(_, yp)) => {
            lemma_same_rep_norm(*xp, *yp);
            assert(seq![norm(*xp)] =~= seq![norm(*yp)]);
        },
        (Value::CrossProduct(x), Value::CrossProduct(y)) => {
            assert(seq_same_rep(x@, y@));
            lemma_part_seqs_index(x@);
            lemma_part_seqs_index(y@);
            assert forall|i: int|
                0 <= i < x@.len() implies part_seqs(x@)[i] == part_seqs(y@)[i] by {
                assert(x@[i].same_rep(y@[i]));
                lemma_same_rep_norm(x@[i], y@[i]);
                assert(part_seqs(x@)[i] == members_of(norm(x@[i])));
                assert(part_seqs(y@)[i] == members_of(norm(y@[i])));
            }
            assert(part_seqs(x@) =~= part_seqs(y@));
        },
        (Value::PowerSet(x), Value::PowerSet(y)) => lemma_same_rep_norm(*x, *y),
        (Value::MapSet(xd, xr), Value::MapSet(yd, yr)) => {
            lemma_same_rep_norm(*xd, *yd);
            lemma_same_rep_norm(*xr, *yr);
        },
        _ => {},
    }
}

pub proof fn lemma_seq_same_rep_norm(a: Seq<Value>, b: Seq<Value>)
    requires
        seq_same_rep(a, b),
    ensures
        norm_seq(a) == norm_seq(b),
    decreases a,
{
    lemma_norm_seq_index(a);
    lemma_norm_seq_index(b);
    assert forall|i: int| 0 <= i < a.len() implies norm_seq(a)[i] == norm_seq(b)[i] by {
        lemma_same_rep_norm(a[i], b[i]);
    }
    assert(norm_seq(a) =~= norm_seq(b));
}

pub proof fn lemma_named_same_rep_norm(a: Seq<(String, Value)>, b: Seq<(String, Value)>)
    requires
        named_same_rep(a, b),
    ensures
        norm_named(a) == norm_named(b),
    decreases a,
{
    lemma_norm_named_index(a);
    lemma_norm_named_index(b);
    assert forall|i: int| 0 <= i < a.len() implies norm_named(a)[i] == norm_named(b)[i] by {
        lemma_same_rep_norm(a[i].1, b[i].1);
    }
    assert(norm_named(a) =~= norm_named(b));
}

pub proof fn lemma_pairs_same_rep_norm(a: Seq<(Value, Value)>, b: Seq<(Value, Value)>)
    requires
        pairs_same_rep(a, b),
    ensures
        norm_pairs(a) == norm_pairs(b),
    decreases a,
{
    lemma_norm_pairs_index(a);
    lemma_norm_pairs_index(b);
    assert forall|i: int| 0 <= i < a.len() implies norm_pairs(a)[i] == norm_pairs(b)[i] by {
        lemma_same_rep_norm(a[i].0, b[i].0);
        lemma_same_rep_norm(a[i].1, b[i].1);
    }
    assert(norm_pairs(a) =~= norm_pairs(b));
}


/// A sequence of values sorted under the canonical order of their normal
/// forms, as the well-formedness of a materialized set requires.
pub open spec fn sorted_by_norm(s: Seq<Value>) -> bool {
    forall|i: int| 0 <= i && i + 1 < s.len() ==> ccmp(norm(#[trigger] s[i]), norm(s[i + 1])) == Cmp::Less
}

/// In a sorted sequence every earlier member is below every later one,
/// not only its neighbour.
#[verifier::rlimit(100)]
#[verifier::spinoff_prover]
pub proof fn lemma_sorted_pairwise(s: Seq<Value>, i: int, j: int)
    requires
        sorted_by_norm(s),
        0 <= i < j < s.len(),
    ensures
        ccmp(norm(s[i]), norm(s[j])) == Cmp::Less,
    decreases j - i,
{
    if i + 1 < j {
        lemma_sorted_pairwise(s, i + 1, j);
        lemma_ccmp_trans(norm(s[i]), norm(s[i + 1]), norm(s[j]));
    }
}

/// Two distinct indices below `2^n` differ in some bit below `n`.
pub proof fn lemma_bits_differ(i: nat, k: nat, n: nat)
    requires
        i < pow2(n),
        k < pow2(n),
        i != k,
    ensures
        exists|j: int| 0 <= j < n && bit_of(i as int, j) != bit_of(k as int, j),
    decreases n,
{
    lemma2_to64();
    lemma_div_basics(i as int);
    lemma_div_basics(k as int);
    if i % 2 != k % 2 {
        assert(bit_of(i as int, 0) == (i % 2 == 1));
        assert(bit_of(k as int, 0) == (k % 2 == 1));
        assert(bit_of(i as int, 0) != bit_of(k as int, 0));
    } else {
        let i2 = i / 2;
        let k2 = k / 2;
        lemma_pow2_unfold(n);
        lemma_fundamental_div_mod(i as int, 2);
        lemma_fundamental_div_mod(k as int, 2);
        assert(i == 2 * i2 + i % 2);
        assert(k == 2 * k2 + k % 2);
        assert(i2 != k2);
        assert(i2 < pow2((n - 1) as nat) && k2 < pow2((n - 1) as nat));
        lemma_bits_differ(i2, k2, (n - 1) as nat);
        let j2 = choose|j: int|
            0 <= j < n - 1 && bit_of(i2 as int, j) != bit_of(k2 as int, j);
        assert(pow2((j2 + 1) as nat) == 2 * pow2(j2 as nat)) by {
            lemma_pow2_unfold((j2 + 1) as nat);
        }
        lemma_pow2_pos(j2 as nat);
        lemma_div_denominator(i as int, 2, pow2(j2 as nat) as int);
        lemma_div_denominator(k as int, 2, pow2(j2 as nat) as int);
        assert(bit_of(i as int, j2 + 1) == bit_of(i2 as int, j2));
        assert(bit_of(k as int, j2 + 1) == bit_of(k2 as int, j2));
        assert(bit_of(i as int, j2 + 1) != bit_of(k as int, j2 + 1));
    }
}

/// Every picked member is a member of the base.
pub proof fn lemma_picked_from_base(bm: Seq<Value>, i: int, p: int)
    requires
        0 <= p < picked_members(bm, i).len(),
    ensures
        exists|k: int| 0 <= k < bm.len() && picked_members(bm, i)[p] == bm[k],
    decreases bm,
{
    if bm.len() > 0 {
        let d = bm.drop_last();
        lemma_drop_last_len(bm);
        let pd = picked_members(d, i);
        if p < pd.len() {
            lemma_picked_from_base(d, i, p);
            let k = choose|k: int| 0 <= k < d.len() && pd[p] == d[k];
            assert(picked_members(bm, i)[p] == bm[k]);
        } else {
            assert(picked_members(bm, i)[p] == bm[bm.len() - 1]);
        }
    }
}

/// Dropping the last element keeps every earlier element in place.
proof fn lemma_drop_last_len(s: Seq<Value>)
    requires
        s.len() >= 1,
    ensures
        s.drop_last().len() == s.len() - 1,
{
    broadcast use vstd::seq::axiom_seq_subrange_len;

}

proof fn lemma_drop_last_index(s: Seq<Value>, p: int)
    requires
        s.len() >= 1,
        0 <= p < s.drop_last().len(),
    ensures
        s.drop_last()[p] == s[p],
        0 <= p < s.len(),
{
    broadcast use vstd::seq::axiom_seq_subrange_len, vstd::seq::axiom_seq_subrange_index;

}

/// Dropping the last element keeps a sorted sequence sorted.
proof fn lemma_sorted_drop_last(s: Seq<Value>)
    requires
        sorted_by_norm(s),
        s.len() >= 1,
    ensures
        sorted_by_norm(s.drop_last()),
{
    let d = s.drop_last();
    lemma_drop_last_len(s);
    assert forall|p: int| 0 <= p && p + 1 < d.len() implies ccmp(norm(#[trigger] d[p]), norm(d[p + 1]))
        == Cmp::Less by {
        lemma_drop_last_index(s, p);
        lemma_drop_last_index(s, p + 1);
        assert(p + 1 < s.len() - 1);
    }
}

/// The base member at position `j` is picked exactly when bit `j` of the
/// index is set, provided the base is sorted (so its members are
/// pairwise distinct).
#[verifier::rlimit(100)]
#[verifier::spinoff_prover]
pub proof fn lemma_picked_contains(bm: Seq<Value>, i: int, j: int)
    requires
        sorted_by_norm(bm),
        0 <= j < bm.len(),
    ensures
        picked_members(bm, i).contains(bm[j]) == bit_of(i, j),
    decreases bm,
{
    let d = bm.drop_last();
    let m = bm.len() - 1;
    lemma_drop_last_len(bm);
    lemma_sorted_drop_last(bm);
    let pd = picked_members(d, i);
    let whole = picked_members(bm, i);
    if j < m {
        lemma_picked_contains(d, i, j);
        if pd.contains(d[j]) {
            let p = choose|p: int| 0 <= p < pd.len() && pd[p] == d[j];
            assert(whole[p] == bm[j]);
            assert(whole.contains(bm[j]));
        }
        if whole.contains(bm[j]) {
            let p = choose|p: int| 0 <= p < whole.len() && whole[p] == bm[j];
            if p >= pd.len() {
                assert(whole[p] == bm[m]);
                lemma_sorted_pairwise(bm, j, m);
                lemma_ccmp_refl(norm(bm[j]));
                assert(false);
            }
            assert(pd[p] == d[j]);
            assert(pd.contains(d[j]));
        }
    } else {
        if bit_of(i, m) {
            assert(whole[whole.len() - 1] == bm[m]);
            assert(whole.contains(bm[m]));
        } else {
            assert(whole == pd);
            if whole.contains(bm[m]) {
                let p = choose|p: int| 0 <= p < whole.len() && whole[p] == bm[m];
                lemma_picked_from_base(d, i, p);
                let k = choose|k: int| 0 <= k < d.len() && pd[p] == d[k];
                assert(bm[k] == bm[m]);
                lemma_sorted_pairwise(bm, k, m);
                lemma_ccmp_refl(norm(bm[m]));
                assert(false);
            }
        }
    }
}

/// Powerset-indexing is injective: over a sorted base of size `n`,
/// distinct indices below `2^n` pick distinct subsets.
pub proof fn lemma_powerset_index_injective(bm: Seq<Value>, i: nat, k: nat)
    requires
        sorted_by_norm(bm),
        i < pow2(bm.len()),
        k < pow2(bm.len()),
        i != k,
    ensures
        picked_members(bm, i as int) != picked_members(bm, k as int),
{
    lemma_bits_differ(i, k, bm.len());
    let j = choose|j: int| 0 <= j < bm.len() && bit_of(i as int, j) != bit_of(k as int, j);
    lemma_picked_contains(bm, i as int, j);
    lemma_picked_contains(bm, k as int, j);
}


/// The subset picked from a sorted base is itself sorted: together with
/// `lemma_same_rep_norm`, the members `powerset_at_index` returns stand
/// in strictly increasing canonical order.
pub proof fn lemma_picked_members_sorted(bm: Seq<Value>, i: int)
    requires
        sorted_by_norm(bm),
    ensures
        sorted_by_norm(picked_members(bm, i)),
    decreases bm,
{
    if bm.len() > 0 {
        let d = bm.drop_last();
        let m = bm.len() - 1;
        lemma_drop_last_len(bm);
        lemma_sorted_drop_last(bm);
        lemma_picked_members_sorted(d, i);
        let pd = picked_members(d, i);
        let whole = picked_members(bm, i);
        assert forall|p: int|
            0 <= p && p + 1 < whole.len() implies ccmp(norm(#[trigger] whole[p]), norm(
                whole[p + 1],
            )) == Cmp::Less by {
            if p + 1 < pd.len() {
                assert(whole[p] == pd[p] && whole[p + 1] == pd[p + 1]);
            } else {
                assert(bit_of(i, m as int));
                assert(whole[p] == pd[p] && whole[p + 1] == bm[m]);
                lemma_picked_from_base(d, i, p);
                let k = choose|k: int| 0 <= k < d.len() && pd[p] == d[k];
                lemma_drop_last_index(bm, k);
                lemma_sorted_pairwise(bm, k, m as int);
            }
        }
    }
}

} // verus!
