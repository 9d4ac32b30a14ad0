//! The normal form of a value, and the well-formedness invariant.
//!
//! `norm` maps a `Value` to its `CanonValue`: lazy set representations
//! become the strictly sorted sequence of the normal forms of their
//! members, records and maps are sorted by key, everything else is mapped
//! structurally.  Two values denote the same mathematical object exactly
//! when their normal forms are equal; every executable comparison,
//! equality test and hash of this library is specified against `norm`.

use vstd::prelude::*;
use vstd::arithmetic::power::pow;
use vstd::arithmetic::power2::pow2;
use crate::canon::{CanonValue, Cmp, ccmp, cmp_chars};
use crate::value::Value;

verus! {

/// Insert into a strictly sorted sequence, keeping it strictly sorted;
/// a normal form already present (comparing `Equal`) is dropped.
pub open spec fn cinsert(s: Seq<CanonValue>, v: CanonValue) -> Seq<CanonValue>
    decreases s,
{
    if s.len() == 0 {
        seq![v]
    } else {
        match ccmp(v, s.last()) {
            Cmp::Greater => s.push(v),
            Cmp::Equal => s,
            Cmp::Less => cinsert(s.drop_last(), v).push(s.last()),
        }
    }
}

/// Sort a sequence of normal forms and deduplicate it: the canonical
/// member sequence of a set.
pub open spec fn canon(s: Seq<CanonValue>) -> Seq<CanonValue>
    decreases s,
{
    if s.len() == 0 {
        Seq::empty()
    } else {
        cinsert(canon(s.drop_last()), s.last())
    }
}

/// Insert a named entry, keeping the sequence strictly sorted by name;
/// an entry under the same name is replaced.
pub open spec fn ninsert(
    s: Seq<(Seq<char>, CanonValue)>,
    k: Seq<char>,
    v: CanonValue,
) -> Seq<(Seq<char>, CanonValue)>
    decreases s,
{
    if s.len() == 0 {
        seq![(k, v)]
    } else {
        match cmp_chars(k, s.last().0) {
            Cmp::Greater => s.push((k, v)),
            Cmp::Equal => s.drop_last().push((k, v)),
            Cmp::Less => ninsert(s.drop_last(), k, v).push(s.last()),
        }
    }
}

/// Sort named entries by name; a later entry under an equal name wins.
pub open spec fn canon_named(s: Seq<(Seq<char>, CanonValue)>) -> Seq<(Seq<char>, CanonValue)>
    decreases s,
{
    if s.len() == 0 {
        Seq::empty()
    } else {
        ninsert(canon_named(s.drop_last()), s.last().0, s.last().1)
    }
}

/// Insert a keyed entry, keeping the sequence strictly sorted by key;
/// an entry under a key with an equal normal form is replaced.
pub open spec fn pinsert(
    s: Seq<(CanonValue, CanonValue)>,
    k: CanonValue,
    v: CanonValue,
) -> Seq<(CanonValue, CanonValue)>
    decreases s,
{
    if s.len() == 0 {
        seq![(k, v)]
    } else {
        match ccmp(k, s.last().0) {
            Cmp::Greater => s.push((k, v)),
            Cmp::Equal => s.drop_last().push((k, v)),
            Cmp::Less => pinsert(s.drop_last(), k, v).push(s.last()),
        }
    }
}

/// Sort keyed entries by key; a later entry under an equal key wins.
pub open spec fn canon_pairs(s: Seq<(CanonValue, CanonValue)>) -> Seq<(CanonValue, CanonValue)>
    decreases s,
{
    if s.len() == 0 {
        Seq::empty()
    } else {
        pinsert(canon_pairs(s.drop_last()), s.last().0, s.last().1)
    }
}

/// The member sequence of a set-like normal form.
pub open spec fn members_of(c: CanonValue) -> Seq<CanonValue> {
    match c {
        CanonValue::SetOf(s) => s,
        _ => Seq::empty(),
    }
}

/// The members of the integer interval `{lo..hi}`, in increasing order.
pub open spec fn interval_members(lo: int, hi: int) -> Seq<CanonValue> {
    Seq::new(
        if lo <= hi {
            (hi - lo + 1) as nat
        } else {
            0
        },
        |k: int| CanonValue::Int(lo + k),
    )
}

/// All combinations of one member from each part, a combination from the
/// left factors extended by each member of the right factor in turn: the
/// rightmost factor advances fastest.
pub open spec fn extend_all(cs: Seq<Seq<CanonValue>>, part: Seq<CanonValue>) -> Seq<Seq<CanonValue>> {
    Seq::new(cs.len() * part.len(), |i: int| cs[i / part.len() as int].push(part[i % part.len() as int]))
}

/// The cartesian product of the parts, as sequences of picked members;
/// the product of no parts is the one empty combination.
pub open spec fn prod(parts: Seq<Seq<CanonValue>>) -> Seq<Seq<CanonValue>>
    decreases parts,
{
    if parts.len() == 0 {
        seq![Seq::empty()]
    } else {
        extend_all(prod(parts.drop_last()), parts.last())
    }
}

/// Bit `j` of index `i`.
pub open spec fn bit_of(i: int, j: int) -> bool {
    if j >= 0 {
        (i / pow2(j as nat) as int) % 2 == 1
    } else {
        false
    }
}

/// The subset of `bm` picked by the bits of `i`: the member at position
/// `j` is included exactly when bit `j` of `i` is set.  A subsequence of
/// a strictly sorted sequence, so itself strictly sorted.
pub open spec fn bits_filter(bm: Seq<CanonValue>, i: int) -> Seq<CanonValue>
    decreases bm,
{
    if bm.len() == 0 {
        Seq::empty()
    } else {
        bits_filter(bm.drop_last(), i) + if bit_of(i, bm.len() - 1) {
            seq![bm.last()]
        } else {
            Seq::empty()
        }
    }
}

/// All `2^n` subsets of a base member sequence of length `n`, at index
/// `i` the subset picked by the bits of `i`.
pub open spec fn subsets_of(bm: Seq<CanonValue>) -> Seq<CanonValue> {
    Seq::new(pow2(bm.len()), |i: int| CanonValue::SetOf(bits_filter(bm, i)))
}

/// The total function from the domain members to the range members at
/// index `i`, decoded as a mixed-radix number: the key at position `j`
/// maps to the range member at digit `j` of `i` in base `|rm|`.
pub open spec fn fun_at(dm: Seq<CanonValue>, rm: Seq<CanonValue>, i: int) -> Seq<(CanonValue, CanonValue)> {
    Seq::new(dm.len(), |j: int| (dm[j], rm[(i / pow(rm.len() as int, j as nat)) % rm.len() as int]))
}

/// All `|rm|^|dm|` total functions from the domain members to the range
/// members, as keyed entry sequences in domain order.
pub open spec fn functions_of(dm: Seq<CanonValue>, rm: Seq<CanonValue>) -> Seq<CanonValue> {
    Seq::new(
        pow(rm.len() as int, dm.len()) as nat,
        |i: int| CanonValue::Mapping(fun_at(dm, rm, i)),
    )
}

/// The normal form of a value.
#[verifier::opaque]
pub open spec fn norm(v: Value) -> CanonValue
    decreases v,
{
    match v {
        Value::Int(n) => CanonValue::Int(n as int),
        Value::Bool(b) => CanonValue::Bool(b),
        Value::Str(s) => CanonValue::Str(s@),
        Value::FinSet(es) => CanonValue::SetOf(canon(norm_seq(es@))),
        Value::Tuple(es) => CanonValue::Tuple(norm_seq(es@)),
        Value::Record(fs) => CanonValue::Record(canon_named(norm_named(fs@))),
        Value::FinMap(ps) => CanonValue::Mapping(canon_pairs(norm_pairs(ps@))),
        Value::List(es) => CanonValue::List(norm_seq(es@)),
        Value::Lambda(arity, body) => CanonValue::Lambda(arity as int, body as int),
        Value::Variant(l, p) => CanonValue::Variant(l@, seq![norm(*p)]),
        Value::Interval(lo, hi) => CanonValue::SetOf(interval_members(lo as int, hi as int)),
        Value::CrossProduct(ms) => CanonValue::SetOf(
            canon(prod(part_seqs(ms@)).map_values(|c: Seq<CanonValue>| CanonValue::Tuple(c))),
        ),
        Value::PowerSet(b) => CanonValue::SetOf(canon(subsets_of(members_of(norm(*b))))),
        Value::MapSet(d, r) => {
            let dm = members_of(norm(*d));
            let rm = members_of(norm(*r));
            if dm.len() == 0 {
                CanonValue::SetOf(seq![CanonValue::Mapping(Seq::empty())])
            } else if rm.len() == 0 {
                CanonValue::SetOf(Seq::empty())
            } else {
                CanonValue::SetOf(canon(functions_of(dm, rm)))
            }
        },
    }
}

/// The normal forms of a sequence of values, pointwise.
pub open spec fn norm_seq(s: Seq<Value>) -> Seq<CanonValue>
    decreases s,
{
    if s.len() == 0 {
        Seq::empty()
    } else {
        norm_seq(s.drop_last()).push(norm(s.last()))
    }
}

/// The normal forms of named entries, pointwise.
pub open spec fn norm_named(s: Seq<(String, Value)>) -> Seq<(Seq<char>, CanonValue)>
    decreases s,
{
    if s.len() == 0 {
        Seq::empty()
    } else {
        norm_named(s.drop_last()).push((s.last().0@, norm(s.last().1)))
    }
}

/// The normal forms of keyed entries, pointwise.
pub open spec fn norm_pairs(s: Seq<(Value, Value)>) -> Seq<(CanonValue, CanonValue)>
    decreases s,
{
    if s.len() == 0 {
        Seq::empty()
    } else {
        norm_pairs(s.drop_last()).push((norm(s.last().0), norm(s.last().1)))
    }
}

/// The member enumerations of the parts of a cartesian product.
pub open spec fn part_seqs(ms: Seq<Value>) -> Seq<Seq<CanonValue>>
    decreases ms,
{
    if ms.len() == 0 {
        Seq::empty()
    } else {
        part_seqs(ms.drop_last()).push(members_of(norm(ms.last())))
    }
}

impl Value {
    /// The well-formedness invariant every constructed value keeps:
    /// set members, record fields and map entries strictly sorted under
    /// the canonical order of their normal forms (so deduplicated under
    /// canonical equality), no closure inside a set or under a map key,
    /// intervals non-empty, and the operands of the lazy representations
    /// themselves set-like.
    #[verifier::opaque]
    pub open spec fn wf(self) -> bool
        decreases self,
    {
        match self {
            Value::Int(_) => true,
            Value::Bool(_) => true,
            Value::Str(_) => true,
            Value::FinSet(es) => {
                &&& forall|i: int| 0 <= i < es@.len() ==> (#[trigger] es@[i]).wf()
                &&& forall|i: int| 0 <= i < es@.len() ==> (#[trigger] es@[i]).lambda_free()
                &&& forall|i: int|
                    0 <= i && i + 1 < es@.len() ==> ccmp(norm(#[trigger] es@[i]), norm(es@[i + 1]))
                        == Cmp::Less
            },
            Value::Tuple(es) => forall|i: int| 0 <= i < es@.len() ==> (#[trigger] es@[i]).wf(),
            Value::Record(fs) => {
                &&& forall|i: int| 0 <= i < fs@.len() ==> (#[trigger] fs@[i]).1.wf()
                &&& forall|i: int|
                    0 <= i && i + 1 < fs@.len() ==> cmp_chars((#[trigger] fs@[i]).0@, fs@[i + 1].0@)
                        == Cmp::Less
            },
            Value::FinMap(ps) => {
                &&& forall|i: int| 0 <= i < ps@.len() ==> (#[trigger] ps@[i]).0.wf()
                &&& forall|i: int| 0 <= i < ps@.len() ==> (#[trigger] ps@[i]).1.wf()
                &&& forall|i: int| 0 <= i < ps@.len() ==> (#[trigger] ps@[i]).0.lambda_free()
                &&& forall|i: int|
                    0 <= i && i + 1 < ps@.len() ==> ccmp(norm((#[trigger] ps@[i]).0), norm(ps@[i + 1].0))
                        == Cmp::Less
            },
            Value::List(es) => forall|i: int| 0 <= i < es@.len() ==> (#[trigger] es@[i]).wf(),
            Value::Lambda(_, _) => true,
            Value::Variant(_, p) => p.wf(),
            Value::Interval(lo, hi) => lo <= hi,
            Value::CrossProduct(ms) => {
                &&& forall|i: int| 0 <= i < ms@.len() ==> (#[trigger] ms@[i]).wf()
                &&& forall|i: int| 0 <= i < ms@.len() ==> (#[trigger] ms@[i]).set_like()
                &&& forall|i: int| 0 <= i < ms@.len() ==> (#[trigger] ms@[i]).lambda_free()
            },
            Value::PowerSet(b) => b.wf() && b.set_like() && b.lambda_free(),
            Value::MapSet(d, r) => {
                &&& d.wf() && d.set_like() && d.lambda_free()
                &&& r.wf() && r.set_like() && r.lambda_free()
            },
        }
    }

    /// The cardinality of the value's denotation, in closed form: stored
    /// length for the materialized kinds, `hi - lo + 1` for an interval,
    /// the product of the member cardinalities for a cartesian product,
    /// `2^|base|` for a powerset and `|range|^|domain|` for a function
    /// space.
    #[verifier::opaque]
    pub open spec fn spec_card(self) -> nat
        decreases self,
    {
        match self {
            Value::FinSet(es) => es@.len(),
            Value::Tuple(es) => es@.len(),
            Value::Record(fs) => fs@.len(),
            Value::FinMap(ps) => ps@.len(),
            Value::List(es) => es@.len(),
            Value::Interval(lo, hi) => if lo <= hi {
                (hi - lo + 1) as nat
            } else {
                0
            },
            Value::CrossProduct(ms) => prod_cards(ms@),
            Value::PowerSet(b) => pow2(b.spec_card()),
            Value::MapSet(d, r) => (pow(r.spec_card() as int, d.spec_card())) as nat,
            _ => 0,
        }
    }

    /// The kinds `cardinality` is defined on.
    pub open spec fn has_card(self) -> bool {
        match self {
            Value::FinSet(_) => true,
            Value::Tuple(_) => true,
            Value::Record(_) => true,
            Value::FinMap(_) => true,
            Value::List(_) => true,
            Value::Interval(_, _) => true,
            Value::CrossProduct(_) => true,
            Value::PowerSet(_) => true,
            Value::MapSet(_, _) => true,
            _ => false,
        }
    }

    /// The arithmetic of this value's own cardinality stays within
    /// `usize`, including every intermediate step the closed forms take.
    #[verifier::opaque]
    pub open spec fn card_ok(self) -> bool
        decreases self,
    {
        match self {
            Value::Interval(_, _) => self.spec_card() <= usize::MAX,
            Value::CrossProduct(ms) => {
                &&& forall|i: int| 0 <= i < ms@.len() ==> (#[trigger] ms@[i]).card_ok()
                &&& forall|k: int| 0 <= k <= ms@.len() ==> prod_cards(#[trigger] ms@.take(k)) <= usize::MAX
            },
            Value::PowerSet(b) => b.card_ok() && self.spec_card() <= usize::MAX,
            Value::MapSet(d, r) => d.card_ok() && r.card_ok() && self.spec_card() <= usize::MAX,
            _ => true,
        }
    }
}

/// The product of the cardinalities of the members.
pub open spec fn prod_cards(ms: Seq<Value>) -> nat
    decreases ms,
{
    if ms.len() == 0 {
        1
    } else {
        prod_cards(ms.drop_last()) * ms.last().spec_card()
    }
}


/// The members of `s` picked by the bits of `i`: the member at position
/// `j` is kept exactly when bit `j` of `i` is set.
pub open spec fn picked_members(s: Seq<Value>, i: int) -> Seq<Value>
    decreases s,
{
    if s.len() == 0 {
        Seq::empty()
    } else {
        picked_members(s.drop_last(), i) + if bit_of(i, s.len() - 1) {
            seq![s.last()]
        } else {
            Seq::empty()
        }
    }
}

} // verus!

