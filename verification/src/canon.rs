//! Canonical normal forms.
//!
//! A `CanonValue` is the mathematical shape of a [`crate::value::Value`]:
//! every lazy set representation is replaced by the strictly sorted
//! sequence of the normal forms of its members, and every unordered
//! collection is strictly sorted by key.  Two values denote the same
//! mathematical object exactly when their normal forms are equal, so
//! equality, ordering and hashing of values are all stated over this one
//! type.

use vstd::prelude::*;

verus! {

/// Result of a three-way comparison.
#[derive(Clone, Copy, PartialEq, Eq, Structural, Debug)]
pub enum Cmp {
    Less,
    Equal,
    Greater,
}

/// The normal form of a value.  Set-like values of every representation
/// normalize to `SetOf` with a strictly sorted member sequence; `Record`
/// and `Mapping` entries are strictly sorted by key; a `Variant` payload
/// is a singleton sequence.
pub enum CanonValue {
    Int(int),
    Bool(bool),
    Str(Seq<char>),
    SetOf(Seq<CanonValue>),
    Tuple(Seq<CanonValue>),
    Record(Seq<(Seq<char>, CanonValue)>),
    Mapping(Seq<(CanonValue, CanonValue)>),
    List(Seq<CanonValue>),
    Lambda(int, int),
    Variant(Seq<char>, Seq<CanonValue>),
}

/// Priority of each kind in the fixed cross-kind ordering table:
/// integers before booleans before strings before sets (every set-like
/// representation shares the one set bucket) before tuples, records,
/// maps, lists and variants.  Closures take part in the table only at the
/// spec level; executable comparison rejects them.
pub open spec fn rank(c: CanonValue) -> int {
    match c {
        CanonValue::Int(_) => 0,
        CanonValue::Bool(_) => 1,
        CanonValue::Str(_) => 2,
        CanonValue::SetOf(_) => 3,
        CanonValue::Tuple(_) => 4,
        CanonValue::Record(_) => 5,
        CanonValue::Mapping(_) => 6,
        CanonValue::List(_) => 7,
        CanonValue::Lambda(_, _) => 8,
        CanonValue::Variant(_, _) => 9,
    }
}

pub open spec fn cmp_int(a: int, b: int) -> Cmp {
    if a < b {
        Cmp::Less
    } else if a == b {
        Cmp::Equal
    } else {
        Cmp::Greater
    }
}

/// Lexicographic order on character sequences (code-point order).
#[verifier::opaque]
pub open spec fn cmp_chars(a: Seq<char>, b: Seq<char>) -> Cmp
    decreases a.len(),
{
    if a.len() == 0 && b.len() == 0 {
        Cmp::Equal
    } else if a.len() == 0 {
        Cmp::Less
    } else if b.len() == 0 {
        Cmp::Greater
    } else if a[0] < b[0] {
        Cmp::Less
    } else if a[0] > b[0] {
        Cmp::Greater
    } else {
        cmp_chars(a.skip(1), b.skip(1))
    }
}

/// The canonical total order on normal forms: by kind priority first,
/// then within a kind by the documented rule (scalars natively, sequences
/// and sets lexicographically, records and maps lexicographically over
/// their key-sorted entries, variants by label then payload).
#[verifier::opaque]
pub open spec fn ccmp(a: CanonValue, b: CanonValue) -> Cmp
    decreases a,
{
    if rank(a) != rank(b) {
        cmp_int(rank(a), rank(b))
    } else {
        match (a, b) {
            (CanonValue::Int(x), CanonValue::Int(y)) => cmp_int(x, y),
            (CanonValue::Bool(x), CanonValue::Bool(y)) => {
                if x == y {
                    Cmp::Equal
                } else if !x {
                    Cmp::Less
                } else {
                    Cmp::Greater
                }
            },
            (CanonValue::Str(x), CanonValue::Str(y)) => cmp_chars(x, y),
            (CanonValue::SetOf(x), CanonValue::SetOf(y)) => ccmp_seq(x, y),
            (CanonValue::Tuple(x), CanonValue::Tuple(y)) => ccmp_seq(x, y),
            (CanonValue::Record(x), CanonValue::Record(y)) => ccmp_named(x, y),
            (CanonValue::Mapping(x), CanonValue::Mapping(y)) => ccmp_pairs(x, y),
            (CanonValue::List(x), CanonValue::List(y)) => ccmp_seq(x, y),
            (CanonValue::Lambda(x0, x1), CanonValue::Lambda(y0, y1)) => {
                if cmp_int(x0, y0) == Cmp::Equal {
                    cmp_int(x1, y1)
                } else {
                    cmp_int(x0, y0)
                }
            },
            (CanonValue::Variant(xl, xp), CanonValue::Variant(yl, yp)) => {
                if cmp_chars(xl, yl) == Cmp::Equal {
                    ccmp_seq(xp, yp)
                } else {
                    cmp_chars(xl, yl)
                }
            },
            _ => Cmp::Equal,
        }
    }
}

/// Lexicographic order on sequences of normal forms.
#[verifier::opaque]
pub open spec fn ccmp_seq(a: Seq<CanonValue>, b: Seq<CanonValue>) -> Cmp
    decreases a,
{
    if a.len() == 0 && b.len() == 0 {
        Cmp::Equal
    } else if a.len() == 0 {
        Cmp::Less
    } else if b.len() == 0 {
        Cmp::Greater
    } else if ccmp(a[0], b[0]) == Cmp::Equal {
        ccmp_seq(a.skip(1), b.skip(1))
    } else {
        ccmp(a[0], b[0])
    }
}

/// Lexicographic order on name/value entry sequences; an entry compares
/// by name first, then value.
#[verifier::opaque]
pub open spec fn ccmp_named(a: Seq<(Seq<char>, CanonValue)>, b: Seq<(Seq<char>, CanonValue)>) -> Cmp
    decreases a,
{
    if a.len() == 0 && b.len() == 0 {
        Cmp::Equal
    } else if a.len() == 0 {
        Cmp::Less
    } else if b.len() == 0 {
        Cmp::Greater
    } else if cmp_chars(a[0].0, b[0].0) != Cmp::Equal {
        cmp_chars(a[0].0, b[0].0)
    } else if ccmp(a[0].1, b[0].1) != Cmp::Equal {
        ccmp(a[0].1, b[0].1)
    } else {
        ccmp_named(a.skip(1), b.skip(1))
    }
}

/// Lexicographic order on key/value entry sequences; an entry compares
/// by key first, then value.
#[verifier::opaque]
pub open spec fn ccmp_pairs(a: Seq<(CanonValue, CanonValue)>, b: Seq<(CanonValue, CanonValue)>) -> Cmp
    decreases a,
{
    if a.len() == 0 && b.len() == 0 {
        Cmp::Equal
    } else if a.len() == 0 {
        Cmp::Less
    } else if b.len() == 0 {
        Cmp::Greater
    } else if ccmp(a[0].0, b[0].0) != Cmp::Equal {
        ccmp(a[0].0, b[0].0)
    } else if ccmp(a[0].1, b[0].1) != Cmp::Equal {
        ccmp(a[0].1, b[0].1)
    } else {
        ccmp_pairs(a.skip(1), b.skip(1))
    }
}

} // verus!
