//! The `Value` type: materialized values and the four lazy set
//! representations, with the basic spec-level predicates over them.

use vstd::prelude::*;

verus! {

/// A value produced by evaluating an expression of the specification
/// language.
///
/// `Set`, `Record` and `Map` are kept in a canonical form (see
/// [`crate::value::Value::wf`]): entries are strictly sorted under the
/// canonical order of their normal forms, so a well-formed collection is
/// deduplicated under canonical equality and two equal collections have
/// identical entry order.
///
/// `Interval`, `CrossProduct`, `PowerSet` and `MapSet` are lazy set
/// representations: they denote a (possibly huge) finite set without
/// materializing it.
///
/// `Lambda` carries the arity of a closure together with an opaque token
/// naming its compiled body; the parameter cells and the execution of the
/// body live with the (unverified) evaluator around this library.
#[verifier::ext_equal]
pub enum Value {
    Int(i64),
    Bool(bool),
    Str(String),
    /// Materialized finite set; canonical: strictly sorted, deduplicated.
    FinSet(Vec<Value>),
    /// Fixed-arity ordered sequence.
    Tuple(Vec<Value>),
    /// Unordered field map; canonical: strictly sorted by field name.
    Record(Vec<(String, Value)>),
    /// Finite function; canonical: strictly sorted by key.
    FinMap(Vec<(Value, Value)>),
    /// Ordered sequence.
    List(Vec<Value>),
    /// Closure: parameter-cell count and an opaque compiled-body token.
    Lambda(usize, u64),
    /// A label with exactly one payload value.
    Variant(String, Box<Value>),
    /// Lazy integer set `{lo..hi}`, inclusive; well-formed only if `lo <= hi`.
    Interval(i64, i64),
    /// Lazy cartesian product of set-like members.
    CrossProduct(Vec<Value>),
    /// Lazy powerset of a set-like base.
    PowerSet(Box<Value>),
    /// Lazy set of all total functions from a set-like domain to a
    /// set-like range.
    MapSet(Box<Value>, Box<Value>),
}

impl Value {
    /// A value whose semantics is a finite set of values, materialized or
    /// lazy.
    pub open spec fn set_like(self) -> bool {
        match self {
            Value::FinSet(_) => true,
            Value::Interval(_, _) => true,
            Value::CrossProduct(_) => true,
            Value::PowerSet(_) => true,
            Value::MapSet(_, _) => true,
            _ => false,
        }
    }

    /// No closure occurs anywhere inside the value.  Equality, ordering
    /// and hashing are only defined on lambda-free values.
    pub open spec fn lambda_free(self) -> bool
        decreases self,
    {
        match self {
            Value::Int(_) => true,
            Value::Bool(_) => true,
            Value::Str(_) => true,
            Value::FinSet(es) => seq_lambda_free(es@),
            Value::Tuple(es) => seq_lambda_free(es@),
            Value::Record(fs) => named_lambda_free(fs@),
            Value::FinMap(ps) => pairs_lambda_free(ps@),
            Value::List(es) => seq_lambda_free(es@),
            Value::Lambda(_, _) => false,
            Value::Variant(_, p) => p.lambda_free(),
            Value::Interval(_, _) => true,
            Value::CrossProduct(ms) => seq_lambda_free(ms@),
            Value::PowerSet(b) => b.lambda_free(),
            Value::MapSet(d, r) => d.lambda_free() && r.lambda_free(),
        }
    }
}

pub open spec fn seq_lambda_free(s: Seq<Value>) -> bool
    decreases s,
{
    if s.len() == 0 {
        true
    } else {
        s[0].lambda_free() && seq_lambda_free(s.skip(1))
    }
}

pub open spec fn named_lambda_free(s: Seq<(String, Value)>) -> bool
    decreases s,
{
    if s.len() == 0 {
        true
    } else {
        s[0].1.lambda_free() && named_lambda_free(s.skip(1))
    }
}

pub open spec fn pairs_lambda_free(s: Seq<(Value, Value)>) -> bool
    decreases s,
{
    if s.len() == 0 {
        true
    } else {
        s[0].0.lambda_free() && s[0].1.lambda_free() && pairs_lambda_free(s.skip(1))
    }
}


impl Value {
    /// Representation equality: the two values are built the same way,
    /// entry for entry.  This is finer than canonical equality: values
    /// with the same representation denote the same mathematical object,
    /// but two representations of one set (an interval and the set of its
    /// members, say) are canonically equal without being the same
    /// representation.
    pub open spec fn same_rep(self, o: Value) -> bool
        decreases self,
    {
        match (self, o) {
            (Value::Int(a), Value::Int(b)) => a == b,
            (Value::Bool(a), Value::Bool(b)) => a == b,
            (Value::Str(a), Value::Str(b)) => a@ == b@,
            (Value::FinSet(a), Value::FinSet(b)) => seq_same_rep(a@, b@),
            (Value::Tuple(a), Value::Tuple(b)) => seq_same_rep(a@, b@),
            (Value::Record(a), Value::Record(b)) => named_same_rep(a@, b@),
            (Value::FinMap(a), Value::FinMap(b)) => pairs_same_rep(a@, b@),
            (Value::List(a), Value::List(b)) => seq_same_rep(a@, b@),
            (Value::Lambda(a0, a1), Value::Lambda(b0, b1)) => a0 == b0 && a1 == b1,
            (Value::Variant(al, ap), Value::Variant(bl, bp)) => al@ == bl@ && ap.same_rep(*bp),
            (Value::Interval(a0, a1), Value::Interval(b0, b1)) => a0 == b0 && a1 == b1,
            (Value::CrossProduct(a), Value::CrossProduct(b)) => seq_same_rep(a@, b@),
            (Value::PowerSet(a), Value::PowerSet(b)) => a.same_rep(*b),
            (Value::MapSet(ad, ar), Value::MapSet(bd, br)) => ad.same_rep(*bd) && ar.same_rep(*br),
            _ => false,
        }
    }
}

/// Pointwise representation equality of two value sequences.
pub open spec fn seq_same_rep(a: Seq<Value>, b: Seq<Value>) -> bool
    decreases a,
{
    a.len() == b.len() && forall|i: int| 0 <= i < a.len() ==> (#[trigger] a[i]).same_rep(b[i])
}

/// Pointwise representation equality of named entries.
pub open spec fn named_same_rep(a: Seq<(String, Value)>, b: Seq<(String, Value)>) -> bool
    decreases a,
{
    a.len() == b.len() && forall|i: int|
        0 <= i < a.len() ==> (#[trigger] a[i]).0@ == b[i].0@ && a[i].1.same_rep(b[i].1)
}

/// Pointwise representation equality of keyed entries.
pub open spec fn pairs_same_rep(a: Seq<(Value, Value)>, b: Seq<(Value, Value)>) -> bool
    decreases a,
{
    a.len() == b.len() && forall|i: int|
        0 <= i < a.len() ==> (#[trigger] a[i]).0.same_rep(b[i].0) && a[i].1.same_rep(b[i].1)
}

/// Every value is its own representation.
pub proof fn lemma_same_rep_refl(v: Value)
    ensures
        v.same_rep(v),
    decreases v,
{
    match v {
        Value::FinSet(es) => lemma_seq_same_rep_refl(es@),
        Value::Tuple(es) => lemma_seq_same_rep_refl(es@),
        Value::Record(fs) => lemma_named_same_rep_refl(fs@),
        Value::FinMap(ps) => lemma_pairs_same_rep_refl(ps@),
        Value::List(es) => lemma_seq_same_rep_refl(es@),
        Value::Variant(_, p) => lemma_same_rep_refl(*p),
        Value::CrossProduct(ms) => lemma_seq_same_rep_refl(ms@),
        Value::PowerSet(b) => lemma_same_rep_refl(*b),
        Value::MapSet(d, r) => {
            lemma_same_rep_refl(*d);
            lemma_same_rep_refl(*r);
        },
        _ => {},
    }
}

pub proof fn lemma_seq_same_rep_refl(s: Seq<Value>)
    ensures
        seq_same_rep(s, s),
    decreases s,
{
    assert forall|i: int| 0 <= i < s.len() implies (#[trigger] s[i]).same_rep(s[i]) by {
        lemma_same_rep_refl(s[i]);
    }
}

pub proof fn lemma_named_same_rep_refl(s: Seq<(String, Value)>)
    ensures
        named_same_rep(s, s),
    decreases s,
{
    assert forall|i: int|
        0 <= i < s.len() implies (#[trigger] s[i]).0@ == s[i].0@ && s[i].1.same_rep(s[i].1) by {
        lemma_same_rep_refl(s[i].1);
    }
}

pub proof fn lemma_pairs_same_rep_refl(s: Seq<(Value, Value)>)
    ensures
        pairs_same_rep(s, s),
    decreases s,
{
    assert forall|i: int|
        0 <= i < s.len() implies (#[trigger] s[i]).0.same_rep(s[i].0) && s[i].1.same_rep(s[i].1) by {
        lemma_same_rep_refl(s[i].0);
        lemma_same_rep_refl(s[i].1);
    }
}


/// Representation equality is symmetric.
pub proof fn lemma_same_rep_sym(a: Value, b: Value)
    requires
        a.same_rep(b),
    ensures
        b.same_rep(a),
    decreases a,
{
    match (a, b) {
        (Value::FinSet(x), Value::FinSet(y)) => lemma_seq_same_rep_sym(x@, y@),
        (Value::Tuple(x), Value::Tuple(y)) => lemma_seq_same_rep_sym(x@, y@),
        (Value::Record(x), Value::Record(y)) => lemma_named_same_rep_sym(x@, y@),
        (Value::FinMap(x), Value::FinMap(y)) => lemma_pairs_same_rep_sym(x@, y@),
        (Value::List(x), Value::List(y)) => lemma_seq_same_rep_sym(x@, y@),
        (Value::Variant(_, xp), Value::Variant(_, yp)) => lemma_same_rep_sym(*xp, *yp),
        (Value::CrossProduct(x), Value::CrossProduct(y)) => lemma_seq_same_rep_sym(x@, y@),
        (Value::PowerSet(x), Value::PowerSet(y)) => lemma_same_rep_sym(*x, *y),
        (Value::MapSet(xd, xr), Value::MapSet(yd, yr)) => {
            lemma_same_rep_sym(*xd, *yd);
            lemma_same_rep_sym(*xr, *yr);
        },
        _ => {},
    }
}

pub proof fn lemma_seq_same_rep_sym(a: Seq<Value>, b: Seq<Value>)
    requires
        seq_same_rep(a, b),
    ensures
        seq_same_rep(b, a),
    decreases a,
{
    assert forall|i: int| 0 <= i < b.len() implies (#[trigger] b[i]).same_rep(a[i]) by {
        lemma_same_rep_sym(a[i], b[i]);
    }
}

pub proof fn lemma_named_same_rep_sym(a: Seq<(String, Value)>, b: Seq<(String, Value)>)
    requires
        named_same_rep(a, b),
    ensures
        named_same_rep(b, a),
    decreases a,
{
    assert forall|i: int|
        0 <= i < b.len() implies (#[trigger] b[i]).0@ == a[i].0@ && b[i].1.same_rep(a[i].1) by {
        lemma_same_rep_sym(a[i].1, b[i].1);
    }
}

pub proof fn lemma_pairs_same_rep_sym(a: Seq<(Value, Value)>, b: Seq<(Value, Value)>)
    requires
        pairs_same_rep(a, b),
    ensures
        pairs_same_rep(b, a),
    decreases a,
{
    assert forall|i: int|
        0 <= i < b.len() implies (#[trigger] b[i]).0.same_rep(a[i].0) && b[i].1.same_rep(
            a[i].1,
        ) by {
        lemma_same_rep_sym(a[i].0, b[i].0);
        lemma_same_rep_sym(a[i].1, b[i].1);
    }
}

/// Representation equality is transitive.
pub proof fn lemma_same_rep_trans(a: Value, b: Value, c: Value)
    requires
        a.same_rep(b),
        b.same_rep(c),
    ensures
        a.same_rep(c),
    decreases a,
{
    match (a, b, c) {
        (Value::FinSet(x), Value::FinSet(y), Value::FinSet(z)) => lemma_seq_same_rep_trans(
            x@,
            y@,
            z@,
        ),
        (Value::Tuple(x), Value::Tuple(y), Value::Tuple(z)) => lemma_seq_same_rep_trans(x@, y@, z@),
        (Value::Record(x), Value::Record(y), Value::Record(z)) => lemma_named_same_rep_trans(
            x@,
            y@,
            z@,
        ),
        (Value::FinMap(x), Value::FinMap(y), Value::FinMap(z)) => lemma_pairs_same_rep_trans(
            x@,
            y@,
            z@,
        ),
        (Value::List(x), Value::List(y), Value::List(z)) => lemma_seq_same_rep_trans(x@, y@, z@),
        (Value::Variant(_, xp), Value::Variant(_, yp), Value::Variant(_, zp)) => {
            lemma_same_rep_trans(*xp, *yp, *zp);
        },
        (Value::CrossProduct(x), Value::CrossProduct(y), Value::CrossProduct(z)) => {
            lemma_seq_same_rep_trans(x@, y@, z@);
        },
        (Value::PowerSet(x), Value::PowerSet(y), Value::PowerSet(z)) => {
            lemma_same_rep_trans(*x, *y, *z);
        },
        (Value::MapSet(xd, xr), Value::MapSet(yd, yr), Value::MapSet(zd, zr)) => {
            lemma_same_rep_trans(*xd, *yd, *zd);
            lemma_same_rep_trans(*xr, *yr, *zr);
        },
        _ => {},
    }
}

pub proof fn lemma_seq_same_rep_trans(a: Seq<Value>, b: Seq<Value>, c: Seq<Value>)
    requires
        seq_same_rep(a, b),
        seq_same_rep(b, c),
    ensures
        seq_same_rep(a, c),
    decreases a,
{
    assert forall|i: int| 0 <= i < a.len() implies (#[trigger] a[i]).same_rep(c[i]) by {
        lemma_same_rep_trans(a[i], b[i], c[i]);
    }
}

pub proof fn lemma_named_same_rep_trans(
    a: Seq<(String, Value)>,
    b: Seq<(String, Value)>,
    c: Seq<(String, Value)>,
)
    requires
        named_same_rep(a, b),
        named_same_rep(b, c),
    ensures
        named_same_rep(a, c),
    decreases a,
{
    assert forall|i: int|
        0 <= i < a.len() implies (#[trigger] a[i]).0@ == c[i].0@ && a[i].1.same_rep(c[i].1) by {
        lemma_same_rep_trans(a[i].1, b[i].1, c[i].1);
    }
}

pub proof fn lemma_pairs_same_rep_trans(
    a: Seq<(Value, Value)>,
    b: Seq<(Value, Value)>,
    c: Seq<(Value, Value)>,
)
    requires
        pairs_same_rep(a, b),
        pairs_same_rep(b, c),
    ensures
        pairs_same_rep(a, c),
    decreases a,
{
    assert forall|i: int|
        0 <= i < a.len() implies (#[trigger] a[i]).0.same_rep(c[i].0) && a[i].1.same_rep(
            c[i].1,
        ) by {
        lemma_same_rep_trans(a[i].0, b[i].0, c[i].0);
        lemma_same_rep_trans(a[i].1, b[i].1, c[i].1);
    }
}

} // verus!
