//! Executable operations on values: deep copy, the typed accessors, the
//! closed-form cardinality of the lazy set representations, and the
//! powerset-indexing bijection.

use vstd::prelude::*;
use vstd::arithmetic::power::{pow, lemma_pow0, lemma_pow_increases};
use vstd::arithmetic::power2::{pow2, lemma2_to64, lemma_pow2_pos, lemma_pow2_strictly_increases, lemma_pow2_unfold};
use crate::norm::{bit_of, picked_members, prod_cards};
use crate::value::{Value, seq_same_rep};

verus! {

impl Value {
    /// Deep copy.  Values are logically immutable and freely shared; a
    /// copy is the same representation as its original, entry for entry.
    pub fn dup(&self) -> (r: Value)
        ensures
            self.same_rep(r),
        decreases *self,
    {
        match self {
            Value::Int(n) => Value::Int(*n),
            Value::Bool(b) => Value::Bool(*b),
            Value::Str(s) => Value::Str(s.clone()),

            Value::FinSet(es) => {
                let v = dup_vec(es);
                Value::FinSet(v)
            },
            Value::Tuple(es) => {
                let v = dup_vec(es);
                Value::Tuple(v)
            },
            Value::Record(fs) => {
                let v = dup_named(fs);
                Value::Record(v)
            },
            Value::FinMap(ps) => {
                let v = dup_pairs(ps);
                Value::FinMap(v)
            },
            Value::List(es) => {
                let v = dup_vec(es);
                Value::List(v)
            },
            Value::Lambda(a, b) => Value::Lambda(*a, *b),
            Value::Variant(l, p) => Value::Variant(l.clone(), Box::new(p.dup())),
            Value::Interval(lo, hi) => Value::Interval(*lo, *hi),
            Value::CrossProduct(ms) => {
                let v = dup_vec(ms);
                Value::CrossProduct(v)
            },
            Value::PowerSet(b) => Value::PowerSet(Box::new(b.dup())),
            Value::MapSet(d, r) => Value::MapSet(Box::new(d.dup()), Box::new(r.dup())),
        }
    }

    /// Whether the value is set-like, materialized or lazy.
    pub fn is_set(&self) -> (r: bool)
        ensures
            r == self.set_like(),
    {
        match self {
            Value::FinSet(_) => true,
            Value::Interval(_, _) => true,
            Value::CrossProduct(_) => true,
            Value::PowerSet(_) => true,
            Value::MapSet(_, _) => true,
            _ => false,
        }
    }

    /// The integer held by an `Int`.  The type checker upstream
    /// guarantees the variant; a mismatch is an internal defect, so it is
    /// a precondition here.
    pub fn as_int(&self) -> (r: i64)
        requires
            self is Int,
        ensures
            r == self->Int_0,
    {
        match self {
            Value::Int(n) => *n,
            _ => unreached(),
        }
    }

    /// The boolean held by a `Bool`; the variant is the caller's
    /// obligation, as in `as_int`.
    pub fn as_bool(&self) -> (r: bool)
        requires
            self is Bool,
        ensures
            r == self->Bool_0,
    {
        match self {
            Value::Bool(b) => *b,
            _ => unreached(),
        }
    }

    /// The text held by a `Str`; the variant is the caller's obligation.
    pub fn as_str(&self) -> (r: String)
        requires
            self is Str,
        ensures
            r == self->Str_0,
    {
        match self {
            Value::Str(s) => s.clone(),
            _ => unreached(),
        }
    }

    /// The entries of a finite map; the variant is the caller's
    /// obligation.
    pub fn as_map(&self) -> (r: &Vec<(Value, Value)>)
        requires
            self is FinMap,
        ensures
            r@ == self->FinMap_0@,
    {
        match self {
            Value::FinMap(ps) => ps,
            _ => unreached(),
        }
    }

    /// The elements of an ordered sequence, either a `Tuple` or a `List`;
    /// any other variant is the caller's obligation to rule out.
    pub fn as_list(&self) -> (r: &Vec<Value>)
        requires
            self is Tuple || self is List,
        ensures
            self is Tuple ==> r@ == self->Tuple_0@,
            self is List ==> r@ == self->List_0@,
    {
        match self {
            Value::Tuple(es) => es,
            Value::List(es) => es,
            _ => unreached(),
        }
    }

    /// The fields of a record; the variant is the caller's obligation.
    pub fn as_record_map(&self) -> (r: &Vec<(String, Value)>)
        requires
            self is Record,
        ensures
            r@ == self->Record_0@,
    {
        match self {
            Value::Record(fs) => fs,
            _ => unreached(),
        }
    }

    /// The parameter-cell count and compiled-body token of a closure; the
    /// variant is the caller's obligation.  Binding arguments to the
    /// cells and running the body live with the evaluator around this
    /// library (see [`crate::cells::ParamCells`]).
    pub fn as_closure(&self) -> (r: (usize, u64))
        requires
            self is Lambda,
        ensures
            r.0 == self->Lambda_0,
            r.1 == self->Lambda_1,
    {
        match self {
            Value::Lambda(a, b) => (*a, *b),
            _ => unreached(),
        }
    }

    /// The label and payload of a variant; the variant kind is the
    /// caller's obligation.
    pub fn as_variant(&self) -> (r: (String, Value))
        requires
            self is Variant,
        ensures
            r.0 == self->Variant_0,
            self->Variant_1.same_rep(r.1),
    {
        match self {
            Value::Variant(l, p) => (l.clone(), p.dup()),
            _ => unreached(),
        }
    }

    /// The first two elements of a sequence, for built-ins with a fixed
    /// binary-tuple contract; a shorter sequence is the caller's
    /// obligation to rule out.
    pub fn as_tuple2(&self) -> (r: (Value, Value))
        requires
            self is Tuple || self is List,
            self is Tuple ==> self->Tuple_0@.len() >= 2,
            self is List ==> self->List_0@.len() >= 2,
        ensures
            self is Tuple ==> self->Tuple_0@[0].same_rep(r.0) && self->Tuple_0@[1].same_rep(r.1),
            self is List ==> self->List_0@[0].same_rep(r.0) && self->List_0@[1].same_rep(r.1),
    {
        let es = self.as_list();
        (es[0].dup(), es[1].dup())
    }

    /// The cardinality of the value's denotation, without enumerating it:
    /// stored length for the materialized kinds, `hi - lo + 1` for an
    /// interval, the product of the member cardinalities for a cartesian
    /// product, `2^|base|` for a powerset and `|range|^|domain|` for a
    /// function space.
    #[verifier::rlimit(100)]
    pub fn cardinality(&self) -> (r: usize)
        requires
            self.wf(),
            self.has_card(),
            self.card_ok(),
        ensures
            r == self.spec_card(),
        decreases *self,
    {
        proof {
            reveal(Value::wf);
            reveal(Value::spec_card);
            reveal(Value::card_ok);
        }
        match self {
            Value::FinSet(es) => es.len(),
            Value::Tuple(es) => es.len(),
            Value::Record(fs) => fs.len(),
            Value::FinMap(ps) => ps.len(),
            Value::List(es) => es.len(),
            Value::Interval(lo, hi) => {
                let n = (*hi as i128) - (*lo as i128) + 1;
                proof {
                    assert(n == self.spec_card());
                    assert(n <= usize::MAX);
                }
                n as usize
            },
            Value::CrossProduct(ms) => {
                proof {
                    assert(forall|i: int| 0 <= i < ms@.len() ==> (#[trigger] ms@[i]).wf());
                    assert(forall|i: int| 0 <= i < ms@.len() ==> (#[trigger] ms@[i]).set_like());
                    assert(forall|i: int| 0 <= i < ms@.len() ==> (#[trigger] ms@[i]).card_ok());
                    assert(forall|k2: int|
                        0 <= k2 <= ms@.len() ==> prod_cards(#[trigger] ms@.take(k2)) <= usize::MAX);
                }
                prod_of_cards(ms)
            },
            Value::PowerSet(b) => {
                let n = b.cardinality();
                let mut acc: usize = 1;
                let mut j: usize = 0;
                proof { lemma2_to64(); }
                while j < n
                    invariant
                        j <= n,
                        acc == pow2(j as nat),
                        n == b.spec_card(),
                        pow2(n as nat) <= usize::MAX,
                    decreases n - j,
                {
                    proof {
                        lemma_pow2_unfold(j as nat + 1);
                        if j as nat + 1 < n as nat {
                            lemma_pow2_strictly_increases(j as nat + 1, n as nat);
                        }
                        assert(pow2(j as nat + 1) <= usize::MAX);
                    }
                    acc = acc * 2;
                    j += 1;
                }
                proof {
                    reveal(Value::spec_card);
                }
                acc
            },
            Value::MapSet(d, r) => {
                let dc = d.cardinality();
                let rc = r.cardinality();
                proof { lemma_pow0(rc as int); }
                if dc == 0 {
                    return 1;
                }
                if rc == 0 {
                    proof {
                        vstd::arithmetic::power::lemma0_pow(dc as nat);
                    }
                    return 0;
                }
                let mut acc: usize = 1;
                let mut j: usize = 0;
                proof {
                    vstd::arithmetic::power::lemma_pow_positive(rc as int, dc as nat);
                    assert(pow(rc as int, dc as nat) <= usize::MAX);
                }
                while j < dc
                    invariant
                        j <= dc,
                        rc >= 1,
                        acc == pow(rc as int, j as nat),
                        dc == d.spec_card(),
                        rc == r.spec_card(),
                        pow(rc as int, dc as nat) <= usize::MAX,
                    decreases dc - j,
                {
                    proof {
                        vstd::arithmetic::power::lemma_pow1(rc as int);
                        vstd::arithmetic::power::lemma_pow_adds(rc as int, j as nat, 1);
                        assert(pow(rc as int, j as nat + 1) == pow(rc as int, j as nat) * rc);
                        lemma_pow_increases(rc as nat, j as nat + 1, dc as nat);
                        assert(pow(rc as int, j as nat + 1) <= usize::MAX);
                    }
                    acc = acc * rc;
                    j += 1;
                }
                acc
            },
            _ => unreached(),
        }
    }
}

fn dup_vec(es: &Vec<Value>) -> (r: Vec<Value>)
    ensures
        seq_same_rep(es@, r@),
    decreases es@,
{
    let mut r: Vec<Value> = Vec::new();
    let mut k: usize = 0;
    while k < es.len()
        invariant
            k <= es@.len(),
            r@.len() == k,
            forall|i: int| 0 <= i < k ==> (#[trigger] es@[i]).same_rep(r@[i]),
        decreases es@.len() - k,
    {
        let e = es[k].dup();
        r.push(e);
        k += 1;
    }
    r
}

fn dup_named(fs: &Vec<(String, Value)>) -> (r: Vec<(String, Value)>)
    ensures
        crate::value::named_same_rep(fs@, r@),
    decreases fs@,
{
    let mut r: Vec<(String, Value)> = Vec::new();
    let mut k: usize = 0;
    while k < fs.len()
        invariant
            k <= fs@.len(),
            r@.len() == k,
            forall|i: int|
                0 <= i < k ==> (#[trigger] fs@[i]).0@ == r@[i].0@ && fs@[i].1.same_rep(r@[i].1),
        decreases fs@.len() - k,
    {
        let name = fs[k].0.clone();
        let val = fs[k].1.dup();
        r.push((name, val));
        k += 1;
    }
    r
}

fn dup_pairs(ps: &Vec<(Value, Value)>) -> (r: Vec<(Value, Value)>)
    ensures
        crate::value::pairs_same_rep(ps@, r@),
    decreases ps@,
{
    let mut r: Vec<(Value, Value)> = Vec::new();
    let mut k: usize = 0;
    while k < ps.len()
        invariant
            k <= ps@.len(),
            r@.len() == k,
            forall|i: int|
                0 <= i < k ==> (#[trigger] ps@[i]).0.same_rep(r@[i].0) && ps@[i].1.same_rep(
                    r@[i].1),
        decreases ps@.len() - k,
    {
        let key = ps[k].0.dup();
        let val = ps[k].1.dup();
        r.push((key, val));
        k += 1;
    }
    r
}

/// The element of the powerset of `base` at index `i`, following the
/// stable powerset-indexing bijection and without enumerating the
/// powerset: the subset holds the base member at position `j` exactly
/// when bit `j` of `i` is set.  The same base and index always produce
/// the same subset, so sampling with a reproducible index source
/// reproduces identical picks.
pub fn powerset_at_index(base: &Value, i: usize) -> (r: Value)
    requires
        base is FinSet,
        pow2(base->FinSet_0@.len()) <= usize::MAX,
    ensures
        r is FinSet,
        seq_same_rep(picked_members(base->FinSet_0@, i as int), r->FinSet_0@),
{
    let bm: &Vec<Value> = match base {
        Value::FinSet(es) => es,
        _ => unreached(),
    };
    let n = bm.len();
    let mut elems: Vec<Value> = Vec::new();
    let mut p: usize = 1;
    let mut j: usize = 0;
    proof {
        lemma2_to64();
        assert(picked_members(bm@.take(0), i as int) =~= Seq::<Value>::empty());
    }
    while j < n
        invariant
            j <= n,
            n == bm@.len(),
            p == pow2(j as nat),
            pow2(n as nat) <= usize::MAX,
            seq_same_rep(picked_members(bm@.take(j as int), i as int), elems@),
        decreases n - j,
    {
        proof {
            lemma_pow2_pos(j as nat);
            assert(bm@.take(j as int + 1).drop_last() =~= bm@.take(j as int));
            assert(bm@.take(j as int + 1).last() == bm@[j as int]);
            assert(bit_of(i as int, j as int) == ((i as int / pow2(j as nat) as int) % 2 == 1));
        }
        let ghost before = elems@;
        let ghost pick_now = picked_members(bm@.take(j as int + 1), i as int);
        if (i / p) % 2 == 1 {
            let e = bm[j].dup();
            elems.push(e);
            proof {
                assert(pick_now =~= picked_members(bm@.take(j as int), i as int) + seq![bm@[j as int]]);
                assert(seq_same_rep(pick_now, elems@));
            }
        } else {
            proof {
                assert(pick_now =~= picked_members(bm@.take(j as int), i as int));
                assert(seq_same_rep(pick_now, elems@));
            }
        }
        proof {
            lemma_pow2_unfold(j as nat + 1);
            if j as nat + 1 < n as nat {
                lemma_pow2_strictly_increases(j as nat + 1, n as nat);
            }
            assert(pow2(j as nat + 1) <= usize::MAX);
        }
        p = p * 2;
        j += 1;
    }
    proof {
        assert(bm@.take(bm@.len() as int) =~= bm@);
    }
    Value::FinSet(elems)
}


/// One step of the left-to-right fold behind `prod_of_cards`.
proof fn lemma_prod_step(ms: Seq<Value>, k: int)
    requires
        0 <= k < ms.len(),
    ensures
        prod_cards(ms.take(k + 1)) == prod_cards(ms.take(k)) * ms[k].spec_card(),
{
    reveal_with_fuel(prod_cards, 2);
    reveal(Value::spec_card);
    let t = ms.take(k + 1);
    assert(t.len() == k + 1);
    assert(t.drop_last() =~= ms.take(k));
    assert(t.last() == ms[k]);
    assert(prod_cards(t) == prod_cards(t.drop_last()) * t.last().spec_card());
}

/// The product of the member cardinalities, folded left to right as the
/// closed form states it.
#[verifier::rlimit(100)]
fn prod_of_cards(ms: &Vec<Value>) -> (r: usize)
    requires
        forall|i: int| 0 <= i < ms@.len() ==> (#[trigger] ms@[i]).wf(),
        forall|i: int| 0 <= i < ms@.len() ==> (#[trigger] ms@[i]).set_like(),
        forall|i: int| 0 <= i < ms@.len() ==> (#[trigger] ms@[i]).card_ok(),
        forall|k2: int| 0 <= k2 <= ms@.len() ==> prod_cards(#[trigger] ms@.take(k2)) <= usize::MAX,
    ensures
        r == prod_cards(ms@),
    decreases ms@,
{
    let mut acc: usize = 1;
    let mut k: usize = 0;
    proof {
        assert(ms@.take(0) =~= Seq::<Value>::empty());
    }
    while k < ms.len()
        invariant
            k <= ms@.len(),
            acc == prod_cards(ms@.take(k as int)),
            forall|i: int| 0 <= i < ms@.len() ==> (#[trigger] ms@[i]).wf(),
            forall|i: int| 0 <= i < ms@.len() ==> (#[trigger] ms@[i]).set_like(),
            forall|i: int| 0 <= i < ms@.len() ==> (#[trigger] ms@[i]).card_ok(),
            forall|k2: int|
                0 <= k2 <= ms@.len() ==> prod_cards(#[trigger] ms@.take(k2)) <= usize::MAX,
        decreases ms@.len() - k,
    {
        proof {
            lemma_prod_step(ms@, k as int);
            assert(ms@[k as int].set_like());
            assert(prod_cards(ms@.take(k as int + 1)) <= usize::MAX);
        }
        let c = ms[k].cardinality();
        acc = acc * c;
        k += 1;
    }
    proof {
        assert(ms@.take(ms@.len() as int) =~= ms@);
    }
    acc
}

} // verus!
