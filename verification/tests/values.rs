use setvalue::cells::ParamCells;
use setvalue::ops::powerset_at_index;
use setvalue::value::Value;

fn ints(ns: &[i64]) -> Vec<Value> {
    let mut v = Vec::new();
    for n in ns {
        v.push(Value::Int(*n));
    }
    v
}

#[test]
fn interval_cardinality_is_closed_form() {
    let r = Value::Interval(1, 3);
    assert_eq!(r.cardinality(), 3);
    assert!(r.is_set());
}

#[test]
fn interval_singleton_cardinality() {
    assert_eq!(Value::Interval(5, 5).cardinality(), 1);
}

#[test]
fn materialized_set_cardinality_is_length() {
    assert_eq!(Value::FinSet(ints(&[1, 2, 3])).cardinality(), 3);
    assert_eq!(Value::FinSet(Vec::new()).cardinality(), 0);
}

#[test]
fn cross_product_cardinality_is_member_product() {
    let cp = Value::CrossProduct(vec![Value::Interval(1, 2), Value::Interval(1, 2)]);
    assert_eq!(cp.cardinality(), 4);
}

#[test]
fn cross_product_with_empty_member_is_empty() {
    let cp = Value::CrossProduct(vec![Value::FinSet(Vec::new()), Value::Interval(1, 2)]);
    assert_eq!(cp.cardinality(), 0);
}

#[test]
fn cross_product_of_no_members_is_the_empty_tuple_singleton() {
    assert_eq!(Value::CrossProduct(Vec::new()).cardinality(), 1);
}

#[test]
fn powerset_cardinality_is_two_to_the_base() {
    let ps = Value::PowerSet(Box::new(Value::FinSet(ints(&[1, 2]))));
    assert_eq!(ps.cardinality(), 4);
    let big = Value::PowerSet(Box::new(Value::Interval(1, 10)));
    assert_eq!(big.cardinality(), 1024);
}

#[test]
fn mapset_cardinality_is_range_to_the_domain() {
    let ms = Value::MapSet(
        Box::new(Value::FinSet(ints(&[1, 2]))),
        Box::new(Value::FinSet(ints(&[7, 8, 9]))),
    );
    assert_eq!(ms.cardinality(), 9);
}

#[test]
fn mapset_with_empty_domain_is_the_empty_map_singleton() {
    let ms = Value::MapSet(
        Box::new(Value::FinSet(Vec::new())),
        Box::new(Value::FinSet(ints(&[1]))),
    );
    assert_eq!(ms.cardinality(), 1);
}

#[test]
fn mapset_with_empty_range_is_empty() {
    let ms = Value::MapSet(
        Box::new(Value::FinSet(ints(&[1]))),
        Box::new(Value::FinSet(Vec::new())),
    );
    assert_eq!(ms.cardinality(), 0);
}

fn members_as_ints(v: &Value) -> Vec<i64> {
    match v {
        Value::FinSet(es) => es.iter().map(|e| e.as_int()).collect(),
        _ => panic!("expected a materialized set"),
    }
}

#[test]
fn powerset_index_walks_all_subsets() {
    let base = Value::FinSet(ints(&[10, 20]));
    assert_eq!(members_as_ints(&powerset_at_index(&base, 0)), Vec::<i64>::new());
    assert_eq!(members_as_ints(&powerset_at_index(&base, 1)), vec![10]);
    assert_eq!(members_as_ints(&powerset_at_index(&base, 2)), vec![20]);
    assert_eq!(members_as_ints(&powerset_at_index(&base, 3)), vec![10, 20]);
}

#[test]
fn powerset_index_is_stable() {
    let base = Value::FinSet(ints(&[3, 1, 4, 1]));
    for i in 0..16 {
        let a = members_as_ints(&powerset_at_index(&base, i));
        let b = members_as_ints(&powerset_at_index(&base, i));
        assert_eq!(a, b);
    }
}

#[test]
fn accessors_return_the_held_scalars() {
    assert_eq!(Value::Int(-7).as_int(), -7);
    assert!(Value::Bool(true).as_bool());
    assert_eq!(Value::Str(String::from("hello")).as_str(), "hello");
}

#[test]
fn sequence_accessors_cover_tuple_and_list() {
    let t = Value::Tuple(ints(&[1, 2, 3]));
    let l = Value::List(ints(&[4, 5]));
    assert_eq!(t.as_list().len(), 3);
    assert_eq!(l.as_list().len(), 2);
    let (a, b) = t.as_tuple2();
    assert_eq!(a.as_int(), 1);
    assert_eq!(b.as_int(), 2);
}

#[test]
fn record_and_map_accessors_return_entries() {
    let rec = Value::Record(vec![(String::from("age"), Value::Int(30))]);
    assert_eq!(rec.as_record_map().len(), 1);
    assert_eq!(rec.as_record_map()[0].0, "age");
    let m = Value::FinMap(vec![(Value::Int(1), Value::Bool(true))]);
    assert_eq!(m.as_map().len(), 1);
    assert_eq!(m.as_map()[0].0.as_int(), 1);
}

#[test]
fn variant_accessor_returns_label_and_payload() {
    let v = Value::Variant(String::from("Some"), Box::new(Value::Int(3)));
    let (label, payload) = v.as_variant();
    assert_eq!(label, "Some");
    assert_eq!(payload.as_int(), 3);
}

#[test]
fn closure_accessor_returns_arity_and_body() {
    let f = Value::Lambda(2, 99);
    assert_eq!(f.as_closure(), (2, 99));
}

#[test]
fn dup_copies_deep_structure() {
    let v = Value::FinSet(vec![Value::Tuple(ints(&[1, 2])), Value::Interval(3, 9)]);
    let c = v.dup();
    match (v, c) {
        (Value::FinSet(a), Value::FinSet(b)) => {
            assert_eq!(a.len(), b.len());
            assert_eq!(b[0].as_list()[1].as_int(), 2);
            assert!(matches!(b[1], Value::Interval(3, 9)));
        }
        _ => panic!("expected sets"),
    }
}

#[test]
fn second_invocation_overwrites_parameter_cells() {
    let mut cells = ParamCells::new(vec![Value::Int(0)]);
    assert_eq!(cells.arity(), 1);
    cells.bind(vec![Value::Int(5)]);
    assert_eq!(cells.read(0).as_int(), 5);
    cells.bind(vec![Value::Int(7)]);
    assert_eq!(cells.read(0).as_int(), 7);
}
