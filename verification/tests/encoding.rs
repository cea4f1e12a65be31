use bit_rest_client::encode::canonical_encode;
use bit_rest_client::params::ParamValue;

fn obj(entries: Vec<(&str, ParamValue)>) -> ParamValue {
    let mut v = ParamValue::new_object();
    for (k, val) in entries {
        v = v.obj_set(k.to_string(), val);
    }
    v
}

#[test]
fn encodes_empty_object_as_empty_string() {
    let v = ParamValue::new_object();
    assert_eq!(canonical_encode(&v), "");
}

#[test]
fn encodes_scalars_in_sorted_key_order() {
    let v = obj(vec![
        ("b", ParamValue::Int(2)),
        ("a", ParamValue::Bool(true)),
        ("c", ParamValue::Str("plain".to_string())),
    ]);
    assert_eq!(canonical_encode(&v), "a=true&b=2&c=plain");
}

#[test]
fn encoding_is_invariant_under_key_insertion_order() {
    let first = obj(vec![
        ("alpha", ParamValue::Int(1)),
        ("beta", ParamValue::Int(2)),
        ("gamma", ParamValue::Int(3)),
    ]);
    let second = obj(vec![
        ("gamma", ParamValue::Int(3)),
        ("alpha", ParamValue::Int(1)),
        ("beta", ParamValue::Int(2)),
    ]);
    assert_eq!(canonical_encode(&first), canonical_encode(&second));
    assert_eq!(canonical_encode(&first), "alpha=1&beta=2&gamma=3");
}

#[test]
fn encodes_nested_mapping_recursively() {
    let inner = obj(vec![("b", ParamValue::Int(1)), ("c", ParamValue::Int(2))]);
    let v = obj(vec![("a", inner)]);
    assert_eq!(canonical_encode(&v), "a=b=1&c=2");
}

#[test]
fn encodes_sequence_in_brackets() {
    let v = obj(vec![(
        "x",
        ParamValue::Arr(vec![ParamValue::Int(1), ParamValue::Int(2)]),
    )]);
    assert_eq!(canonical_encode(&v), "x=[1&2]");
}

#[test]
fn encodes_booleans_as_literal_text() {
    let v = obj(vec![
        ("no", ParamValue::Bool(false)),
        ("yes", ParamValue::Bool(true)),
    ]);
    assert_eq!(canonical_encode(&v), "no=false&yes=true");
}

#[test]
fn encodes_negative_and_extreme_integers() {
    let v = obj(vec![
        ("max", ParamValue::Int(i64::MAX)),
        ("min", ParamValue::Int(i64::MIN)),
        ("neg", ParamValue::Int(-42)),
        ("zero", ParamValue::Int(0)),
    ]);
    assert_eq!(
        canonical_encode(&v),
        "max=9223372036854775807&min=-9223372036854775808&neg=-42&zero=0"
    );
}

#[test]
fn encodes_strings_verbatim_without_quoting() {
    let v = obj(vec![("note", ParamValue::Str("a&b=c".to_string()))]);
    assert_eq!(canonical_encode(&v), "note=a&b=c");
}

#[test]
fn binding_an_existing_key_replaces_its_value() {
    let v = obj(vec![("k", ParamValue::Int(1)), ("k", ParamValue::Int(2))]);
    assert_eq!(canonical_encode(&v), "k=2");
}

#[test]
fn encodes_sequence_of_mappings() {
    let one = obj(vec![("p", ParamValue::Int(1))]);
    let two = obj(vec![("q", ParamValue::Int(2))]);
    let v = obj(vec![("orders", ParamValue::Arr(vec![one, two]))]);
    assert_eq!(canonical_encode(&v), "orders=[p=1&q=2]");
}

#[test]
fn well_formedness_check_accepts_built_values_and_rejects_raw_ones() {
    let built = ParamValue::new_object()
        .obj_set("b".to_string(), ParamValue::Int(1))
        .obj_set("a".to_string(), ParamValue::Int(2));
    assert!(built.check_wf());
    let unsorted = ParamValue::Obj(vec![
        ("b".to_string(), ParamValue::Int(1)),
        ("a".to_string(), ParamValue::Int(2)),
    ]);
    assert!(!unsorted.check_wf());
    let duplicate = ParamValue::Obj(vec![
        ("a".to_string(), ParamValue::Int(1)),
        ("a".to_string(), ParamValue::Int(2)),
    ]);
    assert!(!duplicate.check_wf());
    let nested_bad = ParamValue::Arr(vec![ParamValue::Obj(vec![
        ("z".to_string(), ParamValue::Int(1)),
        ("y".to_string(), ParamValue::Int(2)),
    ])]);
    assert!(!nested_bad.check_wf());
}
