use vrl_context::error::{ArgumentError, ContextError};
use vrl_context::key::derive_key;
use vrl_context::store::ContextStore;
use vrl_context::value::{find_field, Value};

fn text(s: &str) -> Value {
    Value::Bytes(s.as_bytes().to_vec())
}

fn object(fields: Vec<(&str, Value)>) -> Value {
    Value::Object(fields.into_iter().map(|(k, v)| (k.to_string(), v)).collect())
}

fn empty_object() -> Value {
    Value::Object(Vec::new())
}

fn field<'a>(v: &'a Value, name: &str) -> &'a Value {
    match v {
        Value::Object(fields) => find_field(fields, &name.to_string()).expect("field"),
        _ => panic!("not an object"),
    }
}

fn key_of(result: &Value) -> i64 {
    match field(result, "key") {
        Value::Integer(n) => *n,
        _ => panic!("key is not an integer"),
    }
}

fn context(key: i64, data: Value) -> Value {
    object(vec![("key", Value::Integer(key)), ("data", data)])
}

#[test]
fn equal_lookups_derive_equal_keys() {
    let a = vec![text("k"), Value::Integer(7), object(vec![("x", Value::Array(vec![Value::Null]))])];
    let b = vec![text("k"), Value::Integer(7), object(vec![("x", Value::Array(vec![Value::Null]))])];
    assert_eq!(derive_key(&a), derive_key(&b));
}

#[test]
fn order_and_type_change_the_key() {
    let ab = vec![text("a"), text("b")];
    let ba = vec![text("b"), text("a")];
    assert_ne!(derive_key(&ab), derive_key(&ba));
    assert_ne!(derive_key(&vec![Value::Integer(1)]), derive_key(&vec![Value::Boolean(true)]));
    assert_ne!(derive_key(&vec![]), derive_key(&vec![Value::Null]));
}

#[test]
fn open_twice_returns_same_key_and_empty_data() {
    let mut store = ContextStore::new();
    let keys = vec![text("k")];
    let first = store.open(&keys, 5).unwrap();
    let second = store.open(&keys, 5).unwrap();
    assert_eq!(key_of(&first), key_of(&second));
    assert_eq!(key_of(&first), derive_key(&keys) as i64);
    assert_eq!(field(&first, "data"), &empty_object());
    assert_eq!(field(&second, "data"), &empty_object());
    assert_eq!(store.len(), 1);
}

#[test]
fn open_result_has_key_then_data() {
    let mut store = ContextStore::new();
    let keys = vec![text("test")];
    let r = store.open_at(&keys, 5, 0).unwrap();
    let k = derive_key(&keys);
    assert_eq!(r, context(k as i64, empty_object()));
}

#[test]
fn update_is_seen_by_next_open() {
    let mut store = ContextStore::new();
    let keys = vec![text("k")];
    let opened = store.open_at(&keys, 5, 10).unwrap();
    let k = key_of(&opened);
    let data = object(vec![("a", Value::Integer(1))]);
    assert_eq!(store.update_at(&context(k, data.duplicate()), 11), Ok(()));
    let again = store.open_at(&keys, 5, 12).unwrap();
    assert_eq!(key_of(&again), k);
    assert_eq!(field(&again, "data"), &data);
}

#[test]
fn update_with_clock_is_seen_by_next_open() {
    let mut store = ContextStore::new();
    let keys = vec![text("k")];
    let opened = store.open(&keys, 60).unwrap();
    let k = key_of(&opened);
    let data = object(vec![("a", Value::Integer(1))]);
    assert_eq!(store.update(&context(k, data.duplicate())), Ok(()));
    let again = store.open(&keys, 60).unwrap();
    assert_eq!(field(&again, "data"), &data);
}

#[test]
fn many_opens_leave_one_entry() {
    let mut store = ContextStore::new();
    let keys = vec![text("shared"), Value::Integer(3)];
    let ttls: [i64; 6] = [0, 1, 5, 30, 3600, i64::MAX];
    let mut seen = Vec::new();
    for (i, ttl) in ttls.iter().enumerate() {
        let r = store.open_at(&keys, *ttl, i as u64).unwrap();
        seen.push(key_of(&r));
    }
    assert!(seen.iter().all(|k| *k == seen[0]));
    assert_eq!(store.len(), 1);
    assert!(store.contains_key(derive_key(&keys)));
}

#[test]
fn negative_ttl_is_rejected() {
    let mut store = ContextStore::new();
    let keys = vec![text("k")];
    assert_eq!(
        store.open_at(&keys, -1, 0),
        Err(ContextError::InvalidArgument(ArgumentError::NegativeTtl))
    );
    assert_eq!(store.open(&keys, -1), Err(ContextError::InvalidArgument(ArgumentError::NegativeTtl)));
    assert_eq!(store.len(), 0);
}

#[test]
fn update_without_key_is_rejected() {
    let mut store = ContextStore::new();
    let r = store.update_at(&object(vec![("data", empty_object())]), 0);
    assert_eq!(r, Err(ContextError::InvalidArgument(ArgumentError::MissingKey)));
    assert_eq!(store.len(), 0);
}

#[test]
fn update_with_text_key_is_rejected() {
    let mut store = ContextStore::new();
    let r = store.update_at(&object(vec![("key", text("1")), ("data", empty_object())]), 0);
    assert_eq!(r, Err(ContextError::InvalidArgument(ArgumentError::KeyNotInteger)));
    assert_eq!(store.len(), 0);
}

#[test]
fn update_without_data_is_rejected() {
    let mut store = ContextStore::new();
    let r = store.update_at(&object(vec![("key", Value::Integer(1))]), 0);
    assert_eq!(r, Err(ContextError::InvalidArgument(ArgumentError::MissingData)));
    assert_eq!(store.len(), 0);
}

#[test]
fn update_of_non_object_is_rejected() {
    let mut store = ContextStore::new();
    let r = store.update_at(&Value::Array(vec![Value::Integer(1)]), 0);
    assert_eq!(r, Err(ContextError::InvalidArgument(ArgumentError::ContextNotObject)));
    assert_eq!(store.len(), 0);
}

#[test]
fn update_of_unknown_key_is_fresh_for_that_second_only() {
    let mut store = ContextStore::new();
    assert_eq!(store.update_at(&context(42, Value::Integer(9)), 7), Ok(()));
    let e = store.entry(42).unwrap();
    assert_eq!(e.data, Value::Integer(9));
    assert_eq!(e.expires_at, 7);
}

#[test]
fn update_keeps_expiry() {
    let mut store = ContextStore::new();
    let keys = vec![text("k")];
    let k = key_of(&store.open_at(&keys, 5, 100).unwrap());
    assert_eq!(store.update_at(&context(k, Value::Boolean(true)), 103), Ok(()));
    let e = store.entry(k as u64).unwrap();
    assert_eq!(e.expires_at, 105);
    assert_eq!(e.data, Value::Boolean(true));
}

#[test]
fn stale_entry_is_replaced_by_empty_one() {
    let mut store = ContextStore::new();
    let keys = vec![text("k")];
    let k = key_of(&store.open_at(&keys, 5, 0).unwrap());
    store.update_at(&context(k, Value::Integer(1)), 1).unwrap();
    let at_expiry = store.open_at(&keys, 5, 5).unwrap();
    assert_eq!(field(&at_expiry, "data"), &Value::Integer(1));
    let after = store.open_at(&keys, 10, 6).unwrap();
    assert_eq!(field(&after, "data"), &empty_object());
    assert_eq!(store.entry(k as u64).unwrap().expires_at, 16);
}

#[test]
fn expiry_is_held_at_the_last_second() {
    let mut store = ContextStore::new();
    let keys = vec![Value::Null];
    store.open_at(&keys, i64::MAX, u64::MAX - 1).unwrap();
    assert_eq!(store.entry(derive_key(&keys)).unwrap().expires_at, u64::MAX);
}

#[test]
fn large_key_survives_the_round_trip() {
    let mut store = ContextStore::new();
    assert_eq!(store.update_at(&context(-1, Value::Null), 0), Ok(()));
    assert!(store.contains_key(u64::MAX));
    assert_eq!(store.update_at(&context(i64::MIN, Value::Null), 0), Ok(()));
    assert!(store.contains_key(1u64 << 63));
}

#[test]
fn opened_data_is_a_copy() {
    let mut store = ContextStore::new();
    let keys = vec![text("k")];
    let k = key_of(&store.open_at(&keys, 5, 0).unwrap());
    let data = object(vec![("list", Value::Array(vec![Value::Float(1.5f64.to_bits()), text("x")]))]);
    store.update_at(&context(k, data.duplicate()), 0).unwrap();
    let mut got = store.open_at(&keys, 5, 1).unwrap();
    if let Value::Object(fields) = &mut got {
        fields[1].1 = Value::Null;
    }
    let again = store.open_at(&keys, 5, 2).unwrap();
    assert_eq!(field(&again, "data"), &data);
}

#[test]
fn first_field_of_a_name_wins() {
    let fields = vec![
        ("a".to_string(), Value::Integer(1)),
        ("b".to_string(), Value::Integer(2)),
        ("a".to_string(), Value::Integer(3)),
    ];
    assert_eq!(find_field(&fields, &"a".to_string()), Some(&Value::Integer(1)));
    assert_eq!(find_field(&fields, &"c".to_string()), None);
}

#[test]
fn duplicate_is_equal() {
    let v = object(vec![
        ("t", Value::Timestamp(-5)),
        ("r", Value::Regex("^a+$".to_string())),
        ("n", Value::Array(vec![Value::Null, Value::Boolean(false)])),
    ]);
    assert_eq!(v.duplicate(), v);
}
