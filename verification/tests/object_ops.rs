use json_store::{JSONArray, JSONObject, Null};

#[test]
fn insert_then_get_returns_value_for_every_kind() {
    let mut o = JSONObject::new();
    o.insert_int("x".to_string(), 42);
    o.insert_float("x".to_string(), 2.5f32.to_bits());
    o.insert_bool("x".to_string(), true);
    o.insert_string("x".to_string(), "hello".to_string());
    o.insert_null("x".to_string(), Null);
    o.insert_array("x".to_string(), JSONArray::new());
    o.insert_object("x".to_string(), JSONObject::new());

    assert_eq!(o.get_int("x".to_string()), Some(&42));
    assert_eq!(
        o.get_float("x".to_string()).copied().map(f32::from_bits),
        Some(2.5)
    );
    assert_eq!(o.get_bool("x".to_string()), Some(&true));
    assert_eq!(
        o.get_string("x".to_string()).map(|s| s.as_str()),
        Some("hello")
    );
    assert_eq!(o.get_null("x".to_string()), Some(&Null));
    assert!(o.get_array("x".to_string()).is_some());
    assert!(o.get_object("x".to_string()).is_some());
}

#[test]
fn insert_does_not_touch_other_kinds() {
    let mut o = JSONObject::new();
    o.insert_int("k".to_string(), 1);
    assert!(o.get_bool("k".to_string()).is_none());
    assert!(o.get_string("k".to_string()).is_none());
    assert!(o.get_float("k".to_string()).is_none());
    assert!(o.get_null("k".to_string()).is_none());
    assert!(o.get_array("k".to_string()).is_none());
    assert!(o.get_object("k".to_string()).is_none());

    o.insert_bool("k".to_string(), false);
    assert_eq!(o.get_int("k".to_string()), Some(&1));
    assert_eq!(o.get_bool("k".to_string()), Some(&false));
}

#[test]
fn insert_overwrites_within_a_kind() {
    let mut o = JSONObject::new();
    o.insert_int("k".to_string(), 1);
    o.insert_int("k".to_string(), 2);
    assert_eq!(o.get_int("k".to_string()), Some(&2));
    o.insert_string("k".to_string(), "a".to_string());
    o.insert_string("k".to_string(), "b".to_string());
    assert_eq!(
        o.get_string("k".to_string()).map(|s| s.as_str()),
        Some("b")
    );
}

#[test]
fn delete_returns_payload_and_only_touches_its_kind() {
    let mut o = JSONObject::new();
    o.insert_int("k".to_string(), 9);
    o.insert_string("k".to_string(), "s".to_string());
    assert_eq!(o.delete_int("k".to_string()), Some(9));
    assert_eq!(o.get_int("k".to_string()), None);
    assert_eq!(
        o.get_string("k".to_string()).map(|s| s.as_str()),
        Some("s")
    );
    assert_eq!(o.delete_string("k".to_string()), Some("s".to_string()));
    assert_eq!(o.get_string("k".to_string()), None);
}

#[test]
fn lookup_and_delete_of_absent_key_leave_object_unchanged() {
    let mut o = JSONObject::new();
    o.insert_int("a".to_string(), 1);
    o.insert_bool("b".to_string(), true);

    assert_eq!(o.get_int("missing".to_string()), None);
    assert_eq!(o.delete_int("missing".to_string()), None);
    assert_eq!(o.delete_bool("a".to_string()), None);
    assert_eq!(o.delete_int("a".to_string()), Some(1));
    assert_eq!(o.delete_int("a".to_string()), None);

    assert_eq!(o.get_bool("b".to_string()), Some(&true));
}

#[test]
fn nested_containers_round_trip_through_an_object() {
    let mut inner = JSONArray::new();
    inner.add_int(3);
    inner.add_string("deep".to_string());

    let mut o = JSONObject::new();
    o.insert_array("arr".to_string(), inner);

    let got = o.get_array("arr".to_string()).expect("array present");
    assert_eq!(got.len(), 2);
    assert_eq!(got.get_int(0), Some(&3));
    assert_eq!(got.get_string(1).map(|s| s.as_str()), Some("deep"));

    let back = o.delete_array("arr".to_string()).expect("array present");
    assert_eq!(back.len(), 2);
    assert_eq!(back.get_int(0), Some(&3));
    assert!(o.get_array("arr".to_string()).is_none());

    let mut inner_obj = JSONObject::new();
    inner_obj.insert_null("n".to_string(), Null);
    let mut a = JSONArray::new();
    a.add_object(inner_obj);
    let o2 = a.get_object(0).expect("object present");
    assert_eq!(o2.get_null("n".to_string()), Some(&Null));
}
