use json_store::{JSONArray, JSONObject, Null};

/// Which kinds hold logical position `p`? Used to check the density
/// invariant from outside: each position below the length must be held by
/// exactly one kind, and none at or above it.
fn kinds_holding(a: &JSONArray, p: usize) -> usize {
    let mut n: usize = 0;
    if a.get_int(p).is_some() {
        n += 1;
    }
    if a.get_float(p).is_some() {
        n += 1;
    }
    if a.get_bool(p).is_some() {
        n += 1;
    }
    if a.get_string(p).is_some() {
        n += 1;
    }
    if a.get_array(p).is_some() {
        n += 1;
    }
    if a.get_object(p).is_some() {
        n += 1;
    }
    if a.get_null(p).is_some() {
        n += 1;
    }
    n
}

fn assert_dense(a: &JSONArray) {
    for p in 0..a.len() {
        assert_eq!(kinds_holding(a, p), 1, "position {} not uniquely held", p);
    }
    for p in a.len()..a.len() + 3 {
        assert_eq!(kinds_holding(a, p), 0, "position {} beyond length held", p);
    }
}

#[test]
fn add_assigns_positions_in_call_order() {
    let mut a = JSONArray::new();
    a.add_int(1);
    a.add_string("a".to_string());
    a.add_bool(true);
    a.add_float(1.5f32.to_bits());
    a.add_null(Null);
    a.add_array(JSONArray::new());
    a.add_object(JSONObject::new());

    assert_eq!(a.len(), 7);
    assert_eq!(a.get_int(0), Some(&1));
    assert_eq!(a.get_string(1).map(|s| s.as_str()), Some("a"));
    assert_eq!(a.get_bool(2), Some(&true));
    assert_eq!(a.get_float(3).copied().map(f32::from_bits), Some(1.5));
    assert_eq!(a.get_null(4), Some(&Null));
    assert!(a.get_array(5).is_some());
    assert!(a.get_object(6).is_some());
    assert_dense(&a);
}

#[test]
fn round_trip_reads_back_in_position_order() {
    let mut a = JSONArray::new();
    a.add_int(1);
    a.add_string("a".to_string());
    a.add_bool(true);

    assert_eq!(a.len(), 3);
    assert_eq!(a.get_int(0), Some(&1));
    assert_eq!(a.get_string(1).map(|s| s.as_str()), Some("a"));
    assert_eq!(a.get_bool(2), Some(&true));

    assert!(a.get_string(0).is_none());
    assert!(a.get_bool(0).is_none());
    assert!(a.get_int(1).is_none());
    assert!(a.get_int(2).is_none());
}

#[test]
fn removal_re_densifies_and_keeps_order() {
    let mut a = JSONArray::new();
    a.add_int(10);
    a.add_string("x".to_string());
    a.add_bool(true);
    a.add_float(2.5f32.to_bits());

    assert_eq!(a.remove_string(1), Ok("x".to_string()));
    assert_eq!(a.len(), 3);
    assert_eq!(a.get_int(0), Some(&10));
    assert_eq!(a.get_bool(1), Some(&true));
    assert_eq!(a.get_float(2).copied().map(f32::from_bits), Some(2.5));
    assert_dense(&a);
}

#[test]
fn removing_first_and_last_positions() {
    let mut a = JSONArray::new();
    a.add_int(1);
    a.add_int(2);
    a.add_bool(false);
    assert_eq!(a.remove_bool(2), Ok(false));
    assert_dense(&a);
    assert_eq!(a.remove_int(0), Ok(1));
    assert_dense(&a);
    assert_eq!(a.get_int(0), Some(&2));
    assert_eq!(a.remove_int(0), Ok(2));
    assert_eq!(a.len(), 0);
    assert_dense(&a);
    a.add_string("again".to_string());
    assert_eq!(a.get_string(0).map(|s| s.as_str()), Some("again"));
    assert_dense(&a);
}

#[test]
fn removing_nonexistent_position_fails_and_changes_nothing() {
    let mut a = JSONArray::new();
    a.add_int(10);
    a.add_string("x".to_string());
    a.add_bool(true);
    a.add_float(2.5f32.to_bits());

    assert_eq!(a.remove_int(5), Err("Index doesn't exist"));
    assert_eq!(a.remove_bool(9), Err("Index doesn't exist"));
    assert_eq!(a.len(), 4);

    // Position 2 exists, but is held by the boolean list, not the integer one.
    assert_eq!(a.remove_int(2), Err("Index doesn't exist"));
    assert_eq!(a.len(), 4);
    assert_eq!(a.get_int(0), Some(&10));
    assert_eq!(a.get_string(1).map(|s| s.as_str()), Some("x"));
    assert_eq!(a.get_bool(2), Some(&true));
    assert_eq!(a.get_float(3).copied().map(f32::from_bits), Some(2.5));
    assert_dense(&a);

    let empty = JSONArray::new();
    let mut empty = empty;
    assert!(empty.remove_null(0).is_err());
    assert_eq!(empty.len(), 0);
}

#[test]
fn nested_array_survives_removal_intact() {
    let mut inner = JSONArray::new();
    inner.add_int(7);
    inner.add_null(Null);

    let mut a = JSONArray::new();
    a.add_bool(true);
    a.add_array(inner);
    a.add_int(5);

    let got = a.remove_array(1).expect("array present");
    assert_eq!(got.len(), 2);
    assert_eq!(got.get_int(0), Some(&7));
    assert_eq!(got.get_null(1), Some(&Null));

    assert_eq!(a.len(), 2);
    assert_eq!(a.get_bool(0), Some(&true));
    assert_eq!(a.get_int(1), Some(&5));
    assert_dense(&a);
}

#[test]
fn positions_stay_dense_under_random_interleavings() {
    // Deterministic linear congruential generator.
    let mut state: u64 = 0x2545_f491_4f6c_dd1d;
    let mut rand = move || {
        state = state
            .wrapping_mul(6364136223846793005)
            .wrapping_add(1442695040888963407);
        (state >> 33) as usize
    };

    let mut a = JSONArray::new();
    for step in 0..300 {
        let grow = a.len() == 0 || rand() % 3 != 0;
        if grow {
            match rand() % 7 {
                0 => a.add_int(step as i32),
                1 => a.add_float((step as f32).to_bits()),
                2 => a.add_bool(step % 2 == 0),
                3 => a.add_string(format!("s{}", step)),
                4 => a.add_array(JSONArray::new()),
                5 => a.add_object(JSONObject::new()),
                _ => a.add_null(Null),
            }
        } else {
            // Aim at a random position with a random kind; success or
            // NotFound are both acceptable, the invariant must hold either
            // way.
            let p: usize = rand() % (a.len() + 1);
            let before: usize = a.len();
            let hit = match rand() % 7 {
                0 => a.remove_int(p).is_ok(),
                1 => a.remove_float(p).is_ok(),
                2 => a.remove_bool(p).is_ok(),
                3 => a.remove_string(p).is_ok(),
                4 => a.remove_array(p).is_ok(),
                5 => a.remove_object(p).is_ok(),
                _ => a.remove_null(p).is_ok(),
            };
            if hit {
                assert_eq!(a.len(), before - 1);
            } else {
                assert_eq!(a.len(), before);
            }
        }
        assert_dense(&a);
    }
}
