use rust_gymnasium::{member_seeds, GymError, Info};

#[test]
fn info_insert_get_and_replace_in_place() {
    let mut info: Info<i64> = Info::new();
    assert!(info.is_empty());
    info.insert("a", 1);
    info.insert("b", 2);
    info.insert("a", 3);
    assert_eq!(info.len(), 2);
    assert!(!info.is_empty());
    assert_eq!(info.get("a"), Some(&3));
    assert_eq!(info.get("b"), Some(&2));
    assert_eq!(info.get("c"), None);
    let keys: Vec<&str> = info.iter().iter().map(|(k, _)| k.as_str()).collect();
    assert_eq!(keys, vec!["a", "b"]);
}

#[test]
fn info_keeps_insertion_order() {
    let mut info: Info<&str> = Info::new();
    for k in ["z", "y", "x", "y"] {
        info.insert(k, k);
    }
    let keys: Vec<&str> = info.iter().iter().map(|(k, _)| k.as_str()).collect();
    assert_eq!(keys, vec!["z", "y", "x"]);
}

#[test]
fn member_seeds_offset_the_base_seed() {
    assert_eq!(member_seeds(Some(123), 3), vec![Some(123), Some(124), Some(125)]);
    assert_eq!(member_seeds(None, 2), vec![None, None]);
    assert!(member_seeds(Some(7), 0).is_empty());
    assert_eq!(member_seeds(Some(u64::MAX), 1), vec![Some(u64::MAX)]);
}

#[test]
fn gym_error_carries_its_message() {
    let e = GymError::NotReady("reset first".to_string());
    assert_eq!(e.message(), "reset first");
    assert_eq!(GymError::Other("x".to_string()).message(), "x");
}

#[test]
fn count_step_truncates_at_the_budget() {
    assert_eq!(rust_gymnasium::count_step(0, 3), (1, false));
    assert_eq!(rust_gymnasium::count_step(1, 3), (2, false));
    assert_eq!(rust_gymnasium::count_step(2, 3), (3, true));
    assert_eq!(rust_gymnasium::count_step(7, 3), (8, true));
    assert_eq!(rust_gymnasium::count_step(0, 0), (1, true));
}
