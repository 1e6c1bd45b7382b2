use std::sync::Arc;

use lazymcp::State;

#[test]
fn new_state_derefs_to_value() {
    let s = State::new(41u32);
    assert_eq!(*s, 41);
    assert_eq!(*s.get(), 41);
}

#[test]
fn cloned_state_shares_the_value() {
    let s = State::new(vec![1, 2, 3]);
    let t = s.clone();
    assert!(Arc::ptr_eq(&s.0, &t.0));
    assert_eq!(*t, vec![1, 2, 3]);
}

#[test]
fn state_from_value_and_arc() {
    let s: State<String> = State::from("x".to_string());
    assert_eq!(s.as_str(), "x");
    let a = Arc::new(5i64);
    let t: State<i64> = State::from(a.clone());
    assert!(Arc::ptr_eq(&a, &t.0));
}
