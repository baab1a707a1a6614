use httpcore::traits::ThreadSafe;

#[test]
fn read_sees_the_stored_value() {
    let shared = ThreadSafe::new(5u32);
    assert_eq!(shared.read(|v: &u32| *v), 5);
}

#[test]
fn write_replaces_the_value_and_returns_a_result() {
    let shared = ThreadSafe::new(5u32);
    let old = shared.write(|v: u32| (v + 1, v));
    assert_eq!(old, 5);
    assert_eq!(shared.read(|v: &u32| *v), 6);
}

#[test]
fn readers_can_run_repeatedly() {
    let shared = ThreadSafe::new("hello".to_string());
    assert_eq!(shared.read(|v: &String| v.len()), 5);
    assert_eq!(shared.read(|v: &String| v.clone()), "hello");
}
