use effectfence::fence::VectorClock;
use sha2::Digest;

fn clock(counters: &[(&str, u64)]) -> VectorClock {
    VectorClock::from_counters(counters.iter().map(|(a, n)| (a.to_string(), *n)).collect())
}

#[test]
fn the_digest_of_an_empty_clock_is_that_of_an_empty_object() {
    assert_eq!(
        VectorClock::new().digest(),
        "44136fa355b3678a1146ad16f7e8649e94fb4fc21fe77e8310c060f61caaff8a"
    );
    assert_eq!(VectorClock::default(), VectorClock::new());
}

#[test]
fn the_digest_hashes_the_counters_in_order_of_names() {
    let expected: String = sha2::Sha256::digest("{\"B\":3,\"a\":1,\"é\":2}".as_bytes())
        .iter()
        .map(|b| format!("{b:02x}"))
        .collect();
    assert_eq!(clock(&[("é", 2), ("a", 1), ("B", 3)]).digest(), expected);
    assert_ne!(clock(&[("a", 1)]).digest(), clock(&[("a", 2)]).digest());
}

#[test]
fn counters_come_back_in_order_and_the_last_of_an_agent_counts() {
    let c = clock(&[("b", 1), ("a", 2), ("b", 7)]);
    assert_eq!(c.counters(), vec![("a".to_string(), 2), ("b".to_string(), 7)]);
    assert_eq!(c.to_json().to_text(), "{\"a\":2,\"b\":7}");
}

#[test]
fn happened_before_is_a_partial_order() {
    let a = clock(&[("x", 1)]);
    let b = clock(&[("x", 1), ("y", 1)]);
    let c = clock(&[("x", 2), ("y", 1)]);
    assert!(a.le(&a));
    assert!(a.le(&b) && b.le(&c) && a.le(&c));
    assert!(!b.le(&a) && !c.le(&b));
    // A counter at zero is the same as none.
    let zero = clock(&[("x", 1), ("y", 0)]);
    assert!(zero.le(&a) && a.le(&zero));
    assert_ne!(zero, a);
}

#[test]
fn concurrency_goes_both_ways() {
    let a = clock(&[("x", 2), ("y", 1)]);
    let b = clock(&[("x", 1), ("y", 2)]);
    assert!(a.concurrent(&b) && b.concurrent(&a));
    assert!(!a.concurrent(&a));
}

#[test]
fn a_join_is_the_least_clock_above_both() {
    let a = clock(&[("x", 2), ("y", 1)]);
    let b = clock(&[("x", 1), ("y", 2), ("z", 0)]);
    let mut join = a.clone();
    join.merge(&b);
    assert_eq!(join, clock(&[("x", 2), ("y", 2), ("z", 0)]));
    let mut other = b.clone();
    other.merge(&a);
    assert_eq!(join, other);
    assert!(a.le(&join) && b.le(&join));
    let mut again = join.clone();
    again.merge(&b);
    assert_eq!(again, join);
}

#[test]
fn a_tick_moves_strictly_ahead() {
    let a = clock(&[("x", 2)]);
    let mut b = a.clone();
    assert_eq!(b.tick("y"), 1);
    assert!(a.le(&b) && !b.le(&a));
    assert_eq!(b.get("x"), 2);
}
