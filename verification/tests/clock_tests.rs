use dagchain::clock::Hvc;

#[test]
fn test_hvc_init() {
    let hash_a = dagchain::hash::Hash::new("A".as_bytes());
    let hash_b = dagchain::hash::Hash::new("B".as_bytes());
    let hash_c = dagchain::hash::Hash::new("C".as_bytes());

    let mut hvc = Hvc::new();
    hvc.increment(hash_a);
    hvc.increment(hash_b);
    hvc.increment(hash_a);
    hvc.increment(hash_c);

    assert_eq!(hvc.get_clock(&hash_a), 2);
    assert_eq!(hvc.get_clock(&hash_b), 1);
    assert_eq!(hvc.get_clock(&hash_c), 1);
}

#[test]
fn test_hvc_merge() {
    let hash_a = dagchain::hash::Hash::new("A".as_bytes());
    let hash_b = dagchain::hash::Hash::new("B".as_bytes());

    let mut hvc1 = Hvc::new();
    hvc1.increment(hash_a);
    hvc1.increment(hash_a);
    hvc1.increment(hash_b);

    let mut hvc2 = Hvc::new();
    hvc2.increment(hash_a);
    hvc2.increment(hash_b);
    hvc2.increment(hash_a);

    // The merge takes the componentwise maximum of the two vectors.
    let hvc3 = hvc1.merge(&hvc2);

    assert_eq!(hvc3.get_clock(&hash_a), 2);
    assert_eq!(hvc3.get_clock(&hash_b), 1);
}

#[test]
fn test_hvc_happened_before() {
    let hash_a = dagchain::hash::Hash::new("A".as_bytes());
    let hash_b = dagchain::hash::Hash::new("B".as_bytes());
    let hash_c = dagchain::hash::Hash::new("C".as_bytes());

    // [2, 3, 2]
    let mut hvc1 = Hvc::new();
    hvc1.increment(hash_a);
    hvc1.increment(hash_a);
    hvc1.increment(hash_b);
    hvc1.increment(hash_b);
    hvc1.increment(hash_b);
    hvc1.increment(hash_c);
    hvc1.increment(hash_c);

    // [2, 4, 2]
    let mut hvc2 = Hvc::new();
    hvc2.increment(hash_a);
    hvc2.increment(hash_a);
    hvc2.increment(hash_b);
    hvc2.increment(hash_b);
    hvc2.increment(hash_b);
    hvc2.increment(hash_b);
    hvc2.increment(hash_c);
    hvc2.increment(hash_c);

    assert!(hvc1.happened_before(&hvc2));
    assert!(!hvc2.happened_before(&hvc1));
}

#[test]
fn test_hvc_concurrent() {
    // A:{n1->2, n2->1}, B:{n1->1, n2->2}: neither precedes the other.
    let n1 = dagchain::hash::Hash::new(b"n1");
    let n2 = dagchain::hash::Hash::new(b"n2");

    let mut a = Hvc::new();
    a.increment(n1);
    a.increment(n1);
    a.increment(n2);

    let mut b = Hvc::new();
    b.increment(n1);
    b.increment(n2);
    b.increment(n2);

    assert!(!a.happened_before(&b));
    assert!(!b.happened_before(&a));
    assert!(a.are_concurrent(&b));
}

#[test]
fn test_hvc_merge_monotone() {
    let n1 = dagchain::hash::Hash::new(b"n1");
    let n2 = dagchain::hash::Hash::new(b"n2");

    let mut a = Hvc::new();
    a.increment(n1);
    let mut b = Hvc::new();
    b.increment(n2);
    b.increment(n2);

    let m = a.merge(&b);
    assert!(m.get_clock(&n1) >= a.get_clock(&n1));
    assert!(m.get_clock(&n2) >= b.get_clock(&n2));
    assert_eq!(m.get_clock(&n1), 1);
    assert_eq!(m.get_clock(&n2), 2);
}
