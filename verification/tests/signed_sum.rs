use atomr::crdt::{Flag, LwwRegister, Replicator, SignedSum, SignedSumMap};

#[test]
fn add_routes_sign_correctly() {
    let mut s = SignedSum::new();
    s.add("n1", 100);
    s.add("n1", -30);
    assert_eq!(s.value(), 70);
}

#[test]
fn negative_deltas_are_first_class() {
    let mut s = SignedSum::new();
    s.add("n1", -50);
    s.add("n2", -25);
    s.add("n1", 10);
    assert_eq!(s.value(), -65);
}

#[test]
fn merge_takes_per_node_max() {
    let mut a = SignedSum::new();
    let mut b = SignedSum::new();
    a.add("n1", 5);
    a.add("n1", 3);
    b.add("n1", 5);
    b.add("n2", 7);
    a.merge(&b);
    assert_eq!(a.value(), 8 + 7);
}

#[test]
fn merge_is_idempotent() {
    let mut a = SignedSum::new();
    a.add("n1", 10);
    a.add("n2", -4);
    let before = a.duplicate();
    a.merge(&before);
    a.merge(&before);
    assert_eq!(a, before);
    assert_eq!(a.value(), 6);
}

#[test]
fn merge_commutative_associative_across_three_replicas() {
    let build = || {
        let mut r1 = SignedSum::new();
        r1.add("n1", 100);
        r1.add("n1", -10);
        let mut r2 = SignedSum::new();
        r2.add("n2", -40);
        r2.add("n2", 5);
        let mut r3 = SignedSum::new();
        r3.add("n3", 7);
        r3.add("n1", 100);
        (r1, r2, r3)
    };

    let (mut a, b, c) = build();
    a.merge(&b);
    a.merge(&c);

    let (r1, r2, mut x) = build();
    x.merge(&r1);
    x.merge(&r2);

    let (mut p, q, r) = build();
    let mut pr = r;
    pr.merge(&p);
    p = q;
    p.merge(&pr);

    let expected = 90 - 35 + 7;
    assert_eq!(a.value(), expected);
    assert_eq!(x.value(), expected);
    assert_eq!(p.value(), expected);
    assert_eq!(a.value(), x.value());
    assert_eq!(x.value(), p.value());
}

#[test]
fn saturates_at_i128_max_on_accumulate() {
    let mut s = SignedSum::new();
    s.add("n1", i128::MAX);
    s.add("n1", i128::MAX);
    assert_eq!(s.value(), i128::MAX);
}

#[test]
fn saturates_at_i128_min_value() {
    let mut s = SignedSum::new();
    s.add("n1", i128::MIN);
    assert_eq!(s.value(), i128::MIN + 1);
    s.add("n2", i128::MIN);
    s.add("n3", -1_000_000);
    assert_eq!(s.value(), i128::MIN + 1);
}

#[test]
fn value_subtraction_saturates_at_min() {
    let mut s = SignedSum::new();
    s.add("a", i128::MIN);
    s.add("b", i128::MIN);
    assert_eq!(s.value(), i128::MIN + 1);
}

#[test]
fn value_reduction_saturates_positive() {
    let mut s = SignedSum::new();
    s.add("n1", i128::MAX);
    s.add("n2", i128::MAX);
    assert_eq!(s.value(), i128::MAX);
}

#[test]
fn map_per_key_isolation_and_merge() {
    let mut m: SignedSumMap<&'static str> = SignedSumMap::new();
    m.add("aapl", "n1", 500);
    m.add("aapl", "n1", -100);
    m.add("msft", "n1", 200);
    assert_eq!(m.get(&"aapl"), 400);
    assert_eq!(m.get(&"msft"), 200);
    assert_eq!(m.get(&"absent"), 0);

    let mut m2: SignedSumMap<&'static str> = SignedSumMap::new();
    m2.add("aapl", "n2", -50);
    m2.add("googl", "n2", 90);
    m.merge(&m2);
    assert_eq!(m.get(&"aapl"), 350);
    assert_eq!(m.get(&"msft"), 200);
    assert_eq!(m.get(&"googl"), 90);

    let collected: Vec<_> = m.entries();
    assert_eq!(collected, vec![(&"aapl", 350), (&"googl", 90), (&"msft", 200)]);
}

#[test]
fn delta_take_and_clear() {
    let mut s = SignedSum::new();
    s.add("a", 30);
    s.add("a", -5);
    let d = s.take_delta().expect("non-empty");
    assert_eq!(d.positive("a"), Some(30));
    assert_eq!(d.negative("a"), Some(5));
    assert!(s.take_delta().is_none());
}

#[test]
fn delta_merge_matches_full_merge() {
    let mut local = SignedSum::new();
    local.add("a", 50);
    local.add("a", -10);
    let _ = local.take_delta();

    let mut remote = SignedSum::new();
    remote.add("a", 50);
    remote.add("a", -10);
    let _ = remote.take_delta();

    local.add("a", 25);
    local.add("a", -5);
    let delta = local.take_delta().unwrap();
    remote.merge_delta(&delta);
    assert_eq!(remote.value(), local.value());
    assert_eq!(remote.value(), 50 - 10 + 25 - 5);
}

#[test]
fn any_interleaving_converges() {
    let ops: Vec<(&str, usize, i128)> = vec![
        ("key-0", 0, 12),
        ("key-1", 1, -7),
        ("key-0", 2, -100),
        ("key-3", 3, 5),
        ("key-0", 0, -3),
        ("key-2", 1, 999_999),
        ("key-1", 1, 7),
        ("key-0", 3, 41),
    ];
    let nodes = ["node-0", "node-1", "node-2", "node-3"];
    let build = || {
        let mut replicas: Vec<SignedSumMap<String>> = Vec::new();
        for _ in 0..4 {
            replicas.push(SignedSumMap::new());
        }
        for (k, r, d) in &ops {
            replicas[*r].add(k.to_string(), nodes[*r], *d);
        }
        replicas
    };
    let replicas = build();
    let mut reference: SignedSumMap<String> = SignedSumMap::new();
    for r in &replicas {
        reference.merge(r);
    }
    let mut acc: SignedSumMap<String> = SignedSumMap::new();
    for i in [3, 0, 0, 2, 1, 3, 2] {
        acc.merge(&replicas[i]);
    }
    for k in ["key-0", "key-1", "key-2", "key-3"] {
        assert_eq!(acc.get(&k.to_string()), reference.get(&k.to_string()));
    }
    assert_eq!(reference.get(&"key-0".to_string()), 12 - 100 - 3 + 41);
}

#[test]
fn flags_latch_under_merge() {
    let mut on = Flag::new();
    on.switch_on();
    let mut a = Replicator::new();
    a.update_flag("k", on);
    a.update_flag("k", Flag::new());
    assert_eq!(a.get_flag("k").map(|f| f.enabled()), Some(true));
    let mut b = Replicator::new();
    b.update_flag("k", Flag::new());
    b.merge(&a);
    assert_eq!(b.get_flag("k").map(|f| f.enabled()), Some(true));
    assert!(b.get_flag("other").is_none());
}

#[test]
fn later_register_wins() {
    let mut r = Replicator::new();
    r.update_register("k", LwwRegister::new("n1", 1, 10));
    r.update_register("k", LwwRegister::new("n2", 2, 9));
    assert_eq!(r.get_register("k").map(|x| x.value()), Some(1));
    r.update_register("k", LwwRegister::new("n2", 3, 11));
    assert_eq!(r.get_register("k").map(|x| (x.value(), x.timestamp())), Some((3, 11)));
}
