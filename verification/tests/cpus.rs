use den::cpus::Cpus;

#[test]
fn whole_numbers_become_doubles() {
    let mut cases: Vec<u64> = vec![0, 1, 2, 3, 5, 7, 8, 96, 1000, u64::MAX];
    for shift in 0..64 {
        let p = 1u64 << shift;
        for d in [0u64, 1, 2, 3, 1023, 1024, 1025, 3071, 3072, 3073] {
            cases.push(p.wrapping_add(d));
            cases.push(p.wrapping_sub(d));
        }
    }
    for n in cases {
        assert_eq!(Cpus::from_count(n).bits, (n as f64).to_bits(), "{n}");
    }
}

#[test]
fn numbers_keep_their_order() {
    assert!(Cpus::from_count(3).more_than(&Cpus::from_count(2)));
    assert!(!Cpus::from_count(2).more_than(&Cpus::from_count(2)));
    assert!(Cpus::from_count(0).not_positive());
    assert!(!Cpus::from_count(1).not_positive());
    let half = Cpus { bits: 2.5f64.to_bits() };
    assert!(half.more_than(&Cpus::from_count(2)));
    assert!(!half.more_than(&Cpus::from_count(3)));
}
