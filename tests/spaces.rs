use rust_gymnasium::{rng_from_seed, BoxSpace, Discrete, MultiBinary, MultiDiscrete, SeedSequence, Space};

#[test]
fn spaces_multi_binary_and_multi_discrete() {
    let mut rng = rng_from_seed(123);

    let mb = MultiBinary::new(8);
    for _ in 0..50 {
        let v = mb.sample(&mut rng);
        assert!(mb.contains(&v));
        assert_eq!(v.len(), 8);
        assert!(v.iter().all(|&x| x == 0 || x == 1));
    }

    let md = MultiDiscrete::new(vec![1, 2, 5, 10]);
    for _ in 0..50 {
        let v = md.sample(&mut rng);
        assert!(md.contains(&v));
        assert_eq!(v.len(), 4);
        assert!(v[0] == 0);
        assert!(v[1] < 2 && v[2] < 5 && v[3] < 10);
    }

    let bad_mb = vec![0, 1, 2, 0, 1, 0, 1, 0];
    assert!(!mb.contains(&bad_mb));
    let bad_md = vec![0, 2, 5, 10];
    assert!(!md.contains(&bad_md));
}

#[test]
fn spaces_discrete_and_box() {
    let mut rng = rng_from_seed(42);
    let d = Discrete::new(5);
    for _ in 0..100 {
        let v = d.sample(&mut rng);
        assert!(v < 5);
        assert!(d.contains(&v));
    }

    // Float boxes are constructed here; their sampling is done by the
    // application layer, integer boxes are sampled below.
    let b = BoxSpace::new([0.0, -1.0, 2.5], [1.0, 1.0, 3.5]);
    assert!(b.low()[0] >= 0.0 && b.high()[0] <= 1.0);
    let bi = BoxSpace::new([0i32, -1, 2], [1i32, 1, 3]);
    for _ in 0..100 {
        let v = bi.sample(&mut rng);
        assert!(bi.contains(&v));
        assert!(v[0] >= 0 && v[0] <= 1);
    }
}

#[test]
fn discrete_samples_bounded_and_reproducible_over_sizes_and_seeds() {
    for n in [1u32, 2, 3, 7, 100, 999] {
        for seed in [0u64, 1, 12345, u64::MAX] {
            let d = Discrete::new(n);
            let mut r1 = rng_from_seed(seed);
            let mut r2 = rng_from_seed(seed);
            for _ in 0..100 {
                let v1 = d.sample(&mut r1);
                let v2 = d.sample(&mut r2);
                assert!(v1 < n);
                assert!(d.contains(&v1));
                assert_eq!(v1, v2);
            }
        }
    }
}

#[test]
fn spaces_sample_deterministically_with_seed_seq() {
    let mut ss = SeedSequence::new(999);
    let mut rng1 = ss.next_rng();
    let mut rng2 = SeedSequence::new(999).next_rng();
    let d = Discrete::new(10);
    for _ in 0..100 {
        assert_eq!(d.sample(&mut rng1), d.sample(&mut rng2));
    }
}

#[test]
fn discrete_of_one_always_samples_zero() {
    let mut rng = rng_from_seed(3);
    let d = Discrete::new(1);
    for _ in 0..20 {
        assert_eq!(d.sample(&mut rng), 0);
    }
    assert!(d.contains(&0));
    assert!(!d.contains(&1));
}

#[test]
fn discrete_reports_its_size_and_rejects_large_values() {
    let d = Discrete::new(4);
    assert_eq!(d.n(), 4);
    assert!(d.contains(&3));
    assert!(!d.contains(&4));
    assert!(!d.contains(&u32::MAX));
    assert_eq!(d.clone(), d);
}

#[test]
fn discrete_sampling_visits_more_than_one_value() {
    let mut rng = rng_from_seed(11);
    let d = Discrete::new(10);
    let first = d.sample(&mut rng);
    let mut differs = false;
    for _ in 0..50 {
        if d.sample(&mut rng) != first {
            differs = true;
        }
    }
    assert!(differs);
}

#[test]
fn multi_binary_samples_valid_over_lengths() {
    for n in [1usize, 2, 17, 255] {
        let mb = MultiBinary::new(n);
        assert_eq!(mb.n(), n);
        let mut rng = rng_from_seed(n as u64);
        for _ in 0..50 {
            let v = mb.sample(&mut rng);
            assert_eq!(v.len(), n);
            assert!(mb.contains(&v));
        }
    }
}

#[test]
fn multi_binary_rejects_wrong_length_and_values() {
    let mb = MultiBinary::new(3);
    assert!(mb.contains(&vec![0, 1, 1]));
    assert!(!mb.contains(&vec![0, 1]));
    assert!(!mb.contains(&vec![0, 1, 1, 0]));
    assert!(!mb.contains(&vec![0, 1, 255]));
    assert!(!mb.contains(&vec![]));
}

#[test]
fn multi_discrete_samples_valid_over_dimensions() {
    let shapes: Vec<Vec<u32>> = vec![
        vec![1],
        vec![9999],
        vec![2, 3],
        vec![1, 1, 1, 1, 1, 1, 1, 1],
        vec![5, 10, 100, 1000, 10000, 7, 3],
    ];
    for (k, nvec) in shapes.into_iter().enumerate() {
        let md = MultiDiscrete::new(nvec.clone());
        assert_eq!(md.nvec(), nvec.as_slice());
        assert_eq!(md.ndim(), nvec.len());
        let mut rng = rng_from_seed(k as u64 + 40);
        for _ in 0..50 {
            let v = md.sample(&mut rng);
            assert_eq!(v.len(), nvec.len());
            assert!(md.contains(&v));
            for (x, n) in v.iter().zip(nvec.iter()) {
                assert!(x < n);
            }
        }
    }
}

#[test]
fn multi_discrete_rejects_wrong_length_and_values() {
    let md = MultiDiscrete::new(vec![2, 3]);
    assert!(md.contains(&vec![1, 2]));
    assert!(!md.contains(&vec![1]));
    assert!(!md.contains(&vec![1, 2, 0]));
    assert!(!md.contains(&vec![2, 0]));
    assert!(!md.contains(&vec![0, 3]));
    let copy = md.clone();
    assert_eq!(copy, md);
}

#[test]
fn boxspace_sampling_contains_and_deterministic() {
    let b2 = BoxSpace::new([-10i32, 5i32], [0i32, 10i32]);
    let mut r1 = rng_from_seed(999);
    let mut r2 = rng_from_seed(999);
    for _ in 0..50 {
        let v1 = b2.sample(&mut r1);
        let v2 = b2.sample(&mut r2);
        assert!(b2.contains(&v1));
        assert!(b2.contains(&v2));
        assert!(v1[0] >= -10 && v1[0] <= 0 && v1[1] >= 5 && v1[1] <= 10);
        assert_eq!(v1, v2);
    }
}

#[test]
fn integer_box_rejects_out_of_range_points() {
    let b = BoxSpace::new([-1i32, 0, 7], [1i32, 0, 9]);
    assert_eq!(b.low(), &[-1, 0, 7]);
    assert_eq!(b.high(), &[1, 0, 9]);
    assert!(b.contains(&[-1, 0, 9]));
    assert!(b.contains(&[1, 0, 7]));
    assert!(!b.contains(&[-2, 0, 8]));
    assert!(!b.contains(&[0, 1, 8]));
    assert!(!b.contains(&[0, 0, 10]));
    let mut rng = rng_from_seed(1);
    for _ in 0..20 {
        let v = b.sample(&mut rng);
        assert_eq!(v[1], 0);
        assert!(b.contains(&v));
    }
}

#[test]
fn degenerate_integer_box_samples_its_only_point() {
    let b = BoxSpace::new([i32::MIN, 4], [i32::MIN, 4]);
    let mut rng = rng_from_seed(8);
    assert_eq!(b.sample(&mut rng), [i32::MIN, 4]);
    let full = BoxSpace::new([i32::MIN], [i32::MAX]);
    assert!(full.contains(&full.sample(&mut rng)));
}

#[test]
fn float_box_keeps_its_bounds() {
    let b = BoxSpace::new([0.0f64, -1.0, 2.5], [1.0f64, 1.0, 3.5]);
    assert_eq!(b.low(), &[0.0, -1.0, 2.5]);
    assert_eq!(b.high(), &[1.0, 1.0, 3.5]);
}
