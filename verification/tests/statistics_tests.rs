use dudect::statistics::TTest;

fn t_value_from_summary(s: &dudect::statistics::TSummary) -> f64 {
    let n_a = s.n_a as f64;
    let n_b = s.n_b as f64;
    let sum_a = s.sum_a as f64;
    let sum_b = s.sum_b as f64;
    let sq_a = (s.sq_a_hi as f64) * 2f64.powi(128) + s.sq_a_lo as f64;
    let sq_b = (s.sq_b_hi as f64) * 2f64.powi(128) + s.sq_b_lo as f64;
    let mean_a = sum_a / n_a;
    let mean_b = sum_b / n_b;
    let var_a = (sq_a - n_a * mean_a * mean_a) / (n_a - 1.0);
    let var_b = (sq_b - n_b * mean_b * mean_b) / (n_b - 1.0);
    (mean_a - mean_b) / (var_a / n_a + var_b / n_b).sqrt()
}

#[test]
fn welford_against_reference() {
    let mut t = TTest::new();
    for v in [1u64, 2, 3, 4] {
        t.push(v, true);
    }
    for _ in 0..4 {
        t.push(2u64, false);
    }
    let counts = t.get_number_of_samples();
    assert_eq!(counts, [4, 4]);
    let means = t.get_mean();
    assert_eq!(means, [2, 2]); // exact means are 10/4 and 8/4, reported floored

    let s = t.compute().expect("both groups have enough spread");
    assert_eq!(s.n_a, 4);
    assert_eq!(s.n_b, 4);
    assert_eq!(s.sum_a, 10);
    assert_eq!(s.sum_b, 8);
    assert_eq!(s.sq_a_hi, 0);
    assert_eq!(s.sq_a_lo, 30);
    assert_eq!(s.sq_b_hi, 0);
    assert_eq!(s.sq_b_lo, 16);

    // var_a = 5/3, var_b = 0, t = 0.5 / sqrt(5/12)
    let t_value = t_value_from_summary(&s);
    let expected = 0.5 / (5.0f64 / 12.0).sqrt();
    assert!((t_value - expected).abs() < 1e-12);
    assert!((expected - 0.7746).abs() < 1e-4);
}

#[test]
fn degenerate_denominator_gives_no_t_value() {
    let mut t = TTest::new();
    for _ in 0..3 {
        t.push(42u64, true);
        t.push(42u64, false);
    }
    assert!(t.compute().is_none());
}

#[test]
fn distinct_constant_groups_still_have_zero_denominator() {
    let mut t = TTest::new();
    for _ in 0..3 {
        t.push(10u64, true);
        t.push(99u64, false);
    }
    // Each group is internally constant, so the combined standard error is
    // exactly zero even though the means differ.
    assert!(t.compute().is_none());
}

#[test]
fn too_few_samples_give_no_t_value() {
    let t = TTest::new();
    assert!(t.compute().is_none());

    let mut t = TTest::new();
    t.push(1u64, true);
    t.push(2u64, true);
    t.push(3u64, true);
    t.push(7u64, false);
    assert!(t.compute().is_none());

    let mut t = TTest::new();
    t.push(7u64, true);
    t.push(1u64, false);
    t.push(2u64, false);
    t.push(3u64, false);
    assert!(t.compute().is_none());
}

#[test]
fn sample_counts_track_pushes() {
    let mut t = TTest::new();
    assert_eq!(t.get_number_of_samples(), [0, 0]);
    t.push(5u64, true);
    assert_eq!(t.get_number_of_samples(), [1, 0]);
    t.push(6u64, false);
    t.push(7u64, false);
    assert_eq!(t.get_number_of_samples(), [1, 2]);
    for i in 0..100u64 {
        t.push(i, i % 2 == 0);
    }
    assert_eq!(t.get_number_of_samples(), [51, 52]);
}

#[test]
fn means_are_exact_floored() {
    let mut t = TTest::new();
    assert_eq!(t.get_mean(), [0, 0]);
    t.push(1u64, true);
    t.push(2u64, true);
    assert_eq!(t.get_mean(), [1, 0]); // 3/2 floored
    t.push(9u64, false);
    assert_eq!(t.get_mean(), [1, 9]);
}

#[test]
fn mirrored_pushes_give_zero_t() {
    let mut t = TTest::new();
    for v in [3u64, 7, 11] {
        t.push(v, true);
        t.push(v, false);
    }
    let s = t.compute().expect("groups have spread");
    assert_eq!(s.n_a, s.n_b);
    assert_eq!(s.sum_a, s.sum_b);
    assert_eq!(t_value_from_summary(&s), 0.0);
}

#[test]
fn swapping_group_labels_negates_t() {
    let a = [1u64, 2, 3, 10];
    let b = [5u64, 5, 8, 9];
    let mut t1 = TTest::new();
    let mut t2 = TTest::new();
    for &v in &a {
        t1.push(v, true);
        t2.push(v, false);
    }
    for &v in &b {
        t1.push(v, false);
        t2.push(v, true);
    }
    let s1 = t1.compute().expect("spread");
    let s2 = t2.compute().expect("spread");
    let v1 = t_value_from_summary(&s1);
    let v2 = t_value_from_summary(&s2);
    assert!((v1 + v2).abs() < 1e-12);
    assert!(v1 != 0.0);
}

#[test]
fn large_samples_do_not_lose_precision() {
    let mut t = TTest::new();
    t.push(u64::MAX, true);
    t.push(u64::MAX - 1, true);
    t.push(1u64, false);
    t.push(2u64, false);
    let s = t.compute().expect("spread");
    assert_eq!(s.sum_a, (u64::MAX as u128) * 2 - 1);
    // The sum of squares of the two largest samples overflows 128 bits and
    // lands in the high limb: (2^64-1)^2 + (2^64-2)^2 split exactly.
    assert_eq!(s.sq_a_hi, 1);
    assert_eq!(s.sq_a_lo, 340282366920938463352694142989510901765u128);
}
