use dudect::dudect::{
    crop_fraction, decide_verdict, percentile, select_max_test_index, CycleCounter,
    MeasurementContext, MeasurementRunResult, MeasurementSpecimen, RunReport, TValueEvaluator,
    ENOUGH_MEASUREMENTS, NUMBER_PERCENTILES,
};
use dudect::statistics::TSummary;

/// A specimen that does nothing: the harness logic is exercised with a
/// scripted counter instead of real timings.
struct IdleSpecimen;

impl MeasurementSpecimen for IdleSpecimen {
    fn prepare_input_data(&self, input_data: &mut Vec<Vec<u8>>, _is_group_a: &Vec<bool>) {
        for row in input_data.iter_mut() {
            row.clear();
            row.push(0);
        }
    }

    fn do_one_computation(&self, _input: &Vec<u8>) {}
}

/// A counter that advances by a scripted stride on every call, repeating
/// the script forever.
struct StrideCounter {
    current: u64,
    strides: Vec<u64>,
    pos: usize,
}

impl StrideCounter {
    fn new(strides: Vec<u64>) -> Self {
        Self { current: 0, strides, pos: 0 }
    }
}

impl CycleCounter for StrideCounter {
    fn cpu_ticks(&mut self) -> u64 {
        let stride = self.strides[self.pos % self.strides.len()];
        self.pos += 1;
        self.current = self.current.wrapping_add(stride);
        self.current
    }
}

/// An evaluator that always renders the same scaled t value and remembers
/// nothing.
struct FixedEvaluator {
    value: i64,
}

impl TValueEvaluator for FixedEvaluator {
    fn t_value_scaled(&self, _summary: &TSummary) -> i64 {
        self.value
    }

    fn emit_run_report(&self, _report: &RunReport) {}
}

#[test]
fn percentile_sorts_and_selects() {
    let mut data = vec![5u64, 1, 9, 3];
    // A fraction of one half: index 4 * 2^62 / 2^63 = 2 of the sorted buffer.
    let r = percentile(&mut data, 1u64 << 62);
    assert_eq!(data, vec![1, 3, 5, 9]);
    assert_eq!(r, 5);

    let mut data = vec![7u64];
    assert_eq!(percentile(&mut data, 0), 7);
    assert_eq!(percentile(&mut data, (1u64 << 63) - 1), 7);
}

#[test]
fn crop_fractions_are_monotone_and_pinned() {
    for i in 0..NUMBER_PERCENTILES - 1 {
        assert!(crop_fraction(i) <= crop_fraction(i + 1));
    }
    // One full decade halves the remaining tail weight exactly.
    assert_eq!(crop_fraction(9), 1u64 << 62);
    assert_eq!(crop_fraction(99), (1u64 << 63) - (1u64 << 53));
    for i in 0..NUMBER_PERCENTILES {
        let f = crop_fraction(i);
        assert!(0 < f && f < 1u64 << 63);
    }
}

#[test]
fn percentile_layout_for_uniform_times() {
    // Five hundred samples uniform on [0, 1_000_000): the first crop
    // threshold sits at the 6.7th percentile the exponential schedule
    // starts at, the last one at the top of the distribution.
    let data: Vec<u64> = (0..500u64).map(|i| i * 2000).collect();
    let mut buffer = data.clone();
    let first = percentile(&mut buffer, crop_fraction(0));
    // floor(500 * (1 - 0.5^0.1)) = 33
    assert_eq!(first, 66_000);
    let mut buffer = data.clone();
    let last = percentile(&mut buffer, crop_fraction(99));
    // floor(500 * (1 - 0.5^10)) = 499: the top sample
    assert_eq!(last, 998_000);
    let mut buffer = data.clone();
    let mid = percentile(&mut buffer, crop_fraction(9));
    // floor(500 * 0.5) = 250
    assert_eq!(mid, 500_000);
}

#[test]
fn first_run_returns_no_evidence_and_seeds_percentiles() {
    let mut counter = StrideCounter::new(vec![100]);
    let evaluator = FixedEvaluator { value: i64::MAX / 2 };
    let mut ctx = MeasurementContext::new(IdleSpecimen, 50);
    let r = ctx.execute_measurement_run(&mut counter, &evaluator);
    assert_eq!(r, MeasurementRunResult::NoLeakageEvidenceYet);
    // All execution times were 100 ticks, so every threshold is 100.
    let thresholds = ctx.get_percentiles();
    assert_eq!(thresholds.len(), NUMBER_PERCENTILES);
    for &p in thresholds.iter() {
        assert_eq!(p, 100);
    }
    // The warm-up run feeds no test.
    assert_eq!(ctx.get_uncropped_test().get_number_of_samples(), [0, 0]);
    assert_eq!(ctx.get_second_order_test().get_number_of_samples(), [0, 0]);
    for k in 0..NUMBER_PERCENTILES {
        assert_eq!(ctx.get_percentile_test(k).get_number_of_samples(), [0, 0]);
    }
}

#[test]
fn percentile_thresholds_are_sorted_for_spread_times() {
    // One run of strictly increasing execution times.
    let m = 200usize;
    let strides: Vec<u64> = (0..=m as u64).map(|i| i * 37 + 5).collect();
    let mut counter = StrideCounter::new(strides);
    let evaluator = FixedEvaluator { value: 0 };
    let mut ctx = MeasurementContext::new(IdleSpecimen, m);
    let r = ctx.execute_measurement_run(&mut counter, &evaluator);
    assert_eq!(r, MeasurementRunResult::NoLeakageEvidenceYet);
    let thresholds = ctx.get_percentiles().clone();
    for w in thresholds.windows(2) {
        assert!(w[0] <= w[1]);
    }
    assert!(thresholds[0] > 0);
    assert!(thresholds[0] < thresholds[NUMBER_PERCENTILES - 1]);
}

#[test]
fn warmup_strip_discards_first_ten_samples() {
    let m = 30usize;
    // First run: constant 100-tick times seed all thresholds at 100.
    let mut run1 = vec![100u64; m + 1];
    // Second run: a huge spike in the first ten slots, then 100s.
    let mut run2 = vec![100u64; m + 1];
    for i in 1..=10 {
        run2[i] = 1_000_000_000;
    }
    let mut strides = Vec::new();
    strides.append(&mut run1);
    strides.append(&mut run2);
    let mut counter = StrideCounter::new(strides);
    let evaluator = FixedEvaluator { value: 0 };
    let mut ctx = MeasurementContext::new(IdleSpecimen, m);
    assert_eq!(
        ctx.execute_measurement_run(&mut counter, &evaluator),
        MeasurementRunResult::NoLeakageEvidenceYet
    );
    assert_eq!(
        ctx.execute_measurement_run(&mut counter, &evaluator),
        MeasurementRunResult::NoLeakageEvidenceYet
    );
    // The spike sat entirely inside the warm-up strip: the uncropped test
    // holds the window's samples, all of them 100 ticks.
    let counts = ctx.get_uncropped_test().get_number_of_samples();
    assert_eq!((counts[0] + counts[1]) as usize, m - 11);
    let means = ctx.get_uncropped_test().get_mean();
    for g in 0..2 {
        assert!(means[g] == 100 || counts[g] == 0);
    }
    // No cropped test saw the spike either: nothing lies below the 100-tick
    // thresholds.
    for k in 0..NUMBER_PERCENTILES {
        assert_eq!(ctx.get_percentile_test(k).get_number_of_samples(), [0, 0]);
    }
}

#[test]
fn no_verdict_before_enough_measurements() {
    let m = 30usize;
    let mut counter = StrideCounter::new(vec![100]);
    // Even an evaluator screaming leakage cannot produce a verdict while
    // the battery holds too few measurements.
    let evaluator = FixedEvaluator { value: i64::MAX / 2 };
    let mut ctx = MeasurementContext::new(IdleSpecimen, m);
    for _ in 0..5 {
        assert_eq!(
            ctx.execute_measurement_run(&mut counter, &evaluator),
            MeasurementRunResult::NoLeakageEvidenceYet
        );
    }
}

#[test]
fn leakage_found_after_enough_measurements() {
    let m = 500usize;
    // Slightly varied times so the uncropped test keeps a nonzero spread.
    let strides: Vec<u64> = (0..=m as u64).map(|i| 100 + (i % 7)).collect();
    let mut counter = StrideCounter::new(strides);
    let evaluator = FixedEvaluator { value: 999_999 };
    let mut ctx = MeasurementContext::new(IdleSpecimen, m);
    let mut leaked = false;
    for _ in 0..60 {
        if ctx.execute_measurement_run(&mut counter, &evaluator)
            == MeasurementRunResult::LeakageFound
        {
            leaked = true;
            break;
        }
    }
    assert!(leaked);
    let counts = ctx.get_uncropped_test().get_number_of_samples();
    assert!(counts[0] + counts[1] >= ENOUGH_MEASUREMENTS);
}

#[test]
fn moderate_threshold_is_strict() {
    let m = 500usize;
    let strides: Vec<u64> = (0..=m as u64).map(|i| 100 + (i % 7)).collect();
    let mut counter = StrideCounter::new(strides);
    // A t value exactly at the scaled moderate threshold is no leak.
    let evaluator = FixedEvaluator { value: 10240 };
    let mut ctx = MeasurementContext::new(IdleSpecimen, m);
    for _ in 0..40 {
        assert_eq!(
            ctx.execute_measurement_run(&mut counter, &evaluator),
            MeasurementRunResult::NoLeakageEvidenceYet
        );
    }
}

#[test]
fn decide_verdict_ladder() {
    let no = MeasurementRunResult::NoLeakageEvidenceYet;
    let leak = MeasurementRunResult::LeakageFound;
    assert_eq!(decide_verdict(0, i64::MAX), no);
    assert_eq!(decide_verdict(9_999, i64::MAX), no);
    assert_eq!(decide_verdict(10_000, 10_240), no);
    assert_eq!(decide_verdict(10_000, 10_241), leak);
    assert_eq!(decide_verdict(10_000, -10_241), leak);
    assert_eq!(decide_verdict(10_000, 512_001), leak);
    assert_eq!(decide_verdict(10_000, -512_001), leak);
    assert_eq!(decide_verdict(10_000, 0), no);
    assert_eq!(decide_verdict(u128::MAX, i64::MIN), leak);
}

#[test]
fn max_test_selection_tie_break() {
    let mut keys = vec![0i64; NUMBER_PERCENTILES + 2];
    // All equal: the last cropped test wins; the uncropped and
    // second-order tests take over only when strictly greater.
    assert_eq!(select_max_test_index(&keys), NUMBER_PERCENTILES - 1);
    keys[5] = 7;
    keys[50] = 7;
    assert_eq!(select_max_test_index(&keys), 50);
    keys[NUMBER_PERCENTILES] = 7;
    assert_eq!(select_max_test_index(&keys), 50);
    keys[NUMBER_PERCENTILES] = 8;
    assert_eq!(select_max_test_index(&keys), NUMBER_PERCENTILES);
    keys[NUMBER_PERCENTILES + 1] = 9;
    assert_eq!(select_max_test_index(&keys), NUMBER_PERCENTILES + 1);
    // A strongly negative t is masked by a mildly positive one: the
    // selection compares signed keys.
    let mut keys = vec![0i64; NUMBER_PERCENTILES + 2];
    keys[3] = -1_000_000;
    keys[4] = 5;
    assert_eq!(select_max_test_index(&keys), 4);
}

#[test]
fn group_assignment_fraction_is_balanced() {
    let m = 10_000usize;
    let mut ctx = MeasurementContext::new(IdleSpecimen, m);
    ctx.randomize_group_assignments();
    let flags = ctx.get_group_assignments();
    let ones = flags.iter().filter(|&&b| b).count();
    // Ten thousand independent fair draws stray this far from one half
    // with probability far below any practical concern.
    assert!(ones > 3_000 && ones < 7_000);
}

#[test]
fn second_order_engages_after_enough_group_a_samples() {
    let m = 500usize;
    // A spread-out seed run puts the lowest crop threshold near 1330
    // ticks; every later run stays far below it, so each sample of the
    // window lands in the first cropped test.
    let mut strides: Vec<u64> = (0..=m as u64).map(|i| 1000 + i * 10).collect();
    strides.extend((0..=m as u64).map(|i| 100 + (i % 7)));
    let mut counter = StrideCounter::new(strides);
    let evaluator = FixedEvaluator { value: 0 };
    let mut ctx = MeasurementContext::new(IdleSpecimen, m);
    let mut engaged_seen = false;
    for _ in 0..120 {
        ctx.execute_measurement_run(&mut counter, &evaluator);
        let a_count = ctx.get_percentile_test(0).get_number_of_samples()[0];
        let second = ctx.get_second_order_test().get_number_of_samples();
        if a_count <= ENOUGH_MEASUREMENTS {
            assert_eq!(second, [0, 0]);
        } else if second[0] + second[1] > 0 {
            engaged_seen = true;
            break;
        }
    }
    assert!(engaged_seen);
}

#[test]
fn run_driver_stops_on_budget() {
    let mut counter = StrideCounter::new(vec![100]);
    let evaluator = FixedEvaluator { value: 0 };
    let r = dudect::dudect::run_dudect_test(IdleSpecimen, &mut counter, &evaluator, 0);
    assert_eq!(r, MeasurementRunResult::NoLeakageEvidenceYet);
    let mut counter = StrideCounter::new(vec![100]);
    let r = dudect::dudect::run_dudect_test(IdleSpecimen, &mut counter, &evaluator, 3);
    assert_eq!(r, MeasurementRunResult::NoLeakageEvidenceYet);
}
