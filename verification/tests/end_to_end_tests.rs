//! Whole-pipeline runs with a numeric t-value evaluator: a specimen whose
//! simulated timing leaks the group label is caught, one whose timing is
//! independent of it is not.

use std::cell::RefCell;
use std::rc::Rc;

use dudect::dudect::{
    CycleCounter, MeasurementContext, MeasurementRunResult, MeasurementSpecimen, RunReport,
    TValueEvaluator,
};
use dudect::statistics::TSummary;

/// Renders the exact aggregates as a Welch t value in units of 1/1024, the
/// way a numeric front end would.
struct NumericEvaluator;

impl TValueEvaluator for NumericEvaluator {
    fn t_value_scaled(&self, s: &TSummary) -> i64 {
        let n_a = s.n_a as f64;
        let n_b = s.n_b as f64;
        let mean_a = s.sum_a as f64 / n_a;
        let mean_b = s.sum_b as f64 / n_b;
        let sq_a = (s.sq_a_hi as f64) * 2f64.powi(128) + s.sq_a_lo as f64;
        let sq_b = (s.sq_b_hi as f64) * 2f64.powi(128) + s.sq_b_lo as f64;
        let var_a = (sq_a - n_a * mean_a * mean_a) / (n_a - 1.0);
        let var_b = (sq_b - n_b * mean_b * mean_b) / (n_b - 1.0);
        let den = (var_a / n_a + var_b / n_b).sqrt();
        if den == 0.0 {
            return 0;
        }
        let t = (mean_a - mean_b) / den * 1024.0;
        t.clamp(i64::MIN as f64, i64::MAX as f64).round() as i64
    }

    fn emit_run_report(&self, _report: &RunReport) {}
}

/// Shares each run's group labels with the counter below.
struct LabelledSpecimen {
    labels: Rc<RefCell<Vec<bool>>>,
}

impl MeasurementSpecimen for LabelledSpecimen {
    fn prepare_input_data(&self, input_data: &mut Vec<Vec<u8>>, is_group_a: &Vec<bool>) {
        *self.labels.borrow_mut() = is_group_a.clone();
        for (i, row) in input_data.iter_mut().enumerate() {
            row.clear();
            row.push(is_group_a[i] as u8);
        }
    }

    fn do_one_computation(&self, _input: &Vec<u8>) {}
}

/// Simulates per-invocation latency: a base cost with deterministic
/// jitter, plus an extra cost for group A when leaking.
struct SimulatedCounter {
    labels: Rc<RefCell<Vec<bool>>>,
    leak: bool,
    current: u64,
    call: usize,
}

impl CycleCounter for SimulatedCounter {
    fn cpu_ticks(&mut self) -> u64 {
        let labels = self.labels.borrow();
        let m = labels.len();
        let within_run = if m == 0 { 0 } else { self.call % (m + 1) };
        let jitter = ((self.call * 7919) % 5) as u64;
        let stride = if within_run == 0 {
            100
        } else if self.leak && labels[within_run - 1] {
            150 + jitter
        } else {
            100 + jitter
        };
        self.call += 1;
        self.current = self.current.wrapping_add(stride);
        self.current
    }
}

#[test]
fn leaky_specimen_is_caught() {
    let labels = Rc::new(RefCell::new(Vec::new()));
    let specimen = LabelledSpecimen { labels: labels.clone() };
    let mut counter = SimulatedCounter { labels, leak: true, current: 0, call: 0 };
    let evaluator = NumericEvaluator;
    let mut ctx = MeasurementContext::new(specimen, 500);
    let mut verdict = MeasurementRunResult::NoLeakageEvidenceYet;
    for _ in 0..60 {
        verdict = ctx.execute_measurement_run(&mut counter, &evaluator);
        if verdict == MeasurementRunResult::LeakageFound {
            break;
        }
    }
    assert_eq!(verdict, MeasurementRunResult::LeakageFound);
}

#[test]
fn constant_time_specimen_is_not_accused() {
    let labels = Rc::new(RefCell::new(Vec::new()));
    let specimen = LabelledSpecimen { labels: labels.clone() };
    let mut counter = SimulatedCounter { labels, leak: false, current: 0, call: 0 };
    let evaluator = NumericEvaluator;
    let mut ctx = MeasurementContext::new(specimen, 500);
    for _ in 0..40 {
        assert_eq!(
            ctx.execute_measurement_run(&mut counter, &evaluator),
            MeasurementRunResult::NoLeakageEvidenceYet
        );
    }
}
