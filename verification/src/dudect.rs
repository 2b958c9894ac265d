//! The measurement harness: drives timed runs of a caller-supplied
//! computation over two input populations and applies a battery of Welch
//! t-tests — one uncropped, one per percentile crop threshold, and one
//! second-order test on centered squared deviations — to decide between
//! "leakage found" and "no evidence yet".

use vstd::prelude::*;
use vstd::arithmetic::div_mod::lemma_div_is_ordered;
use crate::sorting::sorted;
use crate::sorting::sort_samples;
use crate::sorting::lemma_sorted_same_content;
use crate::statistics::TTest;
use crate::statistics::mean_floor;
use crate::statistics::scaled_dev_sq;
use crate::statistics::TSummary;

verus! {

/// Number of measurements a test must hold before its t value is taken as
/// evidence either way.
pub const ENOUGH_MEASUREMENTS: u64 = 10000;

/// Number of percentile crop thresholds, and of cropped t-tests.
pub const NUMBER_PERCENTILES: usize = 100;

/// t values handed to the harness are fixed-point numbers in units of
/// `1 / TVALUE_SCALE`.
pub const TVALUE_SCALE: i64 = 1024;

/// The moderate evidence threshold on `|t|`, scaled by `TVALUE_SCALE`.
pub const TTEST_FAILED_MODERATE_SCALED: i64 = 10240;

/// The overwhelming evidence threshold on `|t|`, scaled by `TVALUE_SCALE`.
pub const TTEST_FAILED_OVERWHELMINGLY_SCALED: i64 = 512000;

/// Each function that should be tested must implement this trait.
pub trait MeasurementSpecimen {
    /// Prepares the input data for the computation function.  Every slot of
    /// `input_data` should be filled, and the parallel `is_group_a` flags
    /// say which population each slot belongs to.  It is recommended to
    /// generate different input data for group a and b.
    fn prepare_input_data(&self, input_data: &mut Vec<Vec<u8>>, is_group_a: &Vec<bool>)
        ensures
            final(input_data)@.len() == old(input_data)@.len(),
    ;

    /// The computation function that is analyzed for static execution time.
    fn do_one_computation(&self, input: &Vec<u8>);
}

/// The cycle-counter probe: a monotonically non-decreasing 64-bit tick
/// count, modulo hardware wraparound.  Nothing is assumed of the values;
/// the statistics hold for every tick sequence.
pub trait CycleCounter {
    /// Returns the current CPU tick count.
    fn cpu_ticks(&mut self) -> u64;
}

/// Evaluates the exact ingredients of a t statistic numerically and
/// receives each run's report.  Nothing is assumed of the returned value;
/// the harness's selection and verdict logic is exact in terms of it.
pub trait TValueEvaluator {
    /// The t value of the summarized test, in units of `1 / TVALUE_SCALE`.
    fn t_value_scaled(&self, summary: &TSummary) -> i64;

    /// Called once per reported run with the run's numbers and verdict.
    fn emit_run_report(&self, report: &RunReport);
}

#[derive(Debug, Clone, Copy, PartialEq, Eq, Structural)]
pub enum MeasurementRunResult {
    LeakageFound,
    NoLeakageEvidenceYet,
}

/// The numbers behind one run's verdict, for reporting.
#[derive(Debug, Clone, Copy)]
pub struct RunReport {
    /// Samples held by the test with the greatest t value, both groups.
    pub number_of_measurements: u128,
    /// That test's t value in units of `1 / TVALUE_SCALE`, as the
    /// evaluator returned it; zero when no t value exists.
    pub max_t_scaled: i64,
    /// The verdict of this run.
    pub result: MeasurementRunResult,
}

/// Relies on rand::random::<bool>: draws one uniformly distributed boolean
/// from the thread-local generator.  The draw is random, so nothing is
/// promised of the value.
#[verifier::external_body]
fn random_bool() -> bool {
    rand::random::<bool>()
}

/// `2^63`, the denominator of the fixed-point crop fractions.
pub open spec fn fraction_one() -> int {
    0x8000_0000_0000_0000
}

/// `2^63 * 2^(-b/10)` rounded down, for `b` in `0..10`: one decade of the
/// exponential decay that spaces the crop thresholds.
pub open spec fn half_life_step(b: int) -> int {
    if b == 0 {
        0x8000_0000_0000_0000
    } else if b == 1 {
        8605710403603548214
    } else if b == 2 {
        8029411722173644933
    } else if b == 3 {
        7491706039420384711
    } else if b == 4 {
        6990008897674768814
    } else if b == 5 {
        6521908912666391106
    } else if b == 6 {
        6085156183315689749
    } else if b == 7 {
        5677651477687739270
    } else if b == 8 {
        5297436143130366554
    } else {
        4942682692100133016
    }
}

/// `2^a` for `a` in `0..=10`, the denominators of the decade split.
pub open spec fn pow2_small(a: int) -> int {
    if a <= 0 {
        1
    } else if a == 1 {
        2
    } else if a == 2 {
        4
    } else if a == 3 {
        8
    } else if a == 4 {
        16
    } else if a == 5 {
        32
    } else if a == 6 {
        64
    } else if a == 7 {
        128
    } else if a == 8 {
        256
    } else if a == 9 {
        512
    } else {
        1024
    }
}

/// The weight of the upper tail cut off by crop threshold `i`: the
/// fixed-point value of `2^(-(i+1)/10)`, in units of `1 / 2^63`.
pub open spec fn tail_weight(i: int) -> int {
    half_life_step((i + 1) % 10) / pow2_small((i + 1) / 10)
}

/// The fixed-point crop fraction for threshold `i`: the value of
/// `1 - 0.5^(10 * (i + 1) / NUMBER_PERCENTILES)` in units of `1 / 2^63`.
pub open spec fn crop_fraction_spec(i: int) -> int {
    fraction_one() - tail_weight(i)
}

proof fn lemma_tail_weight_bounds(i: int)
    requires
        0 <= i < 100,
    ensures
        1 <= tail_weight(i) <= fraction_one(),
{
    let e = i + 1;
    let b = e % 10;
    let a = e / 10;
    assert(0 <= b < 10 && 0 <= a <= 10);
    assert(half_life_step(b) >= 4942682692100133016);
    assert(pow2_small(a) <= 1024);
    lemma_div_is_ordered(4942682692100133016, half_life_step(b), pow2_small(a));
    vstd::arithmetic::div_mod::lemma_div_is_ordered_by_denominator(
        4942682692100133016,
        pow2_small(a),
        1024,
    );
    assert(4942682692100133016int / 1024 >= 1);
    assert(half_life_step(b) <= fraction_one());
    lemma_div_is_ordered(half_life_step(b), fraction_one(), pow2_small(a));
    vstd::arithmetic::div_mod::lemma_div_is_ordered_by_denominator(
        fraction_one(),
        1,
        pow2_small(a),
    );
}

/// The crop fractions grow with the threshold index: each threshold crops
/// at least as deep into the right tail as the one before it.
pub proof fn lemma_crop_fractions_monotone(i: int)
    requires
        0 <= i < 99,
    ensures
        crop_fraction_spec(i) <= crop_fraction_spec(i + 1),
{
    let e = i + 1;
    let b = e % 10;
    let a = e / 10;
    assert(0 <= b < 10 && 0 <= a <= 9);
    if b == 9 {
        // The next threshold starts the following decade: its weight is
        // exactly `2^(62 - a)`, below this decade's last weight.
        assert((e + 1) % 10 == 0 && (e + 1) / 10 == a + 1);
        assert(tail_weight(i + 1) == half_life_step(0) / pow2_small(a + 1));
        assert(half_life_step(0) / pow2_small(a + 1) == 0x4000_0000_0000_0000int / pow2_small(a))
            by {
            if a == 0 {
            } else if a == 1 {
            } else if a == 2 {
            } else if a == 3 {
            } else if a == 4 {
            } else if a == 5 {
            } else if a == 6 {
            } else if a == 7 {
            } else if a == 8 {
            } else {
            }
        }
        lemma_div_is_ordered(
            0x4000_0000_0000_0000,
            half_life_step(9),
            pow2_small(a),
        );
    } else {
        assert((e + 1) % 10 == b + 1 && (e + 1) / 10 == a);
        assert(half_life_step(b + 1) <= half_life_step(b));
        lemma_div_is_ordered(half_life_step(b + 1), half_life_step(b), pow2_small(a));
    }
}

fn half_life_of(b: usize) -> (r: u64)
    requires
        b < 10,
    ensures
        r == half_life_step(b as int),
{
    if b == 0 {
        0x8000_0000_0000_0000
    } else if b == 1 {
        8605710403603548214
    } else if b == 2 {
        8029411722173644933
    } else if b == 3 {
        7491706039420384711
    } else if b == 4 {
        6990008897674768814
    } else if b == 5 {
        6521908912666391106
    } else if b == 6 {
        6085156183315689749
    } else if b == 7 {
        5677651477687739270
    } else if b == 8 {
        5297436143130366554
    } else {
        4942682692100133016
    }
}

fn pow2_of(a: usize) -> (r: u64)
    requires
        a <= 10,
    ensures
        r == pow2_small(a as int),
{
    if a == 0 {
        1
    } else if a == 1 {
        2
    } else if a == 2 {
        4
    } else if a == 3 {
        8
    } else if a == 4 {
        16
    } else if a == 5 {
        32
    } else if a == 6 {
        64
    } else if a == 7 {
        128
    } else if a == 8 {
        256
    } else if a == 9 {
        512
    } else {
        1024
    }
}

/// The fixed-point crop fraction for threshold `i`, strictly between zero
/// and one.
pub fn crop_fraction(i: usize) -> (r: u64)
    requires
        i < NUMBER_PERCENTILES,
    ensures
        r == crop_fraction_spec(i as int),
        0 < r < fraction_one(),
{
    let e = i + 1;
    let b = e % 10;
    let a = e / 10;
    let w = half_life_of(b) / pow2_of(a);
    proof {
        lemma_tail_weight_bounds(i as int);
    }
    0x8000_0000_0000_0000u64 - w
}

/// The order-statistic position for a buffer of `len` samples and a
/// fixed-point fraction in units of `1 / 2^63`.
pub open spec fn percentile_index(len: int, fraction: int) -> int {
    (len * fraction) / fraction_one()
}

/// Computes an order statistic: sorts `data` in place and returns the
/// sample that the fraction of the buffer length points at.  Callers accept
/// that `data` is reordered afterwards.
pub fn percentile(data: &mut Vec<u64>, fraction: u64) -> (r: u64)
    requires
        old(data).len() >= 1,
        fraction < fraction_one(),
    ensures
        sorted(final(data)@),
        final(data)@.to_multiset() == old(data)@.to_multiset(),
        final(data)@.len() == old(data)@.len(),
        0 <= percentile_index(old(data)@.len() as int, fraction as int) < old(data)@.len(),
        r == final(data)@[percentile_index(old(data)@.len() as int, fraction as int)],
{
    sort_samples(data);
    let len = data.len();
    proof {
        assert((len as int) * (fraction as int) < 0x8000_0000_0000_0000_0000_0000_0000_0000int)
            by (nonlinear_arith)
            requires
                0 <= fraction < 0x8000_0000_0000_0000,
                0 <= len < 0x1_0000_0000_0000_0000,
        ;
        assert((len as int) * (fraction as int) / 0x8000_0000_0000_0000int < len)
            by (nonlinear_arith)
            requires
                0 <= fraction < 0x8000_0000_0000_0000,
                1 <= len,
        ;
        assert((len as int) * (fraction as int) / 0x8000_0000_0000_0000int >= 0)
            by (nonlinear_arith)
            requires
                0 <= fraction,
                1 <= len,
        ;
    }
    let wide: u128 = (len as u128) * (fraction as u128);
    let array_position = (wide / 0x8000_0000_0000_0000u128) as usize;
    data[array_position]
}

/// The samples of the half-open index window `[lo, hi)` whose group flag is
/// `g`, in index order: what one run pushes into an uncropped test.
pub open spec fn window_pushes(times: Seq<u64>, flags: Seq<bool>, g: bool, lo: int, hi: int) -> Seq<
    u64,
>
    decreases hi - lo,
{
    if hi <= lo {
        Seq::empty()
    } else {
        let p = window_pushes(times, flags, g, lo, hi - 1);
        if flags[hi - 1] == g {
            p.push(times[hi - 1])
        } else {
            p
        }
    }
}

/// The samples of the window whose group flag is `g` and which fall below
/// the crop threshold: what one run pushes into a cropped test.
pub open spec fn cropped_pushes(
    times: Seq<u64>,
    flags: Seq<bool>,
    g: bool,
    threshold: u64,
    lo: int,
    hi: int,
) -> Seq<u64>
    decreases hi - lo,
{
    if hi <= lo {
        Seq::empty()
    } else {
        let p = cropped_pushes(times, flags, g, threshold, lo, hi - 1);
        if flags[hi - 1] == g && times[hi - 1] < threshold {
            p.push(times[hi - 1])
        } else {
            p
        }
    }
}

/// The squared distance of a sample from a center, with the distance capped
/// at `u32::MAX` so that the square is a 64-bit sample.
pub open spec fn capped_centered_sq(x: u64, mu: int) -> u64 {
    let d = if x >= mu {
        x - mu
    } else {
        mu - x
    };
    let dc = if d > 0xFFFF_FFFFint {
        0xFFFF_FFFFint
    } else {
        d
    };
    (dc * dc) as u64
}

/// What one run pushes into the second-order test, per group: the window is
/// walked in order, and once the first cropped test's group-A count (its
/// base count plus what the window has added so far) strictly exceeds
/// `ENOUGH_MEASUREMENTS`, each sample contributes its capped squared
/// deviation from its own group's current first-crop mean.
pub open spec fn second_order_pushes(
    times: Seq<u64>,
    flags: Seq<bool>,
    threshold0: u64,
    base_a: Seq<u64>,
    base_b: Seq<u64>,
    lo: int,
    hi: int,
) -> (Seq<u64>, Seq<u64>)
    decreases hi - lo,
{
    if hi <= lo {
        (Seq::empty(), Seq::empty())
    } else {
        let prev = second_order_pushes(times, flags, threshold0, base_a, base_b, lo, hi - 1);
        let p0a = base_a + cropped_pushes(times, flags, true, threshold0, lo, hi);
        let p0b = base_b + cropped_pushes(times, flags, false, threshold0, lo, hi);
        if p0a.len() > ENOUGH_MEASUREMENTS {
            let mu = if flags[hi - 1] {
                mean_floor(p0a)
            } else {
                mean_floor(p0b)
            };
            let v = capped_centered_sq(times[hi - 1], mu);
            if flags[hi - 1] {
                (prev.0.push(v), prev.1)
            } else {
                (prev.0, prev.1.push(v))
            }
        } else {
            prev
        }
    }
}

pub proof fn lemma_window_pushes_len(times: Seq<u64>, flags: Seq<bool>, g: bool, lo: int, hi: int)
    ensures
        window_pushes(times, flags, g, lo, hi).len() <= if hi >= lo {
            hi - lo
        } else {
            0
        },
    decreases hi - lo,
{
    if hi <= lo {
    } else {
        lemma_window_pushes_len(times, flags, g, lo, hi - 1);
    }
}

pub proof fn lemma_cropped_pushes_len(
    times: Seq<u64>,
    flags: Seq<bool>,
    g: bool,
    threshold: u64,
    lo: int,
    hi: int,
)
    ensures
        cropped_pushes(times, flags, g, threshold, lo, hi).len() <= if hi >= lo {
            hi - lo
        } else {
            0
        },
    decreases hi - lo,
{
    if hi <= lo {
    } else {
        lemma_cropped_pushes_len(times, flags, g, threshold, lo, hi - 1);
    }
}

pub proof fn lemma_second_order_pushes_len(
    times: Seq<u64>,
    flags: Seq<bool>,
    threshold0: u64,
    base_a: Seq<u64>,
    base_b: Seq<u64>,
    lo: int,
    hi: int,
)
    ensures
        second_order_pushes(times, flags, threshold0, base_a, base_b, lo, hi).0.len() <= if hi
            >= lo {
            hi - lo
        } else {
            0
        },
        second_order_pushes(times, flags, threshold0, base_a, base_b, lo, hi).1.len() <= if hi
            >= lo {
            hi - lo
        } else {
            0
        },
    decreases hi - lo,
{
    if hi <= lo {
    } else {
        lemma_second_order_pushes_len(times, flags, threshold0, base_a, base_b, lo, hi - 1);
    }
}

/// A cropped test only grows as the window extends.
pub proof fn lemma_cropped_pushes_monotone(
    times: Seq<u64>,
    flags: Seq<bool>,
    g: bool,
    threshold: u64,
    lo: int,
    hi1: int,
    hi2: int,
)
    requires
        hi1 <= hi2,
    ensures
        cropped_pushes(times, flags, g, threshold, lo, hi1).len() <= cropped_pushes(
            times,
            flags,
            g,
            threshold,
            lo,
            hi2,
        ).len(),
    decreases hi2 - hi1,
{
    if hi1 < hi2 {
        lemma_cropped_pushes_monotone(times, flags, g, threshold, lo, hi1, hi2 - 1);
    }
}

/// While the first cropped test's group-A count stays at or below
/// `ENOUGH_MEASUREMENTS`, the second-order test receives nothing.
pub proof fn lemma_second_order_stays_empty(
    times: Seq<u64>,
    flags: Seq<bool>,
    threshold0: u64,
    base_a: Seq<u64>,
    base_b: Seq<u64>,
    lo: int,
    hi: int,
)
    requires
        base_a.len() + cropped_pushes(times, flags, true, threshold0, lo, hi).len()
            <= ENOUGH_MEASUREMENTS,
    ensures
        second_order_pushes(times, flags, threshold0, base_a, base_b, lo, hi) == (
        Seq::<u64>::empty(),
        Seq::<u64>::empty(),
        ),
    decreases hi - lo,
{
    if hi <= lo {
    } else {
        lemma_cropped_pushes_monotone(times, flags, true, threshold0, lo, hi - 1, hi);
        lemma_second_order_stays_empty(times, flags, threshold0, base_a, base_b, lo, hi - 1);
    }
}

/// The tick distance from `previous` to `current` in 64-bit modular
/// arithmetic, as the hardware counter wraps.
pub open spec fn wrapping_difference(current: u64, previous: u64) -> int {
    if current >= previous {
        current - previous
    } else {
        current + 0x1_0000_0000_0000_0000int - previous
    }
}

fn wrapping_tick_difference(current: u64, previous: u64) -> (r: u64)
    ensures
        r == wrapping_difference(current, previous),
{
    if current >= previous {
        current - previous
    } else {
        current + (u64::MAX - previous) + 1
    }
}

/// A context holds all the necessary information for creating and executing
/// a measurement run.
pub struct MeasurementContext<T: MeasurementSpecimen> {
    specimen: T,
    /// The first tick before the first computation of a measurement run was
    /// executed.
    first_tick: u64,
    ticks: Vec<u64>,
    number_of_computations_per_run: usize,
    execution_times: Vec<u64>,
    first_order_uncropped_test: TTest,
    percentile_tests: Vec<TTest>,
    second_order_test: TTest,
    input_data: Vec<Vec<u8>>,
    is_group_a: Vec<bool>,
    percentiles: Vec<u64>,
}

impl<T: MeasurementSpecimen> MeasurementContext<T> {
    /// The number of back-to-back invocations per run.
    pub closed spec fn run_size(self) -> int {
        self.number_of_computations_per_run as int
    }

    /// The execution times of the current run's invocations.
    pub closed spec fn times(self) -> Seq<u64> {
        self.execution_times@
    }

    /// The group assignment of the current run's invocations.
    pub closed spec fn flags(self) -> Seq<bool> {
        self.is_group_a@
    }

    /// The tick sampled after each invocation of the current run.
    pub closed spec fn raw_ticks(self) -> Seq<u64> {
        self.ticks@
    }

    /// The tick sampled before the current run's first invocation.
    pub closed spec fn start_tick(self) -> u64 {
        self.first_tick
    }

    /// The current crop thresholds; zero in the last slot marks "not yet
    /// initialized".
    pub closed spec fn thresholds(self) -> Seq<u64> {
        self.percentiles@
    }

    /// The t-test over the raw execution times.
    pub closed spec fn uncropped(self) -> TTest {
        self.first_order_uncropped_test
    }

    /// The t-tests over cropped execution times, one per crop threshold.
    pub closed spec fn cropped(self) -> Seq<TTest> {
        self.percentile_tests@
    }

    /// The t-test over centered squared deviations.
    pub closed spec fn second_order(self) -> TTest {
        self.second_order_test
    }

    /// All buffers have the run's size, the test bank is intact, and the
    /// second-order test stays empty until the first cropped test's group-A
    /// count has strictly exceeded `ENOUGH_MEASUREMENTS`.
    pub closed spec fn wf(self) -> bool {
        &&& self.number_of_computations_per_run >= 1
        &&& self.ticks@.len() == self.number_of_computations_per_run
        &&& self.execution_times@.len() == self.number_of_computations_per_run
        &&& self.input_data@.len() == self.number_of_computations_per_run
        &&& self.is_group_a@.len() == self.number_of_computations_per_run
        &&& self.percentiles@.len() == NUMBER_PERCENTILES
        &&& self.percentile_tests@.len() == NUMBER_PERCENTILES
        &&& self.first_order_uncropped_test.wf()
        &&& self.second_order_test.wf()
        &&& (forall|k: int|
            0 <= k < NUMBER_PERCENTILES ==> (#[trigger] self.percentile_tests@[k]).wf())
        &&& (self.percentile_tests@[0].a_samples().len() <= ENOUGH_MEASUREMENTS
            ==> self.second_order_test.a_samples().len() == 0
            && self.second_order_test.b_samples().len() == 0)
    }

    /// Create a new measurement context with the provided data.
    pub fn new(specimen: T, number_of_computations_per_run: usize) -> (r: Self)
        requires
            number_of_computations_per_run >= 1,
        ensures
            r.wf(),
            r.run_size() == number_of_computations_per_run,
            forall|k: int| 0 <= k < NUMBER_PERCENTILES ==> #[trigger] r.thresholds()[k] == 0,
            r.uncropped().a_samples().len() == 0 && r.uncropped().b_samples().len() == 0,
            forall|k: int|
                0 <= k < NUMBER_PERCENTILES ==> (#[trigger] r.cropped()[k]).a_samples().len() == 0
                    && r.cropped()[k].b_samples().len() == 0,
            r.second_order().a_samples().len() == 0 && r.second_order().b_samples().len() == 0,
    {
        Self {
            specimen,
            first_tick: 0,
            ticks: filled_u64(number_of_computations_per_run, 0),
            number_of_computations_per_run,
            execution_times: filled_u64(number_of_computations_per_run, 0),
            first_order_uncropped_test: TTest::new(),
            percentile_tests: fresh_test_bank(),
            second_order_test: TTest::new(),
            input_data: empty_rows(number_of_computations_per_run),
            is_group_a: filled_bool(number_of_computations_per_run, false),
            percentiles: filled_u64(NUMBER_PERCENTILES, 0),
        }
    }

    /// Draws a fresh uniformly random group label for every slot of the
    /// run.  The draws are random; nothing is stated of the values.
    pub fn randomize_group_assignments(&mut self)
        requires
            old(self).wf(),
        ensures
            final(self).wf(),
            final(self).flags().len() == old(self).flags().len(),
            final(self).run_size() == old(self).run_size(),
            final(self).times() == old(self).times(),
            final(self).thresholds() == old(self).thresholds(),
            final(self).uncropped() == old(self).uncropped(),
            final(self).cropped() == old(self).cropped(),
            final(self).second_order() == old(self).second_order(),
    {
        let m = self.number_of_computations_per_run;
        let mut i: usize = 0;
        while i < m
            invariant
                0 <= i <= m,
                self.is_group_a@.len() == m,
                self.wf(),
                self.number_of_computations_per_run == m,
                self.execution_times@ == old(self).execution_times@,
                self.percentiles@ == old(self).percentiles@,
                self.first_order_uncropped_test == old(self).first_order_uncropped_test,
                self.percentile_tests@ == old(self).percentile_tests@,
                self.second_order_test == old(self).second_order_test,
            decreases m - i,
        {
            let v = random_bool();
            self.is_group_a[i] = v;
            i = i + 1;
        }
    }

    /// Runs the measurement window: one tick before the first invocation,
    /// one tick after each invocation, and then the first differences of
    /// the tick series in wrapping 64-bit arithmetic.
    fn measure<C: CycleCounter>(&mut self, counter: &mut C)
        requires
            old(self).wf(),
        ensures
            final(self).wf(),
            final(self).run_size() == old(self).run_size(),
            final(self).flags() == old(self).flags(),
            final(self).thresholds() == old(self).thresholds(),
            final(self).uncropped() == old(self).uncropped(),
            final(self).cropped() == old(self).cropped(),
            final(self).second_order() == old(self).second_order(),
            final(self).times().len() == old(self).times().len(),
            forall|i: int|
                0 <= i < final(self).times().len() ==> #[trigger] final(self).times()[i]
                    == wrapping_difference(
                    final(self).raw_ticks()[i],
                    if i == 0 {
                        final(self).start_tick()
                    } else {
                        final(self).raw_ticks()[i - 1]
                    },
                ),
    {
        let m = self.number_of_computations_per_run;
        self.first_tick = counter.cpu_ticks();
        let mut i: usize = 0;
        while i < m
            invariant
                0 <= i <= m,
                self.wf(),
                self.number_of_computations_per_run == m,
                self.is_group_a@ == old(self).is_group_a@,
                self.percentiles@ == old(self).percentiles@,
                self.first_order_uncropped_test == old(self).first_order_uncropped_test,
                self.percentile_tests@ == old(self).percentile_tests@,
                self.second_order_test == old(self).second_order_test,
                self.execution_times@.len() == old(self).execution_times@.len(),
            decreases m - i,
        {
            self.specimen.do_one_computation(&self.input_data[i]);
            let t = counter.cpu_ticks();
            self.ticks[i] = t;
            i = i + 1;
        }
        let mut i: usize = 0;
        while i < m
            invariant
                0 <= i <= m,
                self.wf(),
                self.number_of_computations_per_run == m,
                self.is_group_a@ == old(self).is_group_a@,
                self.percentiles@ == old(self).percentiles@,
                self.first_order_uncropped_test == old(self).first_order_uncropped_test,
                self.percentile_tests@ == old(self).percentile_tests@,
                self.second_order_test == old(self).second_order_test,
                self.execution_times@.len() == old(self).execution_times@.len(),
                forall|j: int|
                    0 <= j < i ==> #[trigger] self.execution_times@[j] == wrapping_difference(
                        self.ticks@[j],
                        if j == 0 {
                            self.first_tick
                        } else {
                            self.ticks@[j - 1]
                        },
                    ),
            decreases m - i,
        {
            let previous_tick = if i == 0 {
                self.first_tick
            } else {
                self.ticks[i - 1]
            };
            let current_tick = self.ticks[i];
            // Note: wrapping occurs when the CPU counter overflows; the
            // spurious huge difference is absorbed by the percentile crops.
            let d = wrapping_tick_difference(current_tick, previous_tick);
            self.execution_times[i] = d;
            i = i + 1;
        }
    }

    /// Prepare the percentiles with the values of the execution times as a
    /// baseline: crop thresholds spaced with an exponential tendency meant
    /// to approximately match the measurement distribution's right tail.
    /// Afterwards the thresholds are monotonically non-decreasing, and each
    /// is the order statistic of the run's execution times at its crop
    /// fraction.
    pub fn prepare_percentiles(&mut self)
        requires
            old(self).wf(),
        ensures
            final(self).wf(),
            final(self).run_size() == old(self).run_size(),
            final(self).flags() == old(self).flags(),
            final(self).uncropped() == old(self).uncropped(),
            final(self).cropped() == old(self).cropped(),
            final(self).second_order() == old(self).second_order(),
            final(self).times().to_multiset() == old(self).times().to_multiset(),
            sorted(final(self).times()),
            forall|k: int|
                0 <= k < NUMBER_PERCENTILES ==> #[trigger] final(self).thresholds()[k]
                    == final(self).times()[percentile_index(
                    final(self).run_size(),
                    crop_fraction_spec(k),
                )],
            forall|k: int|
                0 <= k < NUMBER_PERCENTILES - 1 ==> #[trigger] final(self).thresholds()[k]
                    <= final(self).thresholds()[k + 1],
    {
        let ghost m = self.number_of_computations_per_run as int;
        let mut i: usize = 0;
        while i < NUMBER_PERCENTILES
            invariant
                0 <= i <= NUMBER_PERCENTILES,
                self.wf(),
                self.number_of_computations_per_run == old(self).number_of_computations_per_run,
                m == self.number_of_computations_per_run as int,
                self.is_group_a@ == old(self).is_group_a@,
                self.first_order_uncropped_test == old(self).first_order_uncropped_test,
                self.percentile_tests@ == old(self).percentile_tests@,
                self.second_order_test == old(self).second_order_test,
                self.execution_times@.to_multiset() == old(self).execution_times@.to_multiset(),
                i > 0 ==> sorted(self.execution_times@),
                forall|k: int|
                    0 <= k < i ==> #[trigger] self.percentiles@[k]
                        == self.execution_times@[percentile_index(m, crop_fraction_spec(k))],
            decreases NUMBER_PERCENTILES - i,
        {
            let ghost before = self.execution_times@;
            let f = crop_fraction(i);
            let p = percentile(&mut self.execution_times, f);
            proof {
                if i > 0 {
                    lemma_sorted_same_content(before, self.execution_times@);
                }
            }
            self.percentiles[i] = p;
            i = i + 1;
        }
        proof {
            assert forall|k: int| 0 <= k < NUMBER_PERCENTILES - 1 implies #[trigger] self
                .percentiles@[k] <= self.percentiles@[k + 1] by {
                lemma_crop_fractions_monotone(k);
                lemma_tail_weight_bounds(k);
                lemma_tail_weight_bounds(k + 1);
                let f1 = crop_fraction_spec(k);
                let f2 = crop_fraction_spec(k + 1);
                assert(m * f1 <= m * f2) by (nonlinear_arith)
                    requires 0 <= f1 <= f2, m >= 1,
                ;
                lemma_div_is_ordered(m * f1, m * f2, fraction_one());
                let i1 = percentile_index(m, f1);
                let i2 = percentile_index(m, f2);
                assert(i1 <= i2);
                assert(0 <= i1 && i2 < m) by (nonlinear_arith)
                    requires
                        i1 == (m * f1) / fraction_one(),
                        i2 == (m * f2) / fraction_one(),
                        0 <= f1,
                        f2 < fraction_one(),
                        m >= 1,
                        i1 <= i2,
                ;
                assert(sorted(self.execution_times@));
                assert(self.execution_times@[i1] <= self.execution_times@[i2]);
            }
        }
    }

    /// Whether every test of the battery can absorb one more full run of
    /// samples without its 64-bit sample counter reaching its limit.
    pub open spec fn tests_have_headroom(self) -> bool {
        &&& self.uncropped().a_samples().len() + self.run_size() < u64::MAX
        &&& self.uncropped().b_samples().len() + self.run_size() < u64::MAX
        &&& (forall|k: int|
            0 <= k < NUMBER_PERCENTILES ==> (#[trigger] self.cropped()[k]).a_samples().len()
                + self.run_size() < u64::MAX && self.cropped()[k].b_samples().len()
                + self.run_size() < u64::MAX)
        &&& self.second_order().a_samples().len() + self.run_size() < u64::MAX
        &&& self.second_order().b_samples().len() + self.run_size() < u64::MAX
    }

    fn has_headroom(&self) -> (r: bool)
        requires
            self.wf(),
        ensures
            r == self.tests_have_headroom(),
    {
        let m = self.number_of_computations_per_run as u64;
        let limit = u64::MAX - m;
        let na = self.first_order_uncropped_test.get_number_of_samples();
        let ns = self.second_order_test.get_number_of_samples();
        let mut ok = na[0] < limit && na[1] < limit && ns[0] < limit && ns[1] < limit;
        let mut k: usize = 0;
        while k < NUMBER_PERCENTILES
            invariant
                0 <= k <= NUMBER_PERCENTILES,
                self.wf(),
                m == self.number_of_computations_per_run as u64,
                limit == u64::MAX - m,
                ok == ({
                    &&& self.uncropped().a_samples().len() + self.run_size() < u64::MAX
                    &&& self.uncropped().b_samples().len() + self.run_size() < u64::MAX
                    &&& self.second_order().a_samples().len() + self.run_size() < u64::MAX
                    &&& self.second_order().b_samples().len() + self.run_size() < u64::MAX
                    &&& (forall|j: int|
                        0 <= j < k ==> (#[trigger] self.cropped()[j]).a_samples().len()
                            + self.run_size() < u64::MAX && self.cropped()[j].b_samples().len()
                            + self.run_size() < u64::MAX)
                }),
            decreases NUMBER_PERCENTILES - k,
        {
            let c = self.percentile_tests[k].get_number_of_samples();
            let new_ok = ok && c[0] < limit && c[1] < limit;
            proof {
                if new_ok {
                    assert forall|j: int|
                        0 <= j < k + 1 implies (#[trigger] self.cropped()[j]).a_samples().len()
                        + self.run_size() < u64::MAX && self.cropped()[j].b_samples().len()
                        + self.run_size() < u64::MAX by {
                        if j == k {
                            assert(c[0] == self.cropped()[j].a_samples().len());
                        }
                    }
                } else if ok {
                    assert(self.cropped()[k as int].a_samples().len() + self.run_size() >= u64::MAX
                        || self.cropped()[k as int].b_samples().len() + self.run_size()
                        >= u64::MAX);
                }
            }
            ok = new_ok;
            k = k + 1;
        }
        ok
    }

    /// Feeds the current run's execution times into the battery: the first
    /// ten samples of the run are discarded as a per-run warm-up strip, and
    /// so is the final sample; each remaining sample goes to the uncropped
    /// test, to every cropped test whose threshold it falls below, and,
    /// once the first cropped test's group-A count strictly exceeds
    /// `ENOUGH_MEASUREMENTS`, its capped squared deviation from its group's
    /// first-crop mean goes to the second-order test.
    ///
    /// When some test could not absorb a full run without exhausting its
    /// sample counter, nothing is updated; that takes more pushes than any
    /// real schedule performs.
    pub fn update_statistics(&mut self)
        requires
            old(self).wf(),
        ensures
            final(self).wf(),
            final(self).run_size() == old(self).run_size(),
            final(self).times() == old(self).times(),
            final(self).flags() == old(self).flags(),
            final(self).thresholds() == old(self).thresholds(),
            old(self).tests_have_headroom() ==> ({
                let times = old(self).times();
                let flags = old(self).flags();
                let hi = old(self).run_size() - 1;
                &&& final(self).uncropped().a_samples() == old(self).uncropped().a_samples()
                    + window_pushes(times, flags, true, 10, hi)
                &&& final(self).uncropped().b_samples() == old(self).uncropped().b_samples()
                    + window_pushes(times, flags, false, 10, hi)
                &&& (forall|k: int|
                    0 <= k < NUMBER_PERCENTILES
                        ==> (#[trigger] final(self).cropped()[k]).a_samples()
                        == old(self).cropped()[k].a_samples()
                        + cropped_pushes(times, flags, true, old(self).thresholds()[k], 10, hi))
                &&& (forall|k: int|
                    0 <= k < NUMBER_PERCENTILES
                        ==> (#[trigger] final(self).cropped()[k]).b_samples()
                        == old(self).cropped()[k].b_samples()
                        + cropped_pushes(times, flags, false, old(self).thresholds()[k], 10, hi))
                &&& final(self).second_order().a_samples() == old(self).second_order().a_samples()
                    + second_order_pushes(
                    times,
                    flags,
                    old(self).thresholds()[0],
                    old(self).cropped()[0].a_samples(),
                    old(self).cropped()[0].b_samples(),
                    10,
                    hi,
                ).0
                &&& final(self).second_order().b_samples() == old(self).second_order().b_samples()
                    + second_order_pushes(
                    times,
                    flags,
                    old(self).thresholds()[0],
                    old(self).cropped()[0].a_samples(),
                    old(self).cropped()[0].b_samples(),
                    10,
                    hi,
                ).1
            }),
            !old(self).tests_have_headroom() ==> final(self).uncropped() == old(self).uncropped()
                && final(self).cropped() == old(self).cropped()
                && final(self).second_order() == old(self).second_order(),
    {
        if !self.has_headroom() {
            return ;
        }
        let ghost times = self.execution_times@;
        let ghost flags = self.is_group_a@;
        let ghost thresholds = self.percentiles@;
        let ghost base_fo = self.first_order_uncropped_test;
        let ghost base_tests = self.percentile_tests@;
        let ghost base_so = self.second_order_test;
        let ghost m = self.number_of_computations_per_run as int;
        let end = self.number_of_computations_per_run - 1;
        if end <= 10 {
            proof {
                assert(base_fo.a_samples() + window_pushes(times, flags, true, 10, m - 1)
                    =~= base_fo.a_samples());
                assert(base_fo.b_samples() + window_pushes(times, flags, false, 10, m - 1)
                    =~= base_fo.b_samples());
                assert forall|k: int| 0 <= k < NUMBER_PERCENTILES implies (#[trigger] base_tests[k]).a_samples()
                    + cropped_pushes(times, flags, true, thresholds[k], 10, m - 1)
                    == base_tests[k].a_samples() && base_tests[k].b_samples() + cropped_pushes(
                    times,
                    flags,
                    false,
                    thresholds[k],
                    10,
                    m - 1,
                ) == base_tests[k].b_samples() by {
                    assert(base_tests[k].a_samples() + cropped_pushes(
                        times,
                        flags,
                        true,
                        thresholds[k],
                        10,
                        m - 1,
                    ) =~= base_tests[k].a_samples());
                    assert(base_tests[k].b_samples() + cropped_pushes(
                        times,
                        flags,
                        false,
                        thresholds[k],
                        10,
                        m - 1,
                    ) =~= base_tests[k].b_samples());
                }
                assert(base_so.a_samples() + second_order_pushes(
                    times,
                    flags,
                    thresholds[0],
                    base_tests[0].a_samples(),
                    base_tests[0].b_samples(),
                    10,
                    m - 1,
                ).0 =~= base_so.a_samples());
                assert(base_so.b_samples() + second_order_pushes(
                    times,
                    flags,
                    thresholds[0],
                    base_tests[0].a_samples(),
                    base_tests[0].b_samples(),
                    10,
                    m - 1,
                ).1 =~= base_so.b_samples());
            }
            return ;
        }
        proof {
            assert forall|k: int| 0 <= k < NUMBER_PERCENTILES implies (#[trigger] base_tests[k]).a_samples().len()
                + m < u64::MAX && base_tests[k].b_samples().len() + m < u64::MAX
                && base_tests[k].wf() by {
                assert(base_tests[k] == self.cropped()[k]);
                assert(self.cropped()[k].a_samples().len() + self.run_size() < u64::MAX);
                assert((#[trigger] self.percentile_tests@[k]).wf());
            }
        }
        let mut i: usize = 10;
        while i < end
            invariant
                10 <= i <= end,
                end == m - 1,
                10 < end,
                self.wf(),
                m == self.number_of_computations_per_run as int,
                base_tests.len() == NUMBER_PERCENTILES,
                self.execution_times@ == times,
                self.is_group_a@ == flags,
                self.percentiles@ == thresholds,
                self.input_data@.len() == old(self).input_data@.len(),
                base_fo.a_samples().len() + m < u64::MAX,
                base_fo.b_samples().len() + m < u64::MAX,
                base_so.a_samples().len() + m < u64::MAX,
                base_so.b_samples().len() + m < u64::MAX,
                forall|k: int|
                    0 <= k < NUMBER_PERCENTILES ==> (#[trigger] base_tests[k]).a_samples().len() + m
                        < u64::MAX && base_tests[k].b_samples().len() + m < u64::MAX,
                forall|k: int| 0 <= k < NUMBER_PERCENTILES ==> (#[trigger] base_tests[k]).wf(),
                self.first_order_uncropped_test.a_samples() == base_fo.a_samples()
                    + window_pushes(times, flags, true, 10, i as int),
                self.first_order_uncropped_test.b_samples() == base_fo.b_samples()
                    + window_pushes(times, flags, false, 10, i as int),
                forall|k: int|
                    0 <= k < NUMBER_PERCENTILES ==> (#[trigger] self.percentile_tests@[k]).a_samples()
                        == base_tests[k].a_samples() + cropped_pushes(
                        times,
                        flags,
                        true,
                        thresholds[k],
                        10,
                        i as int,
                    ),
                forall|k: int|
                    0 <= k < NUMBER_PERCENTILES ==> (#[trigger] self.percentile_tests@[k]).b_samples()
                        == base_tests[k].b_samples() + cropped_pushes(
                        times,
                        flags,
                        false,
                        thresholds[k],
                        10,
                        i as int,
                    ),
                self.second_order_test.a_samples() == base_so.a_samples() + second_order_pushes(
                    times,
                    flags,
                    thresholds[0],
                    base_tests[0].a_samples(),
                    base_tests[0].b_samples(),
                    10,
                    i as int,
                ).0,
                self.second_order_test.b_samples() == base_so.b_samples() + second_order_pushes(
                    times,
                    flags,
                    thresholds[0],
                    base_tests[0].a_samples(),
                    base_tests[0].b_samples(),
                    10,
                    i as int,
                ).1,
            decreases end - i,
        {
            let difference = self.execution_times[i];
            let flag = self.is_group_a[i];
            proof {
                lemma_window_pushes_len(times, flags, true, 10, i as int);
                lemma_window_pushes_len(times, flags, false, 10, i as int);
                assert(window_pushes(times, flags, flag, 10, i + 1) =~= window_pushes(
                    times,
                    flags,
                    flag,
                    10,
                    i as int,
                ).push(times[i as int]));
                assert(window_pushes(times, flags, !flag, 10, i + 1) =~= window_pushes(
                    times,
                    flags,
                    !flag,
                    10,
                    i as int,
                ));
            }
            // t-test on the execution time
            self.first_order_uncropped_test.push(difference, flag);
            // t-tests on cropped execution times, for several crop thresholds
            let ghost fo_now = self.first_order_uncropped_test;
            let ghost so_before = self.second_order_test;
            let mut crop_index: usize = 0;
            while crop_index < NUMBER_PERCENTILES
                invariant
                    0 <= crop_index <= NUMBER_PERCENTILES,
                    10 <= i < end,
                    end == m - 1,
                    self.wf(),
                    m == self.number_of_computations_per_run as int,
                    self.execution_times@ == times,
                    self.is_group_a@ == flags,
                    self.percentiles@ == thresholds,
                    difference == times[i as int],
                    flag == flags[i as int],
                    forall|k: int|
                        0 <= k < NUMBER_PERCENTILES ==> (#[trigger] base_tests[k]).a_samples().len()
                            + m < u64::MAX && base_tests[k].b_samples().len() + m < u64::MAX,
                    forall|k: int|
                        0 <= k < crop_index ==> (#[trigger] self.percentile_tests@[k]).a_samples()
                            == base_tests[k].a_samples() + cropped_pushes(
                            times,
                            flags,
                            true,
                            thresholds[k],
                            10,
                            i + 1,
                        ),
                    forall|k: int|
                        0 <= k < crop_index ==> (#[trigger] self.percentile_tests@[k]).b_samples()
                            == base_tests[k].b_samples() + cropped_pushes(
                            times,
                            flags,
                            false,
                            thresholds[k],
                            10,
                            i + 1,
                        ),
                    forall|k: int|
                        crop_index <= k < NUMBER_PERCENTILES ==> (#[trigger] self.percentile_tests@[k]).a_samples()
                            == base_tests[k].a_samples() + cropped_pushes(
                            times,
                            flags,
                            true,
                            thresholds[k],
                            10,
                            i as int,
                        ),
                    forall|k: int|
                        crop_index <= k < NUMBER_PERCENTILES ==> (#[trigger] self.percentile_tests@[k]).b_samples()
                            == base_tests[k].b_samples() + cropped_pushes(
                            times,
                            flags,
                            false,
                            thresholds[k],
                            10,
                            i as int,
                        ),
                    self.first_order_uncropped_test == fo_now,
                    self.second_order_test == so_before,
                decreases NUMBER_PERCENTILES - crop_index,
            {
                proof {
                    lemma_cropped_pushes_len(times, flags, true, thresholds[crop_index as int], 10, i as int);
                    lemma_cropped_pushes_len(times, flags, false, thresholds[crop_index as int], 10, i as int);
                    assert(cropped_pushes(times, flags, flag, thresholds[crop_index as int], 10, i + 1)
                        =~= if times[i as int] < thresholds[crop_index as int] {
                        cropped_pushes(times, flags, flag, thresholds[crop_index as int], 10, i as int).push(times[i as int])
                    } else {
                        cropped_pushes(times, flags, flag, thresholds[crop_index as int], 10, i as int)
                    });
                    assert(cropped_pushes(times, flags, !flag, thresholds[crop_index as int], 10, i + 1)
                        =~= cropped_pushes(times, flags, !flag, thresholds[crop_index as int], 10, i as int));
                }
                if difference < self.percentiles[crop_index] {
                    self.percentile_tests[crop_index].push(difference, flag);
                }
                crop_index = crop_index + 1;
            }
            // second-order test, engaged once the first cropped test holds
            // more than ENOUGH_MEASUREMENTS group-A samples; centered
            // product pre-processing.
            let counts0 = self.percentile_tests[0].get_number_of_samples();
            let ghost sim_prev = second_order_pushes(
                times,
                flags,
                thresholds[0],
                base_tests[0].a_samples(),
                base_tests[0].b_samples(),
                10,
                i as int,
            );
            let ghost sim_next = second_order_pushes(
                times,
                flags,
                thresholds[0],
                base_tests[0].a_samples(),
                base_tests[0].b_samples(),
                10,
                i + 1,
            );
            let ghost p0a_new = base_tests[0].a_samples() + cropped_pushes(
                times,
                flags,
                true,
                thresholds[0],
                10,
                i + 1,
            );
            let ghost p0b_new = base_tests[0].b_samples() + cropped_pushes(
                times,
                flags,
                false,
                thresholds[0],
                10,
                i + 1,
            );
            proof {
                lemma_second_order_pushes_len(
                    times,
                    flags,
                    thresholds[0],
                    base_tests[0].a_samples(),
                    base_tests[0].b_samples(),
                    10,
                    i as int,
                );
                assert(self.percentile_tests@[0].a_samples() == p0a_new);
                assert(self.percentile_tests@[0].b_samples() == p0b_new);
                assert(counts0[0] == p0a_new.len());
            }
            if counts0[0] > ENOUGH_MEASUREMENTS {
                let means0 = self.percentile_tests[0].get_mean();
                let group_mean = if flag {
                    means0[0]
                } else {
                    means0[1]
                };
                let ghost mu = if flags[i as int] {
                    mean_floor(p0a_new)
                } else {
                    mean_floor(p0b_new)
                };
                let distance = if difference >= group_mean {
                    difference - group_mean
                } else {
                    group_mean - difference
                };
                let capped = if distance > 0xFFFF_FFFFu64 {
                    0xFFFF_FFFFu64
                } else {
                    distance
                };
                proof {
                    assert(capped * capped <= 0xFFFF_FFFFu64 * (0xFFFF_FFFFu64 as int))
                        by (nonlinear_arith)
                        requires
                            0 <= capped <= 0xFFFF_FFFFu64,
                    ;
                }
                let centered = capped * capped;
                proof {
                    assert(group_mean == mu);
                    assert(centered == capped_centered_sq(times[i as int], mu));
                    if flags[i as int] {
                        assert(sim_next.0 =~= sim_prev.0.push(centered));
                        assert(sim_next.1 =~= sim_prev.1);
                    } else {
                        assert(sim_next.0 =~= sim_prev.0);
                        assert(sim_next.1 =~= sim_prev.1.push(centered));
                    }
                }
                self.second_order_test.push(centered, flag);
                proof {
                    if flags[i as int] {
                        assert(self.second_order_test.a_samples() =~= base_so.a_samples()
                            + sim_next.0);
                        assert(self.second_order_test.b_samples() =~= base_so.b_samples()
                            + sim_next.1);
                    } else {
                        assert(self.second_order_test.a_samples() =~= base_so.a_samples()
                            + sim_next.0);
                        assert(self.second_order_test.b_samples() =~= base_so.b_samples()
                            + sim_next.1);
                    }
                }
            } else {
                proof {
                    assert(sim_next == sim_prev);
                }
            }
            i = i + 1;
        }
    }

    /// Selects the battery's maximum-t test, decides the run's verdict
    /// from its numbers, and hands the report to the evaluator.  A test
    /// without a t value enters the selection with a key of zero.  While
    /// every test holds fewer than `ENOUGH_MEASUREMENTS` measurements the
    /// verdict is always "no evidence yet".
    pub fn report<E: TValueEvaluator>(&self, evaluator: &E) -> (r: MeasurementRunResult)
        requires
            self.wf(),
        ensures
            (test_total(self.uncropped()) < ENOUGH_MEASUREMENTS && test_total(self.second_order())
                < ENOUGH_MEASUREMENTS && (forall|k: int|
                0 <= k < NUMBER_PERCENTILES ==> test_total(#[trigger] self.cropped()[k])
                    < ENOUGH_MEASUREMENTS)) ==> r == MeasurementRunResult::NoLeakageEvidenceYet,
    {
        let mut keys: Vec<i64> = Vec::new();
        let mut totals: Vec<u128> = Vec::new();
        let mut k: usize = 0;
        while k < NUMBER_PERCENTILES
            invariant
                0 <= k <= NUMBER_PERCENTILES,
                self.wf(),
                keys@.len() == k,
                totals@.len() == k,
                forall|j: int|
                    0 <= j < k ==> #[trigger] totals@[j] == test_total(self.cropped()[j]),
            decreases NUMBER_PERCENTILES - k,
        {
            let t = &self.percentile_tests[k];
            let key = key_of(t, evaluator);
            keys.push(key);
            let c = t.get_number_of_samples();
            totals.push(c[0] as u128 + c[1] as u128);
            k = k + 1;
        }
        let key_uncropped = key_of(&self.first_order_uncropped_test, evaluator);
        keys.push(key_uncropped);
        let cu = self.first_order_uncropped_test.get_number_of_samples();
        totals.push(cu[0] as u128 + cu[1] as u128);
        let key_second = key_of(&self.second_order_test, evaluator);
        keys.push(key_second);
        let cs = self.second_order_test.get_number_of_samples();
        totals.push(cs[0] as u128 + cs[1] as u128);
        let selected = select_max_test_index(&keys);
        let number_of_measurements = totals[selected];
        let max_t_scaled = keys[selected];
        proof {
            if selected < NUMBER_PERCENTILES {
                assert(number_of_measurements == test_total(self.cropped()[selected as int]));
            } else if selected == NUMBER_PERCENTILES {
                assert(number_of_measurements == test_total(self.uncropped()));
            } else {
                assert(number_of_measurements == test_total(self.second_order()));
            }
        }
        let result = decide_verdict(number_of_measurements, max_t_scaled);
        evaluator.emit_run_report(
            &RunReport { number_of_measurements, max_t_scaled, result },
        );
        result
    }

    /// Executes a measurement run and gives back a result whether or not
    /// more runs are required.  On the very first run — the crop
    /// thresholds still hold their zero sentinel — the measured execution
    /// times only seed the percentiles, no t-test is updated, and the
    /// verdict is always "no evidence yet": the first batch is discarded
    /// as warm-up.  Afterwards the thresholds stand, monotonically
    /// non-decreasing, and every later run feeds the battery and reports.
    pub fn execute_measurement_run<C: CycleCounter, E: TValueEvaluator>(
        &mut self,
        counter: &mut C,
        evaluator: &E,
    ) -> (r: MeasurementRunResult)
        requires
            old(self).wf(),
        ensures
            final(self).wf(),
            final(self).run_size() == old(self).run_size(),
            old(self).thresholds()[NUMBER_PERCENTILES - 1] == 0 ==> r
                == MeasurementRunResult::NoLeakageEvidenceYet
                && final(self).uncropped() == old(self).uncropped()
                && final(self).cropped() == old(self).cropped()
                && final(self).second_order() == old(self).second_order()
                && (forall|k: int|
                0 <= k < NUMBER_PERCENTILES - 1 ==> #[trigger] final(self).thresholds()[k]
                    <= final(self).thresholds()[k + 1])
                && sorted(final(self).times())
                && (forall|k: int|
                0 <= k < NUMBER_PERCENTILES ==> #[trigger] final(self).thresholds()[k]
                    == final(self).times()[percentile_index(
                    final(self).run_size(),
                    crop_fraction_spec(k),
                )]),
            old(self).thresholds()[NUMBER_PERCENTILES - 1] != 0 ==> final(self).thresholds()
                == old(self).thresholds(),
            old(self).thresholds()[NUMBER_PERCENTILES - 1] != 0 && old(self).tests_have_headroom()
                ==> ({
                let times = final(self).times();
                let flags = final(self).flags();
                let hi = old(self).run_size() - 1;
                &&& final(self).uncropped().a_samples() == old(self).uncropped().a_samples()
                    + window_pushes(times, flags, true, 10, hi)
                &&& final(self).uncropped().b_samples() == old(self).uncropped().b_samples()
                    + window_pushes(times, flags, false, 10, hi)
                &&& (forall|k: int|
                    0 <= k < NUMBER_PERCENTILES
                        ==> (#[trigger] final(self).cropped()[k]).a_samples()
                        == old(self).cropped()[k].a_samples()
                        + cropped_pushes(times, flags, true, old(self).thresholds()[k], 10, hi))
                &&& (forall|k: int|
                    0 <= k < NUMBER_PERCENTILES
                        ==> (#[trigger] final(self).cropped()[k]).b_samples()
                        == old(self).cropped()[k].b_samples()
                        + cropped_pushes(times, flags, false, old(self).thresholds()[k], 10, hi))
                &&& final(self).second_order().a_samples() == old(self).second_order().a_samples()
                    + second_order_pushes(
                    times,
                    flags,
                    old(self).thresholds()[0],
                    old(self).cropped()[0].a_samples(),
                    old(self).cropped()[0].b_samples(),
                    10,
                    hi,
                ).0
                &&& final(self).second_order().b_samples() == old(self).second_order().b_samples()
                    + second_order_pushes(
                    times,
                    flags,
                    old(self).thresholds()[0],
                    old(self).cropped()[0].a_samples(),
                    old(self).cropped()[0].b_samples(),
                    10,
                    hi,
                ).1
            }),
    {
        // randomize is_group_a
        self.randomize_group_assignments();
        self.specimen.prepare_input_data(&mut self.input_data, &self.is_group_a);
        self.measure(counter);
        let first_time = self.percentiles[NUMBER_PERCENTILES - 1] == 0;
        if first_time {
            // throw away the first batch of measurements.
            // this helps warming things up.
            self.prepare_percentiles();
            MeasurementRunResult::NoLeakageEvidenceYet
        } else {
            self.update_statistics();
            self.report(evaluator)
        }
    }

    /// The t-test over the raw execution times.
    pub fn get_uncropped_test(&self) -> (r: &TTest)
        requires
            self.wf(),
        ensures
            *r == self.uncropped(),
            r.wf(),
    {
        &self.first_order_uncropped_test
    }

    /// The t-test for crop threshold `k`.
    pub fn get_percentile_test(&self, k: usize) -> (r: &TTest)
        requires
            self.wf(),
            k < NUMBER_PERCENTILES,
        ensures
            *r == self.cropped()[k as int],
            r.wf(),
    {
        &self.percentile_tests[k]
    }

    /// The t-test over centered squared deviations.
    pub fn get_second_order_test(&self) -> (r: &TTest)
        requires
            self.wf(),
        ensures
            *r == self.second_order(),
            r.wf(),
    {
        &self.second_order_test
    }

    /// The current crop thresholds.
    pub fn get_percentiles(&self) -> (r: &Vec<u64>)
        requires
            self.wf(),
        ensures
            r@ == self.thresholds(),
            r@.len() == NUMBER_PERCENTILES,
    {
        &self.percentiles
    }

    /// The group labels of the current run.
    pub fn get_group_assignments(&self) -> (r: &Vec<bool>)
        requires
            self.wf(),
        ensures
            r@ == self.flags(),
    {
        &self.is_group_a
    }
}

/// The index of the last greatest key among `keys[0 .. hi]`.
pub open spec fn last_argmax(keys: Seq<i64>, hi: int) -> int
    decreases hi,
{
    if hi <= 1 {
        0
    } else {
        let p = last_argmax(keys, hi - 1);
        if keys[hi - 1] >= keys[p] {
            hi - 1
        } else {
            p
        }
    }
}

/// Which of the battery's keys wins: the t-test keys are laid out as the
/// `NUMBER_PERCENTILES` cropped tests, then the uncropped test, then the
/// second-order test.  Among the cropped tests the last greatest key wins;
/// the uncropped and then the second-order test each take over only when
/// strictly greater.  The tie-break is deterministic given the keys.
pub open spec fn max_test_index(keys: Seq<i64>) -> int {
    let s1 = last_argmax(keys, NUMBER_PERCENTILES as int);
    let s2 = if keys[s1] < keys[NUMBER_PERCENTILES as int] {
        NUMBER_PERCENTILES as int
    } else {
        s1
    };
    if keys[s2] < keys[NUMBER_PERCENTILES as int + 1] {
        NUMBER_PERCENTILES as int + 1
    } else {
        s2
    }
}

/// Selects the winning test from the battery's keys.
pub fn select_max_test_index(keys: &Vec<i64>) -> (r: usize)
    requires
        keys@.len() == NUMBER_PERCENTILES + 2,
    ensures
        r == max_test_index(keys@),
        0 <= r < NUMBER_PERCENTILES + 2,
{
    let mut best: usize = 0;
    let mut j: usize = 1;
    while j < NUMBER_PERCENTILES
        invariant
            1 <= j <= NUMBER_PERCENTILES,
            keys@.len() == NUMBER_PERCENTILES + 2,
            0 <= best < j,
            best == last_argmax(keys@, j as int),
        decreases NUMBER_PERCENTILES - j,
    {
        if keys[j] >= keys[best] {
            best = j;
        }
        j = j + 1;
    }
    if keys[best] < keys[NUMBER_PERCENTILES] {
        best = NUMBER_PERCENTILES;
    }
    if keys[best] < keys[NUMBER_PERCENTILES + 1] {
        best = NUMBER_PERCENTILES + 1;
    }
    best
}

/// Both groups' sample counts of a test, together.
pub open spec fn test_total(t: TTest) -> int {
    t.a_samples().len() as int + t.b_samples().len() as int
}

/// The key a test enters the maximum-t selection with: its t value as the
/// evaluator renders it, and exactly zero when the test has no t value —
/// too few samples, or a zero denominator — so that the failure is
/// recovered locally and never propagated.
fn key_of<E: TValueEvaluator>(test: &TTest, evaluator: &E) -> (r: i64)
    requires
        test.wf(),
    ensures
        (test.a_samples().len() <= 1 || test.b_samples().len() <= 1 || (scaled_dev_sq(
            test.a_samples(),
        ) == 0 && scaled_dev_sq(test.b_samples()) == 0)) ==> r == 0,
{
    match test.compute() {
        None => 0,
        Some(summary) => evaluator.t_value_scaled(&summary),
    }
}

/// The second-order test remains empty until the first cropped test's
/// group-A count strictly exceeds `ENOUGH_MEASUREMENTS`: an invariant of
/// every well-formed measurement context.
pub proof fn lemma_second_order_idle<T: MeasurementSpecimen>(c: MeasurementContext<T>)
    requires
        c.wf(),
        c.cropped()[0].a_samples().len() <= ENOUGH_MEASUREMENTS,
    ensures
        c.second_order().a_samples().len() == 0,
        c.second_order().b_samples().len() == 0,
{
}

/// Executes a specimen's measurement runs, at most `max_runs` of them,
/// until leakage is found.  Absence of evidence never becomes proof of
/// constancy, so the loop is unbounded by design: a caller that wants it
/// passes `u64::MAX` runs.
pub fn run_dudect_test<T: MeasurementSpecimen, C: CycleCounter, E: TValueEvaluator>(
    specimen: T,
    counter: &mut C,
    evaluator: &E,
    max_runs: u64,
) -> (r: MeasurementRunResult)
    ensures
        max_runs == 0 ==> r == MeasurementRunResult::NoLeakageEvidenceYet,
{
    let mut dudect = MeasurementContext::new(specimen, 500);
    let mut result = MeasurementRunResult::NoLeakageEvidenceYet;
    let mut runs: u64 = 0;
    while runs < max_runs && result == MeasurementRunResult::NoLeakageEvidenceYet
        invariant
            dudect.wf(),
            runs <= max_runs,
            max_runs == 0 ==> result == MeasurementRunResult::NoLeakageEvidenceYet,
        decreases max_runs - runs,
    {
        result = dudect.execute_measurement_run(counter, evaluator);
        runs = runs + 1;
    }
    result
}

/// The magnitude of a t key.
pub open spec fn t_abs(t: int) -> int {
    if t < 0 {
        -t
    } else {
        t
    }
}

/// The decision ladder on one run's numbers: below
/// `ENOUGH_MEASUREMENTS` measurements nothing is concluded; above it,
/// leakage is found exactly when the scaled t magnitude exceeds the
/// moderate threshold (the overwhelming threshold lies above it and only
/// changes the wording of the report).
pub fn decide_verdict(number_of_measurements: u128, max_t_scaled: i64) -> (r:
    MeasurementRunResult)
    ensures
        number_of_measurements < ENOUGH_MEASUREMENTS ==> r
            == MeasurementRunResult::NoLeakageEvidenceYet,
        number_of_measurements >= ENOUGH_MEASUREMENTS ==> (r == MeasurementRunResult::LeakageFound
            <==> t_abs(max_t_scaled as int) > TTEST_FAILED_MODERATE_SCALED),
{
    if number_of_measurements < ENOUGH_MEASUREMENTS as u128 {
        return MeasurementRunResult::NoLeakageEvidenceYet;
    }
    if max_t_scaled > TTEST_FAILED_OVERWHELMINGLY_SCALED || max_t_scaled
        < -TTEST_FAILED_OVERWHELMINGLY_SCALED {
        return MeasurementRunResult::LeakageFound;
    }
    if max_t_scaled > TTEST_FAILED_MODERATE_SCALED || max_t_scaled
        < -TTEST_FAILED_MODERATE_SCALED {
        return MeasurementRunResult::LeakageFound;
    }
    MeasurementRunResult::NoLeakageEvidenceYet
}

fn filled_u64(n: usize, value: u64) -> (r: Vec<u64>)
    ensures
        r@.len() == n,
        forall|i: int| 0 <= i < n ==> #[trigger] r@[i] == value,
{
    let mut r: Vec<u64> = Vec::new();
    let mut i: usize = 0;
    while i < n
        invariant
            0 <= i <= n,
            r@.len() == i,
            forall|j: int| 0 <= j < i ==> #[trigger] r@[j] == value,
        decreases n - i,
    {
        r.push(value);
        i = i + 1;
    }
    r
}

fn filled_bool(n: usize, value: bool) -> (r: Vec<bool>)
    ensures
        r@.len() == n,
{
    let mut r: Vec<bool> = Vec::new();
    let mut i: usize = 0;
    while i < n
        invariant
            0 <= i <= n,
            r@.len() == i,
        decreases n - i,
    {
        r.push(value);
        i = i + 1;
    }
    r
}

fn empty_rows(n: usize) -> (r: Vec<Vec<u8>>)
    ensures
        r@.len() == n,
{
    let mut r: Vec<Vec<u8>> = Vec::new();
    let mut i: usize = 0;
    while i < n
        invariant
            0 <= i <= n,
            r@.len() == i,
        decreases n - i,
    {
        r.push(Vec::new());
        i = i + 1;
    }
    r
}

fn fresh_test_bank() -> (r: Vec<TTest>)
    ensures
        r@.len() == NUMBER_PERCENTILES,
        forall|k: int|
            0 <= k < NUMBER_PERCENTILES ==> (#[trigger] r@[k]).wf() && r@[k].a_samples().len() == 0
                && r@[k].b_samples().len() == 0,
{
    let mut r: Vec<TTest> = Vec::new();
    let mut i: usize = 0;
    while i < NUMBER_PERCENTILES
        invariant
            0 <= i <= NUMBER_PERCENTILES,
            r@.len() == i,
            forall|k: int|
                0 <= k < i ==> (#[trigger] r@[k]).wf() && r@[k].a_samples().len() == 0
                    && r@[k].b_samples().len() == 0,
        decreases NUMBER_PERCENTILES - i,
    {
        r.push(TTest::new());
        i = i + 1;
    }
    r
}

} // verus!
