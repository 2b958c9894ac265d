//! Welch's t-test accumulator.
//!
//! Each group keeps exact integer aggregates of the samples pushed into it:
//! the count, the sum, and the sum of squares (held in 192 bits).  From these
//! the t statistic is a ratio of integers; the accumulator never rounds, so
//! the sample mean and the squared-deviation total are exact, where a
//! floating-point formulation would carry rounding error.  A ghost sequence
//! per group records the pushed samples and is the model all contracts
//! speak of.

use vstd::prelude::*;

verus! {

/// Sum of a sequence of 64-bit samples, as a mathematical integer.
pub open spec fn seq_sum(s: Seq<u64>) -> int
    decreases s.len(),
{
    if s.len() == 0 {
        0
    } else {
        seq_sum(s.drop_last()) + s.last()
    }
}

/// Sum of the squares of a sequence of 64-bit samples.
pub open spec fn seq_sq_sum(s: Seq<u64>) -> int
    decreases s.len(),
{
    if s.len() == 0 {
        0
    } else {
        seq_sq_sum(s.drop_last()) + s.last() * s.last()
    }
}

/// Whether every sample of the sequence equals the first one.
pub open spec fn all_same(s: Seq<u64>) -> bool {
    forall|i: int| 0 <= i < s.len() ==> #[trigger] s[i] == s[0]
}

/// Sum of `(n * x - t)^2` over the samples `x` of `s`, for fixed `n` and `t`.
pub open spec fn dev_sq_sum(s: Seq<u64>, n: int, t: int) -> int
    decreases s.len(),
{
    if s.len() == 0 {
        0
    } else {
        dev_sq_sum(s.drop_last(), n, t) + (n * s.last() - t) * (n * s.last() - t)
    }
}

/// The sum of squared deviations from the mean, scaled by `len^2` so that it
/// is an integer: `len^2 * sum((x - mean)^2)`.
pub open spec fn scaled_dev_sq(s: Seq<u64>) -> int {
    dev_sq_sum(s, s.len() as int, seq_sum(s))
}

/// Numerator of the t statistic over the two groups' samples, scaled by the
/// (positive) product of the group sizes: `len_a * len_b * (mean_a - mean_b)`.
pub open spec fn t_numerator(a: Seq<u64>, b: Seq<u64>) -> int {
    seq_sum(a) * b.len() - seq_sum(b) * a.len()
}

/// Numerator of the square of the t statistic's denominator
/// `var_a / len_a + var_b / len_b`, brought to the common denominator
/// `len_a^3 * (len_a - 1) * len_b^3 * (len_b - 1)`.
pub open spec fn t_denominator_sq_num(a: Seq<u64>, b: Seq<u64>) -> int {
    scaled_dev_sq(a) * (b.len() * b.len() * b.len() * (b.len() - 1)) + scaled_dev_sq(b) * (
    a.len() * a.len() * a.len() * (a.len() - 1))
}

/// Common denominator that `t_denominator_sq_num` is taken over.
pub open spec fn t_denominator_sq_den(a: Seq<u64>, b: Seq<u64>) -> int {
    (a.len() * a.len() * a.len() * (a.len() - 1)) * (b.len() * b.len() * b.len() * (b.len() - 1))
}

pub proof fn lemma_seq_sum_bounds(s: Seq<u64>)
    ensures
        0 <= seq_sum(s) <= s.len() * u64::MAX,
    decreases s.len(),
{
    if s.len() == 0 {
    } else {
        lemma_seq_sum_bounds(s.drop_last());
        assert(s.len() * u64::MAX == (s.len() - 1) * u64::MAX + u64::MAX) by (nonlinear_arith);
    }
}

pub proof fn lemma_seq_sq_sum_bounds(s: Seq<u64>)
    ensures
        0 <= seq_sq_sum(s) <= s.len() * (u64::MAX * u64::MAX),
    decreases s.len(),
{
    if s.len() == 0 {
    } else {
        lemma_seq_sq_sum_bounds(s.drop_last());
        assert(s.last() * s.last() <= u64::MAX * u64::MAX) by (nonlinear_arith)
            requires 0 <= s.last() <= u64::MAX,
        ;
        assert(s.len() * (u64::MAX * u64::MAX) == (s.len() - 1) * (u64::MAX * u64::MAX) + u64::MAX
            * u64::MAX) by (nonlinear_arith);
    }
}

/// Expands the squared-deviation sum into the three plain sums.
pub proof fn lemma_dev_sq_expand(s: Seq<u64>, n: int, t: int)
    ensures
        dev_sq_sum(s, n, t) == n * n * seq_sq_sum(s) - 2 * n * t * seq_sum(s) + s.len() * (t * t),
    decreases s.len(),
{
    if s.len() == 0 {
    } else {
        lemma_dev_sq_expand(s.drop_last(), n, t);
        assert((n * s.last() - t) * (n * s.last() - t) == n * n * (s.last() * s.last()) - 2 * n * t
            * s.last() + t * t) by (nonlinear_arith);
        assert(n * n * seq_sq_sum(s) == n * n * seq_sq_sum(s.drop_last()) + n * n * (s.last()
            * s.last())) by (nonlinear_arith)
            requires seq_sq_sum(s) == seq_sq_sum(s.drop_last()) + s.last() * s.last(),
        ;
        assert(2 * n * t * seq_sum(s) == 2 * n * t * seq_sum(s.drop_last()) + 2 * n * t * s.last())
            by (nonlinear_arith)
            requires seq_sum(s) == seq_sum(s.drop_last()) + s.last(),
        ;
        assert(s.len() * (t * t) == (s.len() - 1) * (t * t) + t * t) by (nonlinear_arith)
            requires s.len() >= 1,
        ;
    }
}

/// The squared-deviation total kept online equals the two-pass value
/// `len * (len * sum_of_squares - sum^2)` exactly: the online (Welford-style)
/// and the two-pass variance computations agree with no rounding error at all.
pub proof fn lemma_two_pass_variance(s: Seq<u64>)
    ensures
        scaled_dev_sq(s) == s.len() * (s.len() * seq_sq_sum(s) - seq_sum(s) * seq_sum(s)),
{
    let n = s.len() as int;
    let t = seq_sum(s);
    lemma_dev_sq_expand(s, n, t);
    assert(n * n * seq_sq_sum(s) - 2 * n * t * t + n * (t * t) == n * (n * seq_sq_sum(s) - t * t))
        by (nonlinear_arith);
}

pub proof fn lemma_dev_sq_nonneg(s: Seq<u64>, n: int, t: int)
    ensures
        dev_sq_sum(s, n, t) >= 0,
    decreases s.len(),
{
    if s.len() == 0 {
    } else {
        lemma_dev_sq_nonneg(s.drop_last(), n, t);
        assert((n * s.last() - t) * (n * s.last() - t) >= 0) by (nonlinear_arith);
    }
}

/// The squared-deviation sum vanishes exactly when every sample sits on the
/// common point `t / n`.
pub proof fn lemma_dev_sq_zero(s: Seq<u64>, n: int, t: int)
    ensures
        dev_sq_sum(s, n, t) == 0 <==> (forall|i: int| 0 <= i < s.len() ==> n * s[i] == t),
    decreases s.len(),
{
    if s.len() == 0 {
    } else {
        lemma_dev_sq_zero(s.drop_last(), n, t);
        lemma_dev_sq_nonneg(s.drop_last(), n, t);
        let d = n * s.last() - t;
        assert(d * d >= 0 && (d * d == 0 <==> d == 0)) by (nonlinear_arith);
        if dev_sq_sum(s, n, t) == 0 {
            assert forall|i: int| 0 <= i < s.len() implies n * s[i] == t by {
                if i < s.len() - 1 {
                    assert(s.drop_last()[i] == s[i]);
                }
            }
        } else {
            if forall|i: int| 0 <= i < s.len() ==> n * s[i] == t {
                assert forall|i: int| 0 <= i < s.drop_last().len() implies n * s.drop_last()[i]
                    == t by {
                    assert(s.drop_last()[i] == s[i]);
                }
                assert(n * s.last() == t);
                assert(false);
            }
        }
    }
}

pub proof fn lemma_sum_of_constant(s: Seq<u64>)
    requires
        all_same(s),
    ensures
        s.len() > 0 ==> seq_sum(s) == s.len() * s[0],
    decreases s.len(),
{
    if s.len() == 0 {
    } else if s.len() == 1 {
        assert(s.drop_last().len() == 0);
        assert(seq_sum(s.drop_last()) == 0);
        assert(seq_sum(s) == s.last());
        assert(s.last() == s[0]);
        assert(s.len() * s[0] == 1 * s[0]);
        assert(1 * s[0] == s[0]) by (nonlinear_arith);
    } else {
        assert(all_same(s.drop_last())) by {
            assert forall|i: int| 0 <= i < s.drop_last().len() implies #[trigger] s.drop_last()[i]
                == s.drop_last()[0] by {
                assert(s.drop_last()[i] == s[i]);
            }
        }
        lemma_sum_of_constant(s.drop_last());
        assert(s.drop_last()[0] == s[0]);
        assert(s.last() == s[0]);
        assert(seq_sum(s) == (s.len() - 1) * s[0] + s[0]);
        assert((s.len() - 1) * s[0] + s[0] == s.len() * s[0]) by (nonlinear_arith);
    }
}

/// For a non-empty group, the squared-deviation total is zero exactly when
/// all of the group's samples are equal.
pub proof fn lemma_scaled_dev_sq_zero(s: Seq<u64>)
    requires
        s.len() > 0,
    ensures
        scaled_dev_sq(s) == 0 <==> all_same(s),
{
    let n = s.len() as int;
    let t = seq_sum(s);
    lemma_dev_sq_zero(s, n, t);
    if all_same(s) {
        lemma_sum_of_constant(s);
        assert forall|i: int| 0 <= i < s.len() implies n * s[i] == t by {
            assert(s[i] == s[0]);
        }
    }
    if scaled_dev_sq(s) == 0 {
        assert forall|i: int| 0 <= i < s.len() implies #[trigger] s[i] == s[0] by {
            assert(n * s[i] == t && n * s[0] == t);
            assert(n * s[i] == n * s[0] && n > 0 ==> s[i] == s[0]) by (nonlinear_arith);
        }
    }
}

/// Pushing identical sample sequences to both groups gives a t statistic
/// of exactly zero: the numerator of the t value vanishes.
pub proof fn lemma_equal_groups_zero_t(a: Seq<u64>, b: Seq<u64>)
    requires
        a == b,
    ensures
        t_numerator(a, b) == 0,
{
}

/// Swapping the group labels across all pushes negates the t statistic: the
/// numerator changes sign while the (squared) denominator is unchanged.
pub proof fn lemma_swap_negates_t(a: Seq<u64>, b: Seq<u64>)
    ensures
        t_numerator(b, a) == -t_numerator(a, b),
        t_denominator_sq_num(b, a) == t_denominator_sq_num(a, b),
        t_denominator_sq_den(b, a) == t_denominator_sq_den(a, b),
{
}

/// `2^128`, the weight of the high limb of a 192-bit sum of squares.
pub open spec fn pow128() -> int {
    0x1_0000_0000_0000_0000_0000_0000_0000_0000int
}

/// The per-group state: exact count, sum and sum of squares of the samples,
/// together with enough information to decide whether all samples are equal.
/// The sum of squares is held in 192 bits as `sq_hi * 2^128 + sq_lo`.
pub struct GroupValues {
    number_samples: u64,
    sum: u128,
    sq_lo: u128,
    sq_hi: u64,
    first: u64,
    uniform: bool,
    samples: Ghost<Seq<u64>>,
}

pub closed spec fn gv_wf(g: GroupValues) -> bool {
    &&& g.number_samples == g.samples@.len()
    &&& g.sum == seq_sum(g.samples@)
    &&& (g.sq_hi as int) * pow128() + g.sq_lo == seq_sq_sum(g.samples@)
    &&& (g.uniform <==> all_same(g.samples@))
    &&& (g.samples@.len() > 0 ==> g.first == g.samples@[0])
}

impl GroupValues {
    /// The samples this group has seen, oldest first.
    pub closed spec fn model(self) -> Seq<u64> {
        self.samples@
    }
}

impl Default for GroupValues {
    /// A group that has seen no samples yet: every aggregate is zero.
    fn default() -> (r: Self)
        ensures
            gv_wf(r),
            r.model() == Seq::<u64>::empty(),
    {
        Self {
            number_samples: 0,
            sum: 0,
            sq_lo: 0,
            sq_hi: 0,
            first: 0,
            uniform: true,
            samples: Ghost(Seq::empty()),
        }
    }
}

impl GroupValues {
    fn push_value(&mut self, value: u64)
        requires
            gv_wf(*old(self)),
            old(self).samples@.len() < u64::MAX,
        ensures
            gv_wf(*final(self)),
            final(self).samples@ == old(self).samples@.push(value),
    {
        let ghost s = self.samples@;
        let ghost s2 = s.push(value);
        proof {
            lemma_seq_sum_bounds(s);
            lemma_seq_sq_sum_bounds(s);
            assert(s2.drop_last() =~= s);
            assert(seq_sum(s2) == seq_sum(s) + value);
            assert(seq_sq_sum(s2) == seq_sq_sum(s) + value * value);
            assert(seq_sum(s) + value <= u64::MAX * (u64::MAX as int)) by (nonlinear_arith)
                requires
                    seq_sum(s) <= s.len() * u64::MAX,
                    s.len() < u64::MAX,
                    0 <= value <= u64::MAX,
            ;
            assert(u64::MAX * (u64::MAX as int) < u128::MAX);
            assert((value as u128) * (value as u128) == value * value) by (nonlinear_arith);
            assert(value * value <= u64::MAX * (u64::MAX as int)) by (nonlinear_arith)
                requires 0 <= value <= u64::MAX,
            ;
            // The high limb stays clear of u64::MAX, so the carry cannot
            // overflow it.
            assert(s.len() * (u64::MAX * (u64::MAX as int)) < (u64::MAX as int) * pow128())
                by (nonlinear_arith)
                requires s.len() < u64::MAX,
            ;
            assert((self.sq_hi as int) * pow128() <= seq_sq_sum(s));
            assert(self.sq_hi < u64::MAX) by (nonlinear_arith)
                requires
                    (self.sq_hi as int) * pow128() <= seq_sq_sum(s),
                    seq_sq_sum(s) + value * value < (u64::MAX as int) * pow128(),
            ;
        }
        self.number_samples = self.number_samples + 1;
        self.sum = self.sum + value as u128;
        let value_sq = (value as u128) * (value as u128);
        if self.sq_lo > u128::MAX - value_sq {
            self.sq_lo = self.sq_lo - (u128::MAX - value_sq) - 1;
            self.sq_hi = self.sq_hi + 1;
        } else {
            self.sq_lo = self.sq_lo + value_sq;
        }
        if self.number_samples == 1 {
            self.first = value;
            self.uniform = true;
        } else if value != self.first {
            self.uniform = false;
        }
        self.samples = Ghost(s2);
        proof {
            assert forall|i: int| 0 <= i < s.len() implies #[trigger] s2[i] == s[i] by {}
            if all_same(s2) {
                assert forall|i: int| 0 <= i < s.len() implies #[trigger] s[i] == s[0] by {
                    assert(s2[i] == s2[0]);
                }
            }
            if s.len() > 0 && all_same(s) && value == s[0] {
                assert forall|i: int| 0 <= i < s2.len() implies #[trigger] s2[i] == s2[0] by {
                    if i < s.len() {
                        assert(s[i] == s[0]);
                    }
                }
            }
            if s.len() == 0 {
                assert(all_same(s2)) by {
                    assert(s2.len() == 1);
                }
            }
        }
    }
}

/// The exact aggregates behind a computable t statistic: per group the
/// sample count, the sample sum, and the sum of squares split into a high
/// and a low limb (`sq_hi * 2^128 + sq_lo`).
#[derive(Clone, Copy)]
pub struct TSummary {
    pub n_a: u64,
    pub n_b: u64,
    pub sum_a: u128,
    pub sum_b: u128,
    pub sq_a_hi: u64,
    pub sq_a_lo: u128,
    pub sq_b_hi: u64,
    pub sq_b_lo: u128,
}

/// A two-group Welch t-test accumulator with exact integer aggregates.
pub struct TTest {
    group_a: GroupValues,
    group_b: GroupValues,
}

impl TTest {
    /// The samples pushed so far into group A, oldest first.
    pub closed spec fn a_samples(self) -> Seq<u64> {
        self.group_a.samples@
    }

    /// The samples pushed so far into group B, oldest first.
    pub closed spec fn b_samples(self) -> Seq<u64> {
        self.group_b.samples@
    }

    /// The aggregates agree exactly with the sample model.
    pub closed spec fn wf(self) -> bool {
        gv_wf(self.group_a) && gv_wf(self.group_b)
    }

    /// Create a new t-test with empty values.
    pub fn new() -> (r: Self)
        ensures
            r.wf(),
            r.a_samples() == Seq::<u64>::empty(),
            r.b_samples() == Seq::<u64>::empty(),
    {
        Self { group_a: GroupValues::default(), group_b: GroupValues::default() }
    }

    /// Adds a new value to one of the two sample groups (a or b).
    /// Set `is_sample_group_a` to true, if the value belongs to group a.
    ///
    /// A group that already holds `u64::MAX` samples is left unchanged; that
    /// many pushes cannot occur in a program that terminates in practice.
    pub fn push(&mut self, value: u64, is_sample_group_a: bool)
        requires
            old(self).wf(),
        ensures
            final(self).wf(),
            is_sample_group_a ==> final(self).b_samples() == old(self).b_samples(),
            !is_sample_group_a ==> final(self).a_samples() == old(self).a_samples(),
            is_sample_group_a && old(self).a_samples().len() < u64::MAX
                ==> final(self).a_samples() == old(self).a_samples().push(value),
            is_sample_group_a && old(self).a_samples().len() >= u64::MAX
                ==> final(self).a_samples() == old(self).a_samples(),
            !is_sample_group_a && old(self).b_samples().len() < u64::MAX
                ==> final(self).b_samples() == old(self).b_samples().push(value),
            !is_sample_group_a && old(self).b_samples().len() >= u64::MAX
                ==> final(self).b_samples() == old(self).b_samples(),
    {
        if is_sample_group_a {
            if self.group_a.number_samples < u64::MAX {
                self.group_a.push_value(value);
            }
        } else {
            if self.group_b.number_samples < u64::MAX {
                self.group_b.push_value(value);
            }
        }
    }

    /// Returns the exact ingredients of the t statistic, or `None` when no
    /// t value exists.  `None` comes exactly when some group has at most one
    /// sample, or when the denominator of the t statistic (the combined
    /// standard error) is exactly zero, which happens precisely when every
    /// sample within each group repeats one value.
    pub fn compute(&self) -> (r: Option<TSummary>)
        requires
            self.wf(),
        ensures
            r is None <==> (self.a_samples().len() <= 1 || self.b_samples().len() <= 1 || (
            scaled_dev_sq(self.a_samples()) == 0 && scaled_dev_sq(self.b_samples()) == 0)),
            r is Some ==> {
                let s = r.unwrap();
                &&& s.n_a == self.a_samples().len()
                &&& s.n_b == self.b_samples().len()
                &&& s.sum_a == seq_sum(self.a_samples())
                &&& s.sum_b == seq_sum(self.b_samples())
                &&& (s.sq_a_hi as int) * pow128() + s.sq_a_lo == seq_sq_sum(self.a_samples())
                &&& (s.sq_b_hi as int) * pow128() + s.sq_b_lo == seq_sq_sum(self.b_samples())
            },
    {
        if self.group_a.number_samples <= 1 || self.group_b.number_samples <= 1 {
            return None;
        }
        proof {
            lemma_scaled_dev_sq_zero(self.a_samples());
            lemma_scaled_dev_sq_zero(self.b_samples());
        }
        if self.group_a.uniform && self.group_b.uniform {
            return None;
        }
        Some(
            TSummary {
                n_a: self.group_a.number_samples,
                n_b: self.group_b.number_samples,
                sum_a: self.group_a.sum,
                sum_b: self.group_b.sum,
                sq_a_hi: self.group_a.sq_hi,
                sq_a_lo: self.group_a.sq_lo,
                sq_b_hi: self.group_b.sq_hi,
                sq_b_lo: self.group_b.sq_lo,
            },
        )
    }

    /// Returns the number of samples for group a and b.
    pub fn get_number_of_samples(&self) -> (r: [u64; 2])
        requires
            self.wf(),
        ensures
            r[0] == self.a_samples().len(),
            r[1] == self.b_samples().len(),
    {
        [self.group_a.number_samples, self.group_b.number_samples]
    }

    /// Returns the mean for group a and b, rounded down to a whole sample
    /// value; an empty group reports zero.
    pub fn get_mean(&self) -> (r: [u64; 2])
        requires
            self.wf(),
        ensures
            r[0] == mean_floor(self.a_samples()),
            r[1] == mean_floor(self.b_samples()),
    {
        [Self::mean_of(&self.group_a), Self::mean_of(&self.group_b)]
    }

    fn mean_of(g: &GroupValues) -> (r: u64)
        requires
            gv_wf(*g),
        ensures
            r == mean_floor(g.samples@),
    {
        if g.number_samples == 0 {
            0
        } else {
            proof {
                lemma_seq_sum_bounds(g.samples@);
                assert(seq_sum(g.samples@) / (g.samples@.len() as int) <= u64::MAX)
                    by (nonlinear_arith)
                    requires
                        0 <= seq_sum(g.samples@) <= g.samples@.len() * u64::MAX,
                        g.samples@.len() >= 1,
                ;
            }
            (g.sum / (g.number_samples as u128)) as u64
        }
    }
}

/// The exact sample mean rounded down to an integer; zero for no samples.
pub open spec fn mean_floor(s: Seq<u64>) -> int {
    if s.len() == 0 {
        0
    } else {
        seq_sum(s) / (s.len() as int)
    }
}

/// For groups of at least two samples each, the combined standard error is
/// exactly zero precisely when both groups' squared-deviation totals vanish.
pub proof fn lemma_zero_denominator(a: Seq<u64>, b: Seq<u64>)
    requires
        a.len() >= 2,
        b.len() >= 2,
    ensures
        t_denominator_sq_num(a, b) == 0 <==> (scaled_dev_sq(a) == 0 && scaled_dev_sq(b) == 0),
{
    lemma_dev_sq_nonneg(a, a.len() as int, seq_sum(a));
    lemma_dev_sq_nonneg(b, b.len() as int, seq_sum(b));
    let ca = a.len() * a.len() * a.len() * (a.len() - 1);
    let cb = b.len() * b.len() * b.len() * (b.len() - 1);
    assert(a.len() * a.len() * a.len() * (a.len() - 1) > 0) by (nonlinear_arith)
        requires a.len() >= 2,
    ;
    assert(b.len() * b.len() * b.len() * (b.len() - 1) > 0) by (nonlinear_arith)
        requires b.len() >= 2,
    ;
    assert(scaled_dev_sq(a) * cb >= 0 && (scaled_dev_sq(a) * cb == 0 <==> scaled_dev_sq(a) == 0))
        by (nonlinear_arith)
        requires scaled_dev_sq(a) >= 0 && cb > 0,
    ;
    assert(scaled_dev_sq(b) * ca >= 0 && (scaled_dev_sq(b) * ca == 0 <==> scaled_dev_sq(b) == 0))
        by (nonlinear_arith)
        requires scaled_dev_sq(b) >= 0 && ca > 0,
    ;
}

} // verus!
