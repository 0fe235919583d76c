//! The reference in-memory metrics adapter.
//!
//! It implements the port with bounded, insertion-ordered storage of
//! snapshots (oldest evicted first), a current health status, deterministic
//! failure injection driven by a per-instance random generator, and a query
//! surface for tests: list, filter by name, type or label, count, clear,
//! overwrite health.
//!
//! Failure injection draws a uniform 52-bit fraction of the unit interval
//! and fails when it falls below the configured rate.  The comparison is
//! integer-exact: `unit_threshold` counts how many of the `2^52` equal
//! slices of the unit interval lie strictly below the encoded rate, so a
//! rate of one fails always and a rate of zero never does.

use vstd::prelude::*;
use vstd::arithmetic::power2::pow2;
use vstd::string::StringExecFns;

use crate::errors::{ErrorKind, MetricsError, metrics_config_error, metrics_health_error, metrics_recording_error, metrics_error};
use crate::labels::Labels;
use crate::port::{HealthStatus, HealthView, MetricsManager, spec_request_valid};
use crate::scalar::{Scalar, spec_is_above_one, spec_is_above_zero, spec_is_nan, spec_is_negative, EXPONENT_MASK, FRACTION_MASK, ONE_BITS, SIGN_MASK, ZERO_BITS};
use crate::types::{lemma_views_push, views_of, MetricRequest, MetricSnapshot, MetricType, MetricValue, MetricValueView, MetricView, TimerGuard};
use crate::utils::{validate_counter_value, validate_labels, validate_metric_name, validate_metric_value};

verus! {

/// Configuration for the in-memory adapter.
#[derive(Debug)]
pub struct MockMetricsConfig {
    /// Service name for metrics identification.
    pub service_name: String,
    /// Whether to store metrics in memory for inspection.
    pub store_metrics: bool,
    /// Maximum number of metrics to store.
    pub max_stored_metrics: usize,
    /// Whether to simulate recording failures.
    pub simulate_failures: bool,
    /// Failure probability, from zero to one, when failures are simulated.
    pub failure_rate: Scalar,
}

/// The abstract value of an adapter configuration.
pub struct MockConfigView {
    pub service_name: Seq<char>,
    pub store_metrics: bool,
    pub max_stored_metrics: usize,
    pub simulate_failures: bool,
    pub failure_rate: Scalar,
}

impl View for MockMetricsConfig {
    type V = MockConfigView;

    open spec fn view(&self) -> MockConfigView {
        MockConfigView {
            service_name: self.service_name@,
            store_metrics: self.store_metrics,
            max_stored_metrics: self.max_stored_metrics,
            simulate_failures: self.simulate_failures,
            failure_rate: self.failure_rate,
        }
    }
}

impl MockMetricsConfig {
    /// A config with the given service name and the defaults otherwise:
    /// storage on, one thousand stored metrics at most, no simulated
    /// failures.
    pub fn new(service_name: &str) -> (c: MockMetricsConfig)
        ensures
            c@.service_name == service_name@,
            c@.store_metrics,
            c@.max_stored_metrics == 1000,
            !c@.simulate_failures,
            c@.failure_rate.spec_bits() == ZERO_BITS,
    {
        MockMetricsConfig {
            service_name: String::from_str(service_name),
            store_metrics: true,
            max_stored_metrics: 1000,
            simulate_failures: false,
            failure_rate: Scalar::zero(),
        }
    }

    /// The config with storage switched on or off.
    pub fn with_storage(self, store: bool) -> (c: MockMetricsConfig)
        ensures
            c@ == (MockConfigView { store_metrics: store, ..self@ }),
    {
        MockMetricsConfig { store_metrics: store, ..self }
    }

    /// The config with another bound on stored metrics.
    pub fn with_max_stored(self, max: usize) -> (c: MockMetricsConfig)
        ensures
            c@ == (MockConfigView { max_stored_metrics: max, ..self@ }),
    {
        MockMetricsConfig { max_stored_metrics: max, ..self }
    }

    /// The config with failure simulation at the given rate: simulation is
    /// on exactly when the rate is above zero, and the rate is clamped to
    /// the unit interval.
    pub fn with_failures(self, rate: Scalar) -> (c: MockMetricsConfig)
        ensures
            c@.simulate_failures == spec_is_above_zero(rate.spec_bits()),
            spec_is_negative(rate.spec_bits()) ==> c@.failure_rate.spec_bits() == ZERO_BITS,
            spec_is_above_one(rate.spec_bits()) ==> c@.failure_rate.spec_bits() == ONE_BITS,
            !spec_is_negative(rate.spec_bits()) && !spec_is_above_one(rate.spec_bits())
                ==> c@.failure_rate.spec_bits() == rate.spec_bits(),
            c@.service_name == self@.service_name,
            c@.store_metrics == self@.store_metrics,
            c@.max_stored_metrics == self@.max_stored_metrics,
    {
        let simulate = rate.is_above_zero();
        let clamped = rate.clamp_unit();
        MockMetricsConfig { simulate_failures: simulate, failure_rate: clamped, ..self }
    }
}

impl Clone for MockMetricsConfig {
    /// A clone carries the same abstract value.
    fn clone(&self) -> (c: MockMetricsConfig)
        ensures
            c@ == self@,
    {
        MockMetricsConfig {
            service_name: self.service_name.clone(),
            store_metrics: self.store_metrics,
            max_stored_metrics: self.max_stored_metrics,
            simulate_failures: self.simulate_failures,
            failure_rate: self.failure_rate,
        }
    }
}

impl Default for MockMetricsConfig {
    /// The default config: service name `test-service`, storage on, one
    /// thousand stored metrics at most, no simulated failures.
    fn default() -> (c: MockMetricsConfig)
        ensures
            c@.service_name == "test-service"@,
            c@.store_metrics,
            c@.max_stored_metrics == 1000,
            !c@.simulate_failures,
            c@.failure_rate.spec_bits() == ZERO_BITS,
    {
        MockMetricsConfig::new("test-service")
    }
}

/// How many of the `2^52` equal slices of the unit interval lie strictly
/// below the encoded value: a uniform draw `m` of one slice falls below the
/// value exactly when `m < spec_unit_threshold(bits)`.  NaN and values at or
/// below zero give zero slices; values at or above one give all of them; in
/// between, the count is the value times `2^52`, rounded up, read off the
/// exponent and fraction fields of the encoding.
pub open spec fn spec_unit_threshold(b: u64) -> int {
    if spec_is_nan(b) || b & SIGN_MASK != 0 || b == 0 {
        0
    } else if b >= ONE_BITS {
        pow2(52) as int
    } else if b >> 52 == 0 {
        // Subnormal: positive but far below one slice; one slice covers it.
        1
    } else {
        // Normal value below one: the value is significand * 2^(e - 1075)
        // for exponent field e, so value * 2^52 is significand over
        // 2^(1023 - e); the threshold rounds that up.
        (pow2(52) as int + (b & FRACTION_MASK) as int + pow2((1023 - (b >> 52)) as nat) as int - 1)
            / pow2((1023 - (b >> 52)) as nat) as int
    }
}

/// Exec counterpart of `spec_unit_threshold`.
fn unit_threshold(b: u64) -> (t: u64)
    ensures
        t as int == spec_unit_threshold(b),
{
    broadcast use vstd::arithmetic::power2::lemma_pow2_pos;

    let nan = b & EXPONENT_MASK == EXPONENT_MASK && b & FRACTION_MASK != 0;
    if nan || b & SIGN_MASK != 0 || b == 0 {
        0
    } else if b >= ONE_BITS {
        proof {
            vstd::bits::lemma_u64_pow2_no_overflow(52);
            vstd::bits::lemma_u64_shl_is_mul(1u64, 52u64);
        }
        1u64 << 52
    } else {
        let exp = b >> 52;
        if exp == 0 {
            1
        } else {
            proof {
                assert(b & 0x8000_0000_0000_0000u64 == 0 && b < 0x3FF0_0000_0000_0000u64 ==> b
                    >> 52 <= 1022) by (bit_vector);
            }
            let k = 1023 - exp;
            proof {
                assert(b & 0x000F_FFFF_FFFF_FFFFu64 < 0x0010_0000_0000_0000u64) by (bit_vector);
                assert(1u64 << 52u64 == 0x0010_0000_0000_0000u64) by (bit_vector);
                vstd::bits::lemma_u64_pow2_no_overflow(52);
                vstd::bits::lemma_u64_shl_is_mul(1u64, 52u64);
            }
            let frac = b & FRACTION_MASK;
            let sig = (1u64 << 52) + frac;
            proof {
                vstd::arithmetic::power2::lemma2_to64_rest();
                vstd::arithmetic::power2::lemma_pow2_unfold(53);
                assert(sig < pow2(53));
            }
            if k >= 54 {
                proof {
                    let kn = k as nat;
                    let d = pow2(kn) as int;
                    let s = sig as int;
                    vstd::arithmetic::power2::lemma_pow2_strictly_increases(53, kn);
                    assert(1 <= s && s <= d);
                    vstd::arithmetic::div_mod::lemma_div_multiples_vanish_fancy(1, s - 1, d);
                    assert(d * 1 + (s - 1) == s + d - 1);
                    assert((s + d - 1) / d == 1);
                }
                1
            } else {
                proof {
                    let kn = k as nat;
                    vstd::bits::lemma_u64_pow2_no_overflow(kn);
                    vstd::bits::lemma_u64_shl_is_mul(1u64, k);
                    if kn < 53 {
                        vstd::arithmetic::power2::lemma_pow2_strictly_increases(kn, 53);
                    }
                    assert((1u64 << k) as int <= pow2(53) as int);
                }
                let num = sig + (1u64 << k) - 1;
                let t = num >> k;
                proof {
                    vstd::bits::lemma_u64_shr_is_div(num, k);
                }
                t
            }
        }
    }
}


/// What the threshold counts, as a law: for a positive normal rate below
/// one, a draw `m` of one slice lies below the threshold exactly when
/// `m / 2^52` lies below the encoded value — written without division as
/// `m * 2^(1023 - e) < significand` for exponent field `e`, both sides
/// exact integers.
pub proof fn lemma_threshold_exact(b: u64, m: int)
    requires
        !spec_is_nan(b),
        b & SIGN_MASK == 0,
        b != 0,
        b < ONE_BITS,
        b >> 52 >= 1,
        0 <= m,
    ensures
        (m < spec_unit_threshold(b)) <==> m * pow2((1023 - (b >> 52)) as nat) < pow2(52) + (b
            & FRACTION_MASK),
{
    broadcast use vstd::arithmetic::power2::lemma_pow2_pos;

    let k = (1023 - (b >> 52)) as nat;
    let d = pow2(k) as int;
    let s = (pow2(52) + (b & FRACTION_MASK)) as int;
    assert(spec_unit_threshold(b) == (s + d - 1) / d);
    let q = (s + d - 1) / d;
    let r = (s + d - 1) % d;
    vstd::arithmetic::div_mod::lemma_fundamental_div_mod(s + d - 1, d);
    assert(s + d - 1 == d * q + r);
    assert(0 <= r < d) by {
        vstd::arithmetic::div_mod::lemma_mod_bound(s + d - 1, d);
    }
    assert(s == d * (q - 1) + (r + 1)) by (nonlinear_arith)
        requires
            s + d - 1 == d * q + r;
    if m < q {
        assert(m * d <= (q - 1) * d) by (nonlinear_arith)
            requires
                m <= q - 1,
                d > 0;
        assert((q - 1) * d < s) by (nonlinear_arith)
            requires
                s == d * (q - 1) + (r + 1),
                r + 1 >= 1;
        assert(m * d < s);
    } else {
        assert(s <= d * q) by (nonlinear_arith)
            requires
                s == d * (q - 1) + (r + 1),
                r + 1 <= d;
        assert(q * d <= m * d) by (nonlinear_arith)
            requires
                q <= m,
                d > 0;
        assert(!(m * d < s)) by (nonlinear_arith)
            requires
                s <= d * q,
                q * d <= m * d;
    }
    assert(m * d == m * pow2(k));
}

/// The threshold of the rate one is every slice: with failure simulation on
/// and a rate encoding one, every draw falls below it.
pub proof fn lemma_certain_failure_rate()
    ensures
        spec_unit_threshold(ONE_BITS) == pow2(52),
{
    assert(0x3FF0_0000_0000_0000u64 & 0x8000_0000_0000_0000u64 == 0) by (bit_vector);
    assert(0x3FF0_0000_0000_0000u64 & 0x7FF0_0000_0000_0000u64 != 0x7FF0_0000_0000_0000u64)
        by (bit_vector);
}

/// The threshold of either zero is no slice at all: with a rate encoding
/// positive or negative zero, no draw ever falls below it.
pub proof fn lemma_zero_failure_rate()
    ensures
        spec_unit_threshold(ZERO_BITS) == 0,
        spec_unit_threshold(SIGN_MASK) == 0,
{
    assert(0x8000_0000_0000_0000u64 & 0x8000_0000_0000_0000u64 != 0) by (bit_vector);
}

#[verifier::external_type_specification]
#[verifier::external_body]
pub struct ExRng(fastrand::Rng);

/// Relies on `fastrand::Rng::new`: a fresh generator, seeded from the
/// thread-local one.  Nothing is assumed of its state.
#[verifier::external_body]
fn rng_new() -> fastrand::Rng {
    fastrand::Rng::new()
}

/// Relies on `fastrand::Rng::u64` over the full range, which is one uniform
/// 64-bit draw advancing the generator's state.  Nothing is assumed of the
/// value: every outcome is possible.
#[verifier::external_body]
fn rng_next(rng: &mut fastrand::Rng) -> u64 {
    rng.u64(..)
}

/// The in-memory adapter: a configuration, the stored snapshots in
/// insertion order, the current health status, and the failure-injection
/// generator.
#[derive(Debug)]
pub struct MockMetricsAdapter {
    config: MockMetricsConfig,
    stored_metrics: Vec<MetricSnapshot>,
    health_status: HealthStatus,
    rng: fastrand::Rng,
}

/// A valid synthesized timer metric: the name and labels pass validation
/// and the elapsed seconds are finite — the value rule of the timer type.
pub open spec fn spec_timer_metric_valid(
    name: Seq<char>,
    labels: Map<Seq<char>, Seq<char>>,
    seconds: Scalar,
) -> bool {
    &&& crate::utils::spec_valid_metric_name(name)
    &&& crate::utils::spec_valid_labels(labels)
    &&& crate::scalar::spec_is_finite(seconds.spec_bits())
}

/// One step of a filter scan: extending the scanned prefix by one element
/// extends the filtered output exactly when the element satisfies the
/// predicate.
proof fn lemma_filter_step(
    snaps: Seq<MetricView>,
    out0: Seq<MetricView>,
    out1: Seq<MetricView>,
    pred: spec_fn(MetricView) -> bool,
    i: int,
)
    requires
        0 <= i < snaps.len(),
        out0 == snaps.take(i).filter(pred),
        pred(snaps[i]) ==> out1 == out0.push(snaps[i]),
        !pred(snaps[i]) ==> out1 == out0,
    ensures
        out1 == snaps.take(i + 1).filter(pred),
{
    reveal(Seq::filter);
    let taken = snaps.take(i + 1);
    assert(taken.drop_last() =~= snaps.take(i));
    assert(taken.last() == snaps[i]);
    assert(out1 =~= taken.filter(pred));
}

/// One storage step: append a snapshot, evicting the single oldest entry
/// first when the stored count already meets the bound.  Newer data is
/// never dropped to satisfy the bound.
pub open spec fn spec_store_step(s: Seq<MetricView>, max: nat, v: MetricView) -> Seq<MetricView> {
    if s.len() >= max && s.len() > 0 {
        s.drop_first().push(v)
    } else {
        s.push(v)
    }
}

impl MockMetricsAdapter {
    /// The snapshots retained for inspection, oldest first, as abstract
    /// values.
    pub closed spec fn spec_snapshots(&self) -> Seq<MetricView> {
        views_of(self.stored_metrics@)
    }

    /// The configuration this adapter runs with.
    pub closed spec fn spec_config(&self) -> MockConfigView {
        self.config@
    }

    /// The current health status.
    pub closed spec fn spec_health(&self) -> HealthView {
        self.health_status@
    }

    /// Build an adapter over the given configuration, with empty storage, a
    /// healthy status and a fresh generator.  No validation happens here;
    /// the port's constructor validates.
    pub fn new(config: MockMetricsConfig) -> (a: MockMetricsAdapter)
        ensures
            a.spec_config() == config@,
            a.spec_snapshots() == Seq::<MetricView>::empty(),
            a.spec_health().is_healthy,
            a.spec_health().message == "Metrics adapter is healthy"@,
    {
        let a = MockMetricsAdapter {
            config,
            stored_metrics: Vec::new(),
            health_status: HealthStatus::healthy(),
            rng: rng_new(),
        };
        proof {
            assert(a.spec_snapshots() =~= Seq::<MetricView>::empty());
        }
        a
    }

    /// An adapter over the default configuration.
    pub fn default() -> (a: MockMetricsAdapter)
        ensures
            a.spec_config().service_name == "test-service"@,
            a.spec_config().store_metrics,
            a.spec_config().max_stored_metrics == 1000,
            !a.spec_config().simulate_failures,
            a.spec_snapshots() == Seq::<MetricView>::empty(),
            a.spec_health().is_healthy,
    {
        Self::new(MockMetricsConfig::default())
    }

    /// Decide whether to simulate a failure: draw one uniform slice of the
    /// unit interval and compare it with the configured rate.  Off when
    /// simulation is off; certain when the rate's threshold is every slice;
    /// never when it is none.  Only the generator's state changes.
    fn should_fail(&mut self) -> (r: bool)
        ensures
            final (self).spec_config() == old(self).spec_config(),
            final (self).spec_snapshots() == old(self).spec_snapshots(),
            final (self).spec_health() == old(self).spec_health(),
            !old(self).spec_config().simulate_failures ==> !r,
            old(self).spec_config().simulate_failures && spec_unit_threshold(
                old(self).spec_config().failure_rate.spec_bits(),
            ) == pow2(52) ==> r,
            old(self).spec_config().simulate_failures && spec_unit_threshold(
                old(self).spec_config().failure_rate.spec_bits(),
            ) == 0 ==> !r,
    {
        if !self.config.simulate_failures {
            return false;
        }
        let draw = rng_next(&mut self.rng);
        let m = draw >> 12;
        let t = unit_threshold(self.config.failure_rate.to_bits());
        proof {
            vstd::arithmetic::power2::lemma2_to64_rest();
            assert(draw >> 12 < 0x10_0000_0000_0000u64) by (bit_vector);
            assert(m < pow2(52));
        }
        m < t
    }

    /// Store one snapshot, evicting the single oldest entry first when the
    /// stored count already meets the bound.
    fn store_snapshot(&mut self, snap: MetricSnapshot)
        ensures
            final (self).spec_config() == old(self).spec_config(),
            final (self).spec_health() == old(self).spec_health(),
            final (self).spec_snapshots() == spec_store_step(
                old(self).spec_snapshots(),
                old(self).spec_config().max_stored_metrics as nat,
                snap@,
            ),
    {
        let ghost old_snaps = self.spec_snapshots();
        let ghost sv = snap@;
        if self.stored_metrics.len() >= self.config.max_stored_metrics && self.stored_metrics.len()
            > 0 {
            self.stored_metrics.remove(0);
            self.stored_metrics.push(snap);
            proof {
                assert(self.spec_snapshots() =~= old_snaps.drop_first().push(sv));
            }
        } else {
            self.stored_metrics.push(snap);
            proof {
                assert(self.spec_snapshots() =~= old_snaps.push(sv));
            }
        }
    }

    /// All stored snapshots, cloned for inspection.
    pub fn get_stored_metrics(&self) -> (r: Vec<MetricSnapshot>)
        ensures
            views_of(r@) == self.spec_snapshots(),
    {
        let mut out: Vec<MetricSnapshot> = Vec::new();
        let n = self.stored_metrics.len();
        let mut i: usize = 0;
        proof {
            assert(views_of(out@) =~= self.spec_snapshots().take(0));
        }
        while i < n
            invariant
                i <= n,
                n == self.stored_metrics@.len(),
                views_of(out@) == self.spec_snapshots().take(i as int),
            decreases n - i,
        {
            let ghost before = out@;
            let c = self.stored_metrics[i].clone();
            out.push(c);
            proof {
                lemma_views_push(before, out@);
                assert(out@.last()@ == self.spec_snapshots()[i as int]);
                assert(self.spec_snapshots().take(i + 1) =~= self.spec_snapshots().take(
                    i as int,
                ).push(self.spec_snapshots()[i as int]));
            }
            i = i + 1;
        }
        proof {
            assert(self.spec_snapshots().take(n as int) =~= self.spec_snapshots());
        }
        out
    }

    /// Drop every stored snapshot.
    pub fn clear_stored_metrics(&mut self)
        ensures
            final (self).spec_config() == old(self).spec_config(),
            final (self).spec_health() == old(self).spec_health(),
            final (self).spec_snapshots() == Seq::<MetricView>::empty(),
    {
        self.stored_metrics = Vec::new();
        proof {
            assert(self.spec_snapshots() =~= Seq::<MetricView>::empty());
        }
    }

    /// How many snapshots are stored, without copying them.
    pub fn get_metrics_count(&self) -> (n: usize)
        ensures
            n == self.spec_snapshots().len(),
    {
        self.stored_metrics.len()
    }

    /// The stored snapshots whose name is exactly `name`.
    pub fn find_metrics_by_name(&self, name: &str) -> (r: Vec<MetricSnapshot>)
        ensures
            views_of(r@) == self.spec_snapshots().filter(
                |v: MetricView| v.name == name@,
            ),
    {
        let ghost pred = |v: MetricView| v.name == name@;
        let mut out: Vec<MetricSnapshot> = Vec::new();
        let n = self.stored_metrics.len();
        let mut i: usize = 0;
        proof {
            reveal(Seq::filter);
            assert(self.spec_snapshots().take(0) =~= Seq::<MetricView>::empty());
            assert(views_of(out@) =~= self.spec_snapshots().take(0).filter(
                pred,
            ));
        }
        while i < n
            invariant
                i <= n,
                n == self.stored_metrics@.len(),
                pred == (|v: MetricView| v.name == name@),
                views_of(out@) == self.spec_snapshots().take(i as int).filter(pred),
            decreases n - i,
        {
            let ghost before = views_of(out@);
            let ghost vecbefore = out@;
            let matched = crate::text::str_eq(self.stored_metrics[i].name.as_str(), name);
            if matched {
                let c = self.stored_metrics[i].clone();
                out.push(c);
            }
            proof {
                assert(self.spec_snapshots()[i as int] == self.stored_metrics@[i as int]@);
                assert(matched == pred(self.spec_snapshots()[i as int]));
                if matched {
                    lemma_views_push(vecbefore, out@);
                    assert(out@.last()@ == self.spec_snapshots()[i as int]);
                }
                lemma_filter_step(self.spec_snapshots(), before, views_of(out@), pred, i as int);
            }
            i = i + 1;
        }
        proof {
            assert(self.spec_snapshots().take(n as int) =~= self.spec_snapshots());
        }
        out
    }

    /// The stored snapshots of exactly this metric type.
    pub fn find_metrics_by_type(&self, metric_type: MetricType) -> (r: Vec<MetricSnapshot>)
        ensures
            views_of(r@) == self.spec_snapshots().filter(
                |v: MetricView| v.metric_type == metric_type,
            ),
    {
        let ghost pred = |v: MetricView| v.metric_type == metric_type;
        let mut out: Vec<MetricSnapshot> = Vec::new();
        let n = self.stored_metrics.len();
        let mut i: usize = 0;
        proof {
            reveal(Seq::filter);
            assert(self.spec_snapshots().take(0) =~= Seq::<MetricView>::empty());
            assert(views_of(out@) =~= self.spec_snapshots().take(0).filter(
                pred,
            ));
        }
        while i < n
            invariant
                i <= n,
                n == self.stored_metrics@.len(),
                pred == (|v: MetricView| v.metric_type == metric_type),
                views_of(out@) == self.spec_snapshots().take(i as int).filter(pred),
            decreases n - i,
        {
            let ghost before = views_of(out@);
            let ghost vecbefore = out@;
            let matched = self.stored_metrics[i].metric_type == metric_type;
            if matched {
                let c = self.stored_metrics[i].clone();
                out.push(c);
            }
            proof {
                assert(self.spec_snapshots()[i as int] == self.stored_metrics@[i as int]@);
                assert(matched == pred(self.spec_snapshots()[i as int]));
                if matched {
                    lemma_views_push(vecbefore, out@);
                    assert(out@.last()@ == self.spec_snapshots()[i as int]);
                }
                lemma_filter_step(self.spec_snapshots(), before, views_of(out@), pred, i as int);
            }
            i = i + 1;
        }
        proof {
            assert(self.spec_snapshots().take(n as int) =~= self.spec_snapshots());
        }
        out
    }

    /// The stored snapshots carrying exactly this label key and value.
    pub fn find_metrics_with_label(&self, key: &str, value: &str) -> (r: Vec<MetricSnapshot>)
        ensures
            views_of(r@) == self.spec_snapshots().filter(
                |v: MetricView| v.labels.contains_pair(key@, value@),
            ),
    {
        let ghost pred = |v: MetricView| v.labels.contains_pair(key@, value@);
        let mut out: Vec<MetricSnapshot> = Vec::new();
        let n = self.stored_metrics.len();
        let mut i: usize = 0;
        proof {
            reveal(Seq::filter);
            assert(self.spec_snapshots().take(0) =~= Seq::<MetricView>::empty());
            assert(views_of(out@) =~= self.spec_snapshots().take(0).filter(
                pred,
            ));
        }
        while i < n
            invariant
                i <= n,
                n == self.stored_metrics@.len(),
                pred == (|v: MetricView| v.labels.contains_pair(key@, value@)),
                views_of(out@) == self.spec_snapshots().take(i as int).filter(pred),
            decreases n - i,
        {
            let ghost before = views_of(out@);
            let ghost vecbefore = out@;
            let matched = match self.stored_metrics[i].labels.get(key) {
                Some(v) => crate::text::str_eq(v.as_str(), value),
                None => false,
            };
            if matched {
                let c = self.stored_metrics[i].clone();
                out.push(c);
            }
            proof {
                assert(self.spec_snapshots()[i as int] == self.stored_metrics@[i as int]@);
                assert(matched == pred(self.spec_snapshots()[i as int]));
                if matched {
                    lemma_views_push(vecbefore, out@);
                    assert(out@.last()@ == self.spec_snapshots()[i as int]);
                }
                lemma_filter_step(self.spec_snapshots(), before, views_of(out@), pred, i as int);
            }
            i = i + 1;
        }
        proof {
            assert(self.spec_snapshots().take(n as int) =~= self.spec_snapshots());
        }
        out
    }

    /// Overwrite the health status (for tests).
    pub fn set_health_status(&mut self, status: HealthStatus)
        ensures
            final (self).spec_config() == old(self).spec_config(),
            final (self).spec_snapshots() == old(self).spec_snapshots(),
            final (self).spec_health() == status@,
    {
        self.health_status = status;
    }

    /// The configuration this adapter runs with.
    pub fn config(&self) -> (c: &MockMetricsConfig)
        ensures
            c@ == self.spec_config(),
    {
        &self.config
    }

    /// Complete a released timer: validate the synthesized timer metric as
    /// recording does — name, labels and the elapsed seconds under the
    /// timer's value rule — and, when it passes and storage is on, store a
    /// timer snapshot with the usual eviction.  The deferred path has no
    /// caller left to report a failure to, so an observation that fails
    /// validation is dropped and stored state stays as it was.
    pub fn complete_timer(&mut self, guard: TimerGuard, seconds: Scalar)
        ensures
            final (self).spec_config() == old(self).spec_config(),
            final (self).spec_health() == old(self).spec_health(),
            !(old(self).spec_config().store_metrics && spec_timer_metric_valid(
                guard.spec_name(),
                guard.spec_labels(),
                seconds,
            )) ==> final (self).spec_snapshots() == old(self).spec_snapshots(),
            old(self).spec_config().store_metrics && spec_timer_metric_valid(
                guard.spec_name(),
                guard.spec_labels(),
                seconds,
            ) ==> ({
                let s = final (self).spec_snapshots();
                &&& s.len() > 0
                &&& s.last().name == guard.spec_name()
                &&& s.last().metric_type == MetricType::Timer
                &&& s.last().value == MetricValueView::Single(seconds)
                &&& s.last().labels == guard.spec_labels()
                &&& (s.last().help is None)
                &&& s == spec_store_step(
                    old(self).spec_snapshots(),
                    old(self).spec_config().max_stored_metrics as nat,
                    s.last(),
                )
            }),
    {
        let (name, labels, _elapsed) = guard.into_parts();
        if validate_metric_name(name.as_str()).is_err() {
            return ;
        }
        if validate_labels(&labels).is_err() {
            return ;
        }
        if validate_metric_value(seconds).is_err() {
            return ;
        }
        if !self.config.store_metrics {
            return ;
        }
        let snap = MetricSnapshot::new(name, MetricType::Timer, MetricValue::Single(seconds), labels);
        self.store_snapshot(snap);
    }
}

impl MetricsManager for MockMetricsAdapter {
    type Config = MockMetricsConfig;

    closed spec fn snapshots(&self) -> Seq<MetricView> {
        self.spec_snapshots()
    }

    /// Acceptable: a failure rate not comparing below zero or above one (a
    /// NaN rate compares as neither and passes), and a storage bound of at
    /// least one.
    open spec fn config_ok(config: MockMetricsConfig) -> bool {
        &&& !spec_is_negative(config@.failure_rate.spec_bits())
        &&& !spec_is_above_one(config@.failure_rate.spec_bits())
        &&& config@.max_stored_metrics > 0
    }

    /// A fresh adapter runs with exactly the configuration it was given,
    /// and starts healthy with the standard message.
    open spec fn built_from(config: MockMetricsConfig, a: MockMetricsAdapter) -> bool {
        &&& a.spec_config() == config@
        &&& a.spec_health().is_healthy
        &&& a.spec_health().message == "Metrics adapter is healthy"@
    }

    /// Validate the configuration and build the adapter: the failure rate
    /// must not compare below zero or above one (a NaN rate compares as
    /// neither and passes), and the storage bound must be at least one.
    fn new(config: MockMetricsConfig) -> (r: Result<MockMetricsAdapter, MetricsError>) {
        let adapter = MockMetricsAdapter::new(config);
        if adapter.config.failure_rate.is_negative() || adapter.config.failure_rate.is_above_one() {
            return Err(metrics_config_error(
                "failure_rate",
                "Failure rate must be between 0.0 and 1.0",
            ));
        }
        if adapter.config.max_stored_metrics == 0 {
            return Err(metrics_config_error(
                "max_stored_metrics",
                "Maximum stored metrics must be greater than 0",
            ));
        }
        Ok(adapter)
    }

    /// Record a metric: first the failure draw, then validation of name,
    /// labels and value under the type's rule, then — with storage on — one
    /// bounded store step.  A failing call leaves the stored snapshots and
    /// the health status exactly as they were.
    fn record(&mut self, request: &MetricRequest) -> (r: Result<(), MetricsError>)
        ensures
            final (self).spec_config() == old(self).spec_config(),
            final (self).spec_health() == old(self).spec_health(),
            r.is_err() ==> final (self).spec_snapshots() == old(self).spec_snapshots(),
            old(self).spec_config().simulate_failures && spec_unit_threshold(
                old(self).spec_config().failure_rate.spec_bits(),
            ) == pow2(52) ==> (r matches Err(e) && e.kind == ErrorKind::Internal && e.message@
                == "Metrics recording error for "@ + request@.name + ": "@
                + "Simulated recording failure"@),
            !old(self).spec_config().simulate_failures || spec_unit_threshold(
                old(self).spec_config().failure_rate.spec_bits(),
            ) == 0 ==> (r.is_ok() <==> spec_request_valid(request@)),
            r.is_ok() ==> spec_request_valid(request@),
            (r matches Err(e) ==> (e.kind == ErrorKind::Internal || (e.kind
                == ErrorKind::Validation && !spec_request_valid(request@)))),
            r.is_ok() && old(self).spec_config().store_metrics ==> final (self).spec_snapshots()
                == spec_store_step(
                old(self).spec_snapshots(),
                old(self).spec_config().max_stored_metrics as nat,
                request@,
            ),
            r.is_ok() && !old(self).spec_config().store_metrics ==> final (self).spec_snapshots()
                == old(self).spec_snapshots(),
    {
        if self.should_fail() {
            return Err(metrics_recording_error(request.name(), "Simulated recording failure"));
        }
        validate_metric_name(request.name())?;
        validate_labels(request.labels())?;
        match request.metric_value() {
            MetricValue::Single(s) => {
                if *request.metric_type() == MetricType::Counter {
                    validate_counter_value(*s)?;
                } else {
                    validate_metric_value(*s)?;
                }
            },
            MetricValue::Histogram { sum, count, buckets: _ } => {
                // The histogram's scalar summary is its mean, sum over
                // count: finite exactly when the sum is finite and the count
                // is positive, negative exactly when the sum is.  The fields
                // are checked directly; no division happens.
                if *count == 0 {
                    return Err(metrics_error("value", "Metric value must be a finite number"));
                }
                if *request.metric_type() == MetricType::Counter {
                    validate_counter_value(*sum)?;
                } else {
                    validate_metric_value(*sum)?;
                }
            },
        }
        if self.config.store_metrics {
            let snap = MetricSnapshot::of_request(request);
            self.store_snapshot(snap);
        }
        Ok(())
    }

    fn start_timer(&self, name: &str, labels: Labels) -> (g: TimerGuard) {
        TimerGuard::new(String::from_str(name), labels)
    }

    /// Check health: the same failure draw as recording; otherwise the
    /// current status, unchanged.  Checking health never touches stored
    /// metrics or the status itself.
    fn health_check(&mut self) -> (r: Result<HealthStatus, MetricsError>)
        ensures
            final (self).spec_config() == old(self).spec_config(),
            final (self).spec_health() == old(self).spec_health(),
            old(self).spec_config().simulate_failures && spec_unit_threshold(
                old(self).spec_config().failure_rate.spec_bits(),
            ) == pow2(52) ==> r.is_err(),
            !old(self).spec_config().simulate_failures || spec_unit_threshold(
                old(self).spec_config().failure_rate.spec_bits(),
            ) == 0 ==> r.is_ok(),
            (r matches Ok(h) ==> h@ == old(self).spec_health()),
            (r matches Err(e) ==> (e.kind == ErrorKind::Internal && e.message@
                == "Metrics health check error for "@ + "mock"@ + ": "@
                + "Simulated health check failure"@)),
    {
        if self.should_fail() {
            return Err(metrics_health_error("mock", "Simulated health check failure"));
        }
        Ok(self.health_status.clone())
    }

    /// The stored snapshots, cloned; an empty vector — never an error —
    /// when storage is off.
    fn get_snapshot(&self) -> (r: Result<Vec<MetricSnapshot>, MetricsError>)
        ensures
            r.is_ok(),
            !self.spec_config().store_metrics ==> (r matches Ok(v) && v@.len() == 0),
            self.spec_config().store_metrics ==> (r matches Ok(v) && views_of(v@) == self.spec_snapshots()),
    {
        if !self.config.store_metrics {
            return Ok(Vec::new());
        }
        Ok(self.get_stored_metrics())
    }
}

/// A fluent builder for mock adapters in tests.
#[derive(Debug)]
pub struct MockAdapterBuilder {
    config: MockMetricsConfig,
}

impl MockAdapterBuilder {
    /// The configuration built so far.
    pub closed spec fn spec_config(&self) -> MockConfigView {
        self.config@
    }

    /// A builder over the default configuration.
    pub fn new() -> (b: MockAdapterBuilder)
        ensures
            b.spec_config().service_name == "test-service"@,
            b.spec_config().store_metrics,
            b.spec_config().max_stored_metrics == 1000,
            !b.spec_config().simulate_failures,
            b.spec_config().failure_rate.spec_bits() == ZERO_BITS,
    {
        MockAdapterBuilder { config: MockMetricsConfig::default() }
    }

    /// Set the service name.
    pub fn service_name(self, name: &str) -> (b: MockAdapterBuilder)
        ensures
            b.spec_config() == (MockConfigView { service_name: name@, ..self.spec_config() }),
    {
        MockAdapterBuilder {
            config: MockMetricsConfig { service_name: String::from_str(name), ..self.config },
        }
    }

    /// Switch metric storage on or off.
    pub fn store_metrics(self, store: bool) -> (b: MockAdapterBuilder)
        ensures
            b.spec_config() == (MockConfigView { store_metrics: store, ..self.spec_config() }),
    {
        MockAdapterBuilder { config: self.config.with_storage(store) }
    }

    /// Set the bound on stored metrics.
    pub fn max_stored_metrics(self, max: usize) -> (b: MockAdapterBuilder)
        ensures
            b.spec_config() == (MockConfigView { max_stored_metrics: max, ..self.spec_config() }),
    {
        MockAdapterBuilder { config: self.config.with_max_stored(max) }
    }

    /// Enable failure simulation at the given rate, clamped to the unit
    /// interval; simulation is on exactly when the rate is above zero.
    pub fn simulate_failures(self, rate: Scalar) -> (b: MockAdapterBuilder)
        ensures
            b.spec_config().simulate_failures == spec_is_above_zero(rate.spec_bits()),
            spec_is_negative(rate.spec_bits()) ==> b.spec_config().failure_rate.spec_bits()
                == ZERO_BITS,
            spec_is_above_one(rate.spec_bits()) ==> b.spec_config().failure_rate.spec_bits()
                == ONE_BITS,
            !spec_is_negative(rate.spec_bits()) && !spec_is_above_one(rate.spec_bits())
                ==> b.spec_config().failure_rate.spec_bits() == rate.spec_bits(),
            b.spec_config().service_name == self.spec_config().service_name,
            b.spec_config().store_metrics == self.spec_config().store_metrics,
            b.spec_config().max_stored_metrics == self.spec_config().max_stored_metrics,
    {
        MockAdapterBuilder { config: self.config.with_failures(rate) }
    }

    /// Build the adapter over the collected configuration, validating it as
    /// the port's constructor does: a failure rate comparing below zero or
    /// above one, or a storage bound of zero, fails construction with a
    /// configuration error before any instance is usable.  A rate set
    /// through `simulate_failures` is already clamped and cannot fail.
    pub fn build(self) -> (r: Result<MockMetricsAdapter, MetricsError>)
        ensures
            r.is_ok() <==> (!spec_is_negative(self.spec_config().failure_rate.spec_bits())
                && !spec_is_above_one(self.spec_config().failure_rate.spec_bits())
                && self.spec_config().max_stored_metrics > 0),
            (r matches Ok(a) ==> (a.spec_config() == self.spec_config() && a.spec_snapshots()
                == Seq::<MetricView>::empty() && a.spec_health().is_healthy)),
            (r matches Err(e) ==> e.kind == ErrorKind::Configuration),
    {
        <MockMetricsAdapter as MetricsManager>::new(self.config)
    }

    /// Build the adapter, validating the same way; kept beside `build` for
    /// callers that used the non-awaiting form.
    pub fn build_sync(self) -> (r: Result<MockMetricsAdapter, MetricsError>)
        ensures
            r.is_ok() <==> (!spec_is_negative(self.spec_config().failure_rate.spec_bits())
                && !spec_is_above_one(self.spec_config().failure_rate.spec_bits())
                && self.spec_config().max_stored_metrics > 0),
            (r matches Ok(a) ==> (a.spec_config() == self.spec_config() && a.spec_snapshots()
                == Seq::<MetricView>::empty() && a.spec_health().is_healthy)),
            (r matches Err(e) ==> e.kind == ErrorKind::Configuration),
    {
        <MockMetricsAdapter as MetricsManager>::new(self.config)
    }
}

impl Default for MockAdapterBuilder {
    /// The default builder carries the default configuration.
    fn default() -> (b: MockAdapterBuilder)
        ensures
            b.spec_config().service_name == "test-service"@,
            b.spec_config().store_metrics,
            b.spec_config().max_stored_metrics == 1000,
            !b.spec_config().simulate_failures,
    {
        MockAdapterBuilder::new()
    }
}

/// Storage steps folded over a whole run of recordings, oldest first.
pub open spec fn spec_store_all(max: nat, vs: Seq<MetricView>) -> Seq<MetricView>
    decreases vs.len(),
{
    if vs.len() == 0 {
        Seq::<MetricView>::empty()
    } else {
        spec_store_step(spec_store_all(max, vs.drop_last()), max, vs.last())
    }
}

/// Bounded storage, as a law: starting from empty storage with a bound of
/// at least one, recording any run of metrics retains exactly the most
/// recent `max` of them (all of them while they fit), in order, the oldest
/// evicted first.  In particular recording `max + 1` metrics leaves exactly
/// `max` stored.
pub proof fn lemma_bounded_storage(max: nat, vs: Seq<MetricView>)
    requires
        max >= 1,
    ensures
        spec_store_all(max, vs).len() == (if vs.len() <= max {
            vs.len()
        } else {
            max
        }),
        spec_store_all(max, vs) == vs.skip(
            if vs.len() <= max {
                0
            } else {
                vs.len() - max
            },
        ),
    decreases vs.len(),
{
    if vs.len() == 0 {
        assert(spec_store_all(max, vs) =~= vs.skip(0));
    } else {
        let d = vs.drop_last();
        lemma_bounded_storage(max, d);
        let prev = spec_store_all(max, d);
        if d.len() < max {
            assert(prev =~= d.skip(0));
            assert(spec_store_all(max, vs) == prev.push(vs.last()));
            assert(prev.push(vs.last()) =~= vs.skip(0));
        } else {
            assert(prev =~= d.skip(d.len() - max));
            assert(prev.len() == max);
            assert(spec_store_all(max, vs) == prev.drop_first().push(vs.last()));
            assert(prev.drop_first().push(vs.last()) =~= vs.skip(vs.len() - max));
        }
    }
}

} // verus!
