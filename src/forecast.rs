//! Rate-limit forecasting: from timestamped usage samples per account to a
//! projected time of exhaustion, a confidence and a recommended action.
//!
//! Usage is held in hundredths of a percent (`10000` is 100%), times in whole
//! seconds since the Unix epoch, and a velocity as an exact ratio of a usage
//! change to a time window.
use vstd::prelude::*;
use crate::clock::now_unix_secs;
use crate::text::str_eq;
use vstd::seq_lib::{to_multiset_build, to_multiset_insert};
use vstd::arithmetic::div_mod::{lemma_div_is_ordered, lemma_div_is_ordered_by_denominator, lemma_div_multiples_vanish, lemma_div_pos_is_pos};

verus! {

/// Usage of a full quota, in hundredths of a percent.
pub const FULL_USAGE: u32 = 10000;

/// The time to limit that stands for "no foreseeable exhaustion".
pub const INDEFINITE_SECS: u64 = 9223372036854775807;

/// The last second that the clock can read: the end of year 262143, in
/// seconds since the Unix epoch.
pub const LATEST_CLOCK_SECS: i64 = 8210298412799;

/// Whether a swap time is owed for `secs` to the limit whatever the clock
/// reads: no reset is known and exhaustion is in sight but not immediate.
pub open spec fn swap_time_owed(secs: int, resets_at: Option<i64>) -> bool {
    resets_at is None && 0 < secs <= INDEFINITE_SECS - 1000 && secs <= i64::MAX - LATEST_CLOCK_SECS
}

/// Bound on both parts of a well-formed velocity.
pub const VELOCITY_BOUND: i128 = 1208925819614629174706176;

/// One observation of an account's usage.
#[derive(Debug, Clone)]
pub struct UsageSample {
    pub provider: String,
    pub account: String,
    /// Usage in hundredths of a percent; may exceed `FULL_USAGE`.
    pub used_bp: u32,
    /// Collection time, in seconds since the Unix epoch.
    pub collected_at: i64,
    /// When the quota window resets, in seconds since the Unix epoch.
    pub resets_at: Option<i64>,
}

/// Key for grouping samples by account.
#[derive(Debug, Clone, PartialEq, Eq, Hash)]
pub struct AccountKey {
    pub provider: String,
    pub account: String,
}

/// A rate of usage change: `delta_bp` hundredths of a percent over
/// `window_secs` seconds, so `delta_bp * 60 / window_secs` hundredths of a
/// percent per minute.
#[derive(Debug, Clone, Copy, PartialEq, Eq, Structural)]
pub struct Velocity {
    pub delta_bp: i128,
    pub window_secs: i128,
}

impl Velocity {
    /// A positive window and parts small enough for the forecaster's arithmetic.
    pub open spec fn wf(self) -> bool {
        0 < self.window_secs <= VELOCITY_BOUND && -VELOCITY_BOUND <= self.delta_bp <= VELOCITY_BOUND
    }

    /// Whether the rate is above `bp_per_min` hundredths of a percent per minute.
    pub open spec fn exceeds(self, bp_per_min: int) -> bool {
        self.delta_bp * 60 > bp_per_min * self.window_secs
    }
}

/// Tunable thresholds of the action policy.
#[derive(Debug, Clone, Copy)]
pub struct ForecastConfig {
    /// Time to limit (seconds) at or below which to recommend `SwapNow`
    pub swap_now_threshold_secs: u64,
    /// Time to limit (seconds) at or below which to recommend `PrepareSwap`
    pub prepare_swap_threshold_secs: u64,
    /// Time to limit (seconds) at or below which to recommend `SlowDown` (if velocity is high)
    pub slow_down_threshold_secs: u64,
    /// Velocity (hundredths of a percent per minute) above which to recommend `SlowDown`
    pub high_velocity_threshold: u32,
    /// `SlowDown` target, in percent of the current velocity
    pub slow_down_factor: u32,
}

impl Default for ForecastConfig {
    fn default() -> (r: Self)
        ensures
            r.swap_now_threshold_secs == 300,
            r.prepare_swap_threshold_secs == 600,
            r.slow_down_threshold_secs == 1800,
            r.high_velocity_threshold == 100,
            r.slow_down_factor == 70,
    {
        ForecastConfig {
            swap_now_threshold_secs: 300,
            prepare_swap_threshold_secs: 600,
            slow_down_threshold_secs: 1800,
            high_velocity_threshold: 100,
            slow_down_factor: 70,
        }
    }
}

/// Recommended action for an account.
#[derive(Debug, Clone, PartialEq, Eq)]
pub enum RateLimitAction {
    Continue,
    SlowDown { target_velocity: Velocity },
    PrepareSwap { in_minutes: u32 },
    SwapNow { to_account: String },
    EmergencyPause,
}

/// Forecast for one account.
#[derive(Debug, Clone)]
pub struct RateLimitForecast {
    pub provider: String,
    pub account: String,
    /// Usage of the latest sample, in hundredths of a percent.
    pub current_usage_bp: u32,
    pub current_velocity: Velocity,
    /// Seconds until the quota is used up; `INDEFINITE_SECS` where it is not in sight.
    pub time_to_limit: u64,
    /// Confidence in hundredths of a percent.
    pub confidence: u32,
    pub recommended_action: RateLimitAction,
    /// When to swap, in seconds since the Unix epoch.
    pub optimal_swap_time: Option<i64>,
    /// Alternative accounts with their headroom, best first.
    pub alternative_accounts: Vec<(String, u32)>,
}

/// Errors of the forecaster.
#[derive(Debug, Clone, PartialEq, Eq)]
pub enum OracleError {
    InsufficientData,
    PredictionFailed(String),
}

/// The velocity of a time-ordered run of samples: the change from the first
/// to the last sample over the time between them, a window under a minute
/// counting as one minute.
pub open spec fn velocity_of(s: Seq<UsageSample>) -> Velocity {
    if s.len() < 2 {
        Velocity { delta_bp: 0, window_secs: 60 }
    } else {
        let elapsed = s.last().collected_at - s[0].collected_at;
        Velocity {
            delta_bp: (s.last().used_bp - s[0].used_bp) as i128,
            window_secs: (if elapsed < 60 { 60 } else { elapsed }) as i128,
        }
    }
}

/// Seconds until usage `current_bp` reaches the full quota at velocity `v`.
pub open spec fn time_to_limit_of(current_bp: int, v: Velocity) -> int {
    if v.delta_bp <= 0 {
        INDEFINITE_SECS as int
    } else if current_bp >= FULL_USAGE {
        0
    } else {
        let t = (FULL_USAGE - current_bp) * (v.window_secs as int) / (v.delta_bp as int);
        if t > INDEFINITE_SECS { INDEFINITE_SECS as int } else { t }
    }
}

/// Whether `a` is the action that the policy table picks for a time to limit
/// and a velocity; a `SwapNow` names no account yet.
pub open spec fn is_action_of(c: ForecastConfig, secs: int, v: Velocity, a: RateLimitAction) -> bool {
    if secs == 0 {
        a == RateLimitAction::EmergencyPause
    } else if secs <= c.swap_now_threshold_secs {
        a matches RateLimitAction::SwapNow { to_account } && to_account@.len() == 0
    } else if secs <= c.prepare_swap_threshold_secs {
        a == RateLimitAction::PrepareSwap {
            in_minutes: (if secs / 60 > u32::MAX { u32::MAX as int } else { secs / 60 }) as u32,
        }
    } else if secs <= c.slow_down_threshold_secs && v.exceeds(c.high_velocity_threshold as int) {
        a == RateLimitAction::SlowDown {
            target_velocity: Velocity {
                delta_bp: (v.delta_bp * c.slow_down_factor) as i128,
                window_secs: (v.window_secs * 100) as i128,
            },
        }
    } else {
        a == RateLimitAction::Continue
    }
}

/// When to swap, given the time to limit, the quota reset time and the time now:
/// `None` where the reset comes first or no exhaustion is in sight; otherwise
/// four fifths of the way to exhaustion.
pub open spec fn optimal_swap_of(secs: int, resets_at: Option<i64>, now: int) -> Option<int> {
    if resets_at matches Some(reset) && reset > now && reset - now < secs {
        None
    } else if secs == 0 || secs > INDEFINITE_SECS - 1000 {
        None
    } else {
        let t = now + (secs - secs / 5);
        if t > i64::MAX { None } else { Some(t) }
    }
}

/// Cap on the running sum of squared deviations in the variance.
pub const SQUARES_CAP: i128 = 1329227995784915872903807060280344576;

/// Cap on the variance, in (ten-thousandths of a percent per minute) squared.
pub const VARIANCE_CAP: i128 = 18446744073709551616;

/// One percent per minute, squared, in (ten-thousandths of a percent per minute) squared.
pub const UNIT_VARIANCE: i128 = 100000000;

/// Bound on the magnitude of a rate between two samples.
pub const RATE_BOUND: i128 = 35184372088832;

/// Lowest confidence, in hundredths of a percent.
pub const MIN_CONFIDENCE: i128 = 1000;

/// Highest confidence, in hundredths of a percent.
pub const MAX_CONFIDENCE: i128 = 9900;

/// `a / b` rounded toward zero, for `b > 0`.
pub open spec fn div_toward_zero(a: int, b: int) -> int {
    if a >= 0 { a / b } else { -((-a) / b) }
}

/// Whether samples `k - 1` and `k` are strictly ordered in time, so that a rate lies between them.
pub open spec fn has_rate(s: Seq<UsageSample>, k: int) -> bool {
    s[k].collected_at > s[k - 1].collected_at
}

/// The rate from sample `a` to a later sample `b`, in ten-thousandths of a
/// percent per minute, rounded toward zero.
pub open spec fn pair_rate(a: UsageSample, b: UsageSample) -> int {
    div_toward_zero((b.used_bp - a.used_bp) * 6000, b.collected_at - a.collected_at)
}

/// How many rates lie between consecutive samples among the first `k`.
pub open spec fn rate_count(s: Seq<UsageSample>, k: int) -> int
    decreases k,
{
    if k < 2 {
        0
    } else {
        rate_count(s, k - 1) + if has_rate(s, k - 1) { 1int } else { 0 }
    }
}

/// The sum of the rates between consecutive samples among the first `k`.
pub open spec fn rate_sum(s: Seq<UsageSample>, k: int) -> int
    decreases k,
{
    if k < 2 {
        0
    } else {
        rate_sum(s, k - 1) + if has_rate(s, k - 1) { pair_rate(s[k - 2], s[k - 1]) } else { 0 }
    }
}

/// The sum of squared deviations of those rates from `mean`, held at `SQUARES_CAP`.
pub open spec fn squares_sum(s: Seq<UsageSample>, k: int, mean: int) -> int
    decreases k,
{
    if k < 2 {
        0
    } else {
        let d = if has_rate(s, k - 1) { pair_rate(s[k - 2], s[k - 1]) - mean } else { 0 };
        let t = squares_sum(s, k - 1, mean) + d * d;
        if t > SQUARES_CAP { SQUARES_CAP as int } else { t }
    }
}

/// The variance of the rates between consecutive samples, in ten-thousandths
/// of a percent per minute squared, held at `VARIANCE_CAP`; 0 where no rate exists.
pub open spec fn variance_of(s: Seq<UsageSample>) -> int {
    let m = rate_count(s, s.len() as int);
    if m == 0 {
        0
    } else {
        let mean = div_toward_zero(rate_sum(s, s.len() as int), m);
        let v = squares_sum(s, s.len() as int, mean) / m;
        if v > VARIANCE_CAP { VARIANCE_CAP as int } else { v }
    }
}

/// The variance that confidence is discounted by: that of the rates, or
/// `UNIT_VARIANCE` where no rate exists.
pub open spec fn consistency_variance(s: Seq<UsageSample>) -> int {
    if rate_count(s, s.len() as int) == 0 {
        UNIT_VARIANCE as int
    } else {
        variance_of(s)
    }
}

/// The confidence of a forecast from `s` at time `now`, in hundredths of a
/// percent: (samples / 10, at most 1) x 1 / (1 + variance) x 1 / (1 + age / 10),
/// with the variance in percent per minute squared (1 where no rate exists) and
/// the age of the latest sample in whole minutes, held between
/// `MIN_CONFIDENCE` and `MAX_CONFIDENCE`.
pub open spec fn confidence_of(s: Seq<UsageSample>, now: int) -> int {
    if s.len() == 0 {
        MIN_CONFIDENCE as int
    } else {
        let n = if s.len() > 10 { 10 } else { s.len() as int };
        let d = 10 + div_toward_zero(now - s.last().collected_at, 60);
        if d == 0 {
            MAX_CONFIDENCE as int
        } else if d < 0 {
            MIN_CONFIDENCE as int
        } else {
            let c = 10000 * n * UNIT_VARIANCE / ((UNIT_VARIANCE + consistency_variance(s)) * d);
            if c < MIN_CONFIDENCE {
                MIN_CONFIDENCE as int
            } else if c > MAX_CONFIDENCE {
                MAX_CONFIDENCE as int
            } else {
                c
            }
        }
    }
}

/// Of two runs whose latest samples are equally old and whose rates are
/// equally consistent, the one with more samples has at least the confidence
/// of the other.
pub proof fn lemma_confidence_grows_with_samples(s1: Seq<UsageSample>, s2: Seq<UsageSample>, now: int)
    requires
        0 < s1.len() <= s2.len(),
        s1.last().collected_at == s2.last().collected_at,
        consistency_variance(s1) == consistency_variance(s2),
        0 <= consistency_variance(s1),
    ensures
        confidence_of(s1, now) <= confidence_of(s2, now),
{
    let n1 = if s1.len() > 10 { 10 } else { s1.len() as int };
    let n2 = if s2.len() > 10 { 10 } else { s2.len() as int };
    let d = 10 + div_toward_zero(now - s1.last().collected_at, 60);
    if d > 0 {
        let den = (UNIT_VARIANCE + consistency_variance(s1)) * d;
        assert(den > 0) by (nonlinear_arith)
            requires
                UNIT_VARIANCE + consistency_variance(s1) > 0,
                d > 0,
                den == (UNIT_VARIANCE + consistency_variance(s1)) * d;
        assert(10000 * n1 * UNIT_VARIANCE <= 10000 * n2 * UNIT_VARIANCE) by (nonlinear_arith)
            requires
                n1 <= n2;
        lemma_div_is_ordered(10000 * n1 * UNIT_VARIANCE, 10000 * n2 * UNIT_VARIANCE, den);
    }
}

/// Of two runs whose latest samples were both taken within the last minute
/// and whose rates do not vary, the one with more samples has strictly the
/// higher confidence, where the smaller has fewer than ten: a tenth per sample.
pub proof fn lemma_confidence_strictly_grows(s1: Seq<UsageSample>, s2: Seq<UsageSample>, now: int)
    requires
        0 < s1.len() < s2.len(),
        s1.len() < 10,
        s1.last().collected_at == s2.last().collected_at,
        0 <= now - s1.last().collected_at < 60,
        consistency_variance(s1) == 0,
        consistency_variance(s2) == 0,
    ensures
        confidence_of(s1, now) == 1000 * s1.len(),
        confidence_of(s1, now) < confidence_of(s2, now),
{
    let x = now - s1.last().collected_at;
    assert(x / 60 == 0) by (nonlinear_arith)
        requires
            0 <= x < 60;
    assert(div_toward_zero(x, 60) == 0);
    let n1 = s1.len() as int;
    let n2 = if s2.len() > 10 { 10 } else { s2.len() as int };
    assert(10000 * n1 * UNIT_VARIANCE == 1000000000 * (1000 * n1));
    assert(10000 * n2 * UNIT_VARIANCE == 1000000000 * (1000 * n2));
    assert((UNIT_VARIANCE + 0) * 10 == 1000000000);
    lemma_div_multiples_vanish(1000 * n1, 1000000000);
    lemma_div_multiples_vanish(1000 * n2, 1000000000);
}

proof fn lemma_quotient_bound(x: int, d: int, b: int)
    requires
        0 <= x <= d * b,
        0 < d,
    ensures
        0 <= x / d <= b,
{
    lemma_div_is_ordered(x, d * b, d);
    lemma_div_multiples_vanish(b, d);
    lemma_div_pos_is_pos(x, d);
}

proof fn lemma_quotient_shrinks(x: int, d: int)
    requires
        0 <= x,
        1 <= d,
    ensures
        0 <= x / d <= x,
{
    lemma_div_is_ordered_by_denominator(x, 1, d);
    lemma_div_pos_is_pos(x, d);
}

/// `a / b` rounded toward zero.
fn div_toward_zero_exec(a: i128, b: i128) -> (r: i128)
    requires
        b > 0,
        a > i128::MIN,
    ensures
        r == div_toward_zero(a as int, b as int),
        -(if a >= 0 { a as int } else { -a }) <= r <= (if a >= 0 { a as int } else { -a }),
{
    if a >= 0 {
        proof {
            lemma_quotient_shrinks(a as int, b as int);
        }
        a / b
    } else {
        proof {
            lemma_quotient_shrinks(-a, b as int);
        }
        -((-a) / b)
    }
}

/// The rate from sample `a` to the later sample `b` (see `pair_rate`).
fn pair_rate_exec(a: &UsageSample, b: &UsageSample) -> (r: i128)
    requires
        b.collected_at > a.collected_at,
    ensures
        r == pair_rate(*a, *b),
        -RATE_BOUND <= r <= RATE_BOUND,
{
    let num: i128 = (b.used_bp as i128 - a.used_bp as i128) * 6000;
    let elapsed: i128 = b.collected_at as i128 - a.collected_at as i128;
    div_toward_zero_exec(num, elapsed)
}

/// Whether `f` is the forecast for account `account` of `provider` from its
/// time-ordered samples `g` at time `now`.
pub open spec fn is_forecast_of(
    c: ForecastConfig,
    provider: Seq<char>,
    account: Seq<char>,
    g: Seq<UsageSample>,
    now: int,
    f: RateLimitForecast,
) -> bool {
    let v = velocity_of(g);
    let ttl = time_to_limit_of(g.last().used_bp as int, v);
    &&& g.len() > 0
    &&& f.provider@ == provider
    &&& f.account@ == account
    &&& f.current_usage_bp == g.last().used_bp
    &&& f.current_velocity == v
    &&& f.time_to_limit == ttl
    &&& f.confidence == confidence_of(g, now)
    &&& is_action_of(c, ttl, v, f.recommended_action)
    &&& is_swap_time(ttl, g.last().resets_at, now, f.optimal_swap_time)
    &&& f.alternative_accounts@.len() == 0
}

/// Whether sample `x` belongs to account `account` of `provider`.
pub open spec fn has_key(x: UsageSample, provider: Seq<char>, account: Seq<char>) -> bool {
    x.provider@ == provider && x.account@ == account
}

/// Where `x` goes in the time-ordered run `g`, searching from `j`: after every
/// sample not later than it.
pub open spec fn insert_pos(g: Seq<UsageSample>, x: UsageSample, j: int) -> int
    decreases g.len() - j,
{
    if j >= g.len() || g[j].collected_at > x.collected_at {
        j
    } else {
        insert_pos(g, x, j + 1)
    }
}

/// The samples of one account among the first `k`, in time order; samples
/// with equal times keep their order.
pub open spec fn account_run(s: Seq<UsageSample>, provider: Seq<char>, account: Seq<char>, k: int) -> Seq<UsageSample>
    decreases k,
{
    if k <= 0 {
        Seq::empty()
    } else {
        let prev = account_run(s, provider, account, k - 1);
        if has_key(s[k - 1], provider, account) {
            prev.insert(insert_pos(prev, s[k - 1], 0), s[k - 1])
        } else {
            prev
        }
    }
}

proof fn lemma_insert_pos_bound(g: Seq<UsageSample>, x: UsageSample, j: int)
    requires
        0 <= j <= g.len(),
    ensures
        j <= insert_pos(g, x, j) <= g.len(),
    decreases g.len() - j,
{
    if j < g.len() && g[j].collected_at <= x.collected_at {
        lemma_insert_pos_bound(g, x, j + 1);
    }
}

/// The samples of one account among the first `k`, in input order.
pub open spec fn account_filter(s: Seq<UsageSample>, provider: Seq<char>, account: Seq<char>, k: int) -> Seq<UsageSample>
    decreases k,
{
    if k <= 0 {
        Seq::empty()
    } else {
        let prev = account_filter(s, provider, account, k - 1);
        if has_key(s[k - 1], provider, account) {
            prev.push(s[k - 1])
        } else {
            prev
        }
    }
}

/// Whether a run of samples is in time order.
pub open spec fn time_ordered(g: Seq<UsageSample>) -> bool {
    forall|i: int, j: int| 0 <= i < j < g.len() ==> g[i].collected_at <= g[j].collected_at
}

proof fn lemma_insert_pos_split(g: Seq<UsageSample>, x: UsageSample, j: int)
    requires
        0 <= j <= g.len(),
        forall|k: int| 0 <= k < j ==> g[k].collected_at <= x.collected_at,
    ensures
        forall|k: int| 0 <= k < insert_pos(g, x, j) ==> g[k].collected_at <= x.collected_at,
        insert_pos(g, x, j) < g.len() ==> g[insert_pos(g, x, j)].collected_at > x.collected_at,
        j <= insert_pos(g, x, j) <= g.len(),
    decreases g.len() - j,
{
    if j < g.len() && g[j].collected_at <= x.collected_at {
        lemma_insert_pos_split(g, x, j + 1);
    }
}

/// Each account's run holds exactly that account's samples, in time order.
pub proof fn lemma_account_run_sorted_permutation(
    s: Seq<UsageSample>,
    provider: Seq<char>,
    account: Seq<char>,
    k: int,
)
    requires
        0 <= k <= s.len(),
    ensures
        time_ordered(account_run(s, provider, account, k)),
        account_run(s, provider, account, k).to_multiset() == account_filter(s, provider, account, k).to_multiset(),
    decreases k,
{
    if k > 0 {
        lemma_account_run_sorted_permutation(s, provider, account, k - 1);
        let prev = account_run(s, provider, account, k - 1);
        let x = s[k - 1];
        if has_key(x, provider, account) {
            let p = insert_pos(prev, x, 0);
            lemma_insert_pos_split(prev, x, 0);
            let g = prev.insert(p, x);
            assert forall|i: int, j: int| 0 <= i < j < g.len() implies g[i].collected_at <= g[j].collected_at by {
                if j < p {
                } else if j == p {
                } else if i < p {
                    assert(g[j] == prev[j - 1]);
                    assert(prev[p].collected_at <= prev[j - 1].collected_at);
                } else if i == p {
                    assert(g[j] == prev[j - 1]);
                    assert(prev[p].collected_at <= prev[j - 1].collected_at);
                } else {
                    assert(g[i] == prev[i - 1] && g[j] == prev[j - 1]);
                }
            }
            to_multiset_insert(prev, p, x);
            to_multiset_build(account_filter(s, provider, account, k - 1), x);
        }
    }
}

proof fn lemma_account_run_nonempty(s: Seq<UsageSample>, provider: Seq<char>, account: Seq<char>, k: int, m: int)
    requires
        0 <= m < k <= s.len(),
        has_key(s[m], provider, account),
    ensures
        account_run(s, provider, account, k).len() > 0,
    decreases k,
{
    let prev = account_run(s, provider, account, k - 1);
    if has_key(s[k - 1], provider, account) {
        lemma_insert_pos_bound(prev, s[k - 1], 0);
    } else {
        lemma_account_run_nonempty(s, provider, account, k - 1, m);
    }
}

/// Whether one of the samples has the key of `f`.
pub open spec fn keyed_in(s: Seq<UsageSample>, provider: Seq<char>, account: Seq<char>) -> bool {
    exists|m: int| 0 <= m < s.len() && has_key(s[m], provider, account)
}

/// Whether one of the first `n` forecasts is for the given account.
pub open spec fn forecasts_key(r: Seq<RateLimitForecast>, n: int, provider: Seq<char>, account: Seq<char>) -> bool {
    exists|i: int| 0 <= i < n && r[i].provider@ == provider && r[i].account@ == account
}

/// Whether `f` is the forecast for its own account from the samples `s` at time `now`.
#[verifier::opaque]
pub open spec fn is_account_forecast(c: ForecastConfig, s: Seq<UsageSample>, now: int, f: RateLimitForecast) -> bool {
    is_forecast_of(c, f.provider@, f.account@, account_run(s, f.provider@, f.account@, s.len() as int), now, f)
}

/// Whether each of `r` is the forecast for its account from the samples `s` at time `now`.
pub open spec fn all_forecasts_of(c: ForecastConfig, s: Seq<UsageSample>, r: Seq<RateLimitForecast>, now: int) -> bool {
    forall|i: int| 0 <= i < r.len() ==> is_account_forecast(c, s, now, #[trigger] r[i])
}

/// Whether one of the first `n` keys is the given one.
pub open spec fn lists_key(r: Seq<AccountKey>, n: int, provider: Seq<char>, account: Seq<char>) -> bool {
    exists|i: int| 0 <= i < n && r[i].provider@ == provider && r[i].account@ == account
}

/// Inserts `f` into the forecasts `out`, ordered by time to limit, after
/// those with an equal time; returns where it went.
fn insert_by_urgency(out: &mut Vec<RateLimitForecast>, f: RateLimitForecast) -> (pos: usize)
    requires
        forall|a: int, b: int| 0 <= a < b < old(out)@.len() ==> old(out)@[a].time_to_limit <= old(out)@[b].time_to_limit,
    ensures
        pos <= old(out)@.len(),
        final(out)@ == old(out)@.insert(pos as int, f),
        forall|a: int, b: int| 0 <= a < b < final(out)@.len() ==> final(out)@[a].time_to_limit <= final(out)@[b].time_to_limit,
{
    let mut pos: usize = 0;
    while pos < out.len() && out[pos].time_to_limit <= f.time_to_limit
        invariant
            0 <= pos <= out@.len(),
            forall|q: int| 0 <= q < pos ==> out@[q].time_to_limit <= f.time_to_limit,
        decreases out@.len() - pos,
    {
        pos = pos + 1;
    }
    let ghost before = out@;
    let ghost ttl = f.time_to_limit;
    proof {
        assert forall|q: int| pos <= q < before.len() implies before[q].time_to_limit > ttl by {
            if q > pos {
                assert(before[pos as int].time_to_limit <= before[q].time_to_limit);
            }
        }
    }
    out.insert(pos, f);
    proof {
        assert forall|a: int, b: int|
            0 <= a < b < out@.len() implies out@[a].time_to_limit <= out@[b].time_to_limit by {
            if a < pos && b < pos {
                assert(out@[a] == before[a] && out@[b] == before[b]);
            } else if a < pos && b == pos {
                assert(out@[a] == before[a]);
            } else if a < pos {
                assert(out@[a] == before[a] && out@[b] == before[b - 1]);
            } else if a == pos {
                assert(out@[b] == before[b - 1]);
            } else {
                assert(out@[a] == before[a - 1] && out@[b] == before[b - 1]);
            }
        }
    }
    pos
}

/// Whether one of the first `n` groups is for the given account.
pub open spec fn groups_key(r: Seq<(AccountKey, Vec<UsageSample>)>, n: int, provider: Seq<char>, account: Seq<char>) -> bool {
    exists|i: int| 0 <= i < n && r[i].0.provider@ == provider && r[i].0.account@ == account
}

/// A copy of a sample.
fn copy_sample(x: &UsageSample) -> (r: UsageSample)
    ensures
        r == *x,
{
    UsageSample {
        provider: x.provider.clone(),
        account: x.account.clone(),
        used_bp: x.used_bp,
        collected_at: x.collected_at,
        resets_at: x.resets_at,
    }
}

/// A run of samples whose usage rises has a positive velocity, and one whose
/// usage falls a negative one: the window is always positive and the change
/// carries the sign.
pub proof fn lemma_velocity_follows_usage(s: Seq<UsageSample>)
    requires
        s.len() >= 2,
    ensures
        velocity_of(s).window_secs > 0,
        s.last().used_bp > s[0].used_bp ==> velocity_of(s).delta_bp > 0,
        s.last().used_bp < s[0].used_bp ==> velocity_of(s).delta_bp < 0,
{
}

/// Over a window shorter than a minute, the velocity per minute is the raw
/// change in usage, whatever the time between the samples.
pub proof fn lemma_short_window_velocity(s: Seq<UsageSample>)
    requires
        s.len() >= 2,
        s.last().collected_at - s[0].collected_at < 60,
    ensures
        velocity_of(s).window_secs == 60,
        velocity_of(s).delta_bp * 60 == (s.last().used_bp - s[0].used_bp) * velocity_of(s).window_secs,
{
}

/// Whether `r` is the swap time that `optimal_swap_of` gives.
pub open spec fn is_swap_time(secs: int, resets_at: Option<i64>, now: int, r: Option<i64>) -> bool {
    match optimal_swap_of(secs, resets_at, now) {
        Some(t) => r == Some(t as i64),
        None => r is None,
    }
}

impl Default for RateLimitForecaster {
    fn default() -> (r: Self)
        ensures
            r.config_spec().swap_now_threshold_secs == 300,
            r.config_spec().prepare_swap_threshold_secs == 600,
            r.config_spec().slow_down_threshold_secs == 1800,
            r.config_spec().high_velocity_threshold == 100,
            r.config_spec().slow_down_factor == 70,
    {
        RateLimitForecaster::new()
    }
}

/// The prediction engine.
pub struct Oracle {}

impl Oracle {
    /// A new engine.
    pub fn new() -> (r: Self) {
        Oracle {}
    }
}

/// The forecaster: a stateless engine holding only its policy thresholds.
pub struct RateLimitForecaster {
    config: ForecastConfig,
}

impl RateLimitForecaster {
    /// A forecaster with the default thresholds.
    pub fn new() -> (r: Self)
        ensures
            r.config_spec() == (ForecastConfig {
                swap_now_threshold_secs: 300,
                prepare_swap_threshold_secs: 600,
                slow_down_threshold_secs: 1800,
                high_velocity_threshold: 100,
                slow_down_factor: 70,
            }),
    {
        RateLimitForecaster { config: ForecastConfig::default() }
    }

    /// A forecaster with the given thresholds.
    pub fn with_config(config: ForecastConfig) -> (r: Self)
        ensures
            r.config_spec() == config,
    {
        RateLimitForecaster { config }
    }

    pub closed spec fn config_spec(&self) -> ForecastConfig {
        self.config
    }

    /// The thresholds in use.
    pub fn config(&self) -> (r: &ForecastConfig)
        ensures
            *r == self.config_spec(),
    {
        &self.config
    }

    /// The velocity of a time-ordered run of samples (see `velocity_of`).
    pub fn calculate_velocity(samples: &[UsageSample]) -> (r: Velocity)
        ensures
            r == velocity_of(samples@),
            r.wf(),
    {
        if samples.len() < 2 {
            return Velocity { delta_bp: 0, window_secs: 60 };
        }
        let first = &samples[0];
        let last = &samples[samples.len() - 1];
        let elapsed: i128 = last.collected_at as i128 - first.collected_at as i128;
        let window: i128 = if elapsed < 60 { 60 } else { elapsed };
        Velocity { delta_bp: last.used_bp as i128 - first.used_bp as i128, window_secs: window }
    }

    /// Seconds until usage reaches the full quota (see `time_to_limit_of`).
    pub fn calculate_time_to_limit(current_usage: u32, velocity: Velocity) -> (r: u64)
        requires
            velocity.wf(),
        ensures
            r == time_to_limit_of(current_usage as int, velocity),
            velocity.delta_bp <= 0 ==> r > 1_000_000_000,
            velocity.delta_bp > 0 && current_usage >= FULL_USAGE ==> r == 0,
    {
        if velocity.delta_bp <= 0 {
            return INDEFINITE_SECS;
        }
        if current_usage >= FULL_USAGE {
            return 0;
        }
        let remaining: i128 = (FULL_USAGE - current_usage) as i128;
        proof {
            assert(0 < remaining <= 10000);
            assert(remaining * velocity.window_secs <= 10000 * VELOCITY_BOUND) by (nonlinear_arith)
                requires
                    0 < remaining <= 10000,
                    0 < velocity.window_secs <= VELOCITY_BOUND,
            ;
            assert(remaining * velocity.window_secs >= 0) by (nonlinear_arith)
                requires
                    0 < remaining,
                    0 < velocity.window_secs,
            ;
        }
        let t: i128 = remaining * velocity.window_secs / velocity.delta_bp;
        if t > INDEFINITE_SECS as i128 {
            INDEFINITE_SECS
        } else {
            proof {
                assert(t >= 0) by (nonlinear_arith)
                    requires
                        t == (remaining * velocity.window_secs) as int / (velocity.delta_bp as int),
                        remaining * velocity.window_secs >= 0,
                        velocity.delta_bp > 0,
                ;
            }
            t as u64
        }
    }

    /// The recommended action for a time to limit and a velocity (see `is_action_of`).
    pub fn determine_action(&self, time_to_limit: u64, velocity: Velocity) -> (r: RateLimitAction)
        requires
            velocity.wf(),
        ensures
            is_action_of(self.config_spec(), time_to_limit as int, velocity, r),
    {
        let secs = time_to_limit;
        let c = &self.config;
        if secs == 0 {
            RateLimitAction::EmergencyPause
        } else if secs <= c.swap_now_threshold_secs {
            RateLimitAction::SwapNow { to_account: String::new() }
        } else if secs <= c.prepare_swap_threshold_secs {
            let minutes = secs / 60;
            let in_minutes: u32 = if minutes > u32::MAX as u64 { u32::MAX } else { minutes as u32 };
            RateLimitAction::PrepareSwap { in_minutes }
        } else if secs <= c.slow_down_threshold_secs && {
            proof {
                assert(c.high_velocity_threshold as int * velocity.window_secs <= 0x1_0000_0000int * VELOCITY_BOUND) by (nonlinear_arith)
                    requires
                        0 <= c.high_velocity_threshold < 0x1_0000_0000int,
                        0 < velocity.window_secs <= VELOCITY_BOUND,
                ;
            }
            velocity.delta_bp * 60 > c.high_velocity_threshold as i128 * velocity.window_secs
        } {
            proof {
                assert(-(0x1_0000_0000int * VELOCITY_BOUND) <= velocity.delta_bp * c.slow_down_factor <= 0x1_0000_0000int * VELOCITY_BOUND) by (nonlinear_arith)
                    requires
                        0 <= c.slow_down_factor < 0x1_0000_0000int,
                        -VELOCITY_BOUND <= velocity.delta_bp <= VELOCITY_BOUND,
                ;
            }
            RateLimitAction::SlowDown {
                target_velocity: Velocity {
                    delta_bp: velocity.delta_bp * c.slow_down_factor as i128,
                    window_secs: velocity.window_secs * 100,
                },
            }
        } else {
            RateLimitAction::Continue
        }
    }

    /// The forecast for one account from its time-ordered samples, at time `now`.
    pub fn forecast_single(&self, key: &AccountKey, samples: &[UsageSample], now: i64) -> (r: Result<RateLimitForecast, OracleError>)
        ensures
            samples@.len() == 0 ==> r == Err::<RateLimitForecast, OracleError>(OracleError::InsufficientData),
            samples@.len() > 0 ==> (r matches Ok(f) && is_forecast_of(
                self.config_spec(),
                key.provider@,
                key.account@,
                samples@,
                now as int,
                f,
            )),
    {
        if samples.len() == 0 {
            return Err(OracleError::InsufficientData);
        }
        let current = &samples[samples.len() - 1];
        let current_usage = current.used_bp;
        let velocity = RateLimitForecaster::calculate_velocity(samples);
        let time_to_limit = RateLimitForecaster::calculate_time_to_limit(current_usage, velocity);
        let confidence = RateLimitForecaster::calculate_confidence_at(samples, now);
        let action = self.determine_action(time_to_limit, velocity);
        let optimal_swap_time = RateLimitForecaster::calculate_optimal_swap_time_at(time_to_limit, current.resets_at, now);
        Ok(RateLimitForecast {
            provider: key.provider.clone(),
            account: key.account.clone(),
            current_usage_bp: current_usage,
            current_velocity: velocity,
            time_to_limit,
            confidence,
            recommended_action: action,
            optimal_swap_time,
            alternative_accounts: Vec::new(),
        })
    }

    /// The distinct accounts of the samples, in order of first appearance.
    pub fn account_keys(samples: &[UsageSample]) -> (r: Vec<AccountKey>)
        ensures
            forall|i: int| 0 <= i < r@.len() ==> keyed_in(samples@, #[trigger] r@[i].provider@, r@[i].account@),
            forall|m: int|
                0 <= m < samples@.len() ==> lists_key(
                    r@,
                    r@.len() as int,
                    (#[trigger] samples@[m]).provider@,
                    samples@[m].account@,
                ),
            forall|a: int, b: int|
                0 <= a < b < r@.len() ==> !(r@[a].provider@ == r@[b].provider@ && r@[a].account@
                    == r@[b].account@),
    {
        let mut keys: Vec<AccountKey> = Vec::new();
        let mut i: usize = 0;
        while i < samples.len()
            invariant
                0 <= i <= samples@.len(),
                forall|q: int| 0 <= q < keys@.len() ==> keyed_in(samples@, #[trigger] keys@[q].provider@, keys@[q].account@),
                forall|m: int|
                    0 <= m < i ==> lists_key(
                        keys@,
                        keys@.len() as int,
                        (#[trigger] samples@[m]).provider@,
                        samples@[m].account@,
                    ),
                forall|a: int, b: int|
                    0 <= a < b < keys@.len() ==> !(keys@[a].provider@ == keys@[b].provider@
                        && keys@[a].account@ == keys@[b].account@),
            decreases samples@.len() - i,
        {
            let x = &samples[i];
            let mut k: usize = 0;
            let mut found = false;
            while !found && k < keys.len()
                invariant
                    0 <= k <= keys@.len(),
                    found ==> k < keys@.len() && keys@[k as int].provider@ == x.provider@
                        && keys@[k as int].account@ == x.account@,
                    !found ==> forall|q: int|
                        0 <= q < k ==> !(keys@[q].provider@ == x.provider@ && keys@[q].account@
                            == x.account@),
                decreases keys@.len() - k + (if found { 0int } else { 1 }),
            {
                if str_eq(keys[k].provider.as_str(), x.provider.as_str()) && str_eq(
                    keys[k].account.as_str(),
                    x.account.as_str(),
                ) {
                    found = true;
                } else {
                    k = k + 1;
                }
            }
            proof {
                assert(samples@[i as int] == *x);
            }
            if !found {
                let ghost before = keys@;
                keys.push(AccountKey { provider: x.provider.clone(), account: x.account.clone() });
                proof {
                    assert(keys@[before.len() as int].provider@ == x.provider@);
                    assert forall|q: int| 0 <= q < keys@.len() implies keyed_in(samples@, #[trigger] keys@[q].provider@, keys@[q].account@) by {
                        if q < before.len() {
                            assert(keys@[q] == before[q]);
                        } else {
                            assert(has_key(samples@[i as int], keys@[q].provider@, keys@[q].account@));
                        }
                    }
                    assert forall|m: int|
                        0 <= m < i + 1 implies lists_key(
                            keys@,
                            keys@.len() as int,
                            (#[trigger] samples@[m]).provider@,
                            samples@[m].account@,
                        ) by {
                        if m < i {
                            assert(lists_key(before, before.len() as int, samples@[m].provider@, samples@[m].account@));
                            let q = choose|q: int| 0 <= q < before.len() && before[q].provider@ == samples@[m].provider@ && before[q].account@ == samples@[m].account@;
                            assert(keys@[q] == before[q]);
                        } else {
                            assert(keys@[before.len() as int].account@ == x.account@);
                        }
                    }
                    assert forall|a: int, b: int|
                        0 <= a < b < keys@.len() implies !(keys@[a].provider@ == keys@[b].provider@
                            && keys@[a].account@ == keys@[b].account@) by {
                        assert(keys@[a] == before[a]);
                        if b < before.len() {
                            assert(keys@[b] == before[b]);
                        }
                    }
                }
            } else {
                proof {
                    assert forall|m: int|
                        0 <= m < i + 1 implies lists_key(
                            keys@,
                            keys@.len() as int,
                            (#[trigger] samples@[m]).provider@,
                            samples@[m].account@,
                        ) by {
                        if m == i {
                            assert(keys@[k as int].provider@ == samples@[m].provider@);
                        }
                    }
                }
            }
            i = i + 1;
        }
        keys
    }

    /// The samples grouped by account, each group in time order (equal times
    /// keep their order), the groups in order of first appearance.
    pub fn group_by_account(samples: &[UsageSample]) -> (r: Vec<(AccountKey, Vec<UsageSample>)>)
        ensures
            forall|i: int|
                0 <= i < r@.len() ==> keyed_in(samples@, (#[trigger] r@[i]).0.provider@, r@[i].0.account@)
                    && r@[i].1@ == account_run(samples@, r@[i].0.provider@, r@[i].0.account@, samples@.len() as int),
            forall|m: int|
                0 <= m < samples@.len() ==> groups_key(
                    r@,
                    r@.len() as int,
                    (#[trigger] samples@[m]).provider@,
                    samples@[m].account@,
                ),
            forall|a: int, b: int|
                0 <= a < b < r@.len() ==> !(r@[a].0.provider@ == r@[b].0.provider@ && r@[a].0.account@
                    == r@[b].0.account@),
    {
        let keys = RateLimitForecaster::account_keys(samples);
        let mut groups: Vec<(AccountKey, Vec<UsageSample>)> = Vec::new();
        let mut j: usize = 0;
        while j < keys.len()
            invariant
                0 <= j <= keys@.len(),
                groups@.len() == j,
                forall|q: int| 0 <= q < keys@.len() ==> keyed_in(samples@, #[trigger] keys@[q].provider@, keys@[q].account@),
                forall|i: int|
                    0 <= i < j ==> (#[trigger] groups@[i]).0.provider@ == keys@[i].provider@
                        && groups@[i].0.account@ == keys@[i].account@
                        && groups@[i].1@ == account_run(samples@, keys@[i].provider@, keys@[i].account@, samples@.len() as int),
            decreases keys@.len() - j,
        {
            let key = &keys[j];
            let run = RateLimitForecaster::account_samples(samples, key.provider.as_str(), key.account.as_str());
            let ghost before = groups@;
            groups.push((AccountKey { provider: key.provider.clone(), account: key.account.clone() }, run));
            proof {
                assert forall|i: int|
                    0 <= i < j + 1 implies (#[trigger] groups@[i]).0.provider@ == keys@[i].provider@
                        && groups@[i].0.account@ == keys@[i].account@
                        && groups@[i].1@ == account_run(samples@, keys@[i].provider@, keys@[i].account@, samples@.len() as int) by {
                    if i < j {
                        assert(groups@[i] == before[i]);
                    }
                }
            }
            j = j + 1;
        }
        proof {
            assert forall|i: int|
                0 <= i < groups@.len() implies keyed_in(samples@, (#[trigger] groups@[i]).0.provider@, groups@[i].0.account@)
                    && groups@[i].1@ == account_run(samples@, groups@[i].0.provider@, groups@[i].0.account@, samples@.len() as int) by {
                assert(keyed_in(samples@, keys@[i].provider@, keys@[i].account@));
            }
            assert forall|m: int|
                0 <= m < samples@.len() implies groups_key(
                    groups@,
                    groups@.len() as int,
                    (#[trigger] samples@[m]).provider@,
                    samples@[m].account@,
                ) by {
                assert(lists_key(keys@, keys@.len() as int, samples@[m].provider@, samples@[m].account@));
                let q = choose|q: int| 0 <= q < keys@.len() && keys@[q].provider@ == samples@[m].provider@ && keys@[q].account@ == samples@[m].account@;
                assert(groups@[q].0.provider@ == keys@[q].provider@);
            }
            assert forall|a: int, b: int|
                0 <= a < b < groups@.len() implies !(groups@[a].0.provider@ == groups@[b].0.provider@ && groups@[a].0.account@
                    == groups@[b].0.account@) by {
                assert(groups@[a].0.provider@ == keys@[a].provider@);
                assert(groups@[b].0.provider@ == keys@[b].provider@);
            }
        }
        groups
    }

    /// Forecasts for every account of the samples at time `now`, most urgent first.
    #[verifier::rlimit(60)]
    #[verifier::spinoff_prover]
    pub fn forecast_at(&self, samples: Vec<UsageSample>, now: i64) -> (r: Vec<RateLimitForecast>)
        ensures
            samples@.len() == 0 ==> r@.len() == 0,
            forall|i: int|
                0 <= i < r@.len() ==> keyed_in(samples@, (#[trigger] r@[i]).provider@, r@[i].account@)
                    && is_account_forecast(self.config_spec(), samples@, now as int, r@[i]),
            forall|m: int|
                0 <= m < samples@.len() ==> forecasts_key(
                    r@,
                    r@.len() as int,
                    (#[trigger] samples@[m]).provider@,
                    samples@[m].account@,
                ),
            forall|a: int, b: int|
                0 <= a < b < r@.len() ==> !(r@[a].provider@ == r@[b].provider@ && r@[a].account@
                    == r@[b].account@),
            forall|a: int, b: int| 0 <= a < b < r@.len() ==> r@[a].time_to_limit <= r@[b].time_to_limit,
    {
        let keys = RateLimitForecaster::account_keys(samples.as_slice());
        let ghost s = samples@;
        let ghost c = self.config_spec();
        let mut out: Vec<RateLimitForecast> = Vec::new();
        let mut j: usize = 0;
        while j < keys.len()
            invariant
                s == samples@,
                c == self.config_spec(),
                0 <= j <= keys@.len(),
                forall|q: int| 0 <= q < keys@.len() ==> keyed_in(s, #[trigger] keys@[q].provider@, keys@[q].account@),
                forall|m: int|
                    0 <= m < s.len() ==> lists_key(
                        keys@,
                        keys@.len() as int,
                        (#[trigger] s[m]).provider@,
                        s[m].account@,
                    ),
                forall|a: int, b: int|
                    0 <= a < b < keys@.len() ==> !(keys@[a].provider@ == keys@[b].provider@
                        && keys@[a].account@ == keys@[b].account@),
                forall|i: int|
                    0 <= i < out@.len() ==> lists_key(keys@, j as int, (#[trigger] out@[i]).provider@, out@[i].account@)
                        && keyed_in(s, out@[i].provider@, out@[i].account@) && is_account_forecast(c, s, now as int, out@[i]),
                forall|q: int|
                    0 <= q < j ==> forecasts_key(
                        out@,
                        out@.len() as int,
                        (#[trigger] keys@[q]).provider@,
                        keys@[q].account@,
                    ),
                forall|a: int, b: int|
                    0 <= a < b < out@.len() ==> !(out@[a].provider@ == out@[b].provider@
                        && out@[a].account@ == out@[b].account@),
                forall|a: int, b: int| 0 <= a < b < out@.len() ==> out@[a].time_to_limit <= out@[b].time_to_limit,
            decreases keys@.len() - j,
        {
            let key = &keys[j];
            let run = RateLimitForecaster::account_samples(samples.as_slice(), key.provider.as_str(), key.account.as_str());
            proof {
                assert(keyed_in(s, keys@[j as int].provider@, keys@[j as int].account@));
                let m = choose|m: int| 0 <= m < s.len() && has_key(s[m], keys@[j as int].provider@, keys@[j as int].account@);
                lemma_account_run_nonempty(s, key.provider@, key.account@, s.len() as int, m);
            }
            let result = self.forecast_single(key, run.as_slice(), now);
            match result {
                Ok(f) => {
                    proof {
                        reveal(is_account_forecast);
                        assert(is_account_forecast(c, s, now as int, f));
                    }
                    let ghost before = out@;
                    let ghost fv = f;
                    let pos = insert_by_urgency(&mut out, f);

                    proof {
                        assert forall|q: int| 0 <= q < before.len() implies !(before[q].provider@ == fv.provider@ && before[q].account@ == fv.account@) by {
                            assert(lists_key(keys@, j as int, before[q].provider@, before[q].account@));
                            let w = choose|w: int| 0 <= w < j && keys@[w].provider@ == before[q].provider@ && keys@[w].account@ == before[q].account@;
                        }
                    }
                    proof {
                        assert(out@[pos as int] == fv);
                        assert forall|i: int|
                            0 <= i < out@.len() implies lists_key(keys@, j + 1, (#[trigger] out@[i]).provider@, out@[i].account@)
                                && keyed_in(s, out@[i].provider@, out@[i].account@) && is_account_forecast(c, s, now as int, out@[i]) by {
                            if i < pos {
                                assert(out@[i] == before[i]);
                                assert(lists_key(keys@, j as int, before[i].provider@, before[i].account@));
                                let w = choose|w: int| 0 <= w < j && keys@[w].provider@ == before[i].provider@ && keys@[w].account@ == before[i].account@;
                            } else if i == pos {
                                assert(keys@[j as int].provider@ == out@[i].provider@);
                            } else {
                                assert(out@[i] == before[i - 1]);
                                assert(lists_key(keys@, j as int, before[i - 1].provider@, before[i - 1].account@));
                                let w = choose|w: int| 0 <= w < j && keys@[w].provider@ == before[i - 1].provider@ && keys@[w].account@ == before[i - 1].account@;
                            }
                        }
                        assert forall|q: int|
                            0 <= q < j + 1 implies forecasts_key(
                                out@,
                                out@.len() as int,
                                (#[trigger] keys@[q]).provider@,
                                keys@[q].account@,
                            ) by {
                            if q < j {
                                assert(forecasts_key(before, before.len() as int, keys@[q].provider@, keys@[q].account@));
                                let w = choose|w: int| 0 <= w < before.len() && before[w].provider@ == keys@[q].provider@ && before[w].account@ == keys@[q].account@;
                                if w < pos {
                                    assert(out@[w] == before[w]);
                                } else {
                                    assert(out@[w + 1] == before[w]);
                                }
                            } else {
                                assert(out@[pos as int].provider@ == keys@[q].provider@);
                            }
                        }
                        assert forall|a: int, b: int|
                            0 <= a < b < out@.len() implies !(out@[a].provider@ == out@[b].provider@
                                && out@[a].account@ == out@[b].account@) by {
                            if a < pos && b < pos {
                                assert(out@[a] == before[a] && out@[b] == before[b]);
                            } else if a < pos && b == pos {
                                assert(out@[a] == before[a]);
                            } else if a < pos {
                                assert(out@[a] == before[a] && out@[b] == before[b - 1]);
                            } else if a == pos {
                                assert(out@[b] == before[b - 1]);
                            } else {
                                assert(out@[a] == before[a - 1] && out@[b] == before[b - 1]);
                            }
                        }
                    }
                },
                Err(_) => {},
            }
            j = j + 1;
        }
        proof {
            assert forall|m: int|
                0 <= m < s.len() implies forecasts_key(
                    out@,
                    out@.len() as int,
                    (#[trigger] s[m]).provider@,
                    s[m].account@,
                ) by {
                assert(lists_key(keys@, keys@.len() as int, s[m].provider@, s[m].account@));
                let q = choose|q: int| 0 <= q < keys@.len() && keys@[q].provider@ == s[m].provider@ && keys@[q].account@ == s[m].account@;
                assert(forecasts_key(out@, out@.len() as int, keys@[q].provider@, keys@[q].account@));
            }
            if s.len() == 0 {
                if out@.len() > 0 {
                    assert(keyed_in(s, out@[0].provider@, out@[0].account@));
                }
            }
        }
        out
    }

    /// Forecasts for every account of the samples, most urgent first, reading
    /// the clock for the time now.
    pub fn forecast(&self, samples: Vec<UsageSample>) -> (r: Vec<RateLimitForecast>)
        ensures
            samples@.len() == 0 ==> r@.len() == 0,
            exists|now: i64|
                0 <= now <= LATEST_CLOCK_SECS && #[trigger] all_forecasts_of(self.config_spec(), samples@, r@, now as int),
            forall|i: int|
                0 <= i < r@.len() && swap_time_owed(
                    (#[trigger] r@[i]).time_to_limit as int,
                    account_run(samples@, r@[i].provider@, r@[i].account@, samples@.len() as int).last().resets_at,
                ) ==> r@[i].optimal_swap_time is Some,
            forall|i: int| 0 <= i < r@.len() ==> keyed_in(samples@, (#[trigger] r@[i]).provider@, r@[i].account@),
            forall|m: int|
                0 <= m < samples@.len() ==> forecasts_key(
                    r@,
                    r@.len() as int,
                    (#[trigger] samples@[m]).provider@,
                    samples@[m].account@,
                ),
            forall|a: int, b: int|
                0 <= a < b < r@.len() ==> !(r@[a].provider@ == r@[b].provider@ && r@[a].account@
                    == r@[b].account@),
            forall|a: int, b: int| 0 <= a < b < r@.len() ==> r@[a].time_to_limit <= r@[b].time_to_limit,
    {
        let now = now_unix_secs();
        let ghost s = samples@;
        let r = self.forecast_at(samples, now);
        proof {
            assert(all_forecasts_of(self.config_spec(), s, r@, now as int));
            reveal(is_account_forecast);
            assert forall|i: int|
                0 <= i < r@.len() && swap_time_owed(
                    (#[trigger] r@[i]).time_to_limit as int,
                    account_run(s, r@[i].provider@, r@[i].account@, s.len() as int).last().resets_at,
                ) implies r@[i].optimal_swap_time is Some by {
                assert(is_account_forecast(self.config_spec(), s, now as int, r@[i]));
            }
        }
        r
    }

    /// The samples of one account, in time order (see `account_run`).
    pub fn account_samples(samples: &[UsageSample], provider: &str, account: &str) -> (r: Vec<UsageSample>)
        ensures
            r@ == account_run(samples@, provider@, account@, samples@.len() as int),
    {
        let mut run: Vec<UsageSample> = Vec::new();
        let mut i: usize = 0;
        while i < samples.len()
            invariant
                0 <= i <= samples@.len(),
                run@ == account_run(samples@, provider@, account@, i as int),
            decreases samples@.len() - i,
        {
            let x = &samples[i];
            if str_eq(x.provider.as_str(), provider) && str_eq(x.account.as_str(), account) {
                let mut j: usize = 0;
                while j < run.len() && run[j].collected_at <= x.collected_at
                    invariant
                        0 <= j <= run@.len(),
                        insert_pos(run@, *x, 0) == insert_pos(run@, *x, j as int),
                    decreases run@.len() - j,
                {
                    j = j + 1;
                }
                proof {
                    lemma_insert_pos_bound(run@, *x, 0);
                    assert(samples@[i as int] == *x);
                }
                run.insert(j, copy_sample(x));
            }
            i = i + 1;
        }
        run
    }

    /// The variance of the rates between consecutive samples (see `variance_of`).
    pub fn calculate_variance(samples: &[UsageSample]) -> (r: i128)
        ensures
            r == variance_of(samples@),
            0 <= r <= VARIANCE_CAP,
    {
        RateLimitForecaster::rate_statistics(samples).1
    }

    /// How many rates lie between consecutive samples, and their variance.
    fn rate_statistics(samples: &[UsageSample]) -> (r: (i128, i128))
        ensures
            r.0 == rate_count(samples@, samples@.len() as int),
            r.1 == variance_of(samples@),
            0 <= r.1 <= VARIANCE_CAP,
    {
        let n = samples.len();
        let mut count: i128 = 0;
        let mut sum: i128 = 0;
        let mut i: usize = 1;
        while i < n
            invariant
                n == samples@.len(),
                1 <= i,
                i <= n || n == 0,
                n == 0 ==> i == 1,
                count == rate_count(samples@, i as int),
                sum == rate_sum(samples@, i as int),
                0 <= count < i,
                -(count * RATE_BOUND) <= sum <= count * RATE_BOUND,
            decreases n - i,
        {
            if samples[i].collected_at > samples[i - 1].collected_at {
                let w = pair_rate_exec(&samples[i - 1], &samples[i]);
                proof {
                    assert((count + 1) * RATE_BOUND == count * RATE_BOUND + RATE_BOUND) by (nonlinear_arith);
                    assert(count * RATE_BOUND <= 0x1_0000_0000_0000_0000int * RATE_BOUND) by (nonlinear_arith)
                        requires 0 <= count < 0x1_0000_0000_0000_0000int;
                }
                count = count + 1;
                sum = sum + w;
            }
            i = i + 1;
        }
        if count == 0 {
            return (0, 0);
        }
        assert(i == n);
        let mean = div_toward_zero_exec(sum, count);
        proof {
            if sum >= 0 {
                lemma_quotient_bound(sum as int, count as int, RATE_BOUND as int);
            } else {
                lemma_quotient_bound(-sum, count as int, RATE_BOUND as int);
            }
        }
        let mut squares: i128 = 0;
        let mut j: usize = 1;
        while j < n
            invariant
                n == samples@.len(),
                1 <= j <= n,
                count == rate_count(samples@, n as int),
                count > 0,
                -RATE_BOUND <= mean <= RATE_BOUND,
                squares == squares_sum(samples@, j as int, mean as int),
                0 <= squares <= SQUARES_CAP,
            decreases n - j,
        {
            let mut dev: i128 = 0;
            if samples[j].collected_at > samples[j - 1].collected_at {
                let w = pair_rate_exec(&samples[j - 1], &samples[j]);
                dev = w - mean;
            }
            proof {
                assert(dev * dev <= 4 * RATE_BOUND * RATE_BOUND) by (nonlinear_arith)
                    requires -2 * RATE_BOUND <= dev <= 2 * RATE_BOUND;
                assert(dev * dev >= 0) by (nonlinear_arith);
            }
            let t = squares + dev * dev;
            squares = if t > SQUARES_CAP { SQUARES_CAP } else { t };
            j = j + 1;
        }
        proof {
            lemma_quotient_shrinks(squares as int, count as int);
        }
        let v = squares / count;
        (count, if v > VARIANCE_CAP { VARIANCE_CAP } else { v })
    }

    /// The confidence of a forecast from `samples` at time `now` (see `confidence_of`).
    pub fn calculate_confidence_at(samples: &[UsageSample], now: i64) -> (r: u32)
        ensures
            r == confidence_of(samples@, now as int),
            MIN_CONFIDENCE <= r <= MAX_CONFIDENCE,
    {
        if samples.len() == 0 {
            return 1000;
        }
        let n: i128 = if samples.len() > 10 { 10 } else { samples.len() as i128 };
        let last = &samples[samples.len() - 1];
        let age_secs: i128 = now as i128 - last.collected_at as i128;
        let age = div_toward_zero_exec(age_secs, 60);
        let d: i128 = 10 + age;
        if d == 0 {
            return 9900;
        }
        if d < 0 {
            return 1000;
        }
        let stats = RateLimitForecaster::rate_statistics(samples);
        let v = if stats.0 == 0 { UNIT_VARIANCE } else { stats.1 };
        proof {
            if age_secs >= 0 {
                lemma_quotient_bound(age_secs as int, 60, 0x800_0000_0000_0000int);
            }
            assert((UNIT_VARIANCE + v) * d <= (UNIT_VARIANCE + VARIANCE_CAP) * (10 + 0x800_0000_0000_0000int)) by (nonlinear_arith)
                requires
                    0 <= v <= VARIANCE_CAP,
                    0 < d <= 10 + 0x800_0000_0000_0000int;
            assert((UNIT_VARIANCE + v) * d > 0) by (nonlinear_arith)
                requires
                    0 <= v,
                    0 < d;
        }
        let c: i128 = 10000 * n * UNIT_VARIANCE / ((UNIT_VARIANCE + v) * d);
        if c < 1000 {
            1000
        } else if c > 9900 {
            9900
        } else {
            c as u32
        }
    }

    /// The confidence of a forecast from `samples`, reading the clock for the time now.
    pub fn calculate_confidence(samples: &[UsageSample], velocity: Velocity) -> (r: u32)
        ensures
            exists|now: i64| 0 <= now <= LATEST_CLOCK_SECS && r == #[trigger] confidence_of(samples@, now as int),
            MIN_CONFIDENCE <= r <= MAX_CONFIDENCE,
    {
        let now = now_unix_secs();
        RateLimitForecaster::calculate_confidence_at(samples, now)
    }

    /// When to swap accounts, with the time now given (see `optimal_swap_of`).
    pub fn calculate_optimal_swap_time_at(time_to_limit: u64, resets_at: Option<i64>, now: i64) -> (r: Option<i64>)
        ensures
            is_swap_time(time_to_limit as int, resets_at, now as int, r),
    {
        if let Some(reset_time) = resets_at {
            if reset_time > now {
                let time_to_reset: i128 = reset_time as i128 - now as i128;
                if time_to_reset < time_to_limit as i128 {
                    return None;
                }
            }
        }
        let secs = time_to_limit;
        if secs == 0 || secs > INDEFINITE_SECS - 1000 {
            return None;
        }
        let optimal: u64 = secs - secs / 5;
        let t: i128 = now as i128 + optimal as i128;
        if t > i64::MAX as i128 {
            None
        } else {
            Some(t as i64)
        }
    }

    /// When to swap accounts, reading the clock for the time now.
    pub fn calculate_optimal_swap_time(time_to_limit: u64, resets_at: Option<i64>) -> (r: Option<i64>)
        ensures
            exists|now: i64|
                0 <= now <= LATEST_CLOCK_SECS && #[trigger] is_swap_time(time_to_limit as int, resets_at, now as int, r),
            swap_time_owed(time_to_limit as int, resets_at) ==> r is Some,
    {
        let now = now_unix_secs();
        RateLimitForecaster::calculate_optimal_swap_time_at(time_to_limit, resets_at, now)
    }
}

/// Highest usage among the first `k` samples of account `name` under
/// `provider`, or -1 where there is none.
pub open spec fn peak_usage(s: Seq<UsageSample>, provider: Seq<char>, name: Seq<char>, k: int) -> int
    decreases k,
{
    if k <= 0 {
        -1
    } else {
        let prev = peak_usage(s, provider, name, k - 1);
        let x = s[k - 1];
        if x.provider@ == provider && x.account@ == name && x.used_bp > prev {
            x.used_bp as int
        } else {
            prev
        }
    }
}

/// Headroom of account `name` under `provider`: the full quota less its peak usage.
pub open spec fn headroom_of(s: Seq<UsageSample>, provider: Seq<char>, name: Seq<char>) -> int {
    FULL_USAGE - peak_usage(s, provider, name, s.len() as int)
}

/// Whether account `name` is an alternative to `current` under `provider`
/// with more than 10% headroom.
pub open spec fn is_good_alternative(
    s: Seq<UsageSample>,
    provider: Seq<char>,
    current: Seq<char>,
    name: Seq<char>,
) -> bool {
    name != current && peak_usage(s, provider, name, s.len() as int) >= 0 && headroom_of(
        s,
        provider,
        name,
    ) > 1000
}

/// Whether one of the first `n` ranked entries names `name`.
pub open spec fn ranks_name(r: Seq<(String, u32)>, n: int, name: Seq<char>) -> bool {
    exists|k: int| 0 <= k < n && r[k].0@ == name
}

/// Whether one of the first `n` strings of `v` reads `name`.
pub open spec fn lists_name(v: Seq<String>, n: int, name: Seq<char>) -> bool {
    exists|k: int| 0 <= k < n && v[k]@ == name
}

/// Other accounts of `current_provider` than `current_account`, each with its
/// headroom (full quota less the highest usage seen for it), keeping those
/// with more than 10% headroom, best first.
pub fn rank_alternative_accounts(
    samples: &[UsageSample],
    current_provider: &str,
    current_account: &str,
) -> (r: Vec<(String, u32)>)
    ensures
        forall|i: int|
            0 <= i < r@.len() ==> is_good_alternative(
                samples@,
                current_provider@,
                current_account@,
                r@[i].0@,
            ) && r@[i].1 == headroom_of(samples@, current_provider@, r@[i].0@),
        forall|name: Seq<char>|
            is_good_alternative(samples@, current_provider@, current_account@, name) ==> #[trigger] ranks_name(
                r@,
                r@.len() as int,
                name,
            ),
        forall|i: int, j: int| 0 <= i < j < r@.len() ==> r@[i].0@ != r@[j].0@,
        forall|i: int, j: int| 0 <= i < j < r@.len() ==> r@[i].1 >= r@[j].1,
{
    let ghost s = samples@;
    let ghost p = current_provider@;
    let ghost cur = current_account@;
    let mut names: Vec<String> = Vec::new();
    let mut peaks: Vec<u32> = Vec::new();
    let mut i: usize = 0;
    while i < samples.len()
        invariant
            s == samples@,
            p == current_provider@,
            cur == current_account@,
            0 <= i <= s.len(),
            names@.len() == peaks@.len(),
            forall|k: int|
                0 <= k < names@.len() ==> (#[trigger] names@[k])@ != cur && peaks@[k] == peak_usage(
                    s,
                    p,
                    names@[k]@,
                    i as int,
                ),
            forall|a: int, b: int| 0 <= a < b < names@.len() ==> names@[a]@ != names@[b]@,
            forall|name: Seq<char>|
                name != cur && peak_usage(s, p, name, i as int) >= 0 ==> #[trigger] lists_name(
                    names@,
                    names@.len() as int,
                    name,
                ),
        decreases s.len() - i,
    {
        let x = &samples[i];
        if str_eq(x.provider.as_str(), current_provider) && !str_eq(x.account.as_str(), current_account) {
            let mut k: usize = 0;
            let mut found = false;
            while !found && k < names.len()
                invariant
                    0 <= k <= names@.len(),
                    found ==> k < names@.len() && names@[k as int]@ == x.account@,
                    !found ==> forall|q: int| 0 <= q < k ==> names@[q]@ != x.account@,
                decreases names@.len() - k + (if found { 0int } else { 1 }),
            {
                if str_eq(names[k].as_str(), x.account.as_str()) {
                    found = true;
                } else {
                    k = k + 1;
                }
            }
            if found {
                let ghost old_peaks = peaks@;
                if x.used_bp > peaks[k] {
                    peaks[k] = x.used_bp;
                }
                proof {
                    assert forall|q: int|
                        0 <= q < names@.len() implies names@[q]@ != cur && peaks@[q] == peak_usage(
                            s,
                            p,
                            names@[q]@,
                            i + 1,
                        ) by {
                        assert(s[i as int] == *x);
                        if q != k {
                            assert(old_peaks[q] == peaks@[q]);
                            assert(names@[q]@ != x.account@);
                        } else {
                            assert(old_peaks[q] == peak_usage(s, p, names@[q]@, i as int));
                            assert(names@[q]@ == x.account@);
                        }
                    }
                    assert forall|name: Seq<char>|
                        name != cur && peak_usage(s, p, name, i + 1) >= 0 implies #[trigger] lists_name(
                            names@,
                            names@.len() as int,
                            name,
                        ) by {
                        if name != x.account@ {
                            assert(peak_usage(s, p, name, i as int) >= 0);
                        } else {
                            assert(names@[k as int]@ == name);
                        }
                    }
                }
            } else {
                let ghost old_names = names@;
                let ghost old_peaks = peaks@;
                names.push(x.account.clone());
                peaks.push(x.used_bp);
                proof {
                    assert(peak_usage(s, p, x.account@, i as int) < 0) by {
                        if peak_usage(s, p, x.account@, i as int) >= 0 {
                            assert(lists_name(old_names, old_names.len() as int, x.account@));
                            let q = choose|q: int| 0 <= q < old_names.len() && old_names[q]@ == x.account@;
                        }
                    }
                    assert forall|q: int|
                        0 <= q < old_names.len() implies names@[q]@ != x.account@ by {
                        assert(names@[q] == old_names[q]);
                    }
                    assert forall|q: int|
                        0 <= q < names@.len() implies names@[q]@ != cur && peaks@[q] == peak_usage(
                            s,
                            p,
                            names@[q]@,
                            i + 1,
                        ) by {
                        assert(s[i as int] == *x);
                        if q < old_names.len() {
                            assert(names@[q] == old_names[q]);
                            assert(peaks@[q] == old_peaks[q]);
                            assert(names@[q]@ != x.account@);
                        } else {
                            assert(names@[q]@ == x.account@);
                            assert(peak_usage(s, p, x.account@, i as int) < 0);
                        }
                    }
                    assert forall|name: Seq<char>|
                        name != cur && peak_usage(s, p, name, i + 1) >= 0 implies #[trigger] lists_name(
                            names@,
                            names@.len() as int,
                            name,
                        ) by {
                        if name != x.account@ {
                            assert(peak_usage(s, p, name, i as int) >= 0);
                            assert(lists_name(old_names, old_names.len() as int, name));
                            let q = choose|q: int| 0 <= q < old_names.len() && old_names[q]@ == name;
                            assert(names@[q] == old_names[q]);
                        } else {
                            assert(names@[old_names.len() as int]@ == name);
                        }
                    }
                }
            }
        } else {
            proof {
                assert forall|q: int|
                    0 <= q < names@.len() implies peaks@[q] == peak_usage(s, p, names@[q]@, i + 1) by {
                    assert(s[i as int] == *x);
                    assert(names@[q]@ != cur);
                }
                assert forall|name: Seq<char>|
                    name != cur && peak_usage(s, p, name, i + 1) >= 0 implies #[trigger] lists_name(
                        names@,
                        names@.len() as int,
                        name,
                    ) by {
                    assert(peak_usage(s, p, name, i as int) >= 0);
                }
            }
        }
        i = i + 1;
    }
    let mut ranked: Vec<(String, u32)> = Vec::new();
    let mut names = names;
    let mut peaks = peaks;
    let ghost all_names = names@;
    let ghost all_peaks = peaks@;
    let n = names.len();
    let mut j: usize = 0;
    while j < n
        invariant
            n == all_names.len() == all_peaks.len(),
            names@ == all_names.subrange(j as int, n as int),
            peaks@ == all_peaks.subrange(j as int, n as int),
            0 <= j <= n,
            forall|k: int|
                0 <= k < all_names.len() ==> (#[trigger] all_names[k])@ != cur && all_peaks[k] == peak_usage(
                    s,
                    p,
                    all_names[k]@,
                    s.len() as int,
                ),
            forall|a: int, b: int| 0 <= a < b < all_names.len() ==> all_names[a]@ != all_names[b]@,
            forall|i: int|
                0 <= i < ranked@.len() ==> is_good_alternative(s, p, cur, ranked@[i].0@)
                    && ranked@[i].1 == headroom_of(s, p, ranked@[i].0@)
                    && lists_name(all_names, j as int, ranked@[i].0@),
            forall|k: int|
                0 <= k < j && is_good_alternative(s, p, cur, all_names[k]@) ==> #[trigger] ranks_name(
                    ranked@,
                    ranked@.len() as int,
                    all_names[k]@,
                ),
            forall|a: int, b: int| 0 <= a < b < ranked@.len() ==> ranked@[a].0@ != ranked@[b].0@,
            forall|a: int, b: int| 0 <= a < b < ranked@.len() ==> ranked@[a].1 >= ranked@[b].1,
        decreases n - j,
    {
        let name = names.remove(0);
        let peak = peaks.remove(0);
        proof {
            assert(name == all_names[j as int]);
            assert(peak == all_peaks[j as int]);
        }
        if peak < 9000 {
            let headroom: u32 = FULL_USAGE - peak;
            let mut pos: usize = 0;
            while pos < ranked.len() && ranked[pos].1 >= headroom
                invariant
                    0 <= pos <= ranked@.len(),
                    forall|q: int| 0 <= q < pos ==> ranked@[q].1 >= headroom,
                decreases ranked@.len() - pos,
            {
                pos = pos + 1;
            }
            let ghost before = ranked@;
            proof {
                assert forall|q: int| pos <= q < before.len() implies before[q].1 < headroom by {
                    if pos < before.len() {
                        assert(before[pos as int].1 < headroom);
                        if q > pos {
                            assert(before[pos as int].1 >= before[q].1);
                        }
                    }
                }
                assert forall|q: int| 0 <= q < before.len() implies before[q].0@ != name@ by {
                    assert(lists_name(all_names, j as int, before[q].0@));
                    let w = choose|w: int| 0 <= w < j && all_names[w]@ == before[q].0@;
                }
            }
            ranked.insert(pos, (name, headroom));
            proof {
                assert forall|i: int|
                    0 <= i < ranked@.len() implies is_good_alternative(s, p, cur, ranked@[i].0@)
                        && ranked@[i].1 == headroom_of(s, p, ranked@[i].0@)
                        && lists_name(all_names, j + 1, ranked@[i].0@) by {
                    if i < pos {
                        assert(ranked@[i] == before[i]);
                        let w = choose|w: int| 0 <= w < j && all_names[w]@ == before[i].0@;
                    } else if i == pos {
                        assert(all_names[j as int]@ == ranked@[i].0@);
                    } else {
                        assert(ranked@[i] == before[i - 1]);
                        let w = choose|w: int| 0 <= w < j && all_names[w]@ == before[i - 1].0@;
                    }
                }
                assert forall|k: int|
                    0 <= k < j + 1 && is_good_alternative(s, p, cur, all_names[k]@) implies #[trigger] ranks_name(
                        ranked@,
                        ranked@.len() as int,
                        all_names[k]@,
                    ) by {
                    if k < j {
                        assert(ranks_name(before, before.len() as int, all_names[k]@));
                        let q = choose|q: int| 0 <= q < before.len() && before[q].0@ == all_names[k]@;
                        if q < pos {
                            assert(ranked@[q] == before[q]);
                        } else {
                            assert(ranked@[q + 1] == before[q]);
                        }
                    } else {
                        assert(ranked@[pos as int].0@ == all_names[k]@);
                    }
                }
                assert forall|a: int, b: int|
                    0 <= a < b < ranked@.len() implies ranked@[a].0@ != ranked@[b].0@ && ranked@[a].1
                        >= ranked@[b].1 by {
                    if a < pos && b < pos {
                        assert(ranked@[a] == before[a] && ranked@[b] == before[b]);
                    } else if a < pos && b == pos {
                        assert(ranked@[a] == before[a]);
                    } else if a < pos {
                        assert(ranked@[a] == before[a] && ranked@[b] == before[b - 1]);
                    } else if a == pos {
                        assert(ranked@[b] == before[b - 1]);
                    } else {
                        assert(ranked@[a] == before[a - 1] && ranked@[b] == before[b - 1]);
                    }
                }
            }
        } else {
            proof {
                assert forall|i: int|
                    0 <= i < ranked@.len() implies lists_name(all_names, j + 1, ranked@[i].0@) by {
                    let w = choose|w: int| 0 <= w < j && all_names[w]@ == ranked@[i].0@;
                }
            }
        }
        proof {
            assert(names@ =~= all_names.subrange(j + 1, n as int));
            assert(peaks@ =~= all_peaks.subrange(j + 1, n as int));
        }
        j = j + 1;
    }
    proof {
        assert forall|name: Seq<char>|
            is_good_alternative(s, p, cur, name) implies #[trigger] ranks_name(
                ranked@,
                ranked@.len() as int,
                name,
            ) by {
            assert(lists_name(all_names, all_names.len() as int, name));
            let k = choose|k: int| 0 <= k < all_names.len() && all_names[k]@ == name;
            assert(is_good_alternative(s, p, cur, all_names[k]@));
        }
    }
    ranked
}

} // verus!
