//! Circuit breaking for primal IPC calls: after `threshold` consecutive
//! failures the circuit opens, and once the cooldown has elapsed since the
//! last failure it lets one probe through (half-open); a success closes it.

use vstd::prelude::*;

use super::envelope::IpcError;

verus! {

/// Three-state circuit breaker state.
#[derive(Debug, Clone, Copy, PartialEq, Eq, Structural)]
pub enum CircuitState {
    /// Normal operation: requests pass through.
    Closed,
    /// Failures exceeded the threshold: requests are short-circuited.
    Open,
    /// Cooldown elapsed: one probe request is allowed.
    HalfOpen,
}

/// Circuit breaker with a failure threshold and a cooldown period.
///
/// State transitions:
/// - `Closed` -> `Open`: after `threshold` consecutive failures
/// - `Open` -> `HalfOpen`: after `cooldown` elapses
/// - `HalfOpen` -> `Closed`: on success
/// - `HalfOpen` -> `Open`: on failure
///
/// While half-open, one probe is let through; further requests are
/// refused until the probe's outcome is recorded.
#[derive(Debug)]
pub struct CircuitBreaker {
    threshold: u32,
    cooldown_ms: u64,
    consecutive_failures: u32,
    last_failure_epoch_ms: u64,
    probe_out: bool,
}

/// The state of a breaker at time `now` (milliseconds since the epoch).
pub open spec fn circuit_state_at(
    threshold: u32,
    cooldown_ms: u64,
    failures: u32,
    last_failure: u64,
    now: u64,
) -> CircuitState {
    if failures < threshold {
        CircuitState::Closed
    } else if (if now >= last_failure { now - last_failure } else { 0 }) >= cooldown_ms {
        CircuitState::HalfOpen
    } else {
        CircuitState::Open
    }
}

/// Whether a breaker (threshold, cooldown, failures, last failure, probe
/// out) lets a request through at time `now`: always when closed, never
/// when open, and when half-open only while no probe is out.
pub open spec fn breaker_admits(b: (u32, u64, u32, u64, bool), now: u64) -> bool {
    match circuit_state_at(b.0, b.1, b.2, b.3, now) {
        CircuitState::Closed => true,
        CircuitState::Open => false,
        CircuitState::HalfOpen => !b.4,
    }
}

/// The breaker after a request is let through at time `now`: a request
/// let through while half-open is the probe, now out.
pub open spec fn breaker_after_admit(b: (u32, u64, u32, u64, bool), now: u64) -> (u32, u64, u32, u64, bool) {
    (b.0, b.1, b.2, b.3, b.4 || circuit_state_at(b.0, b.1, b.2, b.3, now) == CircuitState::HalfOpen)
}

/// A `u128` count of milliseconds, saturated into `u64`.
pub open spec fn saturate_millis(ms: u128) -> u64 {
    if ms > u64::MAX {
        u64::MAX
    } else {
        ms as u64
    }
}

/// The whole milliseconds in a duration, as `Duration::as_millis` gives
/// them. It depends on the duration alone.
pub uninterp spec fn duration_ms_of(d: std::time::Duration) -> u128;

/// Whole milliseconds in a duration (`Duration::as_millis`). The contract
/// names the result and claims only that it is a function of the
/// duration.
#[verifier::external_body]
fn duration_millis(d: &std::time::Duration) -> (r: u128)
    ensures
        r == duration_ms_of(*d),
{
    d.as_millis()
}

/// Milliseconds elapsed since the Unix epoch on the system clock
/// (`SystemTime::now`, then `duration_since(UNIX_EPOCH)`, 0 when the clock
/// reads earlier than the epoch). The result depends on the time, so
/// nothing is stated of it.
#[verifier::external_body]
fn unix_millis_now() -> u128 {
    std::time::SystemTime::now()
        .duration_since(std::time::UNIX_EPOCH)
        .map_or(0, |d| d.as_millis())
}

/// Saturates a `u128` count of milliseconds into `u64`.
fn saturating_millis(ms: u128) -> (r: u64)
    ensures
        r == saturate_millis(ms),
{
    if ms > u64::MAX as u128 {
        u64::MAX
    } else {
        ms as u64
    }
}

/// Milliseconds since the Unix epoch, saturated into `u64`.
pub fn epoch_ms() -> (r: u64) {
    saturating_millis(unix_millis_now())
}

impl CircuitBreaker {
    /// Failure count at which the circuit opens.
    pub closed spec fn spec_threshold(&self) -> u32 {
        self.threshold
    }

    /// Cooldown in milliseconds.
    pub closed spec fn spec_cooldown_ms(&self) -> u64 {
        self.cooldown_ms
    }

    /// Consecutive failures recorded since the last success.
    pub closed spec fn spec_failures(&self) -> u32 {
        self.consecutive_failures
    }

    /// Time of the last recorded failure (milliseconds since the epoch).
    pub closed spec fn spec_last_failure(&self) -> u64 {
        self.last_failure_epoch_ms
    }

    /// Whether a half-open probe has been let through and its outcome is
    /// not yet recorded.
    pub closed spec fn spec_probe_out(&self) -> bool {
        self.probe_out
    }

    /// The breaker's content: (threshold, cooldown, failures, last failure,
    /// probe out).
    pub open spec fn view(&self) -> (u32, u64, u32, u64, bool) {
        (self.spec_threshold(), self.spec_cooldown_ms(), self.spec_failures(), self.spec_last_failure(), self.spec_probe_out())
    }

    /// The breaker's state at time `now`.
    pub open spec fn state_spec(&self, now: u64) -> CircuitState {
        circuit_state_at(
            self.spec_threshold(),
            self.spec_cooldown_ms(),
            self.spec_failures(),
            self.spec_last_failure(),
            now,
        )
    }

    /// A closed breaker that opens after `threshold` consecutive failures
    /// and half-opens `cooldown_ms` milliseconds after the last one.
    pub fn with_cooldown_ms(threshold: u32, cooldown_ms: u64) -> (r: CircuitBreaker)
        ensures
            r.spec_threshold() == threshold,
            r.spec_cooldown_ms() == cooldown_ms,
            r.spec_failures() == 0,
            r.spec_last_failure() == 0,
            !r.spec_probe_out(),
    {
        CircuitBreaker {
            threshold,
            cooldown_ms,
            consecutive_failures: 0,
            last_failure_epoch_ms: 0,
            probe_out: false,
        }
    }

    /// A closed breaker that opens after `threshold` consecutive failures
    /// and half-opens `cooldown` after the last one (in whole
    /// milliseconds, saturated into `u64`).
    pub fn new(threshold: u32, cooldown: std::time::Duration) -> (r: CircuitBreaker)
        ensures
            r.spec_threshold() == threshold,
            r.spec_failures() == 0,
            r.spec_last_failure() == 0,
            !r.spec_probe_out(),
            r.spec_cooldown_ms() == saturate_millis(duration_ms_of(cooldown)),
    {
        let ms = duration_millis(&cooldown);
        Self::with_cooldown_ms(threshold, saturating_millis(ms))
    }

    /// A breaker configured from settings text: the threshold (default 5)
    /// and the cooldown in seconds (default 5), each read as an unsigned
    /// integer of its type, the default standing where the text is absent
    /// or does not read.
    pub fn from_env(threshold: Option<&str>, cooldown_secs: Option<&str>) -> (r: CircuitBreaker)
        ensures
            r.spec_threshold() == setting_or(threshold, u32::MAX as nat, 5),
            r.spec_cooldown_ms() == saturate_millis(
                (setting_or(cooldown_secs, u64::MAX as nat, 5) * 1000) as u128,
            ),
            r.spec_failures() == 0,
            r.spec_last_failure() == 0,
            !r.spec_probe_out(),
    {
        let t = read_setting(threshold, u32::MAX as u64, 5);
        let secs = read_setting(cooldown_secs, u64::MAX, 5);
        let ms: u128 = secs as u128 * 1000;
        Self::with_cooldown_ms(t as u32, saturating_millis(ms))
    }

    /// The state at time `now` (milliseconds since the epoch).
    pub fn state_at(&self, now: u64) -> (r: CircuitState)
        ensures
            r == self.state_spec(now),
    {
        if self.consecutive_failures < self.threshold {
            return CircuitState::Closed;
        }
        let elapsed = now.saturating_sub(self.last_failure_epoch_ms);
        if elapsed >= self.cooldown_ms {
            CircuitState::HalfOpen
        } else {
            CircuitState::Open
        }
    }

    /// Current circuit state, read against the system clock.
    pub fn state(&self) -> (r: CircuitState)
        ensures
            exists|now: u64| r == self.state_spec(now),
            (r == CircuitState::Closed) == (self.spec_failures() < self.spec_threshold()),
    {
        let now = epoch_ms();
        self.state_at(now)
    }

    /// Whether the circuit would let a request through at time `now`,
    /// without letting it through.
    pub fn admits_at(&self, now: u64) -> (r: bool)
        ensures
            r == breaker_admits(self.view(), now),
    {
        match self.state_at(now) {
            CircuitState::Closed => true,
            CircuitState::Open => false,
            CircuitState::HalfOpen => !self.probe_out,
        }
    }

    /// Whether the circuit lets a request through at time `now`: always
    /// when closed, never when open; when half-open, the first request is
    /// let through as the probe and later ones are refused until the
    /// probe's outcome is recorded.
    pub fn is_allowed_at(&mut self, now: u64) -> (r: bool)
        ensures
            r == breaker_admits(old(self).view(), now),
            final(self).view() == breaker_after_admit(old(self).view(), now),
    {
        let r = self.admits_at(now);
        if let CircuitState::HalfOpen = self.state_at(now) {
            self.probe_out = true;
        }
        r
    }

    /// Whether the circuit lets a request through now (see
    /// `is_allowed_at`), read against the system clock.
    pub fn is_allowed(&mut self) -> (r: bool)
        ensures
            exists|now: u64| r == breaker_admits(old(self).view(), now)
                && final(self).view() == breaker_after_admit(old(self).view(), now),
            old(self).spec_failures() < old(self).spec_threshold() ==> r && final(self).view() == old(self).view(),
    {
        let now = epoch_ms();
        self.is_allowed_at(now)
    }

    /// Record a successful call: resets the failure counter and ends any
    /// probe.
    pub fn record_success(&mut self)
        ensures
            final(self).spec_failures() == 0,
            !final(self).spec_probe_out(),
            final(self).spec_threshold() == old(self).spec_threshold(),
            final(self).spec_cooldown_ms() == old(self).spec_cooldown_ms(),
            final(self).spec_last_failure() == old(self).spec_last_failure(),
    {
        self.consecutive_failures = 0;
        self.probe_out = false;
    }

    /// Record a failed call at time `now`: increments the counter
    /// (wrapping), stamps the failure time and ends any probe.
    pub fn record_failure_at(&mut self, now: u64)
        ensures
            final(self).spec_failures() == old(self).spec_failures().wrapping_add(1),
            final(self).spec_last_failure() == now,
            !final(self).spec_probe_out(),
            final(self).spec_threshold() == old(self).spec_threshold(),
            final(self).spec_cooldown_ms() == old(self).spec_cooldown_ms(),
    {
        self.consecutive_failures = self.consecutive_failures.wrapping_add(1);
        self.last_failure_epoch_ms = now;
        self.probe_out = false;
    }

    /// Record a failed call now: increments the counter (wrapping), stamps
    /// the failure time from the system clock and ends any probe.
    pub fn record_failure(&mut self)
        ensures
            final(self).spec_failures() == old(self).spec_failures().wrapping_add(1),
            !final(self).spec_probe_out(),
            final(self).spec_threshold() == old(self).spec_threshold(),
            final(self).spec_cooldown_ms() == old(self).spec_cooldown_ms(),
    {
        let now = epoch_ms();
        self.record_failure_at(now);
    }
}

/// A setting read as an unsigned integer no greater than `max`, or
/// `default` where it is absent or does not read.
pub open spec fn setting_or(text: Option<&str>, max: nat, default: nat) -> nat {
    match text {
        Some(t) => match crate::text::parse_unsigned(t@, max) {
            Some(v) => v,
            None => default,
        },
        None => default,
    }
}

/// Reads a setting as an unsigned integer no greater than `max`, falling
/// back to `default`.
pub fn read_setting(text: Option<&str>, max: u64, default: u64) -> (r: u64)
    requires
        default <= max,
    ensures
        r == setting_or(text, max as nat, default as nat),
        r <= max,
{
    match text {
        Some(t) => match crate::text::parse_unsigned_max(t, max) {
            Some(v) => v,
            None => default,
        },
        None => default,
    }
}

/// Whether an IPC error is transient and worth retrying: the same
/// classification as [`IpcError::is_recoverable`].
pub fn is_recoverable(err: &IpcError) -> (r: bool)
    ensures
        r == (err is ConnectionRefused || err is ConnectionReset || err is Timeout
            || err is ApplicationError),
{
    err.is_recoverable()
}

/// A success closes the circuit: with no failures counted, a breaker whose
/// threshold is positive is closed at every time.
pub proof fn law_success_closes(threshold: u32, cooldown_ms: u64, last_failure: u64, now: u64)
    requires
        threshold > 0,
    ensures
        circuit_state_at(threshold, cooldown_ms, 0, last_failure, now) == CircuitState::Closed,
{
}

/// Fewer consecutive failures than the threshold keep the circuit closed;
/// reaching it opens the circuit at the moment of the failure (for a
/// positive cooldown).
pub proof fn law_threshold_opens(threshold: u32, cooldown_ms: u64, failures: u32, now: u64)
    requires
        cooldown_ms > 0,
    ensures
        failures < threshold ==> circuit_state_at(threshold, cooldown_ms, failures, now, now) == CircuitState::Closed,
        failures >= threshold ==> circuit_state_at(threshold, cooldown_ms, failures, now, now) == CircuitState::Open,
{
}

/// Once the cooldown has elapsed since the last failure, an open circuit
/// lets a probe through (half-open); before that it stays open.
pub proof fn law_cooldown_half_opens(threshold: u32, cooldown_ms: u64, failures: u32, last_failure: u64, now: u64)
    requires
        failures >= threshold,
        now >= last_failure,
    ensures
        now - last_failure >= cooldown_ms ==> circuit_state_at(threshold, cooldown_ms, failures, last_failure, now)
            == CircuitState::HalfOpen,
        now - last_failure < cooldown_ms ==> circuit_state_at(threshold, cooldown_ms, failures, last_failure, now)
            == CircuitState::Open,
{
}

/// While half-open, one probe is let through: a breaker that lets a
/// request through at `now` while half-open refuses every further request,
/// at any time, until an outcome is recorded.
pub proof fn law_half_open_admits_one_probe(b: (u32, u64, u32, u64, bool), now: u64, later: u64)
    requires
        circuit_state_at(b.0, b.1, b.2, b.3, now) == CircuitState::HalfOpen,
        breaker_admits(b, now),
    ensures
        !breaker_admits(breaker_after_admit(b, now), later),
{
}

} // verus!
