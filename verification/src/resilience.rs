//! Dealing with failing backends: how long to wait before a retry, and when to leave a backend
//! alone.
//!
//! Each backend has a circuit. Failures in a row open it, and no request goes to the backend then.
//! After a while it is half open: requests go through as probes, enough successes close it, and
//! any failure opens it again.

use vstd::arithmetic::power2::*;
use vstd::prelude::*;

use crate::config::ResilienceConfig;
use crate::ids;
use crate::ids::BackendId;
use crate::table::{KeyView, Table};

verus! {

/// Waiting times before retries, in milliseconds.
#[derive(Clone, Copy, Debug, PartialEq, Eq, Structural)]
pub struct RetryPolicy {
    base_ms: u64,
    max_ms: u64,
}

/// The waiting time after an attempt failed: the base, doubled for each attempt before, but no more
/// than the maximum.
pub open spec fn backoff_ms(base_ms: u64, max_ms: u64, attempt: u32) -> nat {
    let delay = base_ms as nat * pow2(attempt as nat);
    if delay > max_ms {
        max_ms as nat
    } else {
        delay
    }
}

proof fn lemma_doubles(base: nat, i: nat)
    ensures
        base * pow2(i + 1) == 2 * (base * pow2(i)),
{
    lemma_pow2_unfold(i + 1);
    assert(base * (2 * pow2(i)) == 2 * (base * pow2(i))) by (nonlinear_arith);
}

proof fn lemma_grows(base: nat, i: nat, j: nat)
    requires
        i <= j,
    ensures
        base * pow2(i) <= base * pow2(j),
    decreases j - i,
{
    if i < j {
        lemma_grows(base, i, (j - 1) as nat);
        lemma_doubles(base, (j - 1) as nat);
    }
}

impl RetryPolicy {
    /// The first waiting time.
    pub closed spec fn base(&self) -> u64 {
        self.base_ms
    }

    /// The longest waiting time.
    pub closed spec fn max(&self) -> u64 {
        self.max_ms
    }

    /// A policy with the given waiting times.
    pub fn new(base_ms: u64, max_ms: u64) -> (policy: Self)
        ensures
            policy.base() == base_ms,
            policy.max() == max_ms,
    {
        RetryPolicy { base_ms, max_ms }
    }

    /// The waiting time after attempt number `attempt`, counted from zero, failed.
    pub fn backoff(&self, attempt: u32) -> (delay_ms: u64)
        ensures
            delay_ms == backoff_ms(self.base(), self.max(), attempt),
    {
        let base: u64 = self.base_ms;
        let max: u64 = self.max_ms;
        if base == 0 {
            assert(0 * pow2(attempt as nat) == 0);
            return 0;
        }
        let mut delay: u128 = base as u128;
        let mut i: u32 = 0;
        proof {
            lemma2_to64();
            assert(base as nat * pow2(0) == base);
        }
        while i < attempt && delay <= max as u128
            invariant
                i <= attempt,
                base > 0,
                delay == base as nat * pow2(i as nat),
                delay <= 2 * u64::MAX,
            decreases attempt - i,
        {
            proof {
                lemma_doubles(base as nat, i as nat);
            }
            delay = delay * 2;
            i = i + 1;
        }
        if delay > max as u128 {
            proof {
                lemma_grows(base as nat, i as nat, attempt as nat);
            }
            max
        } else {
            delay as u64
        }
    }
}

impl Default for RetryPolicy {
    fn default() -> (policy: Self)
        ensures
            policy.base() == 50,
            policy.max() == 1_000,
    {
        let config: ResilienceConfig = ResilienceConfig::default();
        RetryPolicy::new(config.retry_backoff_ms, config.retry_max_backoff_ms)
    }
}

/// A later retry waits no less than an earlier one, and none waits longer than the maximum.
pub proof fn waiting_times_grow_to_the_maximum(base_ms: u64, max_ms: u64, earlier: u32, later: u32)
    requires
        earlier <= later,
    ensures
        backoff_ms(base_ms, max_ms, earlier) <= backoff_ms(base_ms, max_ms, later) <= max_ms,
{
    lemma_grows(base_ms as nat, earlier as nat, later as nat);
}

/// Whether requests go to a backend.
#[derive(Clone, Copy, Debug, PartialEq, Eq, Structural)]
pub enum CircuitState {
    /// They do.
    Closed,
    /// They do not.
    Open,
    /// They do, as probes.
    HalfOpen,
}

/// State of a backend's circuit.
#[derive(Clone, Copy, Debug, PartialEq, Eq, Structural)]
pub enum BreakerState {
    /// Requests go through.
    Closed {
        /// Failures in a row.
        consecutive_failures: u32,
    },
    /// No request goes through.
    Open {
        /// Since when, in milliseconds.
        opened_at_ms: u64,
    },
    /// Requests go through as probes.
    HalfOpen {
        /// Successes in a row.
        consecutive_successes: u32,
    },
}

/// A circuit that has seen no failure.
pub open spec fn untouched() -> BreakerState {
    BreakerState::Closed { consecutive_failures: 0 }
}

/// Settings and circuits.
#[verifier::ext_equal]
pub struct BreakersView {
    /// Failures in a row that open a circuit.
    pub failure_threshold: u32,
    /// Seconds before an open circuit is half open.
    pub cooldown_secs: u64,
    /// Successes in a row that close a half-open circuit.
    pub success_threshold: u32,
    /// Circuits that were touched.
    pub circuits: Map<KeyView, BreakerState>,
}

impl BreakersView {
    /// The circuit of a backend.
    pub open spec fn circuit(self, key: KeyView) -> BreakerState {
        if self.circuits.contains_key(key) {
            self.circuits[key]
        } else {
            untouched()
        }
    }

    /// Whether a circuit that opened at `opened_at_ms` has cooled down at `now_ms`.
    pub open spec fn cooled_down(self, opened_at_ms: u64, now_ms: u64) -> bool {
        elapsed_ms(opened_at_ms, now_ms) >= self.cooldown_secs * 1000
    }

    /// A circuit as it is at `now_ms`: one that has cooled down is half open.
    pub open spec fn at(self, circuit: BreakerState, now_ms: u64) -> BreakerState {
        match circuit {
            BreakerState::Open { opened_at_ms } => if self.cooled_down(opened_at_ms, now_ms) {
                BreakerState::HalfOpen { consecutive_successes: 0 }
            } else {
                circuit
            },
            _ => circuit,
        }
    }

    /// A circuit after a success.
    pub open spec fn after_success(self, circuit: BreakerState) -> BreakerState {
        match circuit {
            BreakerState::HalfOpen { consecutive_successes } => if consecutive_successes + 1
                >= self.success_threshold {
                untouched()
            } else {
                BreakerState::HalfOpen {
                    consecutive_successes: (consecutive_successes + 1) as u32,
                }
            },
            _ => untouched(),
        }
    }

    /// A circuit after a failure at `now_ms`.
    pub open spec fn after_failure(self, circuit: BreakerState, now_ms: u64) -> BreakerState {
        match circuit {
            BreakerState::Closed { consecutive_failures } => if consecutive_failures + 1
                >= self.failure_threshold {
                BreakerState::Open { opened_at_ms: now_ms }
            } else {
                BreakerState::Closed { consecutive_failures: (consecutive_failures + 1) as u32 }
            },
            _ => BreakerState::Open { opened_at_ms: now_ms },
        }
    }

    /// The circuits with another state for one backend.
    pub open spec fn with(self, key: KeyView, circuit: BreakerState) -> BreakersView {
        BreakersView { circuits: self.circuits.insert(key, circuit), ..self }
    }
}

/// Milliseconds from one time to another; none if the other is earlier.
pub open spec fn elapsed_ms(from_ms: u64, to_ms: u64) -> nat {
    if to_ms >= from_ms {
        (to_ms - from_ms) as nat
    } else {
        0
    }
}

/// Whether requests go to a backend with a circuit.
pub open spec fn shown(circuit: BreakerState) -> CircuitState {
    match circuit {
        BreakerState::Closed { .. } => CircuitState::Closed,
        BreakerState::Open { .. } => CircuitState::Open,
        BreakerState::HalfOpen { .. } => CircuitState::HalfOpen,
    }
}

/// The circuits of all backends. Times are in milliseconds.
pub struct CircuitBreakerRegistry {
    failure_threshold: u32,
    cooldown_secs: u64,
    success_threshold: u32,
    breakers: Table<BreakerState>,
}

impl View for CircuitBreakerRegistry {
    type V = BreakersView;

    closed spec fn view(&self) -> BreakersView {
        BreakersView {
            failure_threshold: self.failure_threshold,
            cooldown_secs: self.cooldown_secs,
            success_threshold: self.success_threshold,
            circuits: self.breakers@,
        }
    }
}

impl CircuitBreakerRegistry {
    /// A closed circuit has seen fewer failures than open it, and a half-open one fewer successes
    /// than close it.
    pub closed spec fn wf(&self) -> bool {
        &&& self.breakers.wf()
        &&& self.success_threshold >= 1
        &&& forall|key: KeyView| #[trigger]
            self.breakers@.contains_key(key) ==> match self.breakers@[key] {
                BreakerState::Closed { consecutive_failures } => consecutive_failures == 0
                    || consecutive_failures < self.failure_threshold,
                BreakerState::HalfOpen { consecutive_successes } => consecutive_successes
                    < self.success_threshold,
                BreakerState::Open { .. } => true,
            }
    }

    /// Closed circuits for all backends.
    pub fn new(config: &ResilienceConfig) -> (registry: Self)
        ensures
            registry.wf(),
            registry@ == (BreakersView {
                failure_threshold: config.circuit_breaker_failure_threshold,
                cooldown_secs: config.circuit_breaker_cooldown_secs,
                success_threshold: if config.half_open_success_threshold == 0 {
                    1
                } else {
                    config.half_open_success_threshold
                },
                circuits: Map::empty(),
            }),
            registry@ == set_up(*config),
    {
        CircuitBreakerRegistry {
            failure_threshold: config.circuit_breaker_failure_threshold,
            cooldown_secs: config.circuit_breaker_cooldown_secs,
            success_threshold: if config.half_open_success_threshold == 0 {
                1
            } else {
                config.half_open_success_threshold
            },
            breakers: Table::new(),
        }
    }

    fn circuit(&self, id: &BackendId) -> (circuit: BreakerState)
        requires
            self.wf(),
        ensures
            circuit == self@.circuit(ids::backend_key(id@)),
            match circuit {
                BreakerState::Closed { consecutive_failures } => consecutive_failures == 0
                    || consecutive_failures < self.failure_threshold,
                BreakerState::HalfOpen { consecutive_successes } => consecutive_successes
                    < self.success_threshold,
                BreakerState::Open { .. } => true,
            },
    {
        match self.breakers.get(&id.table_key()) {
            Some(circuit) => *circuit,
            None => BreakerState::Closed { consecutive_failures: 0 },
        }
    }

    fn cooled(&self, circuit: BreakerState, now_ms: u64) -> (now: BreakerState)
        ensures
            now == self@.at(circuit, now_ms),
    {
        match circuit {
            BreakerState::Open { opened_at_ms } => {
                let elapsed: u64 = if now_ms >= opened_at_ms {
                    now_ms - opened_at_ms
                } else {
                    0
                };
                if elapsed as u128 >= self.cooldown_secs as u128 * 1000 {
                    BreakerState::HalfOpen { consecutive_successes: 0 }
                } else {
                    circuit
                }
            },
            _ => circuit,
        }
    }

    /// Whether a request may go to a backend at `now_ms`. A circuit that has cooled down becomes
    /// half open.
    pub fn allow(&mut self, id: &BackendId, now_ms: u64) -> (allowed: bool)
        requires
            old(self).wf(),
        ensures
            final(self).wf(),
            ({
                let key = ids::backend_key(id@);
                let circuit = old(self)@.at(old(self)@.circuit(key), now_ms);
                &&& final(self)@ == old(self)@.with(key, circuit)
                &&& allowed == (shown(circuit) != CircuitState::Open)
            }),
            final(self)@ == old(self)@.asked(ids::backend_key(id@), now_ms).0,
            allowed == old(self)@.asked(ids::backend_key(id@), now_ms).1,
    {
        let before: BreakerState = self.circuit(id);
        let circuit: BreakerState = self.cooled(before, now_ms);
        self.breakers.insert(id.table_key(), circuit);
        match circuit {
            BreakerState::Open { .. } => false,
            _ => true,
        }
    }

    /// Notes a success.
    pub fn on_success(&mut self, id: &BackendId)
        requires
            old(self).wf(),
        ensures
            final(self).wf(),
            final(self)@ == old(self)@.with(
                ids::backend_key(id@),
                old(self)@.after_success(old(self)@.circuit(ids::backend_key(id@))),
            ),
    {
        let circuit: BreakerState = match self.circuit(id) {
            BreakerState::HalfOpen { consecutive_successes } => {
                let successes: u32 = consecutive_successes + 1;
                if successes >= self.success_threshold {
                    BreakerState::Closed { consecutive_failures: 0 }
                } else {
                    BreakerState::HalfOpen { consecutive_successes: successes }
                }
            },
            _ => BreakerState::Closed { consecutive_failures: 0 },
        };
        self.breakers.insert(id.table_key(), circuit);
    }

    /// Notes a failure at `now_ms`.
    pub fn on_failure(&mut self, id: &BackendId, now_ms: u64)
        requires
            old(self).wf(),
        ensures
            final(self).wf(),
            final(self)@ == old(self)@.with(
                ids::backend_key(id@),
                old(self)@.after_failure(old(self)@.circuit(ids::backend_key(id@)), now_ms),
            ),
    {
        let circuit: BreakerState = match self.circuit(id) {
            BreakerState::Closed { consecutive_failures } => {
                let failures: u32 = consecutive_failures + 1;
                if failures >= self.failure_threshold {
                    BreakerState::Open { opened_at_ms: now_ms }
                } else {
                    BreakerState::Closed { consecutive_failures: failures }
                }
            },
            _ => BreakerState::Open { opened_at_ms: now_ms },
        };
        self.breakers.insert(id.table_key(), circuit);
    }

    /// Whether requests go to a backend at `now_ms`.
    pub fn state(&self, id: &BackendId, now_ms: u64) -> (state: CircuitState)
        requires
            self.wf(),
        ensures
            state == shown(self@.at(self@.circuit(ids::backend_key(id@)), now_ms)),
    {
        let circuit: BreakerState = self.circuit(id);
        match self.cooled(circuit, now_ms) {
            BreakerState::Closed { .. } => CircuitState::Closed,
            BreakerState::Open { .. } => CircuitState::Open,
            BreakerState::HalfOpen { .. } => CircuitState::HalfOpen,
        }
    }

    /// Closes all circuits.
    pub fn reset(&mut self)
        requires
            old(self).wf(),
        ensures
            final(self).wf(),
            final(self)@ == (BreakersView { circuits: Map::empty(), ..old(self)@ }),
    {
        self.breakers.clear();
    }
}

/// The circuit of a backend after failures in a row, at the given times.
pub open spec fn after_failures(breakers: BreakersView, circuit: BreakerState, times: Seq<u64>) -> BreakerState
    decreases times.len(),
{
    if times.len() == 0 {
        circuit
    } else {
        breakers.after_failure(after_failures(breakers, circuit, times.drop_last()), times.last())
    }
}

/// As many failures in a row as the threshold says open a circuit that has seen none, at the time
/// of the last; fewer leave it closed.
pub proof fn failures_in_a_row_open_a_circuit(breakers: BreakersView, times: Seq<u64>)
    requires
        times.len() <= breakers.failure_threshold,
    ensures
        times.len() < breakers.failure_threshold ==> after_failures(breakers, untouched(), times)
            == (BreakerState::Closed { consecutive_failures: times.len() as u32 }),
        0 < times.len() == breakers.failure_threshold ==> after_failures(
            breakers,
            untouched(),
            times,
        ) == (BreakerState::Open { opened_at_ms: times.last() }),
    decreases times.len(),
{
    if times.len() > 0 {
        failures_in_a_row_open_a_circuit(breakers, times.drop_last());
    }
}

/// A success ends a row of failures.
pub proof fn a_success_ends_a_row_of_failures(breakers: BreakersView, failures: u32)
    ensures
        breakers.after_success(BreakerState::Closed { consecutive_failures: failures })
            == untouched(),
{
}

/// The circuit of a backend after successes in a row.
pub open spec fn after_successes(breakers: BreakersView, circuit: BreakerState, n: nat) -> BreakerState
    decreases n,
{
    if n == 0 {
        circuit
    } else {
        breakers.after_success(after_successes(breakers, circuit, (n - 1) as nat))
    }
}

/// As many successes in a row as the threshold says close a half-open circuit; fewer leave it half
/// open, and a failure opens it again.
pub proof fn probes_close_a_half_open_circuit(breakers: BreakersView, n: nat, now_ms: u64)
    requires
        1 <= n <= breakers.success_threshold,
    ensures
        ({
            let half_open = BreakerState::HalfOpen { consecutive_successes: 0 };
            &&& n < breakers.success_threshold ==> after_successes(breakers, half_open, n)
                == BreakerState::HalfOpen { consecutive_successes: n as u32 }
            &&& n == breakers.success_threshold ==> after_successes(breakers, half_open, n)
                == untouched()
            &&& n < breakers.success_threshold ==> breakers.after_failure(
                after_successes(breakers, half_open, n),
                now_ms,
            ) == BreakerState::Open { opened_at_ms: now_ms }
        }),
    decreases n,
{
    if n > 1 {
        probes_close_a_half_open_circuit(breakers, (n - 1) as nat, now_ms);
    } else {
        assert(after_successes(breakers, BreakerState::HalfOpen { consecutive_successes: 0 }, 0)
            == (BreakerState::HalfOpen { consecutive_successes: 0 }));
    }
}

/// No request goes to a backend from the time its circuit opened until it has cooled down, and
/// requests do from then on.
pub proof fn an_open_circuit_cools_down(breakers: BreakersView, opened_at_ms: u64, now_ms: u64)
    requires
        now_ms >= opened_at_ms,
    ensures
        ({
            let circuit = BreakerState::Open { opened_at_ms };
            shown(breakers.at(circuit, now_ms)) == if now_ms - opened_at_ms
                >= breakers.cooldown_secs * 1000 {
                CircuitState::HalfOpen
            } else {
                CircuitState::Open
            }
        }),
{
}

/// What happens to one backend's circuit leaves all others as they are.
pub proof fn circuits_are_independent(
    breakers: BreakersView,
    key: KeyView,
    circuit: BreakerState,
    other: KeyView,
)
    requires
        other != key,
    ensures
        breakers.with(key, circuit).circuit(other) == breakers.circuit(other),
{
}

/// The first retry waits the base, if the maximum allows it, and each further one twice as long as
/// the one before, up to the maximum.
pub proof fn each_retry_waits_twice_as_long(base_ms: u64, max_ms: u64, attempt: u32)
    requires
        attempt < u32::MAX,
    ensures
        backoff_ms(base_ms, max_ms, 0) == if base_ms <= max_ms {
            base_ms
        } else {
            max_ms
        },
        ({
            let doubled = 2 * backoff_ms(base_ms, max_ms, attempt);
            let next = backoff_ms(base_ms, max_ms, (attempt + 1) as u32);
            &&& doubled <= max_ms ==> next == doubled
            &&& doubled > max_ms ==> next == max_ms
        }),
{
    lemma2_to64();
    assert(base_ms as nat * pow2(0) == base_ms) by (nonlinear_arith)
        requires
            pow2(0) == 1,
    ;
    lemma_doubles(base_ms as nat, attempt as nat);
}

/// A failure of a backend whose circuit is open or half open, whatever it has seen since, opens the
/// circuit from that time on: no request goes to the backend before the cooldown has passed, and
/// probes do after that.
pub proof fn a_failed_probe_opens_the_circuit(
    breakers: BreakersView,
    key: KeyView,
    now_ms: u64,
    later_ms: u64,
)
    requires
        !(breakers.circuit(key) is Closed),
        later_ms >= now_ms,
    ensures
        ({
            let after = breakers.with(key, breakers.after_failure(breakers.circuit(key), now_ms));
            &&& after.circuit(key) == (BreakerState::Open { opened_at_ms: now_ms })
            &&& later_ms - now_ms < breakers.cooldown_secs * 1000 ==> shown(
                after.at(after.circuit(key), later_ms),
            ) == CircuitState::Open
            &&& later_ms - now_ms >= breakers.cooldown_secs * 1000 ==> shown(
                after.at(after.circuit(key), later_ms),
            ) == CircuitState::HalfOpen
        }),
{
}

/// A failure of a backend whose circuit is closed is one more in a row: it opens the circuit, from
/// that time on, when that makes as many as the threshold or more, and leaves it closed otherwise.
pub proof fn a_failure_counts_towards_the_threshold(
    breakers: BreakersView,
    key: KeyView,
    failures: u32,
    now_ms: u64,
)
    requires
        breakers.circuit(key) == (BreakerState::Closed { consecutive_failures: failures }),
    ensures
        ({
            let after = breakers.with(key, breakers.after_failure(breakers.circuit(key), now_ms));
            &&& failures + 1 >= breakers.failure_threshold ==> after.circuit(key) == (
            BreakerState::Open { opened_at_ms: now_ms })
            &&& failures + 1 < breakers.failure_threshold ==> (after.circuit(key) matches
                BreakerState::Closed { consecutive_failures } && consecutive_failures == failures + 1)
        }),
{
}

/// A success closes a circuit that is open or closed, with no failure counted. It is one more in a
/// row for one that is half open: that closes when the successes are as many as the threshold, and
/// stays half open until then.
pub proof fn a_success_counts_towards_closing(breakers: BreakersView, key: KeyView)
    ensures
        ({
            let after = breakers.with(key, breakers.after_success(breakers.circuit(key)));
            match breakers.circuit(key) {
                BreakerState::HalfOpen { consecutive_successes } => {
                    &&& consecutive_successes + 1 >= breakers.success_threshold ==> after.circuit(
                        key,
                    ) == (BreakerState::Closed { consecutive_failures: 0 })
                    &&& consecutive_successes + 1 < breakers.success_threshold ==> (after.circuit(
                        key,
                    ) matches BreakerState::HalfOpen { consecutive_successes: n } && n
                        == consecutive_successes + 1)
                },
                _ => after.circuit(key) == (BreakerState::Closed { consecutive_failures: 0 }),
            }
        }),
{
}

/// Asking whether a request may go changes a circuit only when it was open and has cooled down: then
/// it is half open with no success counted. A backend of which nothing is known has a closed circuit.
pub proof fn asking_opens_and_closes_nothing(breakers: BreakersView, key: KeyView, now_ms: u64)
    ensures
        ({
            let asked = breakers.at(breakers.circuit(key), now_ms);
            match breakers.circuit(key) {
                BreakerState::Open { opened_at_ms } => {
                    &&& now_ms < opened_at_ms && breakers.cooldown_secs > 0 ==> asked
                        == breakers.circuit(key)
                    &&& opened_at_ms <= now_ms < opened_at_ms + breakers.cooldown_secs * 1000
                        ==> asked == breakers.circuit(key)
                    &&& now_ms >= opened_at_ms + breakers.cooldown_secs * 1000 ==> asked == (
                    BreakerState::HalfOpen { consecutive_successes: 0 })
                },
                _ => asked == breakers.circuit(key),
            }
        }),
        !breakers.circuits.contains_key(key) ==> breakers.circuit(key) == (BreakerState::Closed {
            consecutive_failures: 0,
        }),
        shown(breakers.circuit(key)) == CircuitState::Open <==> breakers.circuit(key) is Open,
        shown(breakers.circuit(key)) == CircuitState::Closed <==> breakers.circuit(key) is Closed,
{
}

/// What is noted of a backend's circuit is read back, and leaves the settings as they are.
pub proof fn a_noted_circuit_is_read_back(
    breakers: BreakersView,
    key: KeyView,
    circuit: BreakerState,
)
    ensures
        breakers.with(key, circuit).circuit(key) == circuit,
        breakers.with(key, circuit).failure_threshold == breakers.failure_threshold,
        breakers.with(key, circuit).success_threshold == breakers.success_threshold,
        breakers.with(key, circuit).cooldown_secs == breakers.cooldown_secs,
{
}

/// A registry as its configuration sets it up.
pub open spec fn set_up(config: ResilienceConfig) -> BreakersView {
    BreakersView {
        failure_threshold: config.circuit_breaker_failure_threshold,
        cooldown_secs: config.circuit_breaker_cooldown_secs,
        success_threshold: if config.half_open_success_threshold == 0 {
            1
        } else {
            config.half_open_success_threshold
        },
        circuits: Map::empty(),
    }
}

impl BreakersView {
    /// After a request to a backend was asked for, and whether it may go on.
    pub open spec fn asked(self, key: KeyView, now_ms: u64) -> (BreakersView, bool) {
        let circuit = self.at(self.circuit(key), now_ms);
        (self.with(key, circuit), shown(circuit) != CircuitState::Open)
    }
}

/// A registry that was set up lets every request through, opens a circuit after as many failures in a
/// row as configured, and closes a half-open one after as many successes, but at least one.
pub proof fn a_new_registry_lets_requests_through(
    config: ResilienceConfig,
    key: KeyView,
    now_ms: u64,
)
    ensures
        set_up(config).asked(key, now_ms).1,
        set_up(config).circuit(key) == (BreakerState::Closed { consecutive_failures: 0 }),
        set_up(config).failure_threshold == config.circuit_breaker_failure_threshold,
        set_up(config).cooldown_secs == config.circuit_breaker_cooldown_secs,
        set_up(config).success_threshold >= 1,
        config.half_open_success_threshold >= 1 ==> set_up(config).success_threshold
            == config.half_open_success_threshold,
        config.half_open_success_threshold <= 1 ==> set_up(config).after_success(
            BreakerState::HalfOpen { consecutive_successes: 0 },
        ) == (BreakerState::Closed { consecutive_failures: 0 }),
{
}

/// A request is held back if and only if its backend's circuit was opened and the cooldown has not
/// passed since; one that is let through after it finds the circuit half open. Other circuits are not
/// touched.
pub proof fn requests_are_held_back_during_the_cooldown(
    breakers: BreakersView,
    key: KeyView,
    now_ms: u64,
    other: KeyView,
)
    requires
        other != key,
    ensures
        ({
            let (after, allowed) = breakers.asked(key, now_ms);
            let circuit = breakers.circuit(key);
            &&& circuit matches BreakerState::Open { opened_at_ms } ==> (allowed <==> (if now_ms
                >= opened_at_ms {
                now_ms - opened_at_ms
            } else {
                0
            }) >= breakers.cooldown_secs * 1000)
            &&& !(circuit is Open) ==> allowed && after.circuit(key) == circuit
            &&& circuit is Open && allowed ==> after.circuit(key) == (BreakerState::HalfOpen {
                consecutive_successes: 0,
            })
            &&& !allowed ==> after.circuit(key) == circuit
            &&& after.circuit(other) == breakers.circuit(other)
        }),
{
}

} // verus!
