//! Tenants: their priorities, quotas, and what they have used.

use vstd::prelude::*;

use crate::ids::TenantId;
use crate::metrics::RealBits;

verus! {

/// Priority of a tenant; later ones are more important.
#[derive(Clone, Copy, Debug, PartialEq, Eq, PartialOrd, Ord, Hash, Structural)]
pub enum TenantPriority {
    /// Batch work, shed first under load.
    Background,
    /// The usual level.
    Normal,
    /// Reserved capacity, never starved.
    Premium,
}

impl Default for TenantPriority {
    fn default() -> (priority: Self)
        ensures
            priority == TenantPriority::Normal,
    {
        TenantPriority::Normal
    }
}

/// Limits of a tenant; one that is not given does not apply.
#[derive(Debug)]
pub struct TenantQuota {
    /// The tenant.
    pub tenant_id: TenantId,
    /// Its priority.
    pub priority: TenantPriority,
    /// Requests per second.
    pub max_rps: Option<RealBits>,
    /// Input tokens per minute.
    pub max_input_tpm: Option<u64>,
    /// Output tokens per minute.
    pub max_output_tpm: Option<u64>,
    /// Requests at a time.
    pub max_concurrent: Option<u32>,
    /// Share of the capacity that is reserved for the tenant.
    pub reserved_capacity_fraction: RealBits,
}

impl Clone for TenantQuota {
    fn clone(&self) -> (copy: Self)
        ensures
            copy == *self,
    {
        TenantQuota {
            tenant_id: self.tenant_id.clone(),
            priority: self.priority,
            max_rps: self.max_rps,
            max_input_tpm: self.max_input_tpm,
            max_output_tpm: self.max_output_tpm,
            max_concurrent: self.max_concurrent,
            reserved_capacity_fraction: self.reserved_capacity_fraction,
        }
    }
}

/// The quota of a tenant without limits.
pub open spec fn unlimited(
    tenant_id: TenantId,
    priority: TenantPriority,
    reserved: RealBits,
) -> TenantQuota {
    TenantQuota {
        tenant_id,
        priority,
        max_rps: None,
        max_input_tpm: None,
        max_output_tpm: None,
        max_concurrent: None,
        reserved_capacity_fraction: reserved,
    }
}

impl TenantQuota {
    /// A tenant of normal priority without limits.
    pub fn new(tenant_id: TenantId) -> (quota: Self)
        ensures
            quota == unlimited(tenant_id, TenantPriority::Normal, RealBits(0)),
    {
        TenantQuota::with_priority(tenant_id, TenantPriority::default())
    }

    /// A tenant without limits.
    pub fn with_priority(tenant_id: TenantId, priority: TenantPriority) -> (quota: Self)
        ensures
            quota == unlimited(tenant_id, priority, RealBits(0)),
    {
        TenantQuota {
            tenant_id,
            priority,
            max_rps: None,
            max_input_tpm: None,
            max_output_tpm: None,
            max_concurrent: None,
            reserved_capacity_fraction: RealBits(0),
        }
    }

    /// A premium tenant without limits and with reserved capacity.
    pub fn premium(tenant_id: TenantId, reserved_fraction: RealBits) -> (quota: Self)
        ensures
            quota == unlimited(tenant_id, TenantPriority::Premium, reserved_fraction),
    {
        TenantQuota {
            reserved_capacity_fraction: reserved_fraction,
            ..TenantQuota::with_priority(tenant_id, TenantPriority::Premium)
        }
    }

    /// Whether any limit applies.
    pub fn has_any_limit(&self) -> (limited: bool)
        ensures
            limited == (self.max_rps is Some || self.max_input_tpm is Some || self.max_output_tpm
                is Some || self.max_concurrent is Some),
    {
        self.max_rps.is_some() || self.max_input_tpm.is_some() || self.max_output_tpm.is_some()
            || self.max_concurrent.is_some()
    }
}

/// What a tenant has used. Times are in milliseconds.
#[derive(Debug)]
pub struct TenantState {
    /// The tenant.
    pub tenant_id: TenantId,
    /// Its priority.
    pub priority: TenantPriority,
    /// Requests in progress.
    pub in_flight: u32,
    /// Input tokens in the current minute.
    pub input_tokens_this_minute: u64,
    /// Output tokens in the current minute.
    pub output_tokens_this_minute: u64,
    /// Requests in the current second.
    pub requests_this_second: u64,
    /// When the last request came.
    pub last_request_ms: u64,
    /// When the current minute began.
    pub tpm_window_start_ms: u64,
    /// When the current second began.
    pub rps_window_start_ms: u64,
}

/// Length of a token window in milliseconds.
pub const TPM_WINDOW_MS: u64 = 60_000;

/// Length of a request window in milliseconds.
pub const RPS_WINDOW_MS: u64 = 1_000;

/// Whether a window that began at `start` is over at `now`.
pub open spec fn elapsed(start: u64, now: u64, length: u64) -> bool {
    now - start >= length
}

impl TenantState {
    /// A tenant that has used nothing at `now_ms`.
    pub fn new(tenant_id: TenantId, priority: TenantPriority, now_ms: u64) -> (state: Self)
        ensures
            state == (TenantState {
                tenant_id,
                priority,
                in_flight: 0,
                input_tokens_this_minute: 0,
                output_tokens_this_minute: 0,
                requests_this_second: 0,
                last_request_ms: now_ms,
                tpm_window_start_ms: now_ms,
                rps_window_start_ms: now_ms,
            }),
    {
        TenantState {
            tenant_id,
            priority,
            in_flight: 0,
            input_tokens_this_minute: 0,
            output_tokens_this_minute: 0,
            requests_this_second: 0,
            last_request_ms: now_ms,
            tpm_window_start_ms: now_ms,
            rps_window_start_ms: now_ms,
        }
    }

    /// Begins a new minute at `now_ms` if the current one is over.
    pub fn maybe_reset_tpm_window(&mut self, now_ms: u64)
        ensures
            *final(self) == (if elapsed(old(self).tpm_window_start_ms, now_ms, TPM_WINDOW_MS) {
                TenantState {
                    input_tokens_this_minute: 0,
                    output_tokens_this_minute: 0,
                    tpm_window_start_ms: now_ms,
                    ..*old(self)
                }
            } else {
                *old(self)
            }),
            *final(self) == minute_at(*old(self), now_ms),
    {
        if now_ms >= self.tpm_window_start_ms && now_ms - self.tpm_window_start_ms >= TPM_WINDOW_MS {
            self.input_tokens_this_minute = 0;
            self.output_tokens_this_minute = 0;
            self.tpm_window_start_ms = now_ms;
        }
    }

    /// Begins a new second at `now_ms` if the current one is over.
    pub fn maybe_reset_rps_window(&mut self, now_ms: u64)
        ensures
            *final(self) == (if elapsed(old(self).rps_window_start_ms, now_ms, RPS_WINDOW_MS) {
                TenantState {
                    requests_this_second: 0,
                    rps_window_start_ms: now_ms,
                    ..*old(self)
                }
            } else {
                *old(self)
            }),
            *final(self) == second_at(*old(self), now_ms),
    {
        if now_ms >= self.rps_window_start_ms && now_ms - self.rps_window_start_ms >= RPS_WINDOW_MS {
            self.requests_this_second = 0;
            self.rps_window_start_ms = now_ms;
        }
    }
}

/// Whether a tenant's request may go on.
#[derive(Clone, Debug, PartialEq, Eq)]
pub enum AdmissionDecision {
    /// It may.
    Admitted,
    /// The tenant is over its quota.
    RateLimited {
        /// Seconds after which to try again.
        retry_after_secs: u64,
        /// Which limit was hit.
        reason: String,
    },
    /// It waits for capacity.
    Queued,
}

/// A window is over once its whole length has passed since it began, and not before; a clock that
/// went back ends none.
pub proof fn a_window_lasts_its_whole_length(start: u64, now: u64, length: u64)
    ensures
        now >= start + length ==> elapsed(start, now, length),
        start <= now < start + length ==> !elapsed(start, now, length),
        now < start ==> !elapsed(start, now, length),
{
}

/// A tenant without limits has none, whatever its priority and its reserve, which it keeps.
pub proof fn an_unlimited_tenant_has_no_limits(
    tenant_id: TenantId,
    priority: TenantPriority,
    reserved: RealBits,
)
    ensures
        ({
            let quota = unlimited(tenant_id, priority, reserved);
            &&& quota.max_rps is None && quota.max_input_tpm is None && quota.max_output_tpm is None
                && quota.max_concurrent is None
            &&& quota.tenant_id == tenant_id && quota.priority == priority
                && quota.reserved_capacity_fraction == reserved
        }),
{
}

/// What a tenant has used in the minute that is running at a time.
pub open spec fn minute_at(state: TenantState, now_ms: u64) -> TenantState {
    if elapsed(state.tpm_window_start_ms, now_ms, TPM_WINDOW_MS) {
        TenantState {
            input_tokens_this_minute: 0,
            output_tokens_this_minute: 0,
            tpm_window_start_ms: now_ms,
            ..state
        }
    } else {
        state
    }
}

/// What a tenant has used in the second that is running at a time.
pub open spec fn second_at(state: TenantState, now_ms: u64) -> TenantState {
    if elapsed(state.rps_window_start_ms, now_ms, RPS_WINDOW_MS) {
        TenantState { requests_this_second: 0, rps_window_start_ms: now_ms, ..state }
    } else {
        state
    }
}

/// Tokens are counted for sixty seconds from the start of a minute, and from zero in the minute that
/// begins when they are over; requests are not touched.
pub proof fn tokens_are_counted_by_the_minute(state: TenantState, now_ms: u64)
    ensures
        ({
            let after = minute_at(state, now_ms);
            &&& now_ms < state.tpm_window_start_ms + 60_000 ==> after == state
            &&& now_ms >= state.tpm_window_start_ms + 60_000 ==> after.input_tokens_this_minute == 0
                && after.output_tokens_this_minute == 0 && after.tpm_window_start_ms == now_ms
            &&& after.requests_this_second == state.requests_this_second
                && after.rps_window_start_ms == state.rps_window_start_ms && after.in_flight
                == state.in_flight && after.last_request_ms == state.last_request_ms
                && after.tenant_id == state.tenant_id && after.priority == state.priority
        }),
{
}

/// Requests are counted for one second from its start, and from zero in the second that begins when it
/// is over; tokens are not touched.
pub proof fn requests_are_counted_by_the_second(state: TenantState, now_ms: u64)
    ensures
        ({
            let after = second_at(state, now_ms);
            &&& now_ms < state.rps_window_start_ms + 1_000 ==> after == state
            &&& now_ms >= state.rps_window_start_ms + 1_000 ==> after.requests_this_second == 0
                && after.rps_window_start_ms == now_ms
            &&& after.input_tokens_this_minute == state.input_tokens_this_minute
                && after.output_tokens_this_minute == state.output_tokens_this_minute
                && after.tpm_window_start_ms == state.tpm_window_start_ms && after.in_flight
                == state.in_flight && after.last_request_ms == state.last_request_ms
                && after.tenant_id == state.tenant_id && after.priority == state.priority
        }),
{
}

} // verus!
