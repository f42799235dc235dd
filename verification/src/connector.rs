//! Health of backends.

use vstd::prelude::*;

use crate::backend::BackendStatus;

verus! {

/// Result of a health check.
#[derive(Clone, Copy, Debug, PartialEq, Eq, Structural)]
pub struct HealthStatus {
    /// Whether the backend can be routed to.
    pub status: BackendStatus,
    /// Since when it has this status, in Unix seconds.
    pub healthy_since_unix: u64,
    /// Number of checks in a row that failed.
    pub error_count: u32,
}

impl HealthStatus {
    /// A backend that is healthy.
    pub fn healthy(since_unix: u64) -> (health: Self)
        ensures
            health == (HealthStatus {
                status: BackendStatus::Healthy,
                healthy_since_unix: since_unix,
                error_count: 0,
            }),
    {
        HealthStatus {
            status: BackendStatus::Healthy,
            healthy_since_unix: since_unix,
            error_count: 0,
        }
    }

    /// A backend that is not healthy.
    pub fn unhealthy(since_unix: u64, error_count: u32) -> (health: Self)
        ensures
            health == (HealthStatus {
                status: BackendStatus::Unhealthy,
                healthy_since_unix: since_unix,
                error_count,
            }),
    {
        HealthStatus {
            status: BackendStatus::Unhealthy,
            healthy_since_unix: since_unix,
            error_count,
        }
    }

    /// The result of a check at `now_unix`, by whether the backend answered well.
    pub fn of_check(answered_well: bool, now_unix: u64) -> (health: Self)
        ensures
            health == (HealthStatus {
                status: if answered_well {
                    BackendStatus::Healthy
                } else {
                    BackendStatus::Unhealthy
                },
                healthy_since_unix: now_unix,
                error_count: if answered_well {
                    0
                } else {
                    1
                },
            }),
    {
        if answered_well {
            HealthStatus::healthy(now_unix)
        } else {
            HealthStatus::unhealthy(now_unix, 1)
        }
    }
}

impl Default for HealthStatus {
    fn default() -> (health: Self)
        ensures
            health == (HealthStatus {
                status: BackendStatus::Unknown,
                healthy_since_unix: 0,
                error_count: 0,
            }),
    {
        HealthStatus { status: BackendStatus::Unknown, healthy_since_unix: 0, error_count: 0 }
    }
}

} // verus!
