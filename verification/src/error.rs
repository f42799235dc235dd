//! The errors of the gateway.

use vstd::prelude::*;
use vstd::string::*;

use crate::text::join;

verus! {

/// What can go wrong.
#[derive(Debug)]
pub enum HierKvGatewayError {
    /// No known backend is available.
    BackendUnavailable,
    /// No backend could be chosen.
    RoutingFailed(String),
    /// Talking to a backend failed.
    ConnectorError(String),
    /// Metrics could not be collected or computed.
    MetricsError(String),
    /// A configuration could not be read.
    ConfigError(String),
    /// The cluster protocol failed.
    ClusterError(String),
    /// Something that was asked for is not there.
    NotFound(String),
    /// A rate limit was hit.
    RateLimited,
    /// Anything else.
    Internal(String),
}

/// The text of an error: what kind it is, and the detail, if it has one.
pub open spec fn error_text(error: HierKvGatewayError) -> Seq<char> {
    match error {
        HierKvGatewayError::BackendUnavailable => "No available backend instance"@,
        HierKvGatewayError::RoutingFailed(detail) => "Routing failed: "@ + detail@,
        HierKvGatewayError::ConnectorError(detail) => "Connector error: "@ + detail@,
        HierKvGatewayError::MetricsError(detail) => "Metrics error: "@ + detail@,
        HierKvGatewayError::ConfigError(detail) => "Configuration error: "@ + detail@,
        HierKvGatewayError::ClusterError(detail) => "Cluster error: "@ + detail@,
        HierKvGatewayError::NotFound(detail) => "Not found: "@ + detail@,
        HierKvGatewayError::RateLimited => "Rate limited"@,
        HierKvGatewayError::Internal(detail) => "Internal error: "@ + detail@,
    }
}

impl Clone for HierKvGatewayError {
    fn clone(&self) -> (copy: Self)
        ensures
            copy == *self,
    {
        match self {
            HierKvGatewayError::BackendUnavailable => HierKvGatewayError::BackendUnavailable,
            HierKvGatewayError::RoutingFailed(s) => HierKvGatewayError::RoutingFailed(s.clone()),
            HierKvGatewayError::ConnectorError(s) => HierKvGatewayError::ConnectorError(s.clone()),
            HierKvGatewayError::MetricsError(s) => HierKvGatewayError::MetricsError(s.clone()),
            HierKvGatewayError::ConfigError(s) => HierKvGatewayError::ConfigError(s.clone()),
            HierKvGatewayError::ClusterError(s) => HierKvGatewayError::ClusterError(s.clone()),
            HierKvGatewayError::NotFound(s) => HierKvGatewayError::NotFound(s.clone()),
            HierKvGatewayError::RateLimited => HierKvGatewayError::RateLimited,
            HierKvGatewayError::Internal(s) => HierKvGatewayError::Internal(s.clone()),
        }
    }
}

impl HierKvGatewayError {
    /// The text of the error.
    pub fn to_text(&self) -> (text: String)
        ensures
            text@ == error_text(*self),
    {
        match self {
            HierKvGatewayError::BackendUnavailable => "No available backend instance".to_owned(),
            HierKvGatewayError::RoutingFailed(detail) => join("Routing failed: ", detail.as_str()),
            HierKvGatewayError::ConnectorError(detail) => join("Connector error: ", detail.as_str()),
            HierKvGatewayError::MetricsError(detail) => join("Metrics error: ", detail.as_str()),
            HierKvGatewayError::ConfigError(detail) => join("Configuration error: ", detail.as_str()),
            HierKvGatewayError::ClusterError(detail) => join("Cluster error: ", detail.as_str()),
            HierKvGatewayError::NotFound(detail) => join("Not found: ", detail.as_str()),
            HierKvGatewayError::RateLimited => "Rate limited".to_owned(),
            HierKvGatewayError::Internal(detail) => join("Internal error: ", detail.as_str()),
        }
    }
}

/// What is said of an error ends with its detail, behind what kind of error it is.
pub proof fn an_error_tells_its_detail(detail: String)
    ensures
        error_text(HierKvGatewayError::RoutingFailed(detail)) == "Routing failed: "@ + detail@,
        error_text(HierKvGatewayError::ConnectorError(detail)) == "Connector error: "@ + detail@,
        error_text(HierKvGatewayError::MetricsError(detail)) == "Metrics error: "@ + detail@,
        error_text(HierKvGatewayError::ConfigError(detail)) == "Configuration error: "@ + detail@,
        error_text(HierKvGatewayError::ClusterError(detail)) == "Cluster error: "@ + detail@,
        error_text(HierKvGatewayError::NotFound(detail)) == "Not found: "@ + detail@,
        error_text(HierKvGatewayError::Internal(detail)) == "Internal error: "@ + detail@,
{
}

} // verus!
