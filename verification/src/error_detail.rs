//! The closed union over the standard error-detail kinds, with one total,
//! lossless injection per concrete kind.
//!
//! `BadRequest` is the worked example of the envelope codec; the sibling
//! kinds below are plain data carriers following the same standard detail
//! vocabulary, each holding only primitive and string data.

use vstd::prelude::*;

use crate::bad_request::BadRequest;

verus! {

/// Tells the caller when a failed request can be retried: the delay to wait
/// before the retry, as whole seconds plus a nanosecond remainder.
#[derive(Clone, Debug)]
pub struct RetryInfo {
    pub retry_delay_secs: u64,
    pub retry_delay_nanos: u32,
}

/// Debugging information: a stack trace and free-form detail text.
#[derive(Clone, Debug)]
pub struct DebugInfo {
    pub stack_entries: Vec<String>,
    pub detail: String,
}

/// One quota check that failed: the subject that hit the quota and a
/// description of how it did.
#[derive(Clone, Debug)]
pub struct QuotaViolation {
    pub subject: String,
    pub description: String,
}

/// A quota-exhaustion failure: the quota checks that failed, in order.
#[derive(Clone, Debug)]
pub struct QuotaFailure {
    pub violations: Vec<QuotaViolation>,
}

/// A structured error cause: a reason code within a domain, with key/value
/// metadata entries in insertion order.
#[derive(Clone, Debug)]
pub struct ErrorInfo {
    pub reason: String,
    pub domain: String,
    pub metadata: Vec<(String, String)>,
}

/// One precondition that did not hold: its type, the subject it applies to
/// and a description.
#[derive(Clone, Debug)]
pub struct PreconditionViolation {
    pub violation_type: String,
    pub subject: String,
    pub description: String,
}

/// A precondition failure: the preconditions that did not hold, in order.
#[derive(Clone, Debug)]
pub struct PreconditionFailure {
    pub violations: Vec<PreconditionViolation>,
}

/// Metadata about the failed request itself, for the server's own books.
#[derive(Clone, Debug)]
pub struct RequestInfo {
    pub request_id: String,
    pub serving_data: String,
}

/// Identifies the resource a failed request touched.
#[derive(Clone, Debug)]
pub struct ResourceInfo {
    pub resource_type: String,
    pub resource_name: String,
    pub owner: String,
    pub description: String,
}

/// One pointer to documentation about the failure.
#[derive(Clone, Debug)]
pub struct HelpLink {
    pub description: String,
    pub url: String,
}

/// Links to documentation that may help past the failure, in order.
#[derive(Clone, Debug)]
pub struct Help {
    pub links: Vec<HelpLink>,
}

/// A closed tagged union over the known detail kinds: exactly one variant
/// is active, wrapping one concrete detail value.
#[derive(Debug)]
pub enum ErrorDetail {
    RetryInfo(RetryInfo),
    DebugInfo(DebugInfo),
    QuotaFailure(QuotaFailure),
    ErrorInfo(ErrorInfo),
    PreconditionFailure(PreconditionFailure),
    BadRequest(BadRequest),
    RequestInfo(RequestInfo),
    ResourceInfo(ResourceInfo),
    Help(Help),
}

impl From<RetryInfo> for ErrorDetail {
    fn from(err_detail: RetryInfo) -> Self {
        ErrorDetail::RetryInfo(err_detail)
    }
}

impl vstd::std_specs::convert::FromSpecImpl<RetryInfo> for ErrorDetail {
    open spec fn obeys_from_spec() -> bool {
        true
    }

    open spec fn from_spec(v: RetryInfo) -> ErrorDetail {
        ErrorDetail::RetryInfo(v)
    }
}

impl From<DebugInfo> for ErrorDetail {
    fn from(err_detail: DebugInfo) -> Self {
        ErrorDetail::DebugInfo(err_detail)
    }
}

impl vstd::std_specs::convert::FromSpecImpl<DebugInfo> for ErrorDetail {
    open spec fn obeys_from_spec() -> bool {
        true
    }

    open spec fn from_spec(v: DebugInfo) -> ErrorDetail {
        ErrorDetail::DebugInfo(v)
    }
}

impl From<QuotaFailure> for ErrorDetail {
    fn from(err_detail: QuotaFailure) -> Self {
        ErrorDetail::QuotaFailure(err_detail)
    }
}

impl vstd::std_specs::convert::FromSpecImpl<QuotaFailure> for ErrorDetail {
    open spec fn obeys_from_spec() -> bool {
        true
    }

    open spec fn from_spec(v: QuotaFailure) -> ErrorDetail {
        ErrorDetail::QuotaFailure(v)
    }
}

impl From<ErrorInfo> for ErrorDetail {
    fn from(err_detail: ErrorInfo) -> Self {
        ErrorDetail::ErrorInfo(err_detail)
    }
}

impl vstd::std_specs::convert::FromSpecImpl<ErrorInfo> for ErrorDetail {
    open spec fn obeys_from_spec() -> bool {
        true
    }

    open spec fn from_spec(v: ErrorInfo) -> ErrorDetail {
        ErrorDetail::ErrorInfo(v)
    }
}

impl From<PreconditionFailure> for ErrorDetail {
    fn from(err_detail: PreconditionFailure) -> Self {
        ErrorDetail::PreconditionFailure(err_detail)
    }
}

impl vstd::std_specs::convert::FromSpecImpl<PreconditionFailure> for ErrorDetail {
    open spec fn obeys_from_spec() -> bool {
        true
    }

    open spec fn from_spec(v: PreconditionFailure) -> ErrorDetail {
        ErrorDetail::PreconditionFailure(v)
    }
}

impl From<BadRequest> for ErrorDetail {
    fn from(err_detail: BadRequest) -> Self {
        ErrorDetail::BadRequest(err_detail)
    }
}

impl vstd::std_specs::convert::FromSpecImpl<BadRequest> for ErrorDetail {
    open spec fn obeys_from_spec() -> bool {
        true
    }

    open spec fn from_spec(v: BadRequest) -> ErrorDetail {
        ErrorDetail::BadRequest(v)
    }
}

impl From<RequestInfo> for ErrorDetail {
    fn from(err_detail: RequestInfo) -> Self {
        ErrorDetail::RequestInfo(err_detail)
    }
}

impl vstd::std_specs::convert::FromSpecImpl<RequestInfo> for ErrorDetail {
    open spec fn obeys_from_spec() -> bool {
        true
    }

    open spec fn from_spec(v: RequestInfo) -> ErrorDetail {
        ErrorDetail::RequestInfo(v)
    }
}

impl From<ResourceInfo> for ErrorDetail {
    fn from(err_detail: ResourceInfo) -> Self {
        ErrorDetail::ResourceInfo(err_detail)
    }
}

impl vstd::std_specs::convert::FromSpecImpl<ResourceInfo> for ErrorDetail {
    open spec fn obeys_from_spec() -> bool {
        true
    }

    open spec fn from_spec(v: ResourceInfo) -> ErrorDetail {
        ErrorDetail::ResourceInfo(v)
    }
}

impl From<Help> for ErrorDetail {
    fn from(err_detail: Help) -> Self {
        ErrorDetail::Help(err_detail)
    }
}

impl vstd::std_specs::convert::FromSpecImpl<Help> for ErrorDetail {
    open spec fn obeys_from_spec() -> bool {
        true
    }

    open spec fn from_spec(v: Help) -> ErrorDetail {
        ErrorDetail::Help(v)
    }
}

/// Injection into the union is lossless: converting a `BadRequest` always
/// yields the `BadRequest` variant wrapping that exact value, so matching
/// on the variant recovers the original.
pub proof fn lemma_bad_request_injection_lossless(detail: BadRequest)
    ensures
        <ErrorDetail as vstd::std_specs::convert::FromSpec<BadRequest>>::obeys_from_spec(),
        <ErrorDetail as vstd::std_specs::convert::FromSpec<BadRequest>>::from_spec(detail)
            == ErrorDetail::BadRequest(detail),
{
}

} // verus!
