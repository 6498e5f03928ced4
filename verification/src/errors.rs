use vstd::prelude::*;

verus! {

/// The error taxonomy of the pipeline. Every non-success outcome of a
/// stage is represented by exactly one of these kinds; no stage swallows
/// a failure silently.
#[derive(Clone, Copy, Debug, PartialEq, Eq, Structural)]
pub enum EtlError {
    /// The source object does not exist.
    NotFound,
    /// The storage service refused the request for lack of authorization.
    AccessDenied,
    /// A network or service failure; the invocation may be retried by the host.
    TransientStorage,
    /// The payload could not be decoded as delimited text.
    MalformedInput,
    /// The transformation was inapplicable to the dataset.
    Transform,
    /// The destination refused the write for lack of quota.
    QuotaExceeded,
    /// Required configuration is absent; fatal at startup, never per invocation.
    Configuration,
}

impl EtlError {
    /// A short, payload-free description of the error kind, for diagnostics.
    pub fn describe(&self) -> (r: &'static str)
        ensures
            *self is NotFound ==> r@ == "source object not found"@,
            *self is AccessDenied ==> r@ == "access to storage denied"@,
            *self is TransientStorage ==> r@ == "transient storage failure"@,
            *self is MalformedInput ==> r@ == "malformed tabular input"@,
            *self is Transform ==> r@ == "transformation failed"@,
            *self is QuotaExceeded ==> r@ == "storage quota exceeded"@,
            *self is Configuration ==> r@ == "configuration missing"@,
    {
        match self {
            EtlError::NotFound => "source object not found",
            EtlError::AccessDenied => "access to storage denied",
            EtlError::TransientStorage => "transient storage failure",
            EtlError::MalformedInput => "malformed tabular input",
            EtlError::Transform => "transformation failed",
            EtlError::QuotaExceeded => "storage quota exceeded",
            EtlError::Configuration => "configuration missing",
        }
    }
}

} // verus!
