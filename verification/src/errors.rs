//! Typed failure categories shared by every component.

use vstd::prelude::*;
use vstd::string::StringExecFns;

verus! {

/// One typed error per failure category. Every fallible operation of the
/// library returns one of these; none silently swallows a failure reported
/// by the external tooling.
#[derive(Debug, Clone)]
pub enum ServicingError {
    /// No service of this name is registered; carries the name.
    NotFound(String),
    /// The service already has an endpoint, so a second `up` is refused.
    AlreadyRunning,
    /// The service was never brought up, so `down` has nothing to stop.
    NotRunning,
    /// The external orchestration tool is not installed.
    BackendMissing,
    /// The external tool failed to provision; carries the detail.
    ProvisionFailed(String),
    /// A file could not be read, written or deleted.
    IOFailure,
    /// A persisted payload could not be encoded or decoded.
    SerializationFailure,
    /// The mutation guard around the cache was poisoned by a prior panic.
    LockFailure,
    /// Any other failure; carries a message.
    General(String),
}

impl ServicingError {
    /// A human-readable description of the failure.
    pub fn message(&self) -> (r: String)
        ensures
            r@ == self.spec_message(),
    {
        match self {
            ServicingError::NotFound(name) => {
                let mut s = "Service ".to_owned();
                s.append(name.as_str());
                s.append(" not found");
                s
            },
            ServicingError::AlreadyRunning => "Service is already running".to_owned(),
            ServicingError::NotRunning => "Service is not running".to_owned(),
            ServicingError::BackendMissing => "Orchestration backend is not installed".to_owned(),
            ServicingError::ProvisionFailed(detail) => {
                let mut s = "Provisioning failed: ".to_owned();
                s.append(detail.as_str());
                s
            },
            ServicingError::IOFailure => "File operation failed".to_owned(),
            ServicingError::SerializationFailure => "Serialization failed".to_owned(),
            ServicingError::LockFailure => "Cache lock was poisoned".to_owned(),
            ServicingError::General(msg) => msg.clone(),
        }
    }

    /// What `message` returns, by category.
    pub open spec fn spec_message(&self) -> Seq<char> {
        match self {
            ServicingError::NotFound(name) => "Service "@ + name@ + " not found"@,
            ServicingError::AlreadyRunning => "Service is already running"@,
            ServicingError::NotRunning => "Service is not running"@,
            ServicingError::BackendMissing => "Orchestration backend is not installed"@,
            ServicingError::ProvisionFailed(detail) => "Provisioning failed: "@ + detail@,
            ServicingError::IOFailure => "File operation failed"@,
            ServicingError::SerializationFailure => "Serialization failed"@,
            ServicingError::LockFailure => "Cache lock was poisoned"@,
            ServicingError::General(msg) => msg@,
        }
    }
}

} // verus!
