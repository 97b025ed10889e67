//! Verified core of a service lifecycle manager.
//!
//! Named services are provisioned on a cloud backend by an external
//! orchestration tool. This library holds the verified bookkeeping: the
//! service registry (cache), the configuration merge model, the lifecycle
//! decisions for bringing services up and down, endpoint discovery from the
//! tool's status output, and the persistence codec. The surrounding I/O
//! (subprocesses, HTTP probes, files) lives outside the library and hands in
//! plain values.

pub mod b64;
pub mod cache;
pub mod codec;
pub mod config;
pub mod dispatch;
pub mod errors;
pub mod scan;
pub mod snapshot;
pub mod text;

pub use errors::ServicingError;
