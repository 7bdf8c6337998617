//! The failure taxonomy of the bridge.
use vstd::prelude::*;

verus! {

/// Every failure a bridge operation can report to its caller.  Operations
/// return these instead of terminating the process; the background
/// synchronizer is the only component that swallows failures (it has no
/// caller to report to).
#[derive(Debug, Clone, Copy, PartialEq, Eq, Structural)]
pub enum BridgeError {
    /// A client-requiring operation ran before any federation was joined.
    NoActiveFederation,
    /// Persisted state exists but could not be opened or read.
    StorageError,
    /// The federation's configuration endpoint could not be reached.
    FederationUnreachable,
    /// The federation's configuration could not be parsed.
    ConfigInvalid,
    /// The federation rejected a payment, or it could not be afforded.
    PaymentFailed,
    /// No payment record exists under the requested payment hash.
    PaymentNotFound,
    /// An invoice string does not follow the invoice grammar.
    InvoiceInvalid,
}

impl BridgeError {
    /// A short human-readable description of the failure.
    pub fn message(&self) -> (m: &'static str)
        ensures
            *self is NoActiveFederation ==> m@ == "join a federation first"@,
            *self is StorageError ==> m@ == "could not open persisted state"@,
            *self is FederationUnreachable ==> m@ == "could not reach the federation"@,
            *self is ConfigInvalid ==> m@ == "federation config could not be parsed"@,
            *self is PaymentFailed ==> m@ == "payment failed"@,
            *self is PaymentNotFound ==> m@ == "payment not found"@,
            *self is InvoiceInvalid ==> m@ == "invalid invoice"@,
    {
        match self {
            BridgeError::NoActiveFederation => "join a federation first",
            BridgeError::StorageError => "could not open persisted state",
            BridgeError::FederationUnreachable => "could not reach the federation",
            BridgeError::ConfigInvalid => "federation config could not be parsed",
            BridgeError::PaymentFailed => "payment failed",
            BridgeError::PaymentNotFound => "payment not found",
            BridgeError::InvoiceInvalid => "invalid invoice",
        }
    }
}

} // verus!
