//! The structured error kinds carried across the delivery pipeline.
use vstd::prelude::*;

verus! {

/// Every failure the worker distinguishes. Variants that carry a task name
/// carry it verbatim from the message or registration that caused them.
#[derive(Clone, PartialEq, Eq, Debug)]
pub enum ErrorKind {
    /// The broker transport failed.
    BrokerError,
    /// A delivery was malformed or its headers or body could not be parsed.
    ProtocolError,
    /// A delivery named a task absent from the registry.
    UnregisteredTask(String),
    /// A task kind was registered under a name already taken.
    TaskAlreadyExists(String),
    /// The registry lock was poisoned.
    SyncError,
    /// A task ran past its deadline.
    TimeoutError,
    /// A task signalled a retryable failure.
    Retry,
    /// A message was past its expiration.
    ExpiredError,
    /// A second interrupt arrived during warm shutdown.
    ForcedShutdown,
}

/// The label each error kind is logged under.
pub open spec fn label_spec(e: ErrorKind) -> Seq<char> {
    match e {
        ErrorKind::BrokerError => "broker error"@,
        ErrorKind::ProtocolError => "protocol error"@,
        ErrorKind::UnregisteredTask(_) => "unregistered task"@,
        ErrorKind::TaskAlreadyExists(_) => "task already exists"@,
        ErrorKind::SyncError => "sync error"@,
        ErrorKind::TimeoutError => "timeout"@,
        ErrorKind::Retry => "retry"@,
        ErrorKind::ExpiredError => "expired"@,
        ErrorKind::ForcedShutdown => "forced shutdown"@,
    }
}

impl ErrorKind {
    /// A short stable label for the variant, for hosts that log errors.
    pub fn label(&self) -> (r: &'static str)
        ensures
            r@ == label_spec(*self),
    {
        match self {
            ErrorKind::BrokerError => "broker error",
            ErrorKind::ProtocolError => "protocol error",
            ErrorKind::UnregisteredTask(_) => "unregistered task",
            ErrorKind::TaskAlreadyExists(_) => "task already exists",
            ErrorKind::SyncError => "sync error",
            ErrorKind::TimeoutError => "timeout",
            ErrorKind::Retry => "retry",
            ErrorKind::ExpiredError => "expired",
            ErrorKind::ForcedShutdown => "forced shutdown",
        }
    }
}

} // verus!
