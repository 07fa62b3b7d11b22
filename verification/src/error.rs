//! What can go wrong.
use vstd::prelude::*;

verus! {

/// Why an account or its usage cannot be shown.
#[derive(Debug, Clone, Copy, PartialEq, Eq, Structural)]
pub enum CodexError {
    /// Only an API key is stored, which gives no access to subscription limits.
    ApiKeyOnly,
    /// No usable credentials are stored.
    NotLoggedIn,
    /// The stored credentials cannot be read.
    InvalidAuth,
    /// The stored credentials are no longer those that were loaded.
    AccountChanged,
    /// The credentials cannot be stored.
    AuthWrite,
    /// The local database cannot be read or written.
    Storage,
    /// The local usage history cannot be built.
    LocalUsage,
}

/// What can go wrong with logs that are kept.
#[derive(Debug, Clone, Copy, PartialEq, Eq, Structural)]
pub enum LogCacheFault {
    /// They cannot be loaded or stored.
    Storage,
    /// They cannot be put into the form in which they are kept.
    Encode,
}

/// Why the usage cannot be shown where something went wrong with logs that are kept.
pub open spec fn error_for(fault: LogCacheFault) -> CodexError {
    match fault {
        LogCacheFault::Storage => CodexError::Storage,
        LogCacheFault::Encode => CodexError::LocalUsage,
    }
}

/// Why the usage cannot be shown where something went wrong with logs that are kept.
pub fn log_cache_error(fault: LogCacheFault) -> (error: CodexError)
    ensures
        error == error_for(fault),
{
    match fault {
        LogCacheFault::Storage => CodexError::Storage,
        LogCacheFault::Encode => CodexError::LocalUsage,
    }
}

} // verus!
