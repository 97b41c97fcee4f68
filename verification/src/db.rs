//! What can go wrong with a database, in general terms.

use vstd::prelude::*;

verus! {

/// What went wrong.
#[allow(inconsistent_fields)]
#[derive(Clone, Debug, PartialEq, Eq)]
pub enum ZkvError {
    UnknownDatabase(String),
    NotInitialized,
    Initializing { done: u32, required: u32 },
    NotSynced,
    StaleChainTip,
    WatchOnly,
    Unauthorized(String),
    InsufficientFunds { available: u64, required: u64, pending: u64 },
    ClientUpgradeRequired { required: u32, supported: u32 },
    Other(String),
}

/// The name by which the browser tells errors apart.
pub open spec fn error_code(e: ZkvError) -> Seq<char> {
    match e {
        ZkvError::UnknownDatabase(_) => "unknown_database"@,
        ZkvError::NotInitialized => "not_initialized"@,
        ZkvError::Initializing { .. } => "initializing"@,
        ZkvError::NotSynced => "not_synced"@,
        ZkvError::StaleChainTip => "stale_tip"@,
        ZkvError::WatchOnly => "watch_only"@,
        ZkvError::Unauthorized(_) => "unauthorized"@,
        ZkvError::InsufficientFunds { .. } => "insufficient_funds"@,
        ZkvError::ClientUpgradeRequired { .. } => "client_upgrade_required"@,
        ZkvError::Other(_) => "error"@,
    }
}

/// What is missing, where funds are.
pub open spec fn missing_funds(e: ZkvError) -> (Option<u64>, Option<u64>, Option<u64>) {
    match e {
        ZkvError::InsufficientFunds { available, required, pending } => (
            Some(available),
            Some(required),
            Some(pending),
        ),
        _ => (None, None, None),
    }
}

impl ZkvError {
    /// The name by which the browser tells errors apart.
    pub fn code(&self) -> (r: &'static str)
        ensures
            r@ == error_code(*self),
    {
        match self {
            ZkvError::UnknownDatabase(_) => "unknown_database",
            ZkvError::NotInitialized => "not_initialized",
            ZkvError::Initializing { .. } => "initializing",
            ZkvError::NotSynced => "not_synced",
            ZkvError::StaleChainTip => "stale_tip",
            ZkvError::WatchOnly => "watch_only",
            ZkvError::Unauthorized(_) => "unauthorized",
            ZkvError::InsufficientFunds { .. } => "insufficient_funds",
            ZkvError::ClientUpgradeRequired { .. } => "client_upgrade_required",
            ZkvError::Other(_) => "error",
        }
    }

    /// What is missing, where funds are.
    pub fn funds(&self) -> (r: (Option<u64>, Option<u64>, Option<u64>))
        ensures
            r == missing_funds(*self),
    {
        match self {
            ZkvError::InsufficientFunds { available, required, pending } => (
                Some(*available),
                Some(*required),
                Some(*pending),
            ),
            _ => (None, None, None),
        }
    }
}

/// What is missing is told where funds are missing, and nowhere else.
pub proof fn shortages_are_told(e: ZkvError, available: u64, required: u64, pending: u64)
    ensures
        missing_funds(ZkvError::InsufficientFunds { available, required, pending }) == (
            Some(available),
            Some(required),
            Some(pending),
        ),
        !(e is InsufficientFunds) ==> missing_funds(e) == (None::<u64>, None::<u64>, None::<u64>),
{
}

/// No two kinds of error share a name.
pub proof fn error_names_are_distinct(a: ZkvError, b: ZkvError)
    requires
        error_code(a) == error_code(b),
    ensures
        a is UnknownDatabase <==> b is UnknownDatabase,
        a is NotInitialized <==> b is NotInitialized,
        a is Initializing <==> b is Initializing,
        a is NotSynced <==> b is NotSynced,
        a is StaleChainTip <==> b is StaleChainTip,
        a is WatchOnly <==> b is WatchOnly,
        a is Unauthorized <==> b is Unauthorized,
        a is InsufficientFunds <==> b is InsufficientFunds,
        a is ClientUpgradeRequired <==> b is ClientUpgradeRequired,
        a is Other <==> b is Other,
{
    reveal_strlit("unknown_database");
    reveal_strlit("not_initialized");
    reveal_strlit("initializing");
    reveal_strlit("not_synced");
    reveal_strlit("stale_tip");
    reveal_strlit("watch_only");
    reveal_strlit("unauthorized");
    reveal_strlit("insufficient_funds");
    reveal_strlit("client_upgrade_required");
    reveal_strlit("error");
    assert("unknown_database"@.len() == 16 && "not_initialized"@.len() == 15);
    assert("initializing"@.len() == 12 && "unauthorized"@.len() == 12);
    assert("not_synced"@.len() == 10 && "watch_only"@.len() == 10 && "stale_tip"@.len() == 9);
    assert("insufficient_funds"@.len() == 18 && "client_upgrade_required"@.len() == 23);
    assert("error"@.len() == 5);
    assert("initializing"@[0] == 'i' && "unauthorized"@[0] == 'u');
    assert("not_synced"@[0] == 'n' && "watch_only"@[0] == 'w');
}

} // verus!
