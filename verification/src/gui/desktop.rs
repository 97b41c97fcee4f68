//! The errors of the desktop window.

use crate::config::{default_pool, default_pool_for_network};
use crate::db::{error_code, missing_funds, ZkvError};
use crate::internal::pool::ShieldedPool;
use crate::network::{network_of, unsupported_network, Network};
use crate::text::opt_text;
use vstd::prelude::*;
use vstd::string::*;

verus! {

/// A failed command.
#[derive(Clone, Debug, PartialEq, Eq)]
pub struct CmdError {
    pub code: &'static str,
    pub message: String,
    pub available: Option<u64>,
    pub required: Option<u64>,
    pub pending: Option<u64>,
}

impl CmdError {
    /// The failure of a command by an error, which is told in `message`.
    pub fn from_error(e: &ZkvError, message: String) -> (r: CmdError)
        ensures
            r.code@ == error_code(*e),
            r.message@ == message@,
            (r.available, r.required, r.pending) == missing_funds(*e),
    {
        let (available, required, pending) = e.funds();
        CmdError { code: e.code(), message, available, required, pending }
    }
}

/// A failure by something else.
pub fn other_err(message: String) -> (r: CmdError)
    ensures
        r.code@ == "error"@,
        r.message@ == message@,
        r.available is None && r.required is None && r.pending is None,
{
    CmdError { code: "error", message, available: None, required: None, pending: None }
}

/// The network that a command names; mainnet where it names none.
pub fn parse_network(s: Option<String>) -> (r: Result<Network, CmdError>)
    ensures
        ({
            let name = match opt_text(s) {
                Some(n) => n,
                None => "mainnet"@,
            };
            match r {
                Ok(n) => network_of(name) == Some(n),
                Err(e) => network_of(name) is None && e.code@ == "bad_network"@ && e.message@
                    == unsupported_network(name),
            }
        }),
{
    let name = match s {
        Some(n) => n,
        None => "mainnet".to_owned(),
    };
    match Network::parse(name.as_str()) {
        Ok(n) => Ok(n),
        Err(message) => Err(
            CmdError {
                code: "bad_network",
                message,
                available: None,
                required: None,
                pending: None,
            },
        ),
    }
}

/// The pool that a command names, if it could be read; the default of the network
/// where it names none.
pub fn parse_pool(named: Option<Result<ShieldedPool, String>>, network: Network) -> (r: Result<
    ShieldedPool,
    CmdError,
>)
    ensures
        match named {
            None => r == Ok::<ShieldedPool, CmdError>(default_pool(network)),
            Some(Ok(p)) => r == Ok::<ShieldedPool, CmdError>(p),
            Some(Err(msg)) => r matches Err(e) && e.code@ == "bad_pool"@ && e.message@ == msg@
                && e.available is None && e.required is None && e.pending is None,
        },
{
    match named {
        None => Ok(default_pool_for_network(network)),
        Some(Ok(p)) => Ok(p),
        Some(Err(message)) => Err(
            CmdError { code: "bad_pool", message, available: None, required: None, pending: None },
        ),
    }
}

} // verus!
