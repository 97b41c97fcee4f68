//! The network that a database lives on.

use crate::lex::str_equal;
use crate::text::{quote, quoted};
use vstd::prelude::*;
use vstd::string::*;

verus! {

/// A network.
#[derive(Clone, Copy, Debug, PartialEq, Eq, Structural)]
pub enum Network {
    Main,
    Test,
    /// A local chain with fixed activation heights.
    Regtest,
}

/// The height at which the upgrades up to NU6 are active on a local chain.
pub const REGTEST_GENESIS_UPGRADES: u32 = 1;

/// The height at which NU6.1 and NU6.2 are active on a local chain.
pub const REGTEST_NU6_2_HEIGHT: u32 = 4;

/// The height at which NU6.3 is active on a local chain.
pub const REGTEST_NU6_3_HEIGHT: u32 = 8;

/// A network upgrade.
#[derive(Clone, Copy, Debug, PartialEq, Eq, Structural)]
pub enum Upgrade {
    Overwinter,
    Sapling,
    Blossom,
    Heartwood,
    Canopy,
    Nu5,
    Nu6,
    Nu6_1,
    Nu6_2,
    Nu6_3,
}

/// The height at which an upgrade is active on a local chain.
pub fn regtest_activation(nu: Upgrade) -> (r: u32)
    ensures
        r == (match nu {
            Upgrade::Nu6_1 | Upgrade::Nu6_2 => REGTEST_NU6_2_HEIGHT,
            Upgrade::Nu6_3 => REGTEST_NU6_3_HEIGHT,
            _ => REGTEST_GENESIS_UPGRADES,
        }),
{
    match nu {
        Upgrade::Nu6_1 | Upgrade::Nu6_2 => REGTEST_NU6_2_HEIGHT,
        Upgrade::Nu6_3 => REGTEST_NU6_3_HEIGHT,
        _ => REGTEST_GENESIS_UPGRADES,
    }
}

/// The name of a network.
pub open spec fn network_name(n: Network) -> Seq<char> {
    match n {
        Network::Main => "mainnet"@,
        Network::Test => "testnet"@,
        Network::Regtest => "regtest"@,
    }
}

/// The network that a name stands for, in its long or short form.
pub open spec fn network_of(name: Seq<char>) -> Option<Network> {
    if name == "mainnet"@ || name == "main"@ {
        Some(Network::Main)
    } else if name == "testnet"@ || name == "test"@ {
        Some(Network::Test)
    } else if name == "regtest"@ {
        Some(Network::Regtest)
    } else {
        None
    }
}

/// What is said of a name that stands for no network.
pub open spec fn unsupported_network(name: Seq<char>) -> Seq<char> {
    "Unsupported network: "@ + quoted(name)
        + " (use \"mainnet\", \"testnet\" or \"regtest\")"@
}

/// What is said of a name that stands for no network, given in quotes.
pub fn unsupported_network_text(quoted_name: &str) -> (r: String)
    ensures
        r@ == "Unsupported network: "@ + quoted_name@
            + " (use \"mainnet\", \"testnet\" or \"regtest\")"@,
{
    let mut r = String::new();
    r.append("Unsupported network: ");
    r.append(quoted_name);
    r.append(" (use \"mainnet\", \"testnet\" or \"regtest\")");
    assert(r@ =~= "Unsupported network: "@ + quoted_name@
        + " (use \"mainnet\", \"testnet\" or \"regtest\")"@);
    r
}

impl Network {
    /// Mainnet.
    pub fn default() -> (r: Network)
        ensures
            r is Main,
    {
        Network::Main
    }

    /// The network that a name stands for.
    pub fn parse(name: &str) -> (r: Result<Network, String>)
        ensures
            r matches Ok(n) ==> network_of(name@) == Some(n),
            r matches Err(e) ==> network_of(name@) is None && e@ == unsupported_network(name@),
    {
        if str_equal(name, "mainnet") || str_equal(name, "main") {
            Ok(Network::Main)
        } else if str_equal(name, "testnet") || str_equal(name, "test") {
            Ok(Network::Test)
        } else if str_equal(name, "regtest") {
            Ok(Network::Regtest)
        } else {
            Err(unsupported_network_text(quote(name).as_str()))
        }
    }

    /// The name, as it is stored and shown.
    pub fn name(&self) -> (r: &'static str)
        ensures
            r@ == network_name(*self),
    {
        match self {
            Network::Main => "mainnet",
            Network::Test => "testnet",
            Network::Regtest => "regtest",
        }
    }

    /// The name of the coin.
    pub fn ticker(&self) -> (r: &'static str)
        ensures
            r@ == (match self {
                Network::Main => "ZEC"@,
                _ => "TAZ"@,
            }),
    {
        match self {
            Network::Main => "ZEC",
            Network::Test | Network::Regtest => "TAZ",
        }
    }
}

/// The name of a network stands for that network.
pub proof fn network_round_trip(n: Network)
    ensures
        network_of(network_name(n)) == Some(n),
{
    reveal_strlit("mainnet");
    reveal_strlit("testnet");
    reveal_strlit("regtest");
    reveal_strlit("main");
    reveal_strlit("test");
    assert("mainnet"@[0] == 'm' && "testnet"@[0] == 't' && "regtest"@[0] == 'r');
    assert("main"@[0] == 'm' && "test"@[0] == 't');
}

/// No two networks share a name, and the short names stand for what they shorten.
pub proof fn network_names_are_distinct(a: Network, b: Network)
    ensures
        network_name(a) == network_name(b) ==> a == b,
        network_of("main"@) == Some(Network::Main),
        network_of("test"@) == Some(Network::Test),
{
    network_round_trip(a);
    network_round_trip(b);
    reveal_strlit("mainnet");
    reveal_strlit("main");
    reveal_strlit("testnet");
    reveal_strlit("test");
    reveal_strlit("regtest");
    assert("mainnet"@[0] == 'm' && "main"@[0] == 'm' && "testnet"@[0] == 't' && "test"@[0] == 't'
        && "regtest"@[0] == 'r');
}

} // verus!
