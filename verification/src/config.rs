//! What a database's own settings say about it.

use crate::internal::pool::ShieldedPool;
use crate::network::Network;
use vstd::prelude::*;

verus! {

/// What this machine may do with a database.
#[derive(Clone, Copy, Debug, PartialEq, Eq, Structural)]
pub enum Role {
    /// It holds the seed and can write.
    Admin,
    /// It can only read.
    Watch,
}

/// Which wallet serves a database.
#[derive(Clone, Copy, Debug, PartialEq, Eq, Structural)]
pub enum WalletEngine {
    /// Nobody has decided.
    Unset,
    /// A wallet of its own.
    Own,
    /// It joins the shared scan, and reads from its own wallet until that has
    /// caught up.
    FleetPending,
    /// The shared scan.
    Fleet,
}

impl WalletEngine {
    /// Whether nobody has decided.
    pub fn is_unset(&self) -> (r: bool)
        ensures
            r == (*self is Unset),
    {
        matches!(self, WalletEngine::Unset)
    }

    /// Whether the shared scan serves the database.
    pub fn is_fleet_member(&self) -> (r: bool)
        ensures
            r == (*self is Fleet),
    {
        matches!(self, WalletEngine::Fleet)
    }
}

/// The settings of a database.
#[derive(Clone, Debug, PartialEq, Eq)]
pub struct WalletConfig {
    pub role: Role,
    pub network: Network,
    pub pool: ShieldedPool,
    pub birthday: u32,
    pub engine: WalletEngine,
    /// The viewing key, once it is pinned.
    pub ufvk: Option<String>,
    /// The address that a watched database was added by.
    pub zkv_address: Option<String>,
    /// The shard that held the database when it was last looked for.
    pub shard: Option<String>,
}

/// The name of a pool.
pub open spec fn pool_name(pool: ShieldedPool) -> Seq<char> {
    match pool {
        ShieldedPool::Sapling => "sapling"@,
        ShieldedPool::Orchard => "orchard"@,
        ShieldedPool::Ironwood => "ironwood"@,
    }
}

/// The name of a pool.
pub fn pool_label(pool: ShieldedPool) -> (r: &'static str)
    ensures
        r@ == pool_name(pool),
{
    match pool {
        ShieldedPool::Sapling => "sapling",
        ShieldedPool::Orchard => "orchard",
        ShieldedPool::Ironwood => "ironwood",
    }
}

/// The pool of a new database on a network: Ironwood on each of them.
pub open spec fn default_pool(network: Network) -> ShieldedPool {
    match network {
        Network::Main | Network::Test | Network::Regtest => ShieldedPool::Ironwood,
    }
}

/// The pool of a new database on a network.
pub fn default_pool_for_network(network: Network) -> (r: ShieldedPool)
    ensures
        r == default_pool(network),
{
    match network {
        Network::Main | Network::Test | Network::Regtest => ShieldedPool::Ironwood,
    }
}

/// No two pools share a name, and a new database is in Ironwood.
pub proof fn pool_names_are_distinct(a: ShieldedPool, b: ShieldedPool, network: Network)
    ensures
        pool_name(a) == pool_name(b) ==> a == b,
        default_pool(network) is Ironwood,
{
    reveal_strlit("sapling");
    reveal_strlit("orchard");
    reveal_strlit("ironwood");
    assert("sapling"@[0] == 's' && "orchard"@[0] == 'o' && "ironwood"@[0] == 'i');
}

} // verus!
