//! The account of a database's wallet, and what its viewing key leads to.

use crate::internal::pool::ShieldedPool;
use crate::internal::snapshot::copy_bytes;
use crate::internal::txid::{hex_encode, hex_text};
use crate::network::Network;
use crate::text::{opt_text, quote, quoted};
use vstd::prelude::*;
use vstd::string::*;
use zcash_address::unified::{Encoding, Ufvk};
use zcash_keys::keys::ReceiverRequirement::{Omit, Require};
use zcash_keys::keys::{UnifiedAddressRequest, UnifiedFullViewingKey, UnifiedSpendingKey};
use zcash_protocol::consensus;
use zcash_protocol::consensus::NetworkType::{Main, Regtest, Test};
use zcash_transparent::keys::NonHardenedChildIndex;

verus! {

/// What is said of a database whose wallet holds no account, given its name in
/// quotes.
pub open spec fn no_account_text(quoted_name: Seq<char>) -> Seq<char> {
    "the "@ + quoted_name
        + " database has no wallet key imported yet — its local wallet data was reset before the key was restored (this is different from an uninitialized database). It rebuilds automatically on the next sync; if it persists, re-import the database."@
}

/// What is said of a database whose wallet holds no account.
pub fn no_account_error(db_name: &str) -> (r: String)
    ensures
        r@ == no_account_text(quoted(db_name@)),
{
    let mut r = String::new();
    r.append("the ");
    r.append(quote(db_name).as_str());
    r.append(
        " database has no wallet key imported yet — its local wallet data was reset before the key was restored (this is different from an uninitialized database). It rebuilds automatically on the next sync; if it persists, re-import the database.",
    );
    assert(r@ =~= no_account_text(quoted(db_name@)));
    r
}

/// The default address of a viewing key with one receiver alone, Sapling's or
/// Orchard's, and the raw bytes of that receiver; or why there is none.
pub uninterp spec fn receiver_address_of(
    ufvk: Seq<char>,
    network: Network,
    sapling: bool,
) -> Result<(Seq<char>, Seq<u8>), Seq<char>>;

/// The views of a pool address.
pub open spec fn address_views(r: Result<(String, Vec<u8>), String>) -> Result<
    (Seq<char>, Seq<u8>),
    Seq<char>,
> {
    match r {
        Ok(a) => Ok((a.0@, a.1@)),
        Err(e) => Err(e@),
    }
}

/// `Ufvk::decode` and `UnifiedFullViewingKey::parse`, `default_address` with the
/// receiver that is asked for and no other, and `to_zcash_address`: the address,
/// encoded for the network, and its raw receiver, or the text of the first error.
/// (The networks have the same order here and there.)
#[verifier::external_body]
fn receiver_address(ufvk: &str, network: Network, sapling: bool) -> (r: Result<
    (String, Vec<u8>),
    String,
>)
    ensures
        address_views(r) == receiver_address_of(ufvk@, network, sapling),
{
    let (_, _, container) = Ufvk::decode(ufvk).map_err(|e| e.to_string())?;
    let key = UnifiedFullViewingKey::parse(&container).map_err(|e| e.to_string())?;
    let alone = UnifiedAddressRequest::unsafe_custom(Omit, Require, Omit);
    let request = [UnifiedAddressRequest::ORCHARD, alone][sapling as usize];
    let (ua, _) = key.default_address(request).map_err(|e| e.to_string())?;
    let net = [Main, Test, Regtest][network as usize];
    let raw = ua.sapling().map(|a| a.to_bytes()).or(ua.orchard().map(|a| a.to_raw_address_bytes()));
    Ok((ua.to_zcash_address(net).encode(), raw.unwrap().to_vec()))
}

/// The default address of a viewing key in a pool, and its raw receiver. Ironwood
/// shares the receiver of Orchard.
pub open spec fn pool_address_of(ufvk: Seq<char>, network: Network, pool: ShieldedPool) -> Result<
    (Seq<char>, Seq<u8>),
    Seq<char>,
> {
    receiver_address_of(ufvk, network, pool is Sapling)
}

/// The default address of a viewing key in a pool, and its raw receiver.
pub fn pool_address(ufvk: &str, network: Network, pool: ShieldedPool) -> (r: Result<
    (String, Vec<u8>),
    String,
>)
    ensures
        address_views(r) == pool_address_of(ufvk@, network, pool),
{
    receiver_address(ufvk, network, matches!(pool, ShieldedPool::Sapling))
}

/// An account as the wallet holds it.
#[derive(Clone, Debug, PartialEq, Eq)]
pub struct StoredAccount {
    pub uuid: Vec<u8>,
    /// The viewing key, if the account has one.
    pub ufvk: Option<String>,
    /// Whether the account is derived from a seed.
    pub derived: bool,
}

/// What a database's account leads to.
#[derive(Clone, Debug, PartialEq, Eq)]
pub struct AccountKeys {
    /// The address by which the database is shared.
    pub zkv_addr: String,
    /// The hexadecimal text of the raw receiver, to which signatures are bound.
    pub receiver_hex: String,
    /// The address that writes are sent to.
    pub recipient_ua: String,
    pub account_uuid_bytes: Vec<u8>,
    /// The identity whose signature initializes the database.
    pub verifying_identity: String,
    /// Whether there is a seed to sign with.
    pub derived: bool,
}

/// The name of a pool in a message.
pub open spec fn pool_word(pool: ShieldedPool) -> Seq<char> {
    match pool {
        ShieldedPool::Sapling => "Sapling"@,
        ShieldedPool::Orchard => "Orchard"@,
        ShieldedPool::Ironwood => "Ironwood"@,
    }
}

/// What is said where a viewing key has no address in the pool.
pub open spec fn no_address_text(pool: ShieldedPool, why: Seq<char>) -> Seq<char> {
    "derive "@ + pool_word(pool) + " UA: "@ + why
}

fn no_address(pool: ShieldedPool, why: &str) -> (r: String)
    ensures
        r@ == no_address_text(pool, why@),
{
    let mut r = String::new();
    r.append("derive ");
    r.append(
        match pool {
            ShieldedPool::Sapling => "Sapling",
            ShieldedPool::Orchard => "Orchard",
            ShieldedPool::Ironwood => "Ironwood",
        },
    );
    r.append(" UA: ");
    r.append(why);
    assert(r@ =~= no_address_text(pool, why@));
    r
}

/// The viewing key of the account of a database. The outer option is whether the
/// wallet has an account, the inner one whether that is still there.
pub fn account_ufvk<'a>(db_name: &str, account: Option<Option<&'a StoredAccount>>) -> (r: Result<
    (&'a StoredAccount, &'a String),
    String,
>)
    ensures
        match account {
            None => r matches Err(e) && e@ == no_account_text(quoted(db_name@)),
            Some(None) => r matches Err(e) && e@ == "account vanished"@,
            Some(Some(a)) => match a.ufvk {
                None => r matches Err(e) && e@ == "no UFVK"@,
                Some(u) => r matches Ok((b, k)) && *b == *a && *k == u,
            },
        },
{
    match account {
        None => Err(no_account_error(db_name)),
        Some(None) => Err("account vanished".to_owned()),
        Some(Some(a)) => match &a.ufvk {
            None => Err("no UFVK".to_owned()),
            Some(u) => Ok((a, u)),
        },
    }
}

/// What an account leads to, given the identity and the shared address that were
/// derived from its viewing key, and its address in the pool: the first of them
/// that could not be derived is the error.
pub fn keys_of(
    account: &StoredAccount,
    identity: Result<String, String>,
    zkv_addr: Result<String, String>,
    address: Result<(String, Vec<u8>), String>,
    pool: ShieldedPool,
) -> (r: Result<AccountKeys, String>)
    ensures
        r is Ok <==> identity is Ok && zkv_addr is Ok && address is Ok,
        r matches Ok(k) ==> {
            &&& k.zkv_addr@ == (zkv_addr->Ok_0)@
            &&& k.receiver_hex@ == hex_text((address->Ok_0).1@)
            &&& k.recipient_ua@ == (address->Ok_0).0@
            &&& k.account_uuid_bytes@ == account.uuid@
            &&& k.verifying_identity@ == (identity->Ok_0)@
            &&& k.derived == account.derived
        },
        r matches Err(e) ==> e@ == (if identity is Err {
            (identity->Err_0)@
        } else if zkv_addr is Err {
            (zkv_addr->Err_0)@
        } else {
            no_address_text(pool, (address->Err_0)@)
        }),
{
    let verifying_identity = match identity {
        Ok(i) => i,
        Err(e) => {
            return Err(e);
        },
    };
    let zkv_addr = match zkv_addr {
        Ok(a) => a,
        Err(e) => {
            return Err(e);
        },
    };
    match address {
        Err(e) => Err(no_address(pool, e.as_str())),
        Ok((recipient_ua, receiver)) => Ok(
            AccountKeys {
                zkv_addr,
                receiver_hex: hex_encode(receiver.as_slice()),
                recipient_ua,
                account_uuid_bytes: copy_bytes(&account.uuid),
                verifying_identity,
                derived: account.derived,
            },
        ),
    }
}

/// What the account of a database leads to. `identity` and `zkv_addr` are what
/// was derived from its viewing key.
pub fn account_keys(
    db_name: &str,
    account: Option<Option<&StoredAccount>>,
    identity: Result<String, String>,
    zkv_addr: Result<String, String>,
    network: Network,
    pool: ShieldedPool,
) -> (r: Result<AccountKeys, String>)
    ensures
        match account {
            None => r matches Err(e) && e@ == no_account_text(quoted(db_name@)),
            Some(None) => r matches Err(e) && e@ == "account vanished"@,
            Some(Some(a)) => match opt_text(a.ufvk) {
                None => r matches Err(e) && e@ == "no UFVK"@,
                Some(u) => if identity is Err {
                    r matches Err(e) && e@ == (identity->Err_0)@
                } else if zkv_addr is Err {
                    r matches Err(e) && e@ == (zkv_addr->Err_0)@
                } else {
                    match pool_address_of(u, network, pool) {
                        Err(why) => r matches Err(e) && e@ == no_address_text(pool, why),
                        Ok(found) => r matches Ok(k) && k.zkv_addr@ == (zkv_addr->Ok_0)@
                            && k.verifying_identity@ == (identity->Ok_0)@ && k.recipient_ua@
                            == found.0 && k.receiver_hex@ == hex_text(found.1)
                            && k.account_uuid_bytes@ == a.uuid@ && k.derived == a.derived,
                    }
                },
            },
        },
{
    let (a, ufvk) = match account_ufvk(db_name, account) {
        Ok(p) => p,
        Err(e) => {
            return Err(e);
        },
    };
    let address = pool_address(ufvk.as_str(), network, pool);
    keys_of(a, identity, zkv_addr, address, pool)
}

/// The index of the external transparent address whose key signs.
pub const ZKV_TRANSPARENT_INDEX: u32 = 0;

/// The secret key of an external transparent address of an account. The outer error
/// is that the seed has no account, the inner one that the account has no such key.
pub uninterp spec fn secret_key_of(seed: Seq<u8>, main: bool, account: u32, index: u32) -> Result<
    Result<Seq<u8>, Seq<char>>,
    Seq<char>,
>;

/// The views of a secret key.
pub open spec fn secret_views(r: Result<Result<Vec<u8>, String>, String>) -> Result<
    Result<Seq<u8>, Seq<char>>,
    Seq<char>,
> {
    match r {
        Err(e) => Err(e@),
        Ok(Err(e)) => Ok(Err(e@)),
        Ok(Ok(k)) => Ok(Ok(k@)),
    }
}

/// `UnifiedSpendingKey::from_seed`, and `derive_external_secret_key` of its
/// transparent part at an index: the bytes of the key, or the text of either error.
#[verifier::external_body]
fn derive_secret(seed: &[u8], main: bool, account: u32, index: u32) -> (r: Result<
    Result<Vec<u8>, String>,
    String,
>)
    requires
        32 <= seed@.len() <= 252,
        account < 0x8000_0000,
        index < 0x8000_0000,
    ensures
        secret_views(r) == secret_key_of(seed@, main, account, index),
{
    let net = [consensus::Network::TestNetwork, consensus::Network::MainNetwork][main as usize];
    let id = zip32::AccountId::try_from(account).unwrap();
    let usk = UnifiedSpendingKey::from_seed(&net, seed, id).map_err(|e| e.to_string())?;
    let key = usk.transparent().derive_external_secret_key(NonHardenedChildIndex::from_index(index).unwrap());
    Ok(key.map(|k| k.secret_bytes().to_vec()).map_err(|e| e.to_string()))
}

/// The key or what is said of its absence.
pub open spec fn signing_result(derived: Result<Result<Seq<u8>, Seq<char>>, Seq<char>>) -> Result<
    Seq<u8>,
    Seq<char>,
> {
    match derived {
        Err(e) => Err(e),
        Ok(Err(e)) => Err("derive signing key: "@ + e),
        Ok(Ok(k)) => Ok(k),
    }
}

/// The views of a result of bytes.
pub open spec fn bytes_result(r: Result<Vec<u8>, String>) -> Result<Seq<u8>, Seq<char>> {
    match r {
        Ok(b) => Ok(b@),
        Err(e) => Err(e@),
    }
}

/// The key that was derived, or what is said of its absence.
pub fn key_or_fault(derived: Result<Result<Vec<u8>, String>, String>) -> (r: Result<Vec<u8>, String>)
    ensures
        bytes_result(r) == signing_result(secret_views(derived)),
{
    match derived {
        Err(e) => Err(e),
        Ok(Err(e)) => {
            let mut t = String::new();
            t.append("derive signing key: ");
            t.append(e.as_str());
            assert(t@ =~= "derive signing key: "@ + e@);
            Err(t)
        },
        Ok(Ok(k)) => Ok(k),
    }
}

/// The key with which a database's writes are signed. Test networks share their
/// keys.
pub fn signing_key(seed: &[u8], network: Network, account_index: u32) -> (r: Result<Vec<u8>, String>)
    requires
        32 <= seed@.len() <= 252,
        account_index < 0x8000_0000,
    ensures
        bytes_result(r) == signing_result(
            secret_key_of(seed@, network is Main, account_index, ZKV_TRANSPARENT_INDEX),
        ),
{
    key_or_fault(
        derive_secret(
            seed,
            matches!(network, Network::Main),
            account_index,
            ZKV_TRANSPARENT_INDEX,
        ),
    )
}

/// Orchard and Ironwood databases of one viewing key have one address, and a Sapling
/// one has the address of its own receiver.
pub proof fn ironwood_shares_the_address_of_orchard(ufvk: Seq<char>, network: Network)
    ensures
        pool_address_of(ufvk, network, ShieldedPool::Ironwood) == pool_address_of(
            ufvk,
            network,
            ShieldedPool::Orchard,
        ),
        pool_address_of(ufvk, network, ShieldedPool::Orchard) == receiver_address_of(
            ufvk,
            network,
            false,
        ),
        pool_address_of(ufvk, network, ShieldedPool::Sapling) == receiver_address_of(
            ufvk,
            network,
            true,
        ),
{
}

/// A key is given exactly where one was derived; of the two faults that can come
/// instead, that of the key says so.
pub proof fn a_derived_key_is_given(key: Seq<u8>, why: Seq<char>)
    ensures
        signing_result(Ok(Ok(key))) == Ok::<Seq<u8>, Seq<char>>(key),
        signing_result(Err(why)) == Err::<Seq<u8>, Seq<char>>(why),
        signing_result(Ok(Err(why))) == Err::<Seq<u8>, Seq<char>>("derive signing key: "@ + why),
{
}

} // verus!
