//! Rebuilding a database's wallet from its settings.

use crate::config::{Role, WalletConfig};
use crate::text::{opt_text, push_text, texts};
use vstd::prelude::*;
use vstd::string::*;

verus! {

/// A stored database file with its companions: what is left of one without the
/// others would come back on the next open.
pub fn sqlite_files(name: &str) -> (r: Vec<String>)
    ensures
        texts(r@) == seq![name@, name@ + "-wal"@, name@ + "-shm"@],
{
    let mut wal = String::new();
    wal.append(name);
    wal.append("-wal");
    assert(wal@ =~= name@ + "-wal"@);
    let mut shm = String::new();
    shm.append(name);
    shm.append("-shm");
    assert(shm@ =~= name@ + "-shm"@);
    let mut r: Vec<String> = Vec::new();
    assert(texts(r@) =~= Seq::<Seq<char>>::empty());
    push_text(&mut r, name);
    push_text(&mut r, wal.as_str());
    push_text(&mut r, shm.as_str());
    assert(texts(r@) =~= seq![name@, name@ + "-wal"@, name@ + "-shm"@]);
    r
}

/// What a wallet is wiped of.
#[derive(Clone, Debug, PartialEq, Eq)]
pub struct WipeList {
    /// Files of the wallet engine.
    pub engine_files: Vec<String>,
    /// Directories of the wallet engine.
    pub engine_dirs: Vec<String>,
    /// Files of the database itself.
    pub root_files: Vec<String>,
}

/// What a wallet is wiped of before it is rebuilt: everything that the chain can
/// give back. The settings and the key stay.
pub fn wipe_sidecars() -> (r: WipeList)
    ensures
        texts(r.engine_files@) == seq![
            "data.sqlite"@,
            "data.sqlite"@ + "-wal"@,
            "data.sqlite"@ + "-shm"@,
            "blockmeta.sqlite"@,
            "blockmeta.sqlite"@ + "-wal"@,
            "blockmeta.sqlite"@ + "-shm"@,
        ],
        texts(r.engine_dirs@) == seq!["blocks"@],
        texts(r.root_files@) == seq![
            "zkv_state.sqlite"@,
            "zkv_state.sqlite"@ + "-wal"@,
            "zkv_state.sqlite"@ + "-shm"@,
        ],
{
    let mut engine_files = sqlite_files("data.sqlite");
    let mut meta = sqlite_files("blockmeta.sqlite");
    let ghost a = texts(engine_files@);
    let ghost b = texts(meta@);
    engine_files.append(&mut meta);
    assert(texts(engine_files@) =~= a + b);
    assert(a + b =~= seq![
        "data.sqlite"@,
        "data.sqlite"@ + "-wal"@,
        "data.sqlite"@ + "-shm"@,
        "blockmeta.sqlite"@,
        "blockmeta.sqlite"@ + "-wal"@,
        "blockmeta.sqlite"@ + "-shm"@,
    ]);
    let mut engine_dirs: Vec<String> = Vec::new();
    assert(texts(engine_dirs@) =~= Seq::<Seq<char>>::empty());
    push_text(&mut engine_dirs, "blocks");
    assert(texts(engine_dirs@) =~= seq!["blocks"@]);
    WipeList { engine_files, engine_dirs, root_files: sqlite_files("zkv_state.sqlite") }
}

/// What a wallet is rebuilt from.
#[derive(Clone, Debug, PartialEq, Eq)]
pub enum RebuildFrom {
    /// The seed.
    Seed,
    /// The address that the database is watched by.
    Address(String),
}

/// What a wallet is rebuilt from: an admin's from the seed, a watched one from
/// the address that its settings hold.
pub fn rebootstrap(cfg: &WalletConfig) -> (r: Result<RebuildFrom, String>)
    ensures
        cfg.role is Admin ==> (r matches Ok(f) && f is Seed),
        cfg.role is Watch ==> (match opt_text(cfg.zkv_address) {
            Some(a) => r matches Ok(RebuildFrom::Address(t)) && t@ == a,
            None => r matches Err(e) && e@
                == "this watch database was created before zkv stored its address in keys.toml; re-run `zkv watch <zkv_addr>` with the original address to rebuild it"@,
        }),
{
    match cfg.role {
        Role::Admin => Ok(RebuildFrom::Seed),
        Role::Watch => match &cfg.zkv_address {
            Some(a) => Ok(RebuildFrom::Address(a.clone())),
            None => Err(
                "this watch database was created before zkv stored its address in keys.toml; re-run `zkv watch <zkv_addr>` with the original address to rebuild it".to_owned(),
            ),
        },
    }
}

} // verus!
