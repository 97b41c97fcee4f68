//! Shards, members and the settings of one database.

use zkv::config::{pool_label, Role, WalletConfig, WalletEngine};
use zkv::fleet::{
    account_in_shard, enrol, existing_shard_dirs, fleet_dir, fleet_is_default, flip_if_caught_up, join, leave, locate,
    locate_member, manifest_dir, manifest_for, manifest_path, marker_for, search_shards, shard_dir_name, shard_engine_dir,
    shards_dir, should_enrol, Manifest, MemberPlace, Shard, ShardAccount, WalletHome, WALLET,
};
use zkv::internal::account::no_account_error;
use zkv::internal::lock::{acquire, settle, LockOutcome, LockReply, LockStep};
use zkv::internal::pool::ShieldedPool;
use zkv::internal::recover::{rebootstrap, sqlite_files, wipe_sidecars, RebuildFrom};
use zkv::network::Network;

fn account(n: u8) -> ShardAccount {
    ShardAccount { ufvk: Some(format!("uviewtest1member{n}")), uuid: vec![n; 16] }
}

fn shard(index: usize, members: &[u8]) -> Shard {
    Shard { name: shard_dir_name(index), accounts: members.iter().map(|n| account(*n)).collect() }
}

fn ufvk_for(n: u8) -> String {
    format!("uviewtest1member{n}")
}

fn config(engine: WalletEngine) -> WalletConfig {
    WalletConfig {
        role: Role::Watch,
        network: Network::Test,
        pool: ShieldedPool::Orchard,
        birthday: 3_000_000,
        engine,
        ufvk: Some(ufvk_for(2)),
        zkv_address: None,
        shard: None,
    }
}

#[test]
fn shard_directories_are_zero_padded_from_zero() {
    assert_eq!(shard_dir_name(0), "shard-0000");
    assert_eq!(shard_dir_name(3), "shard-0003");
    assert_eq!(shard_dir_name(1234), "shard-1234");
    assert_eq!(shard_dir_name(12345), "shard-12345");
}

#[test]
fn shard_enumeration_stops_at_the_first_gap() {
    let mut dirs: Vec<String> = [0usize, 1, 3].iter().map(|i| shard_dir_name(*i)).collect();
    assert_eq!(existing_shard_dirs(&dirs), vec!["shard-0000".to_owned(), "shard-0001".to_owned()]);
    dirs.push(shard_dir_name(2));
    assert_eq!(existing_shard_dirs(&dirs).len(), 4);
}

#[test]
fn no_shards_at_all_is_an_empty_fleet_not_an_error() {
    assert!(existing_shard_dirs(&Vec::new()).is_empty());
    assert_eq!(search_shards(&Vec::new(), &ufvk_for(1), Some("shard-0000")), None);
}

#[test]
fn a_member_is_found_by_its_viewing_key_not_its_position() {
    let shards = vec![shard(0, &[1, 2]), shard(1, &[3, 4])];
    let (dir, uuid) = search_shards(&shards, &ufvk_for(4), None).unwrap();
    assert_eq!(dir, "shard-0001");
    assert_eq!(uuid.len(), 16);
    assert_eq!(account_in_shard(&shards[1], &ufvk_for(4)), Some(uuid.clone()));
    let other = search_shards(&shards, &ufvk_for(3), None).unwrap();
    assert_eq!(other.0, "shard-0001");
    assert_ne!(other.1, uuid);
}

#[test]
fn a_key_that_is_in_no_shard_is_not_found_rather_than_mismatched() {
    let mut shards = vec![shard(0, &[1, 2])];
    assert!(search_shards(&shards, &ufvk_for(9), None).is_none());
    shards[0].accounts.push(ShardAccount { ufvk: None, uuid: vec![9; 16] });
    assert!(search_shards(&shards, &ufvk_for(9), None).is_none());
}

#[test]
fn a_balance_read_sees_only_this_databases_account() {
    let both = shard(0, &[1, 2]);
    let a = account_in_shard(&both, &ufvk_for(1)).unwrap();
    let b = account_in_shard(&both, &ufvk_for(2)).unwrap();
    assert_ne!(a, b);
    for uuid in [&a, &b] {
        assert!(both.accounts.iter().any(|x| x.uuid == *uuid));
    }
}

#[test]
fn a_stale_shard_hint_still_finds_the_member() {
    let shards = vec![shard(0, &[1]), shard(1, &[2])];
    let (dir, _) = search_shards(&shards, &ufvk_for(2), Some("shard-0000")).unwrap();
    assert_eq!(dir, "shard-0001");
    let (dir, _) = search_shards(&shards, &ufvk_for(2), Some("shard-0099")).unwrap();
    assert_eq!(dir, "shard-0001");
    let (dir, _) = search_shards(&shards, &ufvk_for(1), Some("shard-0000")).unwrap();
    assert_eq!(dir, "shard-0000");
}

#[test]
fn a_right_hint_is_tried_first() {
    // The same key in two shards: the hint decides.
    let shards = vec![shard(0, &[1]), shard(1, &[1])];
    assert_eq!(search_shards(&shards, &ufvk_for(1), None).unwrap().0, "shard-0000");
    assert_eq!(search_shards(&shards, &ufvk_for(1), Some("shard-0001")).unwrap().0, "shard-0001");
}

#[test]
fn fleet_paths() {
    assert_eq!(fleet_dir(Network::Test).last().map(String::as_str), Some("testnet"));
    let manifests = manifest_dir(Network::Main);
    let path = manifest_path(Network::Main, "watch-a");
    assert_eq!(path[..path.len() - 1], manifests[..]);
    assert_eq!(path.last().map(String::as_str), Some("watch-a.toml"));
    let engine = shard_engine_dir(Network::Main, "shard-0002");
    let shards = shards_dir(Network::Main);
    assert_eq!(engine[..shards.len()], shards[..]);
    assert_eq!(engine[shards.len()], "shard-0002");
    assert_eq!(engine.len(), shards.len() + 2);
}

#[test]
fn members_are_located() {
    let shards = vec![shard(0, &[1]), shard(1, &[2])];
    let mut cfg = config(WalletEngine::Own);
    assert_eq!(locate(&cfg, vec!["own".to_owned()], None), WalletHome::Own { engine_dir: vec!["own".to_owned()] });
    cfg.engine = WalletEngine::Fleet;
    let place = locate_member(&cfg, &shards).unwrap();
    assert_eq!(
        place,
        Some(MemberPlace { shard: "shard-0001".to_owned(), uuid: vec![2; 16], correct_hint: true })
    );
    cfg.shard = Some("shard-0001".to_owned());
    assert_eq!(locate_member(&cfg, &shards).unwrap().map(|p| p.correct_hint), Some(false));
    assert_eq!(
        locate(&cfg, vec!["own".to_owned()], place.as_ref()),
        WalletHome::Fleet { engine_dir: shard_engine_dir(Network::Test, "shard-0001") }
    );
    assert_eq!(locate(&cfg, vec!["own".to_owned()], None), WalletHome::Importing);
    cfg.ufvk = None;
    assert!(locate_member(&cfg, &shards).is_err());
}

#[test]
fn enrolment_rules() {
    let cfg = config(WalletEngine::Unset);
    let m = manifest_for(&cfg).unwrap();
    assert_eq!(m, Manifest { ufvk: ufvk_for(2), birthday: 3_000_000 });
    let mut bare = config(WalletEngine::Unset);
    bare.ufvk = None;
    assert!(manifest_for(&bare).is_err());
    assert!(fleet_is_default(None) && fleet_is_default(Some(false)) && !fleet_is_default(Some(true)));
    for on in [false, true] {
        assert_eq!(fleet_is_default(Some(marker_for(on))), on);
    }
    assert!(should_enrol(&cfg, "prices", true));
    assert!(!should_enrol(&cfg, "prices", false));
    assert!(!should_enrol(&cfg, WALLET, true));
    assert!(!should_enrol(&config(WalletEngine::Own), "prices", true));
    let mut admin = config(WalletEngine::Unset);
    admin.role = Role::Admin;
    assert!(!should_enrol(&admin, "prices", true));

    // A manifest that was there already: the same one is fine, another is not.
    let mut member = config(WalletEngine::Unset);
    assert!(enrol(&mut member, &m, false, Some(&m.clone())));
    assert_eq!(member.engine, WalletEngine::FleetPending);
    let mut clash = config(WalletEngine::Unset);
    let other = Manifest { ufvk: "uviewtest1zzz".to_owned(), birthday: 1 };
    assert!(!enrol(&mut clash, &m, false, Some(&other)));
    assert!(!enrol(&mut clash, &m, false, None));
    assert_eq!(clash.engine, WalletEngine::Unset);
    leave(&mut member);
    assert_eq!(member.engine, WalletEngine::Own);
}

#[test]
fn a_viewing_key_is_taken_from_the_address_when_none_is_kept() {
    let mut cfg = config(WalletEngine::Unset);
    cfg.ufvk = None;
    assert!(join(&mut cfg, None).is_err());
    assert!(join(&mut cfg, Some(Err("bad address".to_owned()))).is_err());
    assert_eq!(cfg.ufvk, None);
    let m = join(&mut cfg, Some(Ok("uviewtest1fromaddr".to_owned()))).unwrap();
    assert_eq!(cfg.ufvk.as_deref(), Some("uviewtest1fromaddr"));
    assert_eq!(m.ufvk, "uviewtest1fromaddr");
}

#[test]
fn a_joining_member_flips_once_its_shard_has_caught_up() {
    let mut cfg = config(WalletEngine::FleetPending);
    assert!(!flip_if_caught_up(&mut cfg, 100, 99));
    assert_eq!(cfg.engine, WalletEngine::FleetPending);
    assert!(flip_if_caught_up(&mut cfg, 100, 100));
    assert_eq!(cfg.engine, WalletEngine::Fleet);
    assert!(!flip_if_caught_up(&mut cfg, 100, 100));
    let mut own = config(WalletEngine::Own);
    assert!(!flip_if_caught_up(&mut own, 0, 100));
}

#[test]
fn files_to_remove() {
    assert_eq!(sqlite_files("data.sqlite"), vec!["data.sqlite", "data.sqlite-wal", "data.sqlite-shm"]);
    let w = wipe_sidecars();
    assert_eq!(w.engine_files.len(), 6);
    assert!(w.engine_files.contains(&"blockmeta.sqlite-wal".to_owned()));
    assert_eq!(w.engine_dirs, vec!["blocks"]);
    assert_eq!(w.root_files, sqlite_files("zkv_state.sqlite"));
}

#[test]
fn a_wallet_is_rebuilt_from_its_settings() {
    let mut cfg = config(WalletEngine::Own);
    assert!(rebootstrap(&cfg).unwrap_err().contains("re-run `zkv watch <zkv_addr>`"));
    cfg.zkv_address = Some("zkv1abc".to_owned());
    assert_eq!(rebootstrap(&cfg), Ok(RebuildFrom::Address("zkv1abc".to_owned())));
    cfg.role = Role::Admin;
    assert_eq!(rebootstrap(&cfg), Ok(RebuildFrom::Seed));
}

#[test]
fn reentrant_within_process() {
    assert_eq!(acquire(true, false), LockStep::Ask);
    assert_eq!(acquire(true, true), LockStep::Share);
    assert_eq!(settle(LockReply::Granted, false), LockOutcome::Held);
    assert_eq!(settle(LockReply::Busy, false), LockOutcome::NotNow);
    assert_eq!(settle(LockReply::Busy, true), LockOutcome::Wait);
    assert_eq!(settle(LockReply::Failed, true), LockOutcome::Failed);
}

#[test]
fn missing_db_is_noop() {
    assert_eq!(acquire(false, false), LockStep::Nothing);
    assert_eq!(acquire(false, true), LockStep::Nothing);
}

#[test]
fn small_messages() {
    assert_eq!(pool_label(ShieldedPool::Sapling), "sapling");
    assert_eq!(pool_label(ShieldedPool::Orchard), "orchard");
    assert!(no_account_error("my \"db\"").starts_with("the \"my \\\"db\\\"\" database has no wallet key"));
}

#[test]
fn no_two_shards_share_a_name() {
    let names: Vec<String> = (0..10_050usize).step_by(7).map(shard_dir_name).collect();
    for pair in names.windows(2) {
        assert_ne!(pair[0], pair[1]);
    }
    assert_eq!(names.iter().collect::<std::collections::BTreeSet<_>>().len(), names.len());
}
