//! The requests of the browser and what they are answered.

use zcash_keys::keys::{UnifiedAddressRequest, UnifiedSpendingKey};
use zkv::config::Role;
use zkv::db::ZkvError;
use zkv::gui::actions::{
    check_address, classify_unknown, clears_current, derive_watch_name, faucet_call, faucet_funds, faucet_init,
    faucet_txid, init_answered, init_gate, page_limit, restore_birthday, reveal_gate, sign_memo, sign_memo_resp, sign_preview,
    unsigned_body, watch_name, FaucetCall, FaucetReply, SignRequest,
};
use zkv::gui::api::{
    browser_commands, constant_time_eq, content_security_policy, default_network, error_response, file_manager, guard,
    host_is_local, parse_network, parse_pool, random_nonce, random_token, static_handler, token_of, ApiError, Host,
    StaticAnswer,
};
use zkv::gui::desktop::{other_err, CmdError};
use zkv::gui::phrase::{same_identity, single_spaced, verify_phrase};
use zkv::internal::account::{account_keys, key_or_fault, no_account_error, signing_key, StoredAccount};
use zkv::internal::payment::describe_recipient;
use zkv::internal::pool::ShieldedPool;
use zkv::network::Network;
use zkv::protocol::{Op, Scope};

const PHRASE: &str = "abandon abandon abandon abandon abandon abandon abandon abandon abandon abandon abandon abandon \
abandon abandon abandon abandon abandon abandon abandon abandon abandon abandon abandon art";
const OTHER_PHRASE: &str = "abandon abandon abandon abandon abandon abandon abandon abandon abandon abandon abandon \
about";
const MAIN: zcash_protocol::consensus::Network = zcash_protocol::consensus::Network::MainNetwork;

#[test]
fn init_gate_errors_map_to_expected_codes() {
    let ns = ApiError::from_error(&ZkvError::NotSynced, "m".to_owned());
    assert_eq!(ns.status, 409);
    assert_eq!(ns.body.code, "not_synced");
    let stale = ApiError::from_error(&ZkvError::StaleChainTip, "m".to_owned());
    assert_eq!(stale.status, 503);
    assert_eq!(stale.body.code, "stale_tip");
}

#[test]
fn every_error_has_its_status_and_code() {
    let cases = vec![
        (ZkvError::UnknownDatabase("x".to_owned()), 404, "unknown_database"),
        (ZkvError::NotInitialized, 409, "not_initialized"),
        (ZkvError::Initializing { done: 1, required: 2 }, 409, "initializing"),
        (ZkvError::WatchOnly, 403, "watch_only"),
        (ZkvError::Unauthorized("x".to_owned()), 403, "unauthorized"),
        (ZkvError::InsufficientFunds { available: 1, required: 2, pending: 3 }, 402, "insufficient_funds"),
        (ZkvError::ClientUpgradeRequired { required: 2, supported: 1 }, 426, "client_upgrade_required"),
        (ZkvError::Other("x".to_owned()), 500, "error"),
    ];
    for (e, status, code) in cases {
        let a = ApiError::from_error(&e, "told".to_owned());
        assert_eq!((a.status, a.body.code, a.body.error.as_str()), (status, code, "told"));
        assert_eq!(a.body.available.is_some(), status == 402);
        let c = CmdError::from_error(&e, "told".to_owned());
        assert_eq!((c.code, c.message.as_str(), c.pending.is_some()), (code, "told", status == 402));
    }
    assert_eq!(other_err("x".to_owned()).code, "error");
    assert_eq!(error_response(418, "tea", "pot".to_owned()).status, 418);
}

#[test]
fn api_requires_token() {
    let e = guard(Some("127.0.0.1:8088"), None, "secrettoken", 8088).unwrap_err();
    assert_eq!((e.status, e.body.code), (401, "bad_token"));
    let e = guard(Some("127.0.0.1:8088"), Some("secrettokem"), "secrettoken", 8088).unwrap_err();
    assert_eq!(e.status, 401);
    assert_eq!(guard(Some("localhost:8088"), Some("secrettoken"), "secrettoken", 8088), Ok(()));
}

#[test]
fn api_rejects_foreign_host() {
    let e = guard(Some("evil.example.com"), Some("secrettoken"), "secrettoken", 8088).unwrap_err();
    assert_eq!((e.status, e.body.code), (403, "bad_host"));
    assert!(guard(None, Some("secrettoken"), "secrettoken", 8088).is_err());
    assert!(host_is_local(Some("[::1]:80"), 80));
    assert!(!host_is_local(Some("127.0.0.1:81"), 80));
}

#[test]
fn serves_a_static_asset() {
    assert_eq!(
        static_handler("/js/app.js"),
        StaticAnswer::Asset("js/app.js".to_owned(), "text/javascript; charset=utf-8")
    );
    assert_eq!(static_handler("/"), StaticAnswer::Index);
    assert_eq!(static_handler("/index.html"), StaticAnswer::Index);
    assert_eq!(static_handler("/nothing"), StaticAnswer::NotFound);
    assert_eq!(
        content_security_policy("abc"),
        "default-src 'self'; script-src 'self' 'nonce-abc'; object-src 'none'; base-uri 'none'; \
         frame-ancestors 'none'; form-action 'self'"
    );
}

#[test]
fn tokens_are_hex_and_never_the_same() {
    let t = random_token();
    assert_eq!(t.len() % 2, 0);
    assert!(t.len() >= 32 && t.chars().all(|c| c.is_ascii_hexdigit()));
    assert_ne!(t, random_token());
    assert_ne!(random_nonce(), random_nonce());
    assert_eq!(token_of(&[0, 255, 16]), "00ff10");
    assert!(constant_time_eq(b"ab", b"ab") && !constant_time_eq(b"ab", b"ac") && !constant_time_eq(b"a", b"ab"));
}

#[test]
fn request_fields_are_read() {
    assert_eq!(parse_network("testnet"), Ok(Network::Test));
    let e = parse_network("moon").unwrap_err();
    assert_eq!((e.status, e.body.code), (400, "bad_network"));
    assert_eq!(default_network(), "mainnet");
    assert_eq!(parse_pool(None), Ok(ShieldedPool::Orchard));
    assert_eq!(parse_pool(Some(Ok(ShieldedPool::Sapling))), Ok(ShieldedPool::Sapling));
    let e = parse_pool(Some(Err("bad".to_owned()))).unwrap_err();
    assert_eq!((e.status, e.body.code, e.body.error.as_str()), (400, "bad_pool", "bad"));
    for network in [Network::Main, Network::Test, Network::Regtest] {
        assert_eq!(zkv::gui::desktop::parse_pool(None, network), Ok(ShieldedPool::Ironwood));
    }
    let named = Some(Ok(ShieldedPool::Orchard));
    assert_eq!(zkv::gui::desktop::parse_pool(named, Network::Main), Ok(ShieldedPool::Orchard));
    let e = zkv::gui::desktop::parse_pool(Some(Err("bad".to_owned())), Network::Main).unwrap_err();
    assert_eq!((e.code, e.message.as_str()), ("bad_pool", "bad"));
    assert_eq!(zkv::gui::desktop::parse_network(None), Ok(Network::Main));
    assert!(zkv::gui::desktop::parse_network(Some("moon".to_owned())).is_err());
    assert_eq!(page_limit(None), 100);
    assert_eq!(page_limit(Some(7)), 7);
}

#[test]
fn programs_of_the_host() {
    assert_eq!(browser_commands(&Host::MacOs), vec![("open", vec![])]);
    assert_eq!(browser_commands(&Host::Windows), vec![("cmd", vec!["/C", "start", ""])]);
    assert_eq!(browser_commands(&Host::Other).len(), 2);
    assert_eq!(file_manager(&Host::Windows), "explorer");
}

#[test]
fn watched_databases_are_named_after_their_address() {
    assert_eq!(derive_watch_name("zkv:uview1abcdefghijk:123"), "watch-abcdefgh");
    assert_eq!(derive_watch_name("zkv:uview1ab"), "watch-ab");
    assert_eq!(derive_watch_name("zkv:short"), "watch");
    assert_eq!(derive_watch_name("nothing"), "watch");
    assert_eq!(watch_name(Some("mine".to_owned()), "nothing"), "mine");
    assert_eq!(watch_name(Some(" \t".to_owned()), "nothing"), "watch");
    assert_eq!(watch_name(None, "zkv:uview1ab"), "watch-ab");
}

#[test]
fn gates() {
    assert_eq!(init_gate(true, false), Err(ZkvError::NotSynced));
    assert_eq!(init_gate(true, true), Ok(()));
    assert_eq!(init_gate(false, false), Ok(()));
    assert_eq!(reveal_gate(Role::Watch), Err(ZkvError::WatchOnly));
    assert_eq!(reveal_gate(Role::Admin), Ok(()));
    assert_eq!(restore_birthday(Some(5)), Ok(5));
    assert!(restore_birthday(None).is_err());
    assert!(clears_current(Some("a"), "a") && !clears_current(Some("a"), "b") && !clears_current(None, "a"));
    assert_eq!(
        classify_unknown("no database named \"x\"".to_owned(), "x"),
        ZkvError::UnknownDatabase("x".to_owned())
    );
    assert_eq!(classify_unknown("disk".to_owned(), "x"), ZkvError::Other("disk".to_owned()));
}

#[test]
fn an_address_is_checked() {
    let bad = check_address(describe_recipient("not-an-address", Network::Main));
    assert!(!bad.valid && bad.error.is_some() && bad.kind.is_none());
    let zs = "zs1z7rejlpsa98s2rrrfkwmaxu53e4ue0ulcrw0h4x5g8jl04tak0d3mm47vdtahatqrlkngh9slya";
    let good = check_address(describe_recipient(zs, Network::Main));
    assert!(good.valid && good.error.is_none());
    assert_eq!(good.kind.as_deref(), Some("sapling"));
    assert_eq!(good.pool.as_deref(), Some("sapling"));
    let t1 = check_address(describe_recipient("t1Hsc1LR8yKnbbe3twRp88p6vFfC5t7DLbs", Network::Main));
    assert!(t1.valid && t1.error.is_none());
    assert_eq!((t1.kind.as_deref(), t1.pool.as_deref()), (Some("transparent"), Some("transparent")));
    assert_eq!(bad.pool, None);
}

#[test]
fn requests_to_sign_are_read() {
    assert_eq!(
        sign_memo("set", Some("k"), Some("v"), None),
        Ok(SignRequest::Put { key: "k".to_owned(), value: "v".to_owned() })
    );
    assert_eq!(
        sign_memo("SETL", Some("k"), None, None),
        Ok(SignRequest::SetL { key: "k".to_owned(), value: String::new() })
    );
    assert_eq!(sign_memo("del", Some("k"), None, None), Ok(SignRequest::Del { key: "k".to_owned() }));
    assert_eq!(sign_memo("init", None, None, None), Ok(SignRequest::Init));
    assert_eq!(sign_memo("Del", None, None, None), Err("Del requires a key".to_owned()));
    assert_eq!(sign_memo("WRITERSET", Some("k"), None, None), Err("WRITERSET requires a scope".to_owned()));
    assert_eq!(
        sign_memo("WRITERSET", Some("k"), None, Some("NOPE")),
        Err("invalid scope \"NOPE\": expected a comma-separated subset of CREATE,UPDATE,DESTROY".to_owned())
    );
    assert_eq!(
        sign_memo("WRITERSET", Some("k"), None, Some("UPDATE")),
        Ok(SignRequest::Manage {
            op: Op::WriterSet,
            target: "k".to_owned(),
            scope: Some(Scope { create: false, update: true, destroy: false }),
        })
    );
    assert_eq!(sign_memo("version", None, None, None), Err("opcode \"VERSION\" cannot be signed".to_owned()));
    assert_eq!(
        sign_preview("setl", "k", Some("v")),
        Ok(SignRequest::Put { key: "k".to_owned(), value: "v".to_owned() })
    );
    assert_eq!(sign_preview("SET", "k", None), Err("sign_preview: unknown op \"SET\"".to_owned()));
    assert_eq!(unsigned_body("ZKV0 SET k\nv\nsig"), "ZKV0 SET k\nv");
    assert_eq!(unsigned_body("one line"), "one line");
    assert_eq!(sign_memo_resp("a\nb".to_owned(), "r".to_owned(), "z".to_owned()).unsigned, "a");
}

#[test]
fn answers_of_the_faucet() {
    let reply = |success: bool, body: &str| Some(FaucetReply { success, body: body.to_owned() });
    assert_eq!(faucet_call(None), FaucetCall::Outdated);
    assert_eq!(faucet_call(reply(true, "please UPDATE")), FaucetCall::Outdated);
    assert_eq!(faucet_call(reply(false, "no")), FaucetCall::Error);
    assert_eq!(faucet_call(reply(true, "fine")), FaucetCall::Accepted("fine".to_owned()));
    assert_eq!(faucet_txid("{\"txid\": \"abc\", \"n\": 1}").as_deref(), Some("abc"));
    assert_eq!(faucet_txid("{\"txid\": 5}"), None);
    assert_eq!(faucet_txid("not json"), None);
    assert_eq!(faucet_funds(FaucetCall::Error).outcome, "error");
    let (resp, record) = faucet_init(FaucetCall::Accepted("{\"txid\":\"abc\"}".to_owned()), "memo", "zkv1", 9);
    assert_eq!((resp.outcome.as_str(), resp.txid.as_deref()), ("ok", Some("abc")));
    let record = record.unwrap();
    assert_eq!((record.op.as_str(), record.key.as_str(), record.broadcast_at_unix), ("INIT", "zkv1", 9));
    let (resp, record) = faucet_init(FaucetCall::Accepted("{}".to_owned()), "memo", "zkv1", 9);
    assert_eq!((resp.outcome.as_str(), resp.txid, record), ("ok", None, None), "no transaction was named");
    assert_eq!(faucet_init(FaucetCall::Outdated, "memo", "zkv1", 9).1, None);
    let (resp, record) = init_answered(FaucetCall::Error, Some("abc".to_owned()), "memo", "zkv1", 9);
    assert_eq!((resp.outcome.as_str(), resp.txid, record), ("error", None, None));
}

#[test]
fn a_phrase_belongs_to_one_database() {
    for pool in [ShieldedPool::Orchard, ShieldedPool::Ironwood, ShieldedPool::Sapling] {
        let ours = key_of(PHRASE);
        assert_eq!(verify_phrase(PHRASE, Network::Main, pool, &ours), Ok(true));
        let shouted = format!("  {}\n", PHRASE.to_uppercase());
        assert_eq!(verify_phrase(&shouted, Network::Main, pool, &ours), Ok(true), "case and spaces do not count");
        assert_eq!(verify_phrase(PHRASE, Network::Test, pool, &ours), Ok(false), "another network, another key");
        assert_eq!(verify_phrase(OTHER_PHRASE, Network::Main, pool, &ours), Ok(false));
        assert!(verify_phrase(PHRASE, Network::Main, pool, "uview1nonsense").is_err());
    }
    assert!(verify_phrase("abandon abandon", Network::Main, ShieldedPool::Orchard, "")
        .unwrap_err()
        .starts_with("invalid recovery phrase: "));
    assert_eq!(single_spaced("  a\n b  c "), "a b c");
}

#[test]
fn a_database_is_told_by_its_receiver() {
    let at = |ua: &str, raw: &[u8]| Ok((ua.to_owned(), raw.to_vec()));
    let no = || Err("none".to_owned());
    assert_eq!(same_identity(at("a", &[1]), at("b", &[1])), Ok(true));
    assert_eq!(same_identity(at("a", &[1]), at("a", &[2])), Ok(false));
    assert_eq!(same_identity(no(), at("a", &[2])), Err("none".to_owned()));
    assert_eq!(same_identity(at("a", &[2]), no()), Err("none".to_owned()));
}

fn usk_of(phrase: &str) -> UnifiedSpendingKey {
    let seed = bip0039::Mnemonic::<bip0039::English>::from_phrase(phrase).unwrap().to_seed("");
    UnifiedSpendingKey::from_seed(&MAIN, &seed, zip32::AccountId::ZERO).unwrap()
}

fn key_of(phrase: &str) -> String {
    usk_of(phrase).to_unified_full_viewing_key().encode(&MAIN).unwrap()
}

fn account(ufvk: Option<String>) -> StoredAccount {
    StoredAccount { uuid: vec![5; 16], ufvk, derived: true }
}

#[test]
fn an_account_leads_to_the_addresses_of_its_database() {
    let ours = account(Some(key_of(PHRASE)));
    let name = || Ok("zkvid1root".to_owned());
    let addr = || Ok("zkv1addr".to_owned());
    let keys = account_keys("db", Some(Some(&ours)), name(), addr(), Network::Main, ShieldedPool::Orchard).unwrap();
    let (ua, _) =
        usk_of(PHRASE).to_unified_full_viewing_key().default_address(UnifiedAddressRequest::ORCHARD).unwrap();
    assert_eq!(keys.recipient_ua, ua.encode(&MAIN));
    assert_eq!(keys.receiver_hex, hex::encode(ua.orchard().unwrap().to_raw_address_bytes()));
    assert_eq!((keys.zkv_addr.as_str(), keys.verifying_identity.as_str()), ("zkv1addr", "zkvid1root"));
    assert_eq!(keys.account_uuid_bytes, vec![5; 16]);
    assert!(keys.derived);
    let sapling = account_keys("db", Some(Some(&ours)), name(), addr(), Network::Main, ShieldedPool::Sapling).unwrap();
    assert_ne!(sapling.receiver_hex, keys.receiver_hex);
    assert_eq!(describe_recipient(&sapling.recipient_ua, Network::Main).unwrap().pool.as_deref(), Some("sapling"));

    let fails = |a: Option<Option<&StoredAccount>>| {
        account_keys("db", a, name(), addr(), Network::Main, ShieldedPool::Orchard).unwrap_err()
    };
    assert_eq!(fails(None), no_account_error("db"));
    assert_eq!(fails(Some(None)), "account vanished");
    assert_eq!(fails(Some(Some(&account(None)))), "no UFVK");
    assert!(fails(Some(Some(&account(Some("x".to_owned()))))).starts_with("derive Orchard UA: "));
    let no = || Err("no key".to_owned());
    assert_eq!(
        account_keys("db", Some(Some(&ours)), no(), addr(), Network::Main, ShieldedPool::Orchard),
        Err("no key".to_owned())
    );
}

#[test]
fn a_seed_leads_to_the_key_that_signs() {
    let seed = bip0039::Mnemonic::<bip0039::English>::from_phrase(PHRASE).unwrap().to_seed("");
    let index = zcash_transparent::keys::NonHardenedChildIndex::ZERO;
    let want = usk_of(PHRASE).transparent().derive_external_secret_key(index).unwrap().secret_bytes();
    assert_eq!(signing_key(&seed, Network::Main, 0), Ok(want.to_vec()));
    assert_ne!(signing_key(&seed, Network::Main, 1), Ok(want.to_vec()));
    assert_ne!(signing_key(&seed, Network::Test, 0), Ok(want.to_vec()));
    assert_eq!(key_or_fault(Ok(Err("e".to_owned()))), Err("derive signing key: e".to_owned()));
    assert_eq!(key_or_fault(Err("e".to_owned())), Err("e".to_owned()));
}
