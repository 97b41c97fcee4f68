//! Amounts, recipients, requests, and the ledger.

use zcash_keys::keys::{UnifiedAddressRequest, UnifiedSpendingKey};
use zkv::internal::funding::{
    funding_entries, load_funding, FundingDirection, FundingOutput, FundingRow,
};
use zkv::internal::payment::{
    check_payment, describe_recipient, describe_resolved, make_request, validate_recipient, PaymentIssue, PaymentPlan,
    Recipient, RequestIssue, MAX_MONEY,
};
use zkv::internal::send::{parse_zec, send_funds, transfer_fault_text};
use zkv::internal::txid::{txid_blob_from_hex, txid_display, txid_hex};
use zkv::internal::write::build_request;
use zkv::network::Network;

const ZS: &str = "zs1z7rejlpsa98s2rrrfkwmaxu53e4ue0ulcrw0h4x5g8jl04tak0d3mm47vdtahatqrlkngh9slya";
const T1: &str = "t1Hsc1LR8yKnbbe3twRp88p6vFfC5t7DLbs";

fn zats(s: &str) -> u64 {
    parse_zec(s).expect("valid amount")
}

#[test]
fn parse_zec_whole_and_fractional() {
    assert_eq!(zats("1"), 100_000_000);
    assert_eq!(zats("1.5"), 150_000_000);
    assert_eq!(zats("0.0001"), 10_000);
    assert_eq!(zats("0.00000001"), 1);
    assert_eq!(zats(".5"), 50_000_000);
    assert_eq!(zats("  2.25  "), 225_000_000);
}

#[test]
fn parse_zec_rejects_bad_input() {
    for bad in ["", " ", ".", "0", "0.0", "abc", "1.2.3", "-1", "1e3", "1.234567890"] {
        assert!(parse_zec(bad).is_err(), "expected {bad:?} to be rejected");
    }
}

#[test]
fn amounts_are_told_apart() {
    assert_eq!(parse_zec(""), Err("enter an amount".to_owned()));
    assert_eq!(parse_zec("1.234567890"), Err("at most 8 decimal places".to_owned()));
    assert_eq!(parse_zec("1.x"), Err("not a valid amount".to_owned()));
    assert_eq!(parse_zec("0.0"), Err("amount must be greater than zero".to_owned()));
    assert_eq!(zats("21000000"), MAX_MONEY);
    assert!(parse_zec("21000000.00000001").is_err());
    assert!(parse_zec("99999999999999999999999999").is_err());
    assert_eq!(zats("0000000000000000000000000001"), 100_000_000);
}

#[test]
fn validate_recipient_rejects_empty_and_garbage() {
    assert!(validate_recipient("", Network::Main).is_err());
    assert!(validate_recipient("not-an-address", Network::Main).is_err());
}

#[test]
fn validate_recipient_accepts_on_its_network_and_rejects_cross_network() {
    assert_eq!(validate_recipient(ZS, Network::Main).as_deref(), Ok("sapling"));
    assert!(validate_recipient(ZS, Network::Test).is_err());
}

fn unified() -> String {
    let net = zcash_protocol::consensus::Network::MainNetwork;
    UnifiedSpendingKey::from_seed(&net, &[0x42; 32], zip32::AccountId::ZERO)
        .expect("derive USK")
        .to_unified_full_viewing_key()
        .default_address(UnifiedAddressRequest::ORCHARD)
        .expect("orchard UA")
        .0
        .encode(&net)
}

#[test]
fn describe_recipient_classifies_kind_and_pool() {
    let info = describe_recipient(ZS, Network::Main).expect("valid sapling");
    assert_eq!(info.kind, "sapling");
    assert_eq!(info.pool.as_deref(), Some("sapling"));
    let info = describe_recipient(&unified(), Network::Main).expect("valid unified");
    assert_eq!(info.kind, "unified");
    assert_eq!(info.network, "mainnet");
    assert_eq!(info.pool.as_deref(), Some("ironwood/orchard"));
    assert!(describe_recipient(ZS, Network::Test).is_err());
    assert!(describe_recipient("", Network::Main).is_err());
    assert!(describe_recipient("not-an-address", Network::Main).is_err());
}

#[test]
fn every_kind_of_recipient_is_described() {
    let pool = |r: Recipient| describe_resolved(r, Network::Main).unwrap().pool;
    assert_eq!(pool(Recipient::Unified(true, true)).as_deref(), Some("ironwood/orchard"));
    assert_eq!(pool(Recipient::Unified(false, true)).as_deref(), Some("sapling"));
    assert_eq!(pool(Recipient::Unified(false, false)).as_deref(), Some("transparent"));
    assert_eq!(pool(Recipient::Transparent), None);
    assert_eq!(describe_resolved(Recipient::Tex, Network::Main).unwrap().kind, "TEX");
    assert_eq!(describe_recipient(T1, Network::Main).unwrap().kind, "transparent");
    assert_eq!(
        describe_recipient(ZS, Network::Test),
        Err("that's a mainnet address, but this database is on testnet".to_owned())
    );
    assert_eq!(
        describe_resolved(Recipient::Unsupported, Network::Main),
        Err("that address type isn't supported".to_owned())
    );
    assert_eq!(
        describe_recipient("x", Network::Main),
        Err("that doesn't look like a Zcash address".to_owned())
    );
}

#[test]
fn build_request_rejects_bad_recipient() {
    let err = build_request("not-a-zcash-address", "ZKV0 SET k v").unwrap_err();
    assert!(err.contains("bad recipient UA"));
}

#[test]
fn a_request_names_its_payment() {
    let uri = send_funds(&format!(" {ZS} "), Network::Main, 150_000_000, Some("  hi  ")).unwrap();
    assert!(uri.starts_with(&format!("zcash:{ZS}?")), "{uri}");
    assert!(uri.contains("amount=1.5"), "{uri}");
    assert!(uri.contains("memo=aGk"), "{uri}");
    let bare = send_funds(ZS, Network::Main, 150_000_000, Some("  ")).unwrap();
    assert!(!bare.contains("memo="), "{bare}");
    let write = build_request(ZS, "ZKV0 SET k v").unwrap();
    assert!(write.contains("memo="), "{write}");
}

#[test]
fn a_transfer_is_refused_with_a_reason() {
    assert!(send_funds(ZS, Network::Test, 1, None).unwrap_err().contains("on testnet"));
    assert!(send_funds(T1, Network::Main, 1, Some("memo"))
        .unwrap_err()
        .starts_with("this recipient can't receive a memo: "));
    assert!(send_funds(ZS, Network::Main, 1, Some(&"x".repeat(513))).unwrap_err().starts_with("invalid memo: "));
    assert!(send_funds(ZS, Network::Main, 1, Some(&"x".repeat(512))).is_ok());
    assert_eq!(transfer_fault_text(RequestIssue::Request("e".to_owned())), "bad tx request: e");
    assert_eq!(
        transfer_fault_text(RequestIssue::Payment(PaymentIssue::BadAddress("e".to_owned()))),
        "bad address: e"
    );
}

#[test]
fn the_first_bad_payment_refuses_a_request() {
    let good = PaymentPlan { address: ZS.to_owned(), zats: 0, memo: Some("m".to_owned()) };
    let bad = PaymentPlan { address: "x".to_owned(), zats: 0, memo: None };
    assert_eq!(check_payment(&good), None);
    assert!(matches!(check_payment(&bad), Some(PaymentIssue::BadAddress(_))));
    let two = make_request(&vec![good.clone(), good.clone()]).unwrap();
    assert!(two.contains("memo.1="), "{two}");
    assert!(matches!(
        make_request(&vec![good, bad]),
        Err(RequestIssue::Payment(PaymentIssue::BadAddress(_)))
    ));
}

#[test]
fn txid_blob_from_hex_reverses_and_rejects_bad_input() {
    let display_hex: String = (0u8..32).map(|i| format!("{i:02x}")).collect();
    let blob = txid_blob_from_hex(&display_hex).expect("32-byte hex parses");
    assert_eq!(blob.len(), 32);
    assert_eq!(blob[0], 0x1f);
    assert_eq!(blob[31], 0x00);
    assert!(txid_blob_from_hex("dead").is_none());
    assert!(txid_blob_from_hex(&"zz".repeat(32)).is_none());
}

#[test]
fn a_shown_txid_leads_back_to_its_bytes() {
    let bytes: Vec<u8> = (0u8..32).collect();
    let shown = txid_display(&bytes).unwrap();
    assert_eq!(txid_blob_from_hex(&shown), Some(bytes.clone()));
    assert!(shown.starts_with("1f1e"));
    assert_eq!(txid_display(&bytes[1..]), None);
    assert_eq!(txid_hex(&bytes), shown);
    assert_eq!(txid_hex(&[1, 2]), "");
}

const ACCOUNT: [u8; 16] = [7u8; 16];
const OTHER_ACCOUNT: [u8; 16] = [9u8; 16];
const TIP: u32 = 1000;
const FEE: i64 = 10_000;
const KEY_SCOPE_EXTERNAL: i64 = 0;

fn tx(txid: u8, delta: i64, fee: Option<i64>) -> FundingRow {
    FundingRow {
        txid: Some(vec![txid; 32]),
        account: ACCOUNT.to_vec(),
        mined_height: Some(900),
        expiry_height: None,
        block_time: Some(1_700_000_000),
        delta: Some(delta),
        fee,
    }
}

fn output(
    txid: u8,
    to_address: Option<&str>,
    to_account: Option<&[u8]>,
    is_change: bool,
    value: i64,
    key_scope: Option<i64>,
    memo: Option<&[u8]>,
) -> FundingOutput {
    FundingOutput {
        txid: Some(vec![txid; 32]),
        memo: memo.map(<[u8]>::to_vec),
        memo_is_zkv: memo.map_or(false, |m| m.starts_with(b"ZKV0 ")),
        to_address: to_address.map(str::to_owned),
        to_account: to_account.map(<[u8]>::to_vec),
        from_account: Some(ACCOUNT.to_vec()),
        is_change: Some(is_change as i64),
        value: Some(value),
        key_scope,
    }
}

#[test]
fn scanned_self_send_marked_change_still_surfaces_as_self_transfer() {
    let gross = 1_000_000_000i64;
    let outputs = vec![
        output(1, Some("u1selfdeposit"), Some(&ACCOUNT), true, gross, Some(KEY_SCOPE_EXTERNAL), None),
        output(1, None, Some(&ACCOUNT), true, 172_455_000, Some(1), None),
    ];
    let entries = funding_entries(&outputs, &vec![tx(1, -FEE, Some(FEE))], &ACCOUNT, TIP);
    assert_eq!(entries.len(), 1, "the self-send must not be dropped");
    let tx = &entries[0];
    assert_eq!(tx.direction, FundingDirection::SelfTransfer);
    assert_eq!(tx.amount, FEE as u64, "net effect is the fee");
    assert_eq!(tx.self_sent, Some(gross as u64), "gross value kept aside");
    assert_eq!(tx.fee, Some(FEE as u64));
    assert!(tx.recipients.is_empty(), "own address is not a recipient");
}

#[test]
fn internal_shuffle_is_still_dropped() {
    let outputs = vec![output(2, None, Some(&ACCOUNT), true, 50_000_000, Some(1), None)];
    let entries = funding_entries(&outputs, &vec![tx(2, -FEE, Some(FEE))], &ACCOUNT, TIP);
    assert!(entries.is_empty(), "internal shuffles stay out of the ledger");
}

#[test]
fn bare_fee_zkv_write_is_a_zkv_operation() {
    let memo = b"ZKV0 SET k v".as_slice();
    let outputs = vec![output(3, None, Some(&ACCOUNT), true, 0, Some(1), Some(memo))];
    let entries = funding_entries(&outputs, &vec![tx(3, -FEE, Some(FEE))], &ACCOUNT, TIP);
    assert_eq!(entries.len(), 1);
    assert_eq!(entries[0].direction, FundingDirection::ZkvOperation);
    assert_eq!(entries[0].amount, FEE as u64);
    assert!(entries[0].is_zkv);
}

#[test]
fn receives_and_sends_classify_as_before() {
    let outputs = vec![
        output(4, Some("u1ourreceiver"), Some(&ACCOUNT), false, 100_000_000, Some(KEY_SCOPE_EXTERNAL), None),
        output(5, Some("u1recipient"), None, false, 50_000_000, None, None),
        output(5, None, Some(&ACCOUNT), true, 25_000_000, Some(1), None),
    ];
    let rows = vec![tx(4, 100_000_000, None), tx(5, -(50_000_000 + FEE), Some(FEE))];
    let entries = funding_entries(&outputs, &rows, &ACCOUNT, TIP);
    assert_eq!(entries.len(), 2);
    let recv = entries.iter().find(|t| t.txid.starts_with("04")).unwrap();
    assert_eq!(recv.direction, FundingDirection::Received);
    assert_eq!(recv.amount, 100_000_000);
    let sent = entries.iter().find(|t| t.txid.starts_with("05")).unwrap();
    assert_eq!(sent.direction, FundingDirection::Sent);
    assert_eq!(sent.amount, 50_000_000, "fee excluded from the amount");
    assert_eq!(sent.recipients, vec!["u1recipient".to_owned()]);
}

#[test]
fn external_scope_output_to_another_account_is_not_a_self_send() {
    let outputs = vec![output(
        6,
        Some("u1other"),
        Some(&OTHER_ACCOUNT),
        false,
        10_000_000,
        Some(KEY_SCOPE_EXTERNAL),
        None,
    )];
    let entries = funding_entries(&outputs, &vec![tx(6, -FEE, Some(FEE))], &ACCOUNT, TIP);
    assert!(entries.is_empty());
}

#[test]
fn a_plain_memo_is_shown_and_pages_are_cut() {
    let mut outputs: Vec<FundingOutput> = Vec::new();
    let mut rows: Vec<FundingRow> = Vec::new();
    for n in 1..=3u8 {
        let memo = format!("hello {n}");
        outputs.push(output(
            n,
            Some("u1ours"),
            Some(&ACCOUNT),
            false,
            5,
            Some(KEY_SCOPE_EXTERNAL),
            Some(memo.as_bytes()),
        ));
        let mut t = tx(n, 5, None);
        t.mined_height = if n == 2 { None } else { Some(900 + n as i64) };
        rows.push(t);
    }
    let all = load_funding(&outputs, &rows, &ACCOUNT, TIP, None, 0);
    assert_eq!(all.total, 3);
    assert!(all.entries[0].pending, "unmined first");
    assert_eq!(all.entries[0].memo.as_deref(), Some("hello 2"));
    assert_eq!(all.entries[1].height, Some(903));
    assert_eq!(all.entries[1].confirmations, 98);
    let page = load_funding(&outputs, &rows, &ACCOUNT, TIP, Some(1), 2);
    assert_eq!((page.entries.len(), page.total), (1, 3));
    assert_eq!(page.entries[0], all.entries[2]);
    assert!(load_funding(&outputs, &rows, &ACCOUNT, TIP, Some(5), 9).entries.is_empty());
}

#[test]
fn the_ledger_accounts_for_the_balance() {
    let outputs = vec![
        output(1, Some("u1ours"), Some(&ACCOUNT), false, 700, Some(KEY_SCOPE_EXTERNAL), None),
        output(2, Some("u1them"), None, false, 300, None, None),
        output(3, Some("u1ours"), Some(&ACCOUNT), true, 50, Some(KEY_SCOPE_EXTERNAL), None),
        output(4, None, Some(&ACCOUNT), true, 9, Some(1), None),
    ];
    let rows = vec![
        tx(1, 700, None),
        tx(2, -(300 + FEE), Some(FEE)),
        tx(3, -FEE, Some(FEE)),
        tx(4, -FEE, Some(FEE)),
    ];
    let mut balance = 0i64;
    for e in funding_entries(&outputs, &rows, &ACCOUNT, TIP) {
        let fee = e.fee.unwrap_or(0) as i64;
        balance += match e.direction {
            FundingDirection::Received => e.amount as i64,
            FundingDirection::Sent => -(e.amount as i64) - fee,
            FundingDirection::SelfTransfer | FundingDirection::ZkvOperation => -fee,
        };
    }
    // The bare fee of a transaction that moved nothing is all that is left out.
    assert_eq!(balance, rows.iter().map(|r| r.delta.unwrap()).sum::<i64>() + FEE);
}

#[test]
fn only_the_accounts_own_transactions_are_listed() {
    let outputs = vec![
        output(1, Some("u1them"), None, false, 300, None, None),
        FundingOutput {
            from_account: Some(OTHER_ACCOUNT.to_vec()),
            ..output(1, Some("u1elsewhere"), None, false, 5, None, None)
        },
    ];
    let sent = tx(1, -(300 + FEE), Some(FEE));
    let entries = funding_entries(&outputs, &vec![sent.clone()], &ACCOUNT, TIP);
    assert_eq!(entries[0].recipients, vec!["u1them".to_owned()]);
    let foreign = FundingRow { account: OTHER_ACCOUNT.to_vec(), ..sent.clone() };
    assert!(funding_entries(&outputs, &vec![foreign], &ACCOUNT, TIP).is_empty());
    let unmined = |expiry: Option<i64>| FundingRow { mined_height: None, expiry_height: expiry, ..sent.clone() };
    let count = |r: FundingRow| funding_entries(&outputs, &vec![r], &ACCOUNT, TIP).len();
    assert_eq!(count(unmined(Some(TIP as i64 - 1))), 0, "expired");
    assert_eq!(count(unmined(Some(TIP as i64))), 1);
    assert_eq!(count(unmined(Some(0))) + count(unmined(None)), 2);
}
