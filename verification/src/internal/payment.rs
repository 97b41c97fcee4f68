//! Payments: what an address is, what a payment may carry, and the request that
//! a wallet is asked to pay.

use crate::internal::memo::MEMO_BYTES;
use crate::network::{network_name, Network};
use crate::sort::views;
use crate::text::{decimal, opt_text, trim, trimmed};
use vstd::prelude::*;
use vstd::string::*;
use vstd::utf8::*;
use zcash_address::{ConversionError, ZcashAddress};
use zcash_keys::address::Address;
use zcash_protocol::consensus::NetworkType;
use zcash_protocol::memo::{Memo, MemoBytes};
use zcash_protocol::value::Zatoshis;
use zip321::{Payment, TransactionRequest};

verus! {

/// The largest amount of money there is (zatoshi).
pub const MAX_MONEY: u64 = 2_100_000_000_000_000;

/// `Zatoshis::from_u64`: an amount of money, unless there is not as much.
#[verifier::external_body]
pub(crate) fn zatoshis(v: u64) -> (r: Option<u64>)
    ensures
        r == (if v <= MAX_MONEY {
            Some(v)
        } else {
            None
        }),
{
    Zatoshis::from_u64(v).ok().map(u64::from)
}

/// What a text turns out to be when it is read as an address on a network.
#[derive(Clone, Copy, Debug, PartialEq, Eq, Structural)]
pub enum Recipient {
    /// No address at all.
    NotAnAddress,
    /// An address of another network, which is named.
    WrongNetwork(Network),
    /// An address that cannot be paid.
    Unsupported,
    /// A unified address; whether it has an Orchard and a Sapling receiver.
    Unified(bool, bool),
    Sapling,
    Transparent,
    Tex,
}

/// What a text turns out to be when it is read as an address on a network.
pub uninterp spec fn recipient_of(text: Seq<char>, network: Network) -> Recipient;

/// `ZcashAddress::try_from_encoded` and, of an address, `convert_if_network` to
/// `zcash_keys::address::Address`: what a text is as an address on a network. (The
/// networks have the same order here and there.)
#[verifier::external_body]
fn resolve_recipient(text: &str, network: Network) -> (r: Recipient)
    ensures
        r == recipient_of(text@, network),
{
    match ZcashAddress::try_from_encoded(text).map(
        |a| a.convert_if_network::<Address>([NetworkType::Main, NetworkType::Test, NetworkType::Regtest][network as usize]),
    ) {
        Err(_) => Recipient::NotAnAddress,
        Ok(Ok(Address::Unified(u))) => Recipient::Unified(u.has_orchard(), u.has_sapling()),
        Ok(Ok(Address::Sapling(_))) => Recipient::Sapling,
        Ok(Ok(Address::Transparent(_))) => Recipient::Transparent,
        Ok(Ok(Address::Tex(_))) => Recipient::Tex,
        Ok(Err(ConversionError::IncorrectNetwork { actual, .. })) =>
            Recipient::WrongNetwork([Network::Main, Network::Test, Network::Regtest][actual as usize]),
        Ok(Err(_)) => Recipient::Unsupported,
    }
}

/// A validated recipient, as it is shown.
#[derive(Clone, Debug, PartialEq, Eq)]
pub struct RecipientInfo {
    /// `unified`, `sapling`, `transparent` or `TEX`.
    pub kind: String,
    /// The network.
    pub network: String,
    /// The pool that a payment goes into; none for a transparent recipient.
    pub pool: Option<String>,
}

/// [`RecipientInfo`] as mathematics.
pub struct RecipientModel {
    pub kind: Seq<char>,
    pub network: Seq<char>,
    pub pool: Option<Seq<char>>,
}

impl View for RecipientInfo {
    type V = RecipientModel;

    open spec fn view(&self) -> RecipientModel {
        RecipientModel { kind: self.kind@, network: self.network@, pool: opt_text(self.pool) }
    }
}

/// What is said of a resolved recipient: its kind, network and pool, or why it
/// cannot be paid.
pub open spec fn described(r: Recipient, network: Network) -> Result<RecipientModel, Seq<char>> {
    let net = network_name(network);
    match r {
        Recipient::NotAnAddress => Err("that doesn't look like a Zcash address"@),
        Recipient::WrongNetwork(actual) => Err(
            "that's a "@ + network_name(actual) + " address, but this database is on "@ + net,
        ),
        Recipient::Unsupported => Err("that address type isn't supported"@),
        Recipient::Unified(orchard, sapling) => Ok(
            RecipientModel {
                kind: "unified"@,
                network: net,
                pool: Some(
                    if orchard {
                        "ironwood/orchard"@
                    } else if sapling {
                        "sapling"@
                    } else {
                        "transparent"@
                    },
                ),
            },
        ),
        Recipient::Sapling => Ok(
            RecipientModel { kind: "sapling"@, network: net, pool: Some("sapling"@) },
        ),
        Recipient::Transparent => Ok(
            RecipientModel { kind: "transparent"@, network: net, pool: None },
        ),
        Recipient::Tex => Ok(RecipientModel { kind: "TEX"@, network: net, pool: None }),
    }
}

/// The views of a result.
pub open spec fn result_models(r: Result<RecipientInfo, String>) -> Result<
    RecipientModel,
    Seq<char>,
> {
    match r {
        Ok(i) => Ok(i@),
        Err(e) => Err(e@),
    }
}

/// Says what a resolved recipient is.
pub fn describe_resolved(r: Recipient, network: Network) -> (out: Result<RecipientInfo, String>)
    ensures
        result_models(out) == described(r, network),
{
    let net = network.name().to_owned();
    match r {
        Recipient::NotAnAddress => Err("that doesn't look like a Zcash address".to_owned()),
        Recipient::WrongNetwork(actual) => {
            let mut e = String::new();
            e.append("that's a ");
            e.append(actual.name());
            e.append(" address, but this database is on ");
            e.append(network.name());
            assert(e@ =~= "that's a "@ + network_name(actual)
                + " address, but this database is on "@ + network_name(network));
            Err(e)
        },
        Recipient::Unsupported => Err("that address type isn't supported".to_owned()),
        Recipient::Unified(orchard, sapling) => {
            let pool = if orchard {
                "ironwood/orchard"
            } else if sapling {
                "sapling"
            } else {
                "transparent"
            };
            Ok(
                RecipientInfo {
                    kind: "unified".to_owned(),
                    network: net,
                    pool: Some(pool.to_owned()),
                },
            )
        },
        Recipient::Sapling => Ok(
            RecipientInfo {
                kind: "sapling".to_owned(),
                network: net,
                pool: Some("sapling".to_owned()),
            },
        ),
        Recipient::Transparent => Ok(
            RecipientInfo { kind: "transparent".to_owned(), network: net, pool: None },
        ),
        Recipient::Tex => Ok(RecipientInfo { kind: "TEX".to_owned(), network: net, pool: None }),
    }
}

/// What is said of a text as the recipient of a payment on a network.
pub open spec fn recipient_described(text: Seq<char>, network: Network) -> Result<
    RecipientModel,
    Seq<char>,
> {
    let t = trimmed(text);
    if t.len() == 0 {
        Err("enter a recipient address"@)
    } else {
        described(recipient_of(t, network), network)
    }
}

/// Checks a recipient of a payment, and says what it is.
pub fn describe_recipient(recipient: &str, network: Network) -> (r: Result<RecipientInfo, String>)
    ensures
        result_models(r) == recipient_described(recipient@, network),
{
    let t = trim(recipient);
    if t.as_str().is_empty() {
        return Err("enter a recipient address".to_owned());
    }
    describe_resolved(resolve_recipient(t.as_str(), network), network)
}

/// Checks a recipient of a payment, and says its kind.
pub fn validate_recipient(recipient: &str, network: Network) -> (r: Result<String, String>)
    ensures
        match r {
            Ok(kind) => recipient_described(recipient@, network) matches Ok(i) && i.kind == kind@,
            Err(e) => recipient_described(recipient@, network) == Err::<RecipientModel, Seq<char>>(
                e@,
            ),
        },
{
    match describe_recipient(recipient, network) {
        Ok(info) => Ok(info.kind),
        Err(e) => Err(e),
    }
}

/// Why a text cannot be read as an address, if it cannot.
pub uninterp spec fn address_fault(text: Seq<char>) -> Option<Seq<char>>;

/// `ZcashAddress::try_from_encoded`: the text of its error, if it fails.
#[verifier::external_body]
fn address_error(text: &str) -> (r: Option<String>)
    ensures
        opt_text(r) == address_fault(text@),
{
    ZcashAddress::try_from_encoded(text).err().map(|e| e.to_string())
}

/// Why a text cannot be sent as a memo, if it cannot: it is too long.
pub open spec fn memo_fault(text: Seq<char>) -> Option<Seq<char>> {
    if encode_utf8(text).len() > MEMO_BYTES {
        Some(
            "Memo length "@ + decimal(encode_utf8(text).len())
                + " is larger than maximum of 512"@,
        )
    } else {
        None
    }
}

/// `<Memo as FromStr>::from_str`: the text of its error, which comes where the
/// text has more bytes than a memo field.
#[verifier::external_body]
fn memo_error(text: &str) -> (r: Option<String>)
    ensures
        opt_text(r) == memo_fault(text@),
{
    text.parse::<Memo>().err().map(|e| e.to_string())
}

/// Why an address cannot be paid an amount with a memo, if it cannot.
pub uninterp spec fn payment_fault(
    address: Seq<char>,
    zats: u64,
    memo: Seq<char>,
) -> Option<Seq<char>>;

/// `Payment::new`, of an address, an amount and a memo: the text of its error, if
/// it fails.
#[verifier::external_body]
fn payment_error(address: &str, zats: u64, memo: &str) -> (r: Option<String>)
    requires
        address_fault(address@) is None,
        zats <= MAX_MONEY,
        memo_fault(memo@) is None,
    ensures
        opt_text(r) == payment_fault(address@, zats, memo@),
{
    Payment::new(
        ZcashAddress::try_from_encoded(address).unwrap(),
        Some(Zatoshis::from_u64(zats).unwrap()),
        Some(MemoBytes::from(memo.parse::<Memo>().unwrap())),
        None,
        None,
        vec![],
    ).err().map(|e| e.to_string())
}

/// One payment of a request.
#[derive(Clone, Debug, PartialEq, Eq)]
pub struct PaymentPlan {
    pub address: String,
    pub zats: u64,
    pub memo: Option<String>,
}

/// [`PaymentPlan`] as mathematics.
pub struct PlanModel {
    pub address: Seq<char>,
    pub zats: u64,
    pub memo: Option<Seq<char>>,
}

impl View for PaymentPlan {
    type V = PlanModel;

    open spec fn view(&self) -> PlanModel {
        PlanModel { address: self.address@, zats: self.zats, memo: opt_text(self.memo) }
    }
}

/// Why a payment cannot be made.
#[derive(Clone, Debug, PartialEq, Eq)]
pub enum PaymentIssue {
    BadAddress(String),
    BadMemo(String),
    /// The address cannot be paid so.
    Refused(String),
}

/// [`PaymentIssue`] as mathematics.
pub enum IssueModel {
    BadAddress(Seq<char>),
    BadMemo(Seq<char>),
    Refused(Seq<char>),
}

impl View for PaymentIssue {
    type V = IssueModel;

    open spec fn view(&self) -> IssueModel {
        match self {
            PaymentIssue::BadAddress(e) => IssueModel::BadAddress(e@),
            PaymentIssue::BadMemo(e) => IssueModel::BadMemo(e@),
            PaymentIssue::Refused(e) => IssueModel::Refused(e@),
        }
    }
}

/// Why a payment cannot be made, if it cannot: its address, its memo, or the two
/// together, in this order. Without a memo only the address is looked at.
pub open spec fn plan_issue(p: PlanModel) -> Option<IssueModel> {
    match address_fault(p.address) {
        Some(e) => Some(IssueModel::BadAddress(e)),
        None => match p.memo {
            None => None,
            Some(m) => match memo_fault(m) {
                Some(e) => Some(IssueModel::BadMemo(e)),
                None => match payment_fault(p.address, p.zats, m) {
                    Some(e) => Some(IssueModel::Refused(e)),
                    None => None,
                },
            },
        },
    }
}

/// The view of an optional issue.
pub open spec fn issue_model(r: Option<PaymentIssue>) -> Option<IssueModel> {
    match r {
        Some(i) => Some(i@),
        None => None,
    }
}

/// Looks for what is wrong with a payment.
pub fn check_payment(p: &PaymentPlan) -> (r: Option<PaymentIssue>)
    requires
        p.zats <= MAX_MONEY,
    ensures
        issue_model(r) == plan_issue(p@),
{
    match address_error(p.address.as_str()) {
        Some(e) => {
            return Some(PaymentIssue::BadAddress(e));
        },
        None => {},
    }
    match &p.memo {
        None => None,
        Some(m) => match memo_error(m.as_str()) {
            Some(e) => Some(PaymentIssue::BadMemo(e)),
            None => match payment_error(p.address.as_str(), p.zats, m.as_str()) {
                Some(e) => Some(PaymentIssue::Refused(e)),
                None => None,
            },
        },
    }
}

/// The request for some payments, as a URI, or why there is none.
pub uninterp spec fn request_of(plans: Seq<PlanModel>) -> Result<Seq<char>, Seq<char>>;

/// `TransactionRequest::new`, of one `Payment` for each plan, and `to_uri`: the
/// request as a URI, or the text of the error.
#[verifier::external_body]
fn request_uri(plans: &Vec<PaymentPlan>) -> (r: Result<String, String>)
    requires
        forall|i: int|
            0 <= i < plans.len() ==> (#[trigger] plans@[i]).zats <= MAX_MONEY && plan_issue(
                plans@[i]@,
            ) is None,
    ensures
        text_result(r) == request_of(views(plans@)),
{
    let payments = plans.iter().map(|p| {
        let to = ZcashAddress::try_from_encoded(&p.address).unwrap();
        let zats = Zatoshis::from_u64(p.zats).unwrap();
        match &p.memo {
            None => Payment::without_memo(to, zats),
            Some(m) => Payment::new(to, Some(zats), Some(MemoBytes::from(m.parse::<Memo>().unwrap())), None, None, vec![]).unwrap(),
        }
    });
    TransactionRequest::new(payments.collect()).map(|r| r.to_uri()).map_err(|e| e.to_string())
}

/// The views of a result of texts.
pub open spec fn text_result(r: Result<String, String>) -> Result<Seq<char>, Seq<char>> {
    match r {
        Ok(s) => Ok(s@),
        Err(e) => Err(e@),
    }
}

/// The first payment that cannot be made, and why.
pub open spec fn first_issue(plans: Seq<PlanModel>) -> Option<IssueModel>
    decreases plans.len(),
{
    if plans.len() == 0 {
        None
    } else {
        match first_issue(plans.drop_last()) {
            Some(i) => Some(i),
            None => plan_issue(plans.last()),
        }
    }
}

/// Why a request cannot be made.
#[derive(Clone, Debug, PartialEq, Eq)]
pub enum RequestIssue {
    Payment(PaymentIssue),
    Request(String),
}

/// The request for some payments, or the first thing that is wrong with it.
pub open spec fn built(plans: Seq<PlanModel>) -> Result<Seq<char>, Result<IssueModel, Seq<char>>> {
    match first_issue(plans) {
        Some(i) => Err(Ok(i)),
        None => match request_of(plans) {
            Ok(s) => Ok(s),
            Err(e) => Err(Err(e)),
        },
    }
}

/// The views of a built request.
pub open spec fn built_model(r: Result<String, RequestIssue>) -> Result<
    Seq<char>,
    Result<IssueModel, Seq<char>>,
> {
    match r {
        Ok(s) => Ok(s@),
        Err(RequestIssue::Payment(i)) => Err(Ok(i@)),
        Err(RequestIssue::Request(e)) => Err(Err(e@)),
    }
}

/// What is wrong with a part of the payments is wrong with all of them.
pub proof fn lemma_first_issue_prefix(plans: Seq<PlanModel>, k: int)
    requires
        0 <= k <= plans.len(),
        first_issue(plans.take(k)) is Some,
    ensures
        first_issue(plans) == first_issue(plans.take(k)),
    decreases plans.len() - k,
{
    if k < plans.len() {
        assert(plans.take(k + 1).drop_last() =~= plans.take(k));
        lemma_first_issue_prefix(plans, k + 1);
    } else {
        assert(plans.take(k) =~= plans);
    }
}

/// Builds the request for some payments.
pub fn make_request(plans: &Vec<PaymentPlan>) -> (r: Result<String, RequestIssue>)
    requires
        forall|i: int| 0 <= i < plans.len() ==> (#[trigger] plans@[i]).zats <= MAX_MONEY,
    ensures
        built_model(r) == built(views(plans@)),
{
    let ghost all = views(plans@);
    let mut i: usize = 0;
    while i < plans.len()
        invariant
            i <= plans.len(),
            all == views(plans@),
            forall|k: int| 0 <= k < plans.len() ==> (#[trigger] plans@[k]).zats <= MAX_MONEY,
            first_issue(all.take(i as int)) is None,
            forall|k: int| 0 <= k < i ==> plan_issue((#[trigger] plans@[k])@) is None,
        decreases plans.len() - i,
    {
        assert(all.take(i + 1).drop_last() =~= all.take(i as int));
        assert(all.take(i + 1).last() == plans@[i as int]@);
        match check_payment(&plans[i]) {
            None => {},
            Some(issue) => {
                proof {
                    lemma_first_issue_prefix(all, i + 1);
                }
                return Err(RequestIssue::Payment(issue));
            },
        }
        i += 1;
    }
    assert(all.take(i as int) =~= all);
    match request_uri(plans) {
        Ok(s) => Ok(s),
        Err(e) => Err(RequestIssue::Request(e)),
    }
}

/// A request can be made where every payment can; else it fails as the first of
/// them that cannot be made does.
pub proof fn a_request_fails_at_its_first_fault(plans: Seq<PlanModel>, k: int)
    ensures
        (forall|i: int| 0 <= i < plans.len() ==> plan_issue(#[trigger] plans[i]) is None)
            ==> first_issue(plans) is None && (built(plans) is Ok <==> request_of(plans) is Ok),
        0 <= k < plans.len() && plan_issue(plans[k]) is Some && (forall|i: int|
            0 <= i < k ==> plan_issue(#[trigger] plans[i]) is None) ==> built(plans) == Err::<
            Seq<char>,
            Result<IssueModel, Seq<char>>,
        >(Ok(plan_issue(plans[k])->0)),
    decreases plans.len(),
{
    if plans.len() > 0 {
        let front = plans.drop_last();
        a_request_fails_at_its_first_fault(front, k);
        if forall|i: int| 0 <= i < plans.len() ==> plan_issue(#[trigger] plans[i]) is None {
            assert forall|i: int| 0 <= i < front.len() implies plan_issue(#[trigger] front[i])
                is None by {
                assert(front[i] == plans[i]);
            }
            assert(plan_issue(plans[plans.len() - 1]) is None);
        }
        if 0 <= k < plans.len() && plan_issue(plans[k]) is Some && (forall|i: int|
            0 <= i < k ==> plan_issue(#[trigger] plans[i]) is None) {
            assert forall|i: int| 0 <= i < k && i < front.len() implies plan_issue(
                #[trigger] front[i],
            ) is None by {
                assert(front[i] == plans[i]);
            }
            if k < front.len() {
                assert(front[k] == plans[k]);
            }
        }
    }
}

/// What can be wrong with a payment: its address always; its memo, or the two
/// together, only where it has one. The address comes first.
pub proof fn what_is_wrong_with_a_payment(p: PlanModel)
    ensures
        address_fault(p.address) matches Some(e) ==> plan_issue(p) == Some(
            IssueModel::BadAddress(e),
        ),
        address_fault(p.address) is None && p.memo is None ==> plan_issue(p) is None,
        address_fault(p.address) is None && p.memo is Some && encode_utf8(p.memo->0).len() > 512
            ==> (plan_issue(p) matches Some(IssueModel::BadMemo(_))),
        address_fault(p.address) is None && p.memo is Some && encode_utf8(p.memo->0).len() <= 512
            ==> (match payment_fault(p.address, p.zats, p.memo->0) {
            Some(e) => plan_issue(p) == Some(IssueModel::Refused(e)),
            None => plan_issue(p) is None,
        }),
{
}

/// Who can be paid: a unified, Sapling, transparent or TEX address of the network
/// itself. An address of another network never can, and is named as such. A unified
/// address is paid into its best receiver.
pub proof fn who_can_be_paid(r: Recipient, network: Network, orchard: bool, sapling: bool)
    ensures
        described(r, network) is Ok <==> r is Unified || r is Sapling || r is Transparent
            || r is Tex,
        described(r, network) matches Ok(i) ==> i.network == network_name(network),
        r is WrongNetwork ==> described(r, network) is Err,
        ({
            let u = described(Recipient::Unified(orchard, sapling), network)->Ok_0;
            &&& u.kind == "unified"@
            &&& orchard ==> u.pool == Some("ironwood/orchard"@)
            &&& !orchard && sapling ==> u.pool == Some("sapling"@)
            &&& !orchard && !sapling ==> u.pool == Some("transparent"@)
        }),
        (described(Recipient::Sapling, network)->Ok_0).kind == "sapling"@,
        (described(Recipient::Sapling, network)->Ok_0).pool == Some("sapling"@),
        (described(Recipient::Transparent, network)->Ok_0).kind == "transparent"@,
        (described(Recipient::Transparent, network)->Ok_0).pool is None,
        (described(Recipient::Tex, network)->Ok_0).kind == "TEX"@,
        (described(Recipient::Tex, network)->Ok_0).pool is None,
{
}

} // verus!
