//! What the browser is asked to do, before and after it is done.

use crate::config::Role;
use crate::db::ZkvError;
use crate::internal::payment::RecipientInfo;
use crate::internal::pending::{LocalModel, PendingEntry};
use crate::internal::write::{broadcast_record, record_pending};
use crate::lex::str_equal;
use crate::protocol::{
    comma_joined, op_name, op_names_are_distinct, parse_scope, scope_capabilities,
    scope_round_trip, Op, Scope,
};
use crate::text::{
    ascii_lowered, ascii_uppered, chars_of, contains_text, is_substring, lemma_split_first,
    lemma_split_one, opt_str, opt_text,
    quote, quoted, slice_of, split, split_text, string_of, to_ascii_lower, to_ascii_upper, trim,
    trimmed,
};
use vstd::prelude::*;
use vstd::string::*;

verus! {

/// A broadcast transaction.
#[derive(Clone, Debug, PartialEq, Eq)]
pub struct TxResp {
    pub txid: String,
}

/// How far a database has been synced.
#[derive(Clone, Debug, PartialEq, Eq)]
pub struct SyncResp {
    pub synced: u32,
}

/// A new database.
#[derive(Clone, Debug, PartialEq, Eq)]
pub struct CreateResp {
    pub name: String,
    pub address: String,
    pub phrase: String,
    pub funding_address: String,
}

/// A new recovery phrase.
#[derive(Clone, Debug, PartialEq, Eq)]
pub struct PhraseResp {
    pub phrase: String,
}

/// A database that was added.
#[derive(Clone, Debug, PartialEq, Eq)]
pub struct AddDbResp {
    pub name: String,
    pub role: String,
}

/// The recovery phrase of a database.
#[derive(Clone, Debug, PartialEq, Eq)]
pub struct RevealPhraseResp {
    pub name: String,
    pub phrase: String,
}

/// The licenses.
#[derive(Clone, Debug, PartialEq, Eq)]
pub struct LicensesResp {
    pub text: String,
}

/// Whether a file was saved, and where.
#[derive(Clone, Debug, PartialEq, Eq)]
pub struct SaveResp {
    pub saved: bool,
    pub path: Option<String>,
}

/// What an address of a database says.
#[derive(Clone, Debug, PartialEq, Eq)]
pub struct ZkvAddrInfoResp {
    pub network: String,
    pub pool: String,
    pub birthday: u32,
}

/// A signed memo and where it goes.
#[derive(Clone, Debug, PartialEq, Eq)]
pub struct SignPreviewResp {
    pub memo: String,
    pub recipient: String,
}

/// A signed memo with its unsigned body.
#[derive(Clone, Debug, PartialEq, Eq)]
pub struct SignMemoResp {
    pub unsigned: String,
    pub signed: String,
    pub recipient_ua: String,
    pub zkv_addr: String,
}

/// Whether a recipient can be paid, and what it is.
#[derive(Clone, Debug, PartialEq, Eq)]
pub struct AddrCheckResp {
    pub valid: bool,
    pub kind: Option<String>,
    pub network: Option<String>,
    pub pool: Option<String>,
    pub error: Option<String>,
}

/// What became of a request to the faucet.
#[derive(Clone, Debug, PartialEq, Eq)]
pub struct FaucetResp {
    /// `ok`, `outdated` or `error`.
    pub outcome: String,
    pub txid: Option<String>,
}

/// Whether a character is an ASCII letter or digit.
pub open spec fn is_alphanumeric(c: char) -> bool {
    ('0' <= c <= '9') || ('a' <= c <= 'z') || ('A' <= c <= 'Z')
}

/// The letters and digits of a text.
pub open spec fn alphanumerics(s: Seq<char>) -> Seq<char> {
    s.filter(|c: char| is_alphanumeric(c))
}

/// Up to eight letters and digits of an address, past the six of its prefix.
pub open spec fn watch_suffix(addr: Seq<char>) -> Seq<char> {
    let parts = split(addr, ':');
    let body = if parts.len() > 1 {
        alphanumerics(parts[1])
    } else {
        Seq::empty()
    };
    if body.len() <= 6 {
        Seq::empty()
    } else if body.len() <= 14 {
        body.skip(6)
    } else {
        body.subrange(6, 14)
    }
}

/// The name of a watched database that was given none.
pub open spec fn watch_name_of(addr: Seq<char>) -> Seq<char> {
    if watch_suffix(addr).len() == 0 {
        "watch"@
    } else {
        "watch-"@ + watch_suffix(addr)
    }
}

/// The name of a watched database that was given none.
pub fn derive_watch_name(addr: &str) -> (r: String)
    ensures
        r@ == watch_name_of(addr@),
{
    let parts = split_text(addr, ':');
    let ghost want = split(addr@, ':');
    let mut body: Vec<char> = Vec::new();
    let ghost p = |c: char| is_alphanumeric(c);
    if parts.len() > 1 {
        assert(parts@[1]@ == want[1]);
        let cs = chars_of(parts[1].as_str());
        let mut i: usize = 0;
        proof {
            reveal(Seq::filter);
            assert(body@ =~= cs@.take(0).filter(p));
        }
        while i < cs.len()
            invariant
                i <= cs.len(),
                p == (|c: char| is_alphanumeric(c)),
                body@ == cs@.take(i as int).filter(p),
            decreases cs.len() - i,
        {
            proof {
                assert(cs@.take(i + 1).drop_last() =~= cs@.take(i as int));
                assert(cs@.take(i + 1).last() == cs@[i as int]);
                reveal(Seq::filter);
            }
            let c = cs[i];
            if ('0' <= c && c <= '9') || ('a' <= c && c <= 'z') || ('A' <= c && c <= 'Z') {
                body.push(c);
            }
            i += 1;
        }
        assert(cs@.take(i as int) =~= cs@);
        assert(body@ == alphanumerics(want[1]));
    } else {
        assert(body@ =~= Seq::<char>::empty());
    }
    if body.len() <= 6 {
        return "watch".to_owned();
    }
    let stop: usize = if body.len() <= 14 {
        body.len()
    } else {
        14
    };
    let suffix = slice_of(body.as_slice(), 6, stop);
    assert(suffix@ =~= watch_suffix(addr@));
    let mut r = String::new();
    r.append("watch-");
    r.append(string_of(suffix.as_slice()).as_str());
    assert(r@ =~= "watch-"@ + watch_suffix(addr@));
    r
}

/// The name of a watched database: the one it was given, unless that is blank.
pub fn watch_name(name: Option<String>, addr: &str) -> (r: String)
    ensures
        r@ == (match opt_text(name) {
            Some(n) => if trimmed(n).len() > 0 {
                n
            } else {
                watch_name_of(addr@)
            },
            None => watch_name_of(addr@),
        }),
{
    match name {
        Some(n) => {
            if trim(n.as_str()).as_str().is_empty() {
                derive_watch_name(addr)
            } else {
                n
            }
        },
        None => derive_watch_name(addr),
    }
}

/// What went wrong with the settings of a database: there is no such database, or
/// something else.
pub fn classify_unknown(message: String, name: &str) -> (r: ZkvError)
    ensures
        if is_substring(message@, "no database named"@) || is_substring(
            message@,
            "no keys.toml"@,
        ) {
            r matches ZkvError::UnknownDatabase(n) && n@ == name@
        } else {
            r matches ZkvError::Other(t) && t@ == message@
        },
{
    if contains_text(message.as_str(), "no database named") || contains_text(
        message.as_str(),
        "no keys.toml",
    ) {
        ZkvError::UnknownDatabase(name.to_owned())
    } else {
        ZkvError::Other(message)
    }
}

/// The pool that is shown for a recipient: `transparent` where it has none.
pub open spec fn shown_pool(pool: Option<Seq<char>>) -> Seq<char> {
    match pool {
        Some(p) => p,
        None => "transparent"@,
    }
}

/// Whether a recipient can be paid, and what it is.
pub fn check_address(described: Result<RecipientInfo, String>) -> (r: AddrCheckResp)
    ensures
        r.valid == (described is Ok),
        match described {
            Ok(i) => opt_text(r.kind) == Some(i.kind@) && opt_text(r.network) == Some(i.network@)
                && opt_text(r.pool) == Some(shown_pool(opt_text(i.pool))) && r.error is None,
            Err(e) => r.kind is None && r.network is None && r.pool is None && opt_text(r.error)
                == Some(e@),
        },
{
    match described {
        Ok(i) => AddrCheckResp {
            valid: true,
            kind: Some(i.kind),
            network: Some(i.network),
            pool: match i.pool {
                Some(p) => Some(p),
                None => Some("transparent".to_owned()),
            },
            error: None,
        },
        Err(e) => AddrCheckResp {
            valid: false,
            kind: None,
            network: None,
            pool: None,
            error: Some(e),
        },
    }
}

/// What a memo is to be signed for.
#[derive(Clone, Debug, PartialEq, Eq)]
pub enum SignRequest {
    Put { key: String, value: String },
    SetL { key: String, value: String },
    Del { key: String },
    Init,
    /// A management operation on a target; `FINALIZE` has none.
    Manage { op: Op, target: String, scope: Option<Scope> },
}

/// [`SignRequest`] as mathematics.
pub enum SignModel {
    Put { key: Seq<char>, value: Seq<char> },
    SetL { key: Seq<char>, value: Seq<char> },
    Del { key: Seq<char> },
    Init,
    Manage { op: Op, target: Seq<char>, scope: Option<Scope> },
}

impl View for SignRequest {
    type V = SignModel;

    open spec fn view(&self) -> SignModel {
        match self {
            SignRequest::Put { key, value } => SignModel::Put { key: key@, value: value@ },
            SignRequest::SetL { key, value } => SignModel::SetL { key: key@, value: value@ },
            SignRequest::Del { key } => SignModel::Del { key: key@ },
            SignRequest::Init => SignModel::Init,
            SignRequest::Manage { op, target, scope } => SignModel::Manage {
                op: *op,
                target: target@,
                scope: *scope,
            },
        }
    }
}

/// The value of a write that names none is empty.
pub open spec fn or_empty(v: Option<Seq<char>>) -> Seq<char> {
    match v {
        Some(t) => t,
        None => Seq::empty(),
    }
}

/// What a request asks to be signed, or what is wrong with it. The operation may
/// be in either case.
pub open spec fn sign_request(
    op: Seq<char>,
    key: Option<Seq<char>>,
    value: Option<Seq<char>>,
    scope: Option<Seq<char>>,
) -> Result<SignModel, Seq<char>> {
    let name = ascii_uppered(op);
    let no_key = op + " requires a key"@;
    if name == "INIT"@ {
        Ok(SignModel::Init)
    } else if name == "FINALIZE"@ {
        Ok(SignModel::Manage { op: Op::Finalize, target: Seq::empty(), scope: None })
    } else if name == "WRITERSET"@ && scope is None {
        Err("WRITERSET requires a scope"@)
    } else if name == "WRITERSET"@ && parse_scope(scope->0) is None {
        Err(
            "invalid scope "@ + quoted(scope->0)
                + ": expected a comma-separated subset of CREATE,UPDATE,DESTROY"@,
        )
    } else if name == "SET"@ || name == "SETL"@ || name == "DEL"@ || name == "OWNERSET"@ || name
        == "OWNERDEL"@ || name == "WRITERDEL"@ || name == "WRITERSET"@ {
        match key {
            None => Err(no_key),
            Some(k) => Ok(
                if name == "SET"@ {
                    SignModel::Put { key: k, value: or_empty(value) }
                } else if name == "SETL"@ {
                    SignModel::SetL { key: k, value: or_empty(value) }
                } else if name == "DEL"@ {
                    SignModel::Del { key: k }
                } else if name == "OWNERSET"@ {
                    SignModel::Manage { op: Op::OwnerSet, target: k, scope: None }
                } else if name == "OWNERDEL"@ {
                    SignModel::Manage { op: Op::OwnerDel, target: k, scope: None }
                } else if name == "WRITERDEL"@ {
                    SignModel::Manage { op: Op::WriterDel, target: k, scope: None }
                } else {
                    SignModel::Manage {
                        op: Op::WriterSet,
                        target: k,
                        scope: parse_scope(scope->0),
                    }
                },
            ),
        }
    } else {
        Err("opcode "@ + quoted(name) + " cannot be signed"@)
    }
}

/// The views of a request.
pub open spec fn sign_result(r: Result<SignRequest, String>) -> Result<SignModel, Seq<char>> {
    match r {
        Ok(s) => Ok(s@),
        Err(e) => Err(e@),
    }
}

proof fn lemma_sign_ops_differ()
    ensures
        "SET"@ != "INIT"@ && "SET"@ != "FINALIZE"@ && "SET"@ != "WRITERSET"@,
        "SETL"@ != "SET"@ && "SETL"@ != "INIT"@ && "SETL"@ != "FINALIZE"@ && "SETL"@
            != "WRITERSET"@,
        "DEL"@ != "SET"@ && "DEL"@ != "SETL"@ && "DEL"@ != "INIT"@ && "DEL"@ != "FINALIZE"@
            && "DEL"@ != "WRITERSET"@,
        "INIT"@ != "FINALIZE"@ && "INIT"@ != "WRITERSET"@,
        "FINALIZE"@ != "WRITERSET"@,
        "OWNERSET"@.len() == 8 && "OWNERDEL"@.len() == 8 && "WRITERDEL"@.len() == 9,
        "WRITERSET"@.len() == 9 && "FINALIZE"@.len() == 8 && "SET"@.len() == 3 && "SETL"@.len() == 4,
        "OWNERSET"@ != "OWNERDEL"@ && "OWNERSET"@ != "FINALIZE"@ && "OWNERDEL"@ != "FINALIZE"@,
        "WRITERDEL"@ != "WRITERSET"@,
        "DEL"@.len() == 3 && "INIT"@.len() == 4,
{
    reveal_strlit("SET");
    reveal_strlit("SETL");
    reveal_strlit("DEL");
    reveal_strlit("INIT");
    reveal_strlit("FINALIZE");
    reveal_strlit("WRITERSET");
    reveal_strlit("WRITERDEL");
    reveal_strlit("OWNERSET");
    reveal_strlit("OWNERDEL");
    assert("SET"@.len() == 3 && "SETL"@.len() == 4 && "FINALIZE"@.len() == 8);
    assert("WRITERSET"@.len() == 9 && "INIT"@.len() == 4 && "DEL"@.len() == 3);
    assert("SET"@[0] == 'S' && "DEL"@[0] == 'D' && "SETL"@[0] == 'S' && "INIT"@[0] == 'I');
    assert("OWNERSET"@[0] == 'O' && "FINALIZE"@[0] == 'F' && "OWNERDEL"@[0] == 'O');
    assert("OWNERSET"@[5] == 'S' && "OWNERDEL"@[5] == 'D');
    assert("WRITERSET"@[6] == 'S' && "WRITERDEL"@[6] == 'D');
}

/// Says that an operation needs a key.
fn needs_key(op: &str) -> (r: String)
    ensures
        r@ == op@ + " requires a key"@,
{
    let mut e = String::new();
    e.append(op);
    e.append(" requires a key");
    assert(e@ =~= op@ + " requires a key"@);
    e
}

/// The value of a write, empty where it names none.
fn value_or_empty(value: Option<&str>) -> (r: String)
    ensures
        r@ == or_empty(opt_str(value)),
{
    match value {
        Some(v) => v.to_owned(),
        None => String::new(),
    }
}

/// Reads what a request asks to be signed.
pub fn sign_memo(op: &str, key: Option<&str>, value: Option<&str>, scope: Option<&str>) -> (r: Result<
    SignRequest,
    String,
>)
    ensures
        sign_result(r) == sign_request(op@, opt_str(key), opt_str(value), opt_str(scope)),
{
    proof {
        lemma_sign_ops_differ();
    }
    let name = to_ascii_upper(op);
    let n = name.as_str();
    if str_equal(n, "INIT") {
        return Ok(SignRequest::Init);
    }
    if str_equal(n, "FINALIZE") {
        return Ok(SignRequest::Manage { op: Op::Finalize, target: String::new(), scope: None });
    }
    let mut parsed: Option<Scope> = None;
    if str_equal(n, "WRITERSET") {
        match scope {
            None => {
                return Err("WRITERSET requires a scope".to_owned());
            },
            Some(s) => match Scope::parse(s) {
                None => {
                    let mut e = String::new();
                    e.append("invalid scope ");
                    e.append(quote(s).as_str());
                    e.append(": expected a comma-separated subset of CREATE,UPDATE,DESTROY");
                    assert(e@ =~= "invalid scope "@ + quoted(s@)
                        + ": expected a comma-separated subset of CREATE,UPDATE,DESTROY"@);
                    return Err(e);
                },
                Some(p) => {
                    parsed = Some(p);
                },
            },
        }
    }
    let known: bool = str_equal(n, "SET") || str_equal(n, "SETL") || str_equal(n, "DEL")
        || str_equal(n, "OWNERSET") || str_equal(n, "OWNERDEL") || str_equal(n, "WRITERDEL")
        || str_equal(n, "WRITERSET");
    if !known {
        let mut e = String::new();
        e.append("opcode ");
        e.append(quote(n).as_str());
        e.append(" cannot be signed");
        assert(e@ =~= "opcode "@ + quoted(n@) + " cannot be signed"@);
        return Err(e);
    }
    let k = match key {
        Some(k) => k.to_owned(),
        None => {
            return Err(needs_key(op));
        },
    };
    if str_equal(n, "SET") {
        Ok(SignRequest::Put { key: k, value: value_or_empty(value) })
    } else if str_equal(n, "SETL") {
        Ok(SignRequest::SetL { key: k, value: value_or_empty(value) })
    } else if str_equal(n, "DEL") {
        Ok(SignRequest::Del { key: k })
    } else if str_equal(n, "OWNERSET") {
        Ok(SignRequest::Manage { op: Op::OwnerSet, target: k, scope: None })
    } else if str_equal(n, "OWNERDEL") {
        Ok(SignRequest::Manage { op: Op::OwnerDel, target: k, scope: None })
    } else if str_equal(n, "WRITERDEL") {
        Ok(SignRequest::Manage { op: Op::WriterDel, target: k, scope: None })
    } else {
        Ok(SignRequest::Manage { op: Op::WriterSet, target: k, scope: parsed })
    }
}

/// What a preview asks to be signed, or what is wrong with it.
pub open spec fn preview_request(op: Seq<char>, key: Seq<char>, value: Option<Seq<char>>) -> Result<
    SignModel,
    Seq<char>,
> {
    if op == "set"@ || op == "setl"@ {
        Ok(SignModel::Put { key, value: or_empty(value) })
    } else if op == "del"@ {
        Ok(SignModel::Del { key })
    } else if op == "init"@ {
        Ok(SignModel::Init)
    } else {
        Err("sign_preview: unknown op "@ + quoted(op))
    }
}

/// Reads what a preview asks to be signed.
pub fn sign_preview(op: &str, key: &str, value: Option<&str>) -> (r: Result<SignRequest, String>)
    ensures
        sign_result(r) == preview_request(op@, key@, opt_str(value)),
{
    if str_equal(op, "set") || str_equal(op, "setl") {
        Ok(SignRequest::Put { key: key.to_owned(), value: value_or_empty(value) })
    } else if str_equal(op, "del") {
        Ok(SignRequest::Del { key: key.to_owned() })
    } else if str_equal(op, "init") {
        Ok(SignRequest::Init)
    } else {
        let mut e = String::new();
        e.append("sign_preview: unknown op ");
        e.append(quote(op).as_str());
        assert(e@ =~= "sign_preview: unknown op "@ + quoted(op@));
        Err(e)
    }
}

/// The text before the last line break; everything where there is none.
pub open spec fn before_last_line(s: Seq<char>) -> Seq<char> {
    if s.contains('\n') {
        s.take(last_break(s))
    } else {
        s
    }
}

/// The place of the last line break.
pub open spec fn last_break(s: Seq<char>) -> int
    decreases s.len(),
{
    if s.len() == 0 {
        0
    } else if s.last() == '\n' {
        s.len() - 1
    } else {
        last_break(s.drop_last())
    }
}

/// The unsigned body of a signed memo: its last line is the signature.
pub fn unsigned_body(memo: &str) -> (r: String)
    ensures
        r@ == before_last_line(memo@),
{
    let cs = chars_of(memo);
    let mut i: usize = cs.len();
    assert(cs@.take(i as int) =~= cs@);
    while i > 0 && cs[i - 1] != '\n'
        invariant
            i <= cs.len(),
            cs@ == memo@,
            last_break(cs@) == last_break(cs@.take(i as int)),
            forall|k: int| i <= k < cs.len() ==> #[trigger] cs@[k] != '\n',
        decreases i,
    {
        assert(cs@.take(i as int).drop_last() =~= cs@.take(i - 1));
        i -= 1;
    }
    if i == 0 {
        assert(!cs@.contains('\n'));
        return memo.to_owned();
    }
    assert(cs@.take(i as int).last() == '\n');
    assert(cs@[i - 1] == '\n');
    let body = slice_of(cs.as_slice(), 0, i - 1);
    assert(body@ =~= cs@.take(i - 1));
    string_of(body.as_slice())
}

/// A signed memo with its unsigned body.
pub fn sign_memo_resp(memo_text: String, recipient_ua: String, zkv_addr: String) -> (r: SignMemoResp)
    ensures
        r.unsigned@ == before_last_line(memo_text@),
        r.signed@ == memo_text@,
        r.recipient_ua@ == recipient_ua@,
        r.zkv_addr@ == zkv_addr@,
{
    let unsigned = unsigned_body(memo_text.as_str());
    SignMemoResp { unsigned, signed: memo_text, recipient_ua, zkv_addr }
}

/// The birthday of a database to restore, which must be given: a guess near the
/// tip would miss its history.
pub fn restore_birthday(birthday: Option<u32>) -> (r: Result<u32, ZkvError>)
    ensures
        match birthday {
            Some(b) => r == Ok::<u32, ZkvError>(b),
            None => r matches Err(ZkvError::Other(t)) && t@
                == "restoring needs a birthday height or a zkv address"@,
        },
{
    match birthday {
        Some(b) => Ok(b),
        None => Err(
            ZkvError::Other("restoring needs a birthday height or a zkv address".to_owned()),
        ),
    }
}

/// Whether `INIT` may be broadcast: where that is asked for, only once the wallet
/// has reached the tip, since a valid `INIT` may lie in blocks not scanned yet.
pub fn init_gate(require_sync: bool, synced_to_tip: bool) -> (r: Result<(), ZkvError>)
    ensures
        r is Err <==> require_sync && !synced_to_tip,
        r matches Err(e) ==> e is NotSynced,
{
    if require_sync && !synced_to_tip {
        return Err(ZkvError::NotSynced);
    }
    Ok(())
}

/// Whether a recovery phrase can be shown: only where there is a seed.
pub fn reveal_gate(role: Role) -> (r: Result<(), ZkvError>)
    ensures
        r is Err <==> role is Watch,
        r matches Err(e) ==> e is WatchOnly,
{
    match role {
        Role::Watch => Err(ZkvError::WatchOnly),
        Role::Admin => Ok(()),
    }
}

/// Whether the mark of the current database goes with a database that is
/// forgotten.
pub fn clears_current(current: Option<&str>, name: &str) -> (r: bool)
    ensures
        r == (opt_str(current) == Some(name@)),
{
    match current {
        Some(c) => str_equal(c, name),
        None => false,
    }
}

/// How many entries a page has.
pub fn page_limit(limit: Option<u32>) -> (r: u32)
    ensures
        r == (match limit {
            Some(l) => l,
            None => crate::gui::session::DEFAULT_HISTORY_PAGE,
        }),
{
    match limit {
        Some(l) => l,
        None => crate::gui::session::DEFAULT_HISTORY_PAGE,
    }
}

/// What the faucet answered.
#[derive(Clone, Debug, PartialEq, Eq)]
pub struct FaucetReply {
    /// Whether its status says success.
    pub success: bool,
    pub body: String,
}

/// What the answer of the faucet comes to.
#[derive(Clone, Debug, PartialEq, Eq)]
pub enum FaucetCall {
    /// It did what it was asked; with its answer.
    Accepted(String),
    /// This program is too old for it.
    Outdated,
    Error,
}

/// Whether an outcome is what an answer of the faucet comes to.
pub open spec fn is_outcome(r: FaucetCall, reply: Option<FaucetReply>) -> bool {
    match reply {
        None => r is Outdated,
        Some(a) => if is_substring(ascii_lowered(a.body@), "update"@) {
            r is Outdated
        } else if a.success {
            r matches FaucetCall::Accepted(b) && b@ == a.body@
        } else {
            r is Error
        },
    }
}

/// What the answer of the faucet comes to. One that speaks of an update, and none
/// at all, mean that this program is too old.
pub fn faucet_call(reply: Option<FaucetReply>) -> (r: FaucetCall)
    ensures
        is_outcome(r, reply),
{
    match reply {
        None => FaucetCall::Outdated,
        Some(a) => {
            if contains_text(to_ascii_lower(a.body.as_str()).as_str(), "update") {
                FaucetCall::Outdated
            } else if a.success {
                FaucetCall::Accepted(a.body)
            } else {
                FaucetCall::Error
            }
        },
    }
}

/// The text that a field of a JSON object holds; none where there is no such
/// field, it holds no text, or there is no object.
pub uninterp spec fn json_text_field(body: Seq<char>, field: Seq<char>) -> Option<Seq<char>>;

/// `serde_json::from_str` to a `Value`, `Value::get` and `Value::as_str`: the text
/// that a field of a JSON object holds.
#[verifier::external_body]
fn json_field(body: &str, field: &str) -> (r: Option<String>)
    ensures
        opt_text(r) == json_text_field(body@, field@),
{
    let value = serde_json::from_str::<serde_json::Value>(body).ok();
    value.and_then(|v| v.get(field).and_then(|t| t.as_str()).map(str::to_owned))
}

/// The transaction that an answer of the faucet names.
pub fn faucet_txid(body: &str) -> (r: Option<String>)
    ensures
        opt_text(r) == json_text_field(body@, "txid"@),
{
    json_field(body, "txid")
}

/// The name of an outcome.
pub open spec fn outcome_name(c: FaucetCall) -> Seq<char> {
    match c {
        FaucetCall::Accepted(_) => "ok"@,
        FaucetCall::Outdated => "outdated"@,
        FaucetCall::Error => "error"@,
    }
}

/// What became of a request for funds.
pub fn faucet_funds(call: FaucetCall) -> (r: FaucetResp)
    ensures
        r.outcome@ == outcome_name(call),
        r.txid is None,
{
    let outcome = match call {
        FaucetCall::Accepted(_) => "ok",
        FaucetCall::Outdated => "outdated",
        FaucetCall::Error => "error",
    };
    FaucetResp { outcome: outcome.to_owned(), txid: None }
}

/// What became of a request to broadcast the `INIT`, whose answer named `txid`,
/// and the record of the write that is now in flight.
pub fn init_answered(call: FaucetCall, txid: Option<String>, memo: &str, zkv_addr: &str, now: u64) -> (r:
    (FaucetResp, Option<PendingEntry>))
    ensures
        r.0.outcome@ == outcome_name(call),
        opt_text(r.0.txid) == (if call is Accepted {
            opt_text(txid)
        } else {
            None
        }),
        r.1 is Some <==> call is Accepted && txid is Some,
        r.1 matches Some(e) ==> e@ == init_record(opt_text(txid)->0, memo@, zkv_addr@, now),
{
    match call {
        FaucetCall::Accepted(_) => match txid {
            Some(t) => {
                let record = record_pending(t.as_str(), Op::Init, zkv_addr, None, memo, now);
                (FaucetResp { outcome: "ok".to_owned(), txid: Some(t) }, Some(record))
            },
            None => (FaucetResp { outcome: "ok".to_owned(), txid: None }, None),
        },
        FaucetCall::Outdated => (FaucetResp { outcome: "outdated".to_owned(), txid: None }, None),
        FaucetCall::Error => (FaucetResp { outcome: "error".to_owned(), txid: None }, None),
    }
}

/// The record of an `INIT` in flight.
pub open spec fn init_record(txid: Seq<char>, memo: Seq<char>, zkv_addr: Seq<char>, now: u64) -> LocalModel {
    LocalModel {
        txid,
        op: "INIT"@,
        key: zkv_addr,
        value: None,
        memo: Some(memo),
        broadcast_at_unix: now,
    }
}

/// The transaction that the faucet broadcast: the one that its answer names, where
/// it did what it was asked.
pub open spec fn broadcast_txid(call: FaucetCall) -> Option<Seq<char>> {
    match call {
        FaucetCall::Accepted(body) => json_text_field(body@, "txid"@),
        _ => None,
    }
}

/// What became of a request to broadcast the `INIT`, and the record of the write
/// that is now in flight: there is one where the answer names a transaction.
pub fn faucet_init(call: FaucetCall, memo: &str, zkv_addr: &str, now: u64) -> (r: (
    FaucetResp,
    Option<PendingEntry>,
))
    ensures
        r.0.outcome@ == outcome_name(call),
        opt_text(r.0.txid) == broadcast_txid(call),
        r.1 is Some <==> broadcast_txid(call) is Some,
        r.1 matches Some(e) ==> e@ == init_record(broadcast_txid(call)->0, memo@, zkv_addr@, now),
{
    let txid: Option<String> = match &call {
        FaucetCall::Accepted(body) => faucet_txid(body.as_str()),
        _ => None,
    };
    init_answered(call, txid, memo, zkv_addr, now)
}

/// A request to sign names its operation in capitals or small letters, and asks for
/// that operation and no other, on the key and with the value that it gives.
pub proof fn a_request_asks_for_what_it_names(
    op: Seq<char>,
    wanted: Op,
    key: Seq<char>,
    value: Option<Seq<char>>,
    scope: Scope,
)
    requires
        ascii_uppered(op) == op_name(wanted),
        scope.create || scope.update || scope.destroy,
    ensures
        ({
            let wire = Some(comma_joined(scope_capabilities(scope)));
            let r = sign_request(op, Some(key), value, wire);
            &&& wanted is Init ==> r == Ok::<SignModel, Seq<char>>(SignModel::Init)
            &&& wanted is Put ==> r == Ok::<SignModel, Seq<char>>(
                SignModel::Put { key, value: or_empty(value) },
            )
            &&& wanted is SetL ==> r == Ok::<SignModel, Seq<char>>(
                SignModel::SetL { key, value: or_empty(value) },
            )
            &&& wanted is Del ==> r == Ok::<SignModel, Seq<char>>(SignModel::Del { key })
            &&& wanted is OwnerSet || wanted is OwnerDel || wanted is WriterDel ==> r == Ok::<
                SignModel,
                Seq<char>,
            >(SignModel::Manage { op: wanted, target: key, scope: None })
            &&& wanted is WriterSet ==> r == Ok::<SignModel, Seq<char>>(
                SignModel::Manage { op: wanted, target: key, scope: Some(scope) },
            )
            &&& wanted is Finalize ==> r == Ok::<SignModel, Seq<char>>(
                SignModel::Manage { op: wanted, target: Seq::empty(), scope: None },
            )
            &&& wanted is Version ==> r is Err
            &&& wanted is WriterSet ==> sign_request(op, Some(key), value, None) is Err
            &&& !(wanted is Init) && !(wanted is Finalize) ==> sign_request(op, None, value, wire)
                is Err
        }),
        value matches Some(v) ==> or_empty(value) == v,
        value is None ==> or_empty(value).len() == 0,
{
    scope_round_trip(scope);
    assert forall|a: Op, b: Op| #[trigger] op_name(a) == #[trigger] op_name(b) implies a == b by {
        op_names_are_distinct(a, b);
    }
    assert(op_name(Op::Init) == "INIT"@ && op_name(Op::Finalize) == "FINALIZE"@);
    assert(op_name(Op::Put) == "SET"@ && op_name(Op::SetL) == "SETL"@ && op_name(Op::Del)
        == "DEL"@);
    assert(op_name(Op::OwnerSet) == "OWNERSET"@ && op_name(Op::OwnerDel) == "OWNERDEL"@);
    assert(op_name(Op::WriterSet) == "WRITERSET"@ && op_name(Op::WriterDel) == "WRITERDEL"@);
}

/// The unsigned body of a signed memo is everything before the line of its signature.
pub proof fn the_signature_is_the_last_line(body: Seq<char>, signature: Seq<char>)
    requires
        forall|i: int| 0 <= i < signature.len() ==> #[trigger] signature[i] != '\n',
    ensures
        before_last_line(body.push('\n') + signature) == body,
        before_last_line(signature) == signature,
    decreases signature.len(),
{
    let s = body.push('\n') + signature;
    assert(s[body.len() as int] == '\n');
    lemma_last_break(body, signature);
    assert(s.take(body.len() as int) =~= body);
}

proof fn lemma_last_break(body: Seq<char>, signature: Seq<char>)
    requires
        forall|i: int| 0 <= i < signature.len() ==> #[trigger] signature[i] != '\n',
    ensures
        last_break(body.push('\n') + signature) == body.len(),
    decreases signature.len(),
{
    let s = body.push('\n') + signature;
    if signature.len() > 0 {
        let t = signature.drop_last();
        assert(signature[signature.len() - 1] != '\n');
        assert(s.last() == signature.last());
        assert(s.drop_last() =~= body.push('\n') + t);
        lemma_last_break(body, t);
    } else {
        assert(s =~= body.push('\n'));
    }
}

/// The record of an `INIT` that the faucet broadcast is that of any other broadcast
/// of it: it stands under the address of the database.
pub proof fn a_faucet_init_is_recorded_like_any(
    txid: Seq<char>,
    memo: Seq<char>,
    zkv_addr: Seq<char>,
    now: u64,
)
    ensures
        init_record(txid, memo, zkv_addr, now) == broadcast_record(
            txid,
            Op::Init,
            zkv_addr,
            None,
            memo,
            now,
        ),
        init_record(txid, memo, zkv_addr, now).txid == txid,
        init_record(txid, memo, zkv_addr, now).key == zkv_addr,
        init_record(txid, memo, zkv_addr, now).memo == Some(memo),
        init_record(txid, memo, zkv_addr, now).broadcast_at_unix == now,
{
}

/// The faucet did what it was asked only where it says success and speaks of no
/// update; it is heard to ask for an update in whatever case it does.
pub proof fn what_the_faucet_says(r: FaucetCall, reply: Option<FaucetReply>)
    requires
        is_outcome(r, reply),
    ensures
        reply is None ==> r is Outdated,
        r is Accepted ==> reply is Some && (reply->0).success && (r->Accepted_0)@
            == (reply->0).body@ && !is_substring(ascii_lowered((reply->0).body@), "update"@),
        r is Error ==> reply is Some && !(reply->0).success,
        reply matches Some(a) ==> (is_substring(ascii_lowered(a.body@), "update"@) ==> r
            is Outdated),
        reply matches Some(a) ==> (a.success && !is_substring(ascii_lowered(a.body@), "update"@)
            ==> r is Accepted),
{
}

proof fn lemma_alphanumerics(s: Seq<char>)
    requires
        forall|i: int| 0 <= i < s.len() ==> is_alphanumeric(#[trigger] s[i]),
    ensures
        alphanumerics(s) == s,
    decreases s.len(),
{
    reveal(Seq::filter);
    if s.len() > 0 {
        let t = s.drop_last();
        assert forall|i: int| 0 <= i < t.len() implies is_alphanumeric(#[trigger] t[i]) by {
            assert(is_alphanumeric(s[i]));
        }
        lemma_alphanumerics(t);
        assert(is_alphanumeric(s[s.len() - 1]));
        assert(t.push(s.last()) =~= s);
    } else {
        assert(alphanumerics(s) =~= s);
    }
}

/// A watched database without a name is called after its address: the eight letters
/// and digits behind the six that every address starts with.
pub proof fn a_watched_database_is_called_after_its_address(
    scheme: Seq<char>,
    start: Seq<char>,
    name: Seq<char>,
    rest: Seq<char>,
)
    requires
        forall|i: int| 0 <= i < scheme.len() ==> #[trigger] scheme[i] != ':',
        start.len() == 6,
        name.len() == 8,
        forall|i: int| 0 <= i < start.len() ==> is_alphanumeric(#[trigger] start[i]),
        forall|i: int| 0 <= i < name.len() ==> is_alphanumeric(#[trigger] name[i]),
        forall|i: int| 0 <= i < rest.len() ==> is_alphanumeric(#[trigger] rest[i]),
    ensures
        watch_name_of(scheme.push(':') + (start + name + rest)) == "watch-"@ + name,
        watch_name_of(scheme) == "watch"@,
{
    let body = start + name + rest;
    assert forall|i: int| 0 <= i < body.len() implies is_alphanumeric(#[trigger] body[i]) by {
        if i < 6 {
            assert(is_alphanumeric(start[i]));
        } else if i < 14 {
            assert(is_alphanumeric(name[i - 6]));
        } else {
            assert(is_alphanumeric(rest[i - 14]));
        }
    }
    lemma_watch_suffix(scheme, body);
    assert(body.subrange(6, 14) =~= name);
    lemma_split_one(scheme, ':');
    assert(watch_suffix(scheme).len() == 0);
}

proof fn lemma_watch_suffix(scheme: Seq<char>, body: Seq<char>)
    requires
        forall|i: int| 0 <= i < scheme.len() ==> #[trigger] scheme[i] != ':',
        forall|i: int| 0 <= i < body.len() ==> is_alphanumeric(#[trigger] body[i]),
        body.len() >= 14,
    ensures
        watch_suffix(scheme.push(':') + body) == body.subrange(6, 14),
{
    assert forall|i: int| 0 <= i < body.len() implies #[trigger] body[i] != ':' by {
        assert(is_alphanumeric(body[i]));
    }
    lemma_split_first(scheme, ':', body);
    lemma_split_one(body, ':');
    lemma_alphanumerics(body);
    let parts = split(scheme.push(':') + body, ':');
    assert(parts == seq![scheme] + seq![body]);
    assert(parts.len() == 2 && parts[1] == body);
    if body.len() == 14 {
        assert(body.skip(6) =~= body.subrange(6, 14));
    }
}

/// A recipient without a pool is shown as transparent, and any other with its pool.
pub proof fn every_recipient_is_shown_with_a_pool(pool: Seq<char>)
    ensures
        shown_pool(Some(pool)) == pool,
        shown_pool(None) == "transparent"@,
{
}

/// A preview asks for what it names, in small letters; a long write is previewed like
/// a short one.
pub proof fn a_preview_asks_for_what_it_names(
    op: Seq<char>,
    key: Seq<char>,
    value: Option<Seq<char>>,
)
    ensures
        preview_request("set"@, key, value) == Ok::<SignModel, Seq<char>>(
            SignModel::Put { key, value: or_empty(value) },
        ),
        preview_request("setl"@, key, value) == preview_request("set"@, key, value),
        preview_request("del"@, key, value) == Ok::<SignModel, Seq<char>>(SignModel::Del { key }),
        preview_request("init"@, key, value) == Ok::<SignModel, Seq<char>>(SignModel::Init),
        op != "set"@ && op != "setl"@ && op != "del"@ && op != "init"@ ==> preview_request(
            op,
            key,
            value,
        ) is Err,
{
    reveal_strlit("set");
    reveal_strlit("setl");
    reveal_strlit("del");
    reveal_strlit("init");
    assert("set"@[0] == 's' && "setl"@[0] == 's' && "del"@[0] == 'd' && "init"@[0] == 'i');
}

} // verus!
