//! The local server of the browser: who may talk to it, and what it answers.

use crate::db::{error_code, missing_funds, ZkvError};
use crate::gui::assets::{asset_type, lookup};
use crate::internal::pool::ShieldedPool;
use crate::internal::txid::{hex_encode, hex_text};
use crate::lex::str_equal;
use crate::network::{network_of, unsupported_network, Network};
use crate::text::{chars_of, decimal, opt_str, push_decimal, slice_of, string_of};
use rand::RngCore;
use vstd::prelude::*;
use vstd::string::*;

verus! {

/// The body of an error answer.
#[derive(Clone, Debug, PartialEq, Eq)]
pub struct ErrorBody {
    pub error: String,
    pub code: &'static str,
    pub available: Option<u64>,
    pub required: Option<u64>,
    pub pending: Option<u64>,
}

/// An error answer.
#[derive(Clone, Debug, PartialEq, Eq)]
pub struct ApiError {
    /// The HTTP status.
    pub status: u16,
    pub body: ErrorBody,
}

/// The HTTP status of an error.
pub open spec fn error_status(e: ZkvError) -> u16 {
    match e {
        ZkvError::UnknownDatabase(_) => 404,
        ZkvError::NotInitialized | ZkvError::Initializing { .. } | ZkvError::NotSynced => 409,
        ZkvError::StaleChainTip => 503,
        ZkvError::WatchOnly | ZkvError::Unauthorized(_) => 403,
        ZkvError::InsufficientFunds { .. } => 402,
        ZkvError::ClientUpgradeRequired { .. } => 426,
        ZkvError::Other(_) => 500,
    }
}

impl ApiError {
    /// The answer to an error, which is told in `message`.
    pub fn from_error(e: &ZkvError, message: String) -> (r: ApiError)
        ensures
            r.status == error_status(*e),
            r.body.error@ == message@,
            r.body.code@ == error_code(*e),
            (r.body.available, r.body.required, r.body.pending) == missing_funds(*e),
    {
        let status: u16 = match e {
            ZkvError::UnknownDatabase(_) => 404,
            ZkvError::NotInitialized | ZkvError::Initializing { .. } | ZkvError::NotSynced => 409,
            ZkvError::StaleChainTip => 503,
            ZkvError::WatchOnly | ZkvError::Unauthorized(_) => 403,
            ZkvError::InsufficientFunds { .. } => 402,
            ZkvError::ClientUpgradeRequired { .. } => 426,
            ZkvError::Other(_) => 500,
        };
        let (available, required, pending) = e.funds();
        ApiError {
            status,
            body: ErrorBody { error: message, code: e.code(), available, required, pending },
        }
    }
}

/// A bare error answer.
pub fn error_response(status: u16, code: &'static str, message: String) -> (r: ApiError)
    ensures
        r.status == status,
        r.body.error@ == message@,
        r.body.code@ == code@,
        r.body.available is None && r.body.required is None && r.body.pending is None,
{
    ApiError {
        status,
        body: ErrorBody { error: message, code, available: None, required: None, pending: None },
    }
}

/// The network that a request names.
pub fn parse_network(s: &str) -> (r: Result<Network, ApiError>)
    ensures
        match r {
            Ok(n) => network_of(s@) == Some(n),
            Err(e) => network_of(s@) is None && e.status == 400 && e.body.code@ == "bad_network"@
                && e.body.error@ == unsupported_network(s@),
        },
{
    match Network::parse(s) {
        Ok(n) => Ok(n),
        Err(msg) => Err(error_response(400, "bad_network", msg)),
    }
}

/// The network of a request that names none.
pub fn default_network() -> (r: String)
    ensures
        r@ == "mainnet"@,
{
    "mainnet".to_owned()
}

/// The pool that a request names, if it could be read; Orchard where it names none.
pub fn parse_pool(named: Option<Result<ShieldedPool, String>>) -> (r: Result<
    ShieldedPool,
    ApiError,
>)
    ensures
        match named {
            None => r == Ok::<ShieldedPool, ApiError>(ShieldedPool::Orchard),
            Some(Ok(p)) => r == Ok::<ShieldedPool, ApiError>(p),
            Some(Err(msg)) => r matches Err(e) && e.status == 400 && e.body.code@ == "bad_pool"@
                && e.body.error@ == msg@ && e.body.available is None && e.body.required is None
                && e.body.pending is None,
        },
{
    match named {
        None => Ok(ShieldedPool::Orchard),
        Some(Ok(p)) => Ok(p),
        Some(Err(msg)) => Err(error_response(400, "bad_pool", msg)),
    }
}

/// The size of a token in bytes.
pub const TOKEN_BYTES: usize = 16;

/// `OsRng::fill_bytes`: as many random bytes as a token has.
#[verifier::external_body]
fn random_bytes() -> (r: [u8; 16]) {
    let mut bytes = [0u8; 16];
    rand::rngs::OsRng.fill_bytes(&mut bytes);
    bytes
}

/// A token made of some bytes: their hexadecimal text.
pub fn token_of(bytes: &[u8]) -> (r: String)
    ensures
        r@ == hex_text(bytes@),
{
    hex_encode(bytes)
}

/// A new secret token: the hexadecimal text of random bytes.
pub fn random_token() -> (r: String)
    ensures
        exists|b: Seq<u8>| b.len() == TOKEN_BYTES && r@ == #[trigger] hex_text(b),
{
    let bytes = random_bytes();
    let r = token_of(bytes.as_slice());
    assert(bytes@.len() == TOKEN_BYTES);
    r
}

/// A new nonce for the page's one script.
pub fn random_nonce() -> (r: String)
    ensures
        exists|b: Seq<u8>| b.len() == TOKEN_BYTES && r@ == #[trigger] hex_text(b),
{
    random_token()
}

/// An address of this machine with a port.
pub open spec fn with_port(host: Seq<char>, port: u16) -> Seq<char> {
    host + ":"@ + decimal(port as nat)
}

/// Whether a `Host` header names this machine, on the port that is served.
pub open spec fn is_local_host(host: Option<Seq<char>>, port: u16) -> bool {
    match host {
        None => false,
        Some(h) => h == with_port("127.0.0.1"@, port) || h == with_port("localhost"@, port) || h
            == with_port("[::1]"@, port),
    }
}

fn host_and_port(host: &str, port: u16) -> (r: String)
    ensures
        r@ == with_port(host@, port),
{
    let mut r = String::new();
    r.append(host);
    r.append(":");
    push_decimal(&mut r, port as u64);
    assert(r@ =~= with_port(host@, port));
    r
}

/// Whether a `Host` header names this machine, on the port that is served.
pub fn host_is_local(host: Option<&str>, port: u16) -> (r: bool)
    ensures
        r == is_local_host(opt_str(host), port),
{
    match host {
        None => false,
        Some(h) => str_equal(h, host_and_port("127.0.0.1", port).as_str()) || str_equal(
            h,
            host_and_port("localhost", port).as_str(),
        ) || str_equal(h, host_and_port("[::1]", port).as_str()),
    }
}

/// Whether two byte strings are the same, in a time that depends on their length
/// alone.
pub fn constant_time_eq(a: &[u8], b: &[u8]) -> (r: bool)
    ensures
        r == (a@ == b@),
{
    if a.len() != b.len() {
        return false;
    }
    let mut diff: u8 = 0;
    let mut i: usize = 0;
    while i < a.len()
        invariant
            i <= a.len(),
            a.len() == b.len(),
            diff == 0 <==> (forall|k: int| 0 <= k < i ==> a@[k] == b@[k]),
        decreases a.len() - i,
    {
        let x: u8 = a[i];
        let y: u8 = b[i];
        let d: u8 = diff;
        assert((d | (x ^ y)) == 0 <==> d == 0 && x == y) by (bit_vector);
        diff = d | (x ^ y);
        i += 1;
    }
    proof {
        if diff == 0 {
            assert(a@ =~= b@);
        }
    }
    diff == 0
}

/// Whether a request may talk to the server.
pub open spec fn is_admitted(
    host: Option<Seq<char>>,
    presented: Option<Seq<char>>,
    token: Seq<char>,
    port: u16,
) -> bool {
    is_local_host(host, port) && (match presented {
        Some(p) => p == token,
        None => token.len() == 0,
    })
}

/// Whether a request may talk to the server: it names this machine, and carries
/// the token of this launch.
pub fn guard(host: Option<&str>, presented: Option<&str>, token: &str, port: u16) -> (r: Result<
    (),
    ApiError,
>)
    ensures
        r is Ok <==> is_admitted(opt_str(host), opt_str(presented), token@, port),
        r matches Err(e) ==> (if !is_local_host(opt_str(host), port) {
            e.status == 403 && e.body.code@ == "bad_host"@ && e.body.error@
                == "request Host is not a recognized loopback address"@
        } else {
            e.status == 401 && e.body.code@ == "bad_token"@ && e.body.error@
                == "missing or invalid session token"@
        }),
{
    if !host_is_local(host, port) {
        return Err(
            error_response(
                403,
                "bad_host",
                "request Host is not a recognized loopback address".to_owned(),
            ),
        );
    }
    let given = match presented {
        Some(p) => p,
        None => "",
    };
    proof {
        reveal_strlit("");
        assert(presented is None ==> (given@ == token@ <==> token@.len() == 0)) by {
            if presented is None && token@.len() == 0 {
                assert(given@ =~= token@);
            }
        }
        if vstd::utf8::encode_utf8(given@) == vstd::utf8::encode_utf8(token@) {
            crate::lex::lemma_utf8_injective(given@, token@);
        }
    }
    if !constant_time_eq(given.as_bytes(), token.as_bytes()) {
        return Err(
            error_response(401, "bad_token", "missing or invalid session token".to_owned()),
        );
    }
    Ok(())
}

/// `s` without the slashes at its start.
pub open spec fn without_slashes(s: Seq<char>) -> Seq<char>
    decreases s.len(),
{
    if s.len() > 0 && s[0] == '/' {
        without_slashes(s.drop_first())
    } else {
        s
    }
}

/// What a path outside the API is answered with.
#[derive(Clone, Debug, PartialEq, Eq)]
pub enum StaticAnswer {
    /// The page itself.
    Index,
    /// A file of the page, and its type.
    Asset(String, &'static str),
    NotFound,
}

/// What a path outside the API is answered with.
pub fn static_handler(path: &str) -> (r: StaticAnswer)
    ensures
        r is Index <==> (path@ == "/"@ || path@ == "/index.html"@),
        !(r is Index) ==> (match asset_type(without_slashes(path@)) {
            Some(t) => r matches StaticAnswer::Asset(p, m) && p@ == without_slashes(path@) && m@
                == t,
            None => r is NotFound,
        }),
{
    if str_equal(path, "/") || str_equal(path, "/index.html") {
        return StaticAnswer::Index;
    }
    let cs = chars_of(path);
    let mut i: usize = 0;
    assert(cs@.skip(0) =~= cs@);
    while i < cs.len() && cs[i] == '/'
        invariant
            cs@ == path@,
            i <= cs.len(),
            without_slashes(path@) == without_slashes(cs@.skip(i as int)),
        decreases cs.len() - i,
    {
        assert(cs@.skip(i as int).drop_first() =~= cs@.skip(i + 1));
        i += 1;
    }
    let rest = string_of(slice_of(cs.as_slice(), i, cs.len()).as_slice());
    assert(rest@ =~= cs@.skip(i as int));
    match lookup(rest.as_str()) {
        Some(t) => StaticAnswer::Asset(rest, t),
        None => StaticAnswer::NotFound,
    }
}

/// The policy of the page: everything from this server alone, and no script
/// without this nonce.
pub fn content_security_policy(nonce: &str) -> (r: String)
    ensures
        r@ == "default-src 'self'; script-src 'self' 'nonce-"@ + nonce@
            + "'; object-src 'none'; base-uri 'none'; frame-ancestors 'none'; form-action 'self'"@,
{
    let mut r = String::new();
    r.append("default-src 'self'; script-src 'self' 'nonce-");
    r.append(nonce);
    r.append("'; object-src 'none'; base-uri 'none'; frame-ancestors 'none'; form-action 'self'");
    assert(r@ =~= "default-src 'self'; script-src 'self' 'nonce-"@ + nonce@
        + "'; object-src 'none'; base-uri 'none'; frame-ancestors 'none'; form-action 'self'"@);
    r
}

/// What the browser is told to start with, on one system or another.
#[derive(Clone, Debug, PartialEq, Eq)]
pub enum Host {
    MacOs,
    Windows,
    Other,
}

/// The commands that open a page, in the order in which they are tried, with
/// what stands before the page.
pub fn browser_commands(host: &Host) -> (r: Vec<(&'static str, Vec<&'static str>)>)
    ensures
        match host {
            Host::MacOs => r.len() == 1 && r@[0].0@ == "open"@ && r@[0].1.len() == 0,
            Host::Windows => r.len() == 1 && r@[0].0@ == "cmd"@ && r@[0].1.len() == 3
                && r@[0].1@[0]@ == "/C"@ && r@[0].1@[1]@ == "start"@ && r@[0].1@[2]@ == ""@,
            Host::Other => r.len() == 2 && r@[0].0@ == "xdg-open"@ && r@[0].1.len() == 0 && r@[1].0@
                == "sensible-browser"@ && r@[1].1.len() == 0,
        },
{
    let mut r: Vec<(&'static str, Vec<&'static str>)> = Vec::new();
    match host {
        Host::MacOs => {
            r.push(("open", Vec::new()));
        },
        Host::Windows => {
            let mut before: Vec<&'static str> = Vec::new();
            before.push("/C");
            before.push("start");
            before.push("");
            r.push(("cmd", before));
        },
        Host::Other => {
            r.push(("xdg-open", Vec::new()));
            r.push(("sensible-browser", Vec::new()));
        },
    }
    r
}

/// The command that shows a directory.
pub fn file_manager(host: &Host) -> (r: &'static str)
    ensures
        r@ == (match host {
            Host::MacOs => "open"@,
            Host::Windows => "explorer"@,
            Host::Other => "xdg-open"@,
        }),
{
    match host {
        Host::MacOs => "open",
        Host::Windows => "explorer",
        Host::Other => "xdg-open",
    }
}

/// Who may talk to the server: only who names this machine by a loopback address, on
/// the port that is served. No other port and no missing header will do.
pub proof fn only_loopback_hosts_are_local(port: u16, other: u16)
    ensures
        is_local_host(Some("127.0.0.1:"@ + decimal(port as nat)), port),
        is_local_host(Some("localhost:"@ + decimal(port as nat)), port),
        is_local_host(Some("[::1]:"@ + decimal(port as nat)), port),
        !is_local_host(None, port),
        port != other ==> !is_local_host(Some("127.0.0.1:"@ + decimal(other as nat)), port)
            && !is_local_host(Some("localhost:"@ + decimal(other as nat)), port)
            && !is_local_host(Some("[::1]:"@ + decimal(other as nat)), port),
{
    reveal_strlit("127.0.0.1");
    reveal_strlit("localhost");
    reveal_strlit("[::1]");
    reveal_strlit("127.0.0.1:");
    reveal_strlit("localhost:");
    reveal_strlit("[::1]:");
    reveal_strlit(":");
    let a = "127.0.0.1:"@;
    let b = "localhost:"@;
    let c = "[::1]:"@;
    let mine = decimal(port as nat);
    let their = decimal(other as nat);
    assert("127.0.0.1"@ + ":"@ =~= a);
    assert("localhost"@ + ":"@ =~= b);
    assert("[::1]"@ + ":"@ =~= c);
    assert(with_port("127.0.0.1"@, port) =~= a + mine);
    assert(with_port("localhost"@, port) =~= b + mine);
    assert(with_port("[::1]"@, port) =~= c + mine);
    crate::text::decimal_round_trip(port as nat);
    crate::text::decimal_round_trip(other as nat);
    if port != other {
        assert(mine != their);
        assert((a + mine).skip(a.len() as int) =~= mine && (a + their).skip(a.len() as int)
            =~= their);
        assert((b + mine).skip(b.len() as int) =~= mine && (b + their).skip(b.len() as int)
            =~= their);
        assert((c + mine).skip(c.len() as int) =~= mine && (c + their).skip(c.len() as int)
            =~= their);
        assert((a + mine)[0] == '1' && (b + mine)[0] == 'l' && (c + mine)[0] == '[');
        assert((a + their)[0] == '1' && (b + their)[0] == 'l' && (c + their)[0] == '[');
    }
}

/// How errors are answered: what is the client's to mend comes as a client's error,
/// and only a server that is behind or a fault inside comes as a server's.
pub proof fn errors_are_answered_by_whose_they_are(e: ZkvError)
    ensures
        e is UnknownDatabase ==> error_status(e) == 404,
        e is NotInitialized || e is Initializing || e is NotSynced ==> error_status(e) == 409,
        e is WatchOnly || e is Unauthorized ==> error_status(e) == 403,
        e is InsufficientFunds ==> error_status(e) == 402,
        e is ClientUpgradeRequired ==> error_status(e) == 426,
        e is StaleChainTip ==> error_status(e) == 503,
        e is Other ==> error_status(e) == 500,
        error_status(e) >= 500 <==> e is StaleChainTip || e is Other,
{
}

/// Slashes before a path mean nothing.
pub proof fn slashes_before_a_path_mean_nothing(p: Seq<char>)
    ensures
        without_slashes(seq!['/'] + p) == without_slashes(p),
        p.len() > 0 && p[0] != '/' ==> without_slashes(p) == p,
{
    assert((seq!['/'] + p).drop_first() =~= p);
}

/// Who is admitted: only who carries the token of this launch and names this machine.
/// Either alone is not enough, and no token is none.
pub proof fn only_token_bearers_are_admitted(
    host: Option<Seq<char>>,
    presented: Seq<char>,
    token: Seq<char>,
    port: u16,
)
    requires
        token.len() > 0,
    ensures
        is_admitted(host, Some(presented), token, port) <==> presented == token && is_local_host(
            host,
            port,
        ),
        !is_admitted(host, None, token, port),
        !is_admitted(None, Some(token), token, port),
{
}

} // verus!
