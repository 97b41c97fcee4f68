//! The state of the browser: what it syncs, and what it tells about databases and
//! servers.

use crate::config::{pool_label, pool_name, Role};
use crate::db::ZkvError;
use crate::freshness::{expired, out_of_date_at, FRESH_WINDOW_SECS};
use crate::gui::engine::{
    count_keys, count_of, counts_as_key, init_parts, is_unsynced, key_rows, last_update, latest_update, listed_rows,
    role_str, KeyRow,
};
use crate::gui::qr::{qr_code_of, qr_svg, svg_text};
use crate::internal::pool::ShieldedPool;
use crate::network::{network_name, Network};
use crate::ordmap::OrdMap;
use crate::protocol::{blocks_wire, is_blocked, InitState, KeyModel, KeyState, ReplayResult, MAX_DB_VERSION};
use crate::sort::views;
use crate::text::{lower_case, opt_text, texts, to_lower_case};
use vstd::prelude::*;
use vstd::string::*;

verus! {

/// How many databases are synced at once, unless it is set.
pub const DEFAULT_SYNC_WORKERS: usize = 5;

/// How many may be synced at once.
pub const MAX_SYNC_WORKERS: usize = 16;

/// How many seconds lie between two rounds of syncing.
pub const AUTO_SYNC_INTERVAL_SECS: u64 = 20;

/// How many entries a page has, unless it is set.
pub const DEFAULT_HISTORY_PAGE: u32 = 100;

/// The state of the browser.
#[derive(Clone, Debug, PartialEq, Eq)]
pub struct Engine {
    /// The server of the main network, as it is shown.
    server_label: String,
    paused: OrdMap<()>,
    sync_workers: usize,
    paused_all: bool,
    /// Whether the build has expired, once that was asked.
    out_of_date: Option<bool>,
}

/// What is said of a change of pausing.
#[derive(Clone, Debug, PartialEq, Eq)]
pub struct PauseResp {
    pub paused: bool,
}

/// What is said of a change of the settings.
#[derive(Clone, Debug, PartialEq, Eq)]
pub struct SettingsResp {
    pub sync_workers: usize,
}

/// A QR code as a picture.
#[derive(Clone, Debug, PartialEq, Eq)]
pub struct QrResp {
    pub svg: String,
}

/// That something was done.
#[derive(Clone, Debug, PartialEq, Eq)]
pub struct OkResp {
    pub ok: bool,
}

/// The status of the program.
#[derive(Clone, Debug, PartialEq, Eq)]
pub struct StatusResp {
    pub version: String,
    pub git_sha: String,
    pub platform: String,
    pub server: String,
    pub current: Option<String>,
    pub databases: usize,
    pub network: Option<String>,
    pub chain_tip: Option<u32>,
    pub synced: Option<u32>,
    pub latency_ms: Option<u64>,
    pub sync_workers: usize,
    pub paused_all: bool,
    pub demo_reimport_available: bool,
    pub onboarded: bool,
    pub build_out_of_date: bool,
}

/// What is known of the current database.
#[derive(Clone, Debug, PartialEq, Eq)]
pub struct CurrentDb {
    pub network: Network,
    pub server: String,
    pub synced: Option<u32>,
    /// The tip of its chain and how long the answer took (milliseconds), if
    /// there was one.
    pub chain_tip: Option<(u32, u64)>,
}

/// What is known of the program.
#[derive(Clone, Debug, PartialEq, Eq)]
pub struct StatusFacts {
    pub version: String,
    pub git_sha: String,
    pub platform: String,
    pub current: Option<String>,
    pub databases: usize,
    /// The current database, if it could be opened.
    pub opened: Option<CurrentDb>,
    /// The tip of the main chain, where it had to be asked for.
    pub mainnet_probe: Option<u32>,
    pub demo_reimport_available: bool,
    pub onboarded: bool,
    /// When the build was made, and the time now (unix seconds).
    pub build_unix: u64,
    pub now_unix: u64,
}

/// The tip of the current database's chain.
pub open spec fn current_tip(f: StatusFacts) -> Option<u32> {
    match f.opened {
        Some(d) => match d.chain_tip {
            Some(t) => Some(t.0),
            None => None,
        },
        None => None,
    }
}

/// The tip of the main chain: that of the current database where it lives there,
/// or else the one that was asked for.
pub open spec fn mainnet_tip(f: StatusFacts) -> Option<u32> {
    if f.opened is Some && f.opened->0.network is Main {
        current_tip(f)
    } else {
        f.mainnet_probe
    }
}

/// How many databases are synced at once where so many were asked for: at least one,
/// and not too many.
pub open spec fn bounded_workers(n: usize) -> usize {
    if n < 1 {
        1
    } else if n > MAX_SYNC_WORKERS {
        MAX_SYNC_WORKERS
    } else {
        n
    }
}

/// The paused databases once one was paused or resumed.
pub open spec fn paused_after(s: Set<Seq<char>>, name: Seq<char>, paused: bool) -> Set<Seq<char>> {
    if paused {
        s.insert(name)
    } else {
        s.remove(name)
    }
}

/// The databases that a round of syncing takes, in their order.
pub open spec fn due_of(names: Seq<Seq<char>>, paused: Set<Seq<char>>) -> Seq<Seq<char>> {
    names.filter(|n: Seq<char>| !paused.contains(n))
}

impl Engine {
    /// The order of the paused databases is kept.
    pub closed spec fn wf(self) -> bool {
        self.paused.wf()
    }

    /// The server of the main network, as it is shown.
    pub closed spec fn label(self) -> Seq<char> {
        self.server_label@
    }

    /// The databases that are not synced.
    pub closed spec fn paused_set(self) -> Set<Seq<char>> {
        self.paused.map().dom()
    }

    /// How many databases are synced at once.
    pub closed spec fn workers(self) -> usize {
        self.sync_workers
    }

    /// Whether nothing is synced.
    pub closed spec fn all_paused(self) -> bool {
        self.paused_all
    }

    /// Whether the build has expired, once that was asked.
    pub closed spec fn verdict(self) -> Option<bool> {
        self.out_of_date
    }

    /// The browser at its start: everything is synced.
    pub fn new(server_label: String) -> (r: Engine)
        ensures
            r.wf(),
            r.label() == server_label@,
            r.paused_set() == Set::<Seq<char>>::empty(),
            r.workers() == DEFAULT_SYNC_WORKERS,
            !r.all_paused(),
            r.verdict() is None,
    {
        let r = Engine {
            server_label,
            paused: OrdMap::new(),
            sync_workers: DEFAULT_SYNC_WORKERS,
            paused_all: false,
            out_of_date: None,
        };
        assert(r.paused_set() =~= Set::<Seq<char>>::empty());
        r
    }

    /// Whether a database is not synced.
    pub fn is_paused(&self, name: &str) -> (r: bool)
        requires
            self.wf(),
        ensures
            r == self.paused_set().contains(name@),
    {
        self.paused.contains_key(name)
    }

    /// Pauses or resumes the syncing of a database.
    pub fn set_pause(&mut self, name: String, paused: bool) -> (r: PauseResp)
        requires
            old(self).wf(),
        ensures
            final(self).wf(),
            r.paused == paused,
            final(self).paused_set() == paused_after(old(self).paused_set(), name@, paused),
            final(self).workers() == old(self).workers(),
            final(self).all_paused() == old(self).all_paused(),
            final(self).verdict() == old(self).verdict(),
            final(self).label() == old(self).label(),
    {
        if paused {
            self.paused.insert(name, ());
        } else {
            self.paused.remove(name.as_str());
        }
        assert(self.paused_set() =~= (if paused {
            old(self).paused_set().insert(name@)
        } else {
            old(self).paused_set().remove(name@)
        }));
        PauseResp { paused }
    }

    /// Pauses or resumes all syncing.
    pub fn set_pause_all(&mut self, paused: bool) -> (r: PauseResp)
        requires
            old(self).wf(),
        ensures
            final(self).wf(),
            r.paused == paused,
            final(self).all_paused() == paused,
            final(self).paused_set() == old(self).paused_set(),
            final(self).workers() == old(self).workers(),
            final(self).verdict() == old(self).verdict(),
            final(self).label() == old(self).label(),
    {
        self.paused_all = paused;
        PauseResp { paused }
    }

    /// Sets how many databases are synced at once: at least one, and not too
    /// many.
    pub fn set_settings(&mut self, sync_workers: usize) -> (r: SettingsResp)
        requires
            old(self).wf(),
        ensures
            final(self).wf(),
            r.sync_workers == bounded_workers(sync_workers),
            final(self).workers() == r.sync_workers,
            final(self).all_paused() == old(self).all_paused(),
            final(self).paused_set() == old(self).paused_set(),
            final(self).verdict() == old(self).verdict(),
            final(self).label() == old(self).label(),
    {
        let n: usize = if sync_workers < 1 {
            1
        } else if sync_workers > MAX_SYNC_WORKERS {
            MAX_SYNC_WORKERS
        } else {
            sync_workers
        };
        self.sync_workers = n;
        SettingsResp { sync_workers: n }
    }

    /// The databases that a round of syncing takes, in their order, and how many
    /// at once; none while all syncing is paused.
    pub fn run_auto_sync(&self, names: &Vec<String>) -> (r: Option<(Vec<String>, usize)>)
        requires
            self.wf(),
        ensures
            r is None <==> self.all_paused(),
            r matches Some((due, workers)) ==> {
                &&& texts(due@) == due_of(texts(names@), self.paused_set())
                &&& workers == (if self.workers() < 1 {
                    1
                } else {
                    self.workers()
                })
            },
    {
        if self.paused_all {
            return None;
        }
        let ghost all = texts(names@);
        let ghost p = |n: Seq<char>| !self.paused_set().contains(n);
        let mut due: Vec<String> = Vec::new();
        let mut i: usize = 0;
        proof {
            reveal(Seq::filter);
            assert(texts(due@) =~= all.take(0).filter(p));
        }
        while i < names.len()
            invariant
                i <= names.len(),
                self.wf(),
                all == texts(names@),
                p == (|n: Seq<char>| !self.paused_set().contains(n)),
                texts(due@) == all.take(i as int).filter(p),
            decreases names.len() - i,
        {
            let ghost before = due@;
            proof {
                assert(all.take(i + 1).drop_last() =~= all.take(i as int));
                assert(all.take(i + 1).last() == names@[i as int]@);
                reveal(Seq::filter);
            }
            if !self.is_paused(names[i].as_str()) {
                due.push(names[i].clone());
                assert(texts(due@) =~= texts(before).push(all[i as int]));
            }
            i += 1;
        }
        assert(all.take(i as int) =~= all);
        let workers: usize = if self.sync_workers < 1 {
            1
        } else {
            self.sync_workers
        };
        Some((due, workers))
    }

    /// Forgets that a database was paused, once it is gone.
    pub fn forget(&mut self, name: &str) -> (r: OkResp)
        requires
            old(self).wf(),
        ensures
            final(self).wf(),
            r.ok,
            final(self).paused_set() == old(self).paused_set().remove(name@),
            final(self).workers() == old(self).workers(),
            final(self).all_paused() == old(self).all_paused(),
            final(self).verdict() == old(self).verdict(),
            final(self).label() == old(self).label(),
    {
        self.paused.remove(name);
        assert(self.paused_set() =~= old(self).paused_set().remove(name@));
        OkResp { ok: true }
    }

    /// A QR code as a picture.
    pub fn qr(&self, data: String) -> (r: Result<QrResp, ZkvError>)
        ensures
            match qr_code_of(vstd::utf8::encode_utf8(data@)) {
                Ok(c) => r matches Ok(q) && q.svg@ == svg_text(c.0, c.1),
                Err(e) => r matches Err(ZkvError::Other(t)) && t@ == "encode QR: "@ + e,
            },
    {
        match qr_svg(data.as_str()) {
            Ok(svg) => Ok(QrResp { svg }),
            Err(e) => Err(ZkvError::Other(e)),
        }
    }

    /// The status of the program. Whether the build has expired is asked once,
    /// and holds for as long as the program runs.
    pub fn status(&mut self, f: StatusFacts) -> (r: StatusResp)
        requires
            old(self).wf(),
            f.build_unix + FRESH_WINDOW_SECS <= u64::MAX,
        ensures
            final(self).wf(),
            final(self).paused_set() == old(self).paused_set(),
            final(self).workers() == old(self).workers(),
            final(self).all_paused() == old(self).all_paused(),
            final(self).label() == old(self).label(),
            r.build_out_of_date == (match old(self).verdict() {
                Some(v) => v,
                None => expired(f.build_unix, f.now_unix, mainnet_tip(f)),
            }),
            final(self).verdict() == Some(r.build_out_of_date),
            r.version@ == f.version@,
            r.git_sha@ == f.git_sha@,
            r.platform@ == f.platform@,
            opt_text(r.current) == opt_text(f.current),
            r.databases == f.databases,
            r.sync_workers == old(self).workers(),
            r.paused_all == old(self).all_paused(),
            r.demo_reimport_available == f.demo_reimport_available,
            r.onboarded == f.onboarded,
            match f.opened {
                Some(d) => {
                    &&& r.server@ == d.server@
                    &&& opt_text(r.network) == Some(network_name(d.network))
                    &&& r.synced == d.synced
                    &&& r.chain_tip == current_tip(f)
                    &&& r.latency_ms == (match d.chain_tip {
                        Some(t) => Some(t.1),
                        None => None,
                    })
                },
                None => {
                    &&& r.server@ == old(self).label()
                    &&& r.network is None
                    &&& r.synced is None
                    &&& r.chain_tip is None
                    &&& r.latency_ms is None
                },
            },
    {
        let mut network: Option<String> = None;
        let mut chain_tip: Option<u32> = None;
        let mut synced: Option<u32> = None;
        let mut latency_ms: Option<u64> = None;
        let mut server = self.server_label.clone();
        let mut is_mainnet: bool = false;
        match &f.opened {
            None => {},
            Some(d) => {
                is_mainnet = matches!(d.network, Network::Main);
                network = Some(d.network.name().to_owned());
                server = d.server.clone();
                synced = d.synced;
                match d.chain_tip {
                    Some((tip, ms)) => {
                        chain_tip = Some(tip);
                        latency_ms = Some(ms);
                    },
                    None => {},
                }
            },
        }
        let tip: Option<u32> = if is_mainnet {
            chain_tip
        } else {
            f.mainnet_probe
        };
        let old_verdict: Option<bool> = self.out_of_date;
        let verdict: bool = match old_verdict {
            Some(v) => v,
            None => out_of_date_at(f.build_unix, f.now_unix, tip),
        };
        self.out_of_date = Some(verdict);
        StatusResp {
            version: f.version,
            git_sha: f.git_sha,
            platform: f.platform,
            server,
            current: f.current,
            databases: f.databases,
            network,
            chain_tip,
            synced,
            latency_ms,
            sync_workers: self.sync_workers,
            paused_all: self.paused_all,
            demo_reimport_available: f.demo_reimport_available,
            onboarded: f.onboarded,
            build_out_of_date: verdict,
        }
    }

    /// One line for each database whose settings can be read.
    pub fn list_databases(&self, dbs: &Vec<DbFacts>) -> (r: Vec<DbSummary>)
        requires
            self.wf(),
        ensures
            views(r@) == summaries(dbs@, self.paused_set()),
    {
        let ghost all = dbs@;
        let mut out: Vec<DbSummary> = Vec::new();
        let mut i: usize = 0;
        assert(views(out@) =~= Seq::<SummaryModel>::empty());
        while i < dbs.len()
            invariant
                i <= dbs.len(),
                self.wf(),
                all == dbs@,
                views(out@) == summaries(all.take(i as int), self.paused_set()),
            decreases dbs.len() - i,
        {
            let ghost before = out@;
            assert(all.take(i + 1).drop_last() =~= all.take(i as int));
            assert(all.take(i + 1).last() == all[i as int]);
            let d = &dbs[i];
            match &d.config {
                None => {},
                Some(c) => {
                    let mut keys: usize = 0;
                    let mut unsynced: usize = 0;
                    let mut updated_at: Option<u32> = None;
                    let mut synced: Option<u32> = None;
                    match &d.opened {
                        None => {},
                        Some(o) => {
                            synced = o.synced;
                            match &o.state {
                                None => {},
                                Some(s) => {
                                    let (k, u) = count_keys(s);
                                    keys = k;
                                    unsynced = u;
                                    updated_at = last_update(s);
                                },
                            }
                        },
                    }
                    let row = DbSummary {
                        name: d.name.clone(),
                        role: role_str(c.role).to_owned(),
                        network: c.network.name().to_owned(),
                        pool: pool_label(c.pool).to_owned(),
                        server: d.server.clone(),
                        birthday: c.birthday,
                        keys,
                        unsynced,
                        paused: self.is_paused(d.name.as_str()),
                        updated_at,
                        synced,
                    };
                    let ghost m = row@;
                    assert(m == summary(*d, *c, self.paused_set()));
                    out.push(row);
                    assert(views(out@) =~= views(before).push(m));
                },
            }
            i += 1;
        }
        assert(all.take(i as int) =~= all);
        out
    }

    /// Everything about one database.
    pub fn detail(&self, f: DetailFacts) -> (r: Result<DbDetail, ZkvError>)
        requires
            self.wf(),
            f.state.wf(),
        ensures
            match r {
                Ok(d) => detail_ok(f) && is_detail(d, f, self.paused_set().contains(f.name@)),
                Err(e) => !detail_ok(f) && e == detail_fault(f),
            },
    {
        let (init, init_done, init_required) = init_parts(&f.state.init);
        let synced_to_tip: bool = match f.state.init {
            InitState::Uninitialized => match f.synced_to_tip {
                Some(s) => s,
                None => false,
            },
            _ => false,
        };
        let paused = self.is_paused(f.name.as_str());
        let balance: Option<u64> = match f.balance {
            Ok(b) => Some(b),
            Err(ZkvError::WatchOnly) => None,
            Err(e) => {
                return Err(e);
            },
        };
        let confirming: Option<u64> = match f.confirming {
            Ok(b) => Some(b),
            Err(ZkvError::WatchOnly) => None,
            Err(e) => {
                return Err(e);
            },
        };
        let funding_address: Option<String> = match f.funding_address {
            Ok(a) => Some(a),
            Err(ZkvError::WatchOnly) => None,
            Err(e) => {
                return Err(e);
            },
        };
        let address: String = match f.address {
            Ok(a) => a,
            Err(e) => {
                return Err(e);
            },
        };
        let synced: Option<u32> = match f.synced {
            Ok(s) => s,
            Err(e) => {
                return Err(e);
            },
        };
        Ok(
            DbDetail {
                name: f.name,
                role: role_str(f.role).to_owned(),
                network: f.network.name().to_owned(),
                pool: pool_label(f.pool).to_owned(),
                server: f.server,
                birthday: f.birthday,
                address,
                funding_address,
                signer: f.signer,
                init,
                init_done,
                init_required,
                balance,
                confirming,
                synced,
                synced_to_tip,
                keys: key_rows(&f.state.state),
                history_available: true,
                paused,
                db_version: f.state.version.version,
                client_max_version: MAX_DB_VERSION,
                block_flags: f.state.version.blocks.to_wire(),
                blocks_sync: f.state.version.blocks_sync(),
                blocks_read: f.state.version.blocks_read(),
                blocks_write: f.state.version.blocks_write(),
            },
        )
    }
}

/// One line about a database.
#[derive(Clone, Debug, PartialEq, Eq)]
pub struct DbSummary {
    pub name: String,
    pub role: String,
    pub network: String,
    pub pool: String,
    pub server: String,
    pub birthday: u32,
    pub keys: usize,
    pub unsynced: usize,
    pub paused: bool,
    pub updated_at: Option<u32>,
    pub synced: Option<u32>,
}

/// [`DbSummary`] as mathematics.
pub struct SummaryModel {
    pub name: Seq<char>,
    pub role: Seq<char>,
    pub network: Seq<char>,
    pub pool: Seq<char>,
    pub server: Seq<char>,
    pub birthday: u32,
    pub keys: int,
    pub unsynced: int,
    pub paused: bool,
    pub updated_at: Option<u32>,
    pub synced: Option<u32>,
}

impl View for DbSummary {
    type V = SummaryModel;

    open spec fn view(&self) -> SummaryModel {
        SummaryModel {
            name: self.name@,
            role: self.role@,
            network: self.network@,
            pool: self.pool@,
            server: self.server@,
            birthday: self.birthday,
            keys: self.keys as int,
            unsynced: self.unsynced as int,
            paused: self.paused,
            updated_at: self.updated_at,
            synced: self.synced,
        }
    }
}

/// What the settings of a database say.
#[derive(Clone, Debug, PartialEq, Eq)]
pub struct DbConfig {
    pub role: Role,
    pub network: Network,
    pub pool: ShieldedPool,
    pub birthday: u32,
}

/// What an opened database says.
#[derive(Clone, Debug, PartialEq, Eq)]
pub struct OpenedDb {
    pub synced: Option<u32>,
    /// The keys, if they could be read.
    pub state: Option<OrdMap<KeyState>>,
}

/// What is known of a database.
#[derive(Clone, Debug, PartialEq, Eq)]
pub struct DbFacts {
    pub name: String,
    pub server: String,
    /// The settings, if they could be read.
    pub config: Option<DbConfig>,
    /// The database, if it could be opened.
    pub opened: Option<OpenedDb>,
}

/// The name of a role.
pub open spec fn role_name(role: Role) -> Seq<char> {
    match role {
        Role::Admin => "admin"@,
        Role::Watch => "watch"@,
    }
}

/// The keys of a database, as far as they are known.
pub open spec fn known_entries(d: DbFacts) -> Seq<(Seq<char>, KeyModel)> {
    match d.opened {
        Some(o) => match o.state {
            Some(s) => s.entries(),
            None => Seq::empty(),
        },
        None => Seq::empty(),
    }
}

/// One line about a database.
pub open spec fn summary(d: DbFacts, c: DbConfig, paused: Set<Seq<char>>) -> SummaryModel {
    SummaryModel {
        name: d.name@,
        role: role_name(c.role),
        network: network_name(c.network),
        pool: pool_name(c.pool),
        server: d.server@,
        birthday: c.birthday,
        keys: count_of(known_entries(d), |k: KeyModel| counts_as_key(k)) as int,
        unsynced: count_of(known_entries(d), |k: KeyModel| is_unsynced(k)) as int,
        paused: paused.contains(d.name@),
        updated_at: latest_update(known_entries(d)),
        synced: match d.opened {
            Some(o) => o.synced,
            None => None,
        },
    }
}

/// One line for each database whose settings can be read.
pub open spec fn summaries(dbs: Seq<DbFacts>, paused: Set<Seq<char>>) -> Seq<SummaryModel>
    decreases dbs.len(),
{
    if dbs.len() == 0 {
        Seq::empty()
    } else {
        let before = summaries(dbs.drop_last(), paused);
        match dbs.last().config {
            Some(c) => before.push(summary(dbs.last(), c, paused)),
            None => before,
        }
    }
}

/// Everything about one database.
#[derive(Clone, Debug, PartialEq, Eq)]
pub struct DbDetail {
    pub name: String,
    pub role: String,
    pub network: String,
    pub pool: String,
    pub server: String,
    pub birthday: u32,
    pub address: String,
    pub funding_address: Option<String>,
    pub signer: Option<String>,
    pub init: String,
    pub init_done: u32,
    pub init_required: u32,
    pub balance: Option<u64>,
    pub confirming: Option<u64>,
    pub synced: Option<u32>,
    /// Whether the wallet has reached the tip; only asked of a database that
    /// looks uninitialized.
    pub synced_to_tip: bool,
    pub keys: Vec<KeyRow>,
    pub history_available: bool,
    pub paused: bool,
    pub db_version: u32,
    pub client_max_version: u32,
    pub block_flags: String,
    pub blocks_sync: bool,
    pub blocks_read: bool,
    pub blocks_write: bool,
}

/// What an opened database says of itself.
#[derive(Debug, PartialEq, Eq)]
pub struct DetailFacts {
    pub name: String,
    pub role: Role,
    pub network: Network,
    pub pool: ShieldedPool,
    pub server: String,
    pub birthday: u32,
    pub state: ReplayResult,
    pub synced_to_tip: Option<bool>,
    pub balance: Result<u64, ZkvError>,
    pub confirming: Result<u64, ZkvError>,
    pub funding_address: Result<String, ZkvError>,
    pub address: Result<String, ZkvError>,
    pub signer: Option<String>,
    pub synced: Result<Option<u32>, ZkvError>,
}

/// Whether an answer is usable: a watched database has no funds, which is no
/// fault.
pub open spec fn usable<T>(r: Result<T, ZkvError>) -> bool {
    r is Ok || r->Err_0 is WatchOnly
}

/// Whether everything about a database could be found out.
pub open spec fn detail_ok(f: DetailFacts) -> bool {
    &&& usable(f.balance)
    &&& usable(f.confirming)
    &&& usable(f.funding_address)
    &&& f.address is Ok
    &&& f.synced is Ok
}

/// The first thing that could not be found out.
pub open spec fn detail_fault(f: DetailFacts) -> ZkvError {
    if !usable(f.balance) {
        f.balance->Err_0
    } else if !usable(f.confirming) {
        f.confirming->Err_0
    } else if !usable(f.funding_address) {
        f.funding_address->Err_0
    } else if !(f.address is Ok) {
        f.address->Err_0
    } else {
        f.synced->Err_0
    }
}

/// What an answer gives, where a watched database gives nothing.
pub open spec fn usable_value<T>(r: Result<T, ZkvError>) -> Option<T> {
    match r {
        Ok(v) => Some(v),
        Err(_) => None,
    }
}

/// Whether `d` is what is shown of a database.
pub open spec fn is_detail(d: DbDetail, f: DetailFacts, paused: bool) -> bool {
    let v = f.state.version;
    &&& d.name@ == f.name@
    &&& d.role@ == role_name(f.role)
    &&& d.network@ == network_name(f.network)
    &&& d.pool@ == pool_name(f.pool)
    &&& d.server@ == f.server@
    &&& d.birthday == f.birthday
    &&& d.address@ == f.address->Ok_0@
    &&& opt_text(d.funding_address) == opt_text(usable_value(f.funding_address))
    &&& opt_text(d.signer) == opt_text(f.signer)
    &&& match f.state.init {
        InitState::Uninitialized => d.init@ == "uninitialized"@ && d.init_done == 0
            && d.init_required == 0,
        InitState::Initializing { done, required } => d.init@ == "initializing"@ && d.init_done
            == done && d.init_required == required,
        InitState::Initialized => d.init@ == "initialized"@ && d.init_done == 0 && d.init_required
            == 0,
    }
    &&& d.balance == usable_value(f.balance)
    &&& d.confirming == usable_value(f.confirming)
    &&& d.synced == f.synced->Ok_0
    &&& d.synced_to_tip == (f.state.init is Uninitialized && f.synced_to_tip == Some(true))
    &&& views(d.keys@) == listed_rows(f.state.state.entries())
    &&& d.history_available
    &&& d.paused == paused
    &&& d.db_version == v.version
    &&& d.client_max_version == MAX_DB_VERSION
    &&& d.block_flags@ == blocks_wire(v.blocks)
    &&& d.blocks_sync == is_blocked(v, v.blocks.sync)
    &&& d.blocks_read == is_blocked(v, v.blocks.read)
    &&& d.blocks_write == is_blocked(v, v.blocks.write)
}

/// A server of one network, as it answered.
#[derive(Clone, Debug, PartialEq, Eq)]
pub struct ServerRow {
    pub server: String,
    pub online: bool,
    pub block_height: Option<u64>,
    pub backend: Option<String>,
}

/// The servers of both networks.
#[derive(Clone, Debug, PartialEq, Eq)]
pub struct ServersResp {
    pub mainnet: ServerRow,
    pub testnet: ServerRow,
    pub data_dir: String,
}

/// What a server says of itself.
#[derive(Clone, Debug, PartialEq, Eq)]
pub struct ServerInfo {
    pub endpoint: String,
    pub block_height: u64,
    pub backend: String,
}

/// Whether a server is shown as it answered: what it said, or only where it was
/// looked for.
pub open spec fn is_shown(r: ServerRow, server: Seq<char>, info: Option<ServerInfo>) -> bool {
    match info {
        Some(i) => r.online && r.server@ == i.endpoint@ && r.block_height == Some(i.block_height)
            && opt_text(r.backend) == Some(i.backend@),
        None => !r.online && r.server@ == server && r.block_height is None && r.backend is None,
    }
}

/// A server as it is shown: what it said, or only where it was looked for.
pub fn server_row(server: String, info: Option<ServerInfo>) -> (r: ServerRow)
    ensures
        is_shown(r, server@, info),
{
    match info {
        Some(i) => ServerRow {
            server: i.endpoint,
            online: true,
            block_height: Some(i.block_height),
            backend: Some(i.backend),
        },
        None => ServerRow { server, online: false, block_height: None, backend: None },
    }
}

/// The servers of both networks as they are shown.
pub fn servers(
    main_server: String,
    main_info: Option<ServerInfo>,
    test_server: String,
    test_info: Option<ServerInfo>,
    data_dir: Option<String>,
) -> (r: ServersResp)
    ensures
        is_shown(r.mainnet, main_server@, main_info),
        is_shown(r.testnet, test_server@, test_info),
        r.data_dir@ == (match data_dir {
            Some(d) => d@,
            None => Seq::empty(),
        }),
{
    ServersResp {
        mainnet: server_row(main_server, main_info),
        testnet: server_row(test_server, test_info),
        data_dir: match data_dir {
            Some(d) => d,
            None => String::new(),
        },
    }
}

/// The server of a network as it is shown: its endpoint, or whose it is where it
/// has none there.
pub fn server_endpoint(endpoint: Option<String>, operator: Option<&str>) -> (r: String)
    ensures
        r@ == (match endpoint {
            Some(e) => e@,
            None => match operator {
                Some(o) => lower_case(o@),
                None => "custom"@,
            },
        }),
{
    match endpoint {
        Some(e) => e,
        None => match operator {
            Some(o) => to_lower_case(o),
            None => "custom".to_owned(),
        },
    }
}

/// Every database whose settings can be read has its line: its name, its settings,
/// whether it is paused, and how far it was scanned. One whose settings cannot be
/// read has none.
pub proof fn every_readable_database_has_its_line(
    dbs: Seq<DbFacts>,
    paused: Set<Seq<char>>,
    d: DbFacts,
)
    ensures
        d.config is None ==> summaries(dbs.push(d), paused) == summaries(dbs, paused),
        d.config matches Some(c) ==> {
            let s = summaries(dbs.push(d), paused);
            &&& s.len() == summaries(dbs, paused).len() + 1
            &&& s.drop_last() == summaries(dbs, paused)
            &&& s.last().name == d.name@
            &&& s.last().server == d.server@
            &&& c.role is Admin ==> s.last().role == "admin"@
            &&& c.role is Watch ==> s.last().role == "watch"@
            &&& s.last().network == network_name(c.network)
            &&& s.last().pool == pool_name(c.pool)
            &&& s.last().birthday == c.birthday
            &&& s.last().paused == paused.contains(d.name@)
            &&& d.opened matches Some(o) ==> s.last().synced == o.synced
            &&& d.opened matches Some(o) ==> (o.state matches Some(m) ==> s.last().keys
                == count_of(m.entries(), |k: KeyModel| counts_as_key(k)) && s.last().unsynced
                == count_of(m.entries(), |k: KeyModel| is_unsynced(k)) && s.last().updated_at
                == latest_update(m.entries()))
            &&& d.opened is None ==> s.last().synced is None && s.last().keys == 0
                && s.last().unsynced == 0 && s.last().updated_at is None
        },
{
    assert(dbs.push(d).drop_last() =~= dbs);
    if d.config is Some {
        assert(summaries(dbs.push(d), paused).drop_last() =~= summaries(dbs, paused));
    }
}

/// A watched database has no funds, which is no fault: what it cannot say of them is
/// left out. Any other fault is the answer.
pub proof fn a_watched_database_is_shown_without_funds(f: DetailFacts)
    ensures
        f.address is Ok && f.synced is Ok && f.balance == Err::<u64, ZkvError>(ZkvError::WatchOnly)
            && f.confirming == Err::<u64, ZkvError>(ZkvError::WatchOnly) && f.funding_address
            == Err::<String, ZkvError>(ZkvError::WatchOnly) ==> detail_ok(f) && usable_value(
            f.balance,
        ) is None,
        f.address is Err || f.synced is Err ==> !detail_ok(f),
        f.balance is Err && !(f.balance->Err_0 is WatchOnly) ==> !detail_ok(f) && detail_fault(f)
            == f.balance->Err_0,
        f.balance is Ok && f.confirming is Ok && f.funding_address is Ok && f.address is Ok
            && f.synced is Ok ==> detail_ok(f) && usable_value(f.balance) == Some(f.balance->Ok_0),
{
}

/// The tip that decides on an expired build is that of the main chain, never that of
/// a test network.
pub proof fn only_the_main_chain_ages_a_build(f: StatusFacts)
    ensures
        f.opened matches Some(d) ==> (!(d.network is Main) ==> mainnet_tip(f) == f.mainnet_probe),
        f.opened is None ==> mainnet_tip(f) == f.mainnet_probe,
        f.opened matches Some(d) ==> (d.network is Main ==> (match d.chain_tip {
            Some(t) => mainnet_tip(f) == Some(t.0),
            None => mainnet_tip(f) is None,
        })),
{
}

/// A paused database is left out of every round until it is resumed, and no other
/// is; the rest keeps its order.
pub proof fn a_paused_database_is_not_synced(
    names: Seq<Seq<char>>,
    paused: Set<Seq<char>>,
    name: Seq<char>,
    other: Seq<char>,
)
    requires
        names.contains(name),
    ensures
        !due_of(names, paused_after(paused, name, true)).contains(name),
        due_of(names, paused_after(paused, name, false)).contains(name),
        other != name ==> (paused_after(paused, name, true).contains(other) <==> paused.contains(
            other,
        )) && (paused_after(paused, name, false).contains(other) <==> paused.contains(other)),
        due_of(names, Set::empty()) == names,
{
    let on = paused_after(paused, name, true);
    let off = paused_after(paused, name, false);
    let p = |n: Seq<char>| !on.contains(n);
    let q = |n: Seq<char>| !off.contains(n);
    if due_of(names, on).contains(name) {
        let d = due_of(names, on);
        let i = choose|i: int| 0 <= i < d.len() && d[i] == name;
        names.lemma_filter_pred(p, i);
    }
    let i = choose|i: int| 0 <= i < names.len() && names[i] == name;
    names.lemma_filter_contains(q, i);
    lemma_all_due(names);
}

proof fn lemma_all_due(names: Seq<Seq<char>>)
    ensures
        due_of(names, Set::empty()) == names,
    decreases names.len(),
{
    reveal(Seq::filter);
    let p = |n: Seq<char>| !Set::<Seq<char>>::empty().contains(n);
    if names.len() > 0 {
        lemma_all_due(names.drop_last());
        assert(due_of(names, Set::empty()) =~= names.drop_last().push(names.last()));
        assert(names.drop_last().push(names.last()) =~= names);
    } else {
        assert(names.filter(p) =~= names);
    }
}

/// At least one database is synced at a time and at most sixteen, and as many as were
/// asked for within that.
pub proof fn workers_stay_within_bounds(n: usize)
    ensures
        1 <= bounded_workers(n) <= 16,
        1 <= n <= 16 ==> bounded_workers(n) == n,
        n > 16 ==> bounded_workers(n) == 16,
{
}

/// The detail of a database says of it what it says of itself: its names, its funds,
/// its keys, and what its version asks of this client.
pub proof fn a_detail_says_what_the_database_says(d: DbDetail, f: DetailFacts, paused: bool)
    requires
        is_detail(d, f, paused),
        detail_ok(f),
    ensures
        d.name@ == f.name@,
        d.server@ == f.server@,
        d.birthday == f.birthday,
        d.address@ == (f.address->Ok_0)@,
        f.role is Admin ==> d.role@ == "admin"@,
        f.role is Watch ==> d.role@ == "watch"@,
        d.network@ == network_name(f.network),
        d.pool@ == pool_name(f.pool),
        f.balance matches Ok(b) ==> d.balance == Some(b),
        f.balance is Err ==> d.balance is None,
        f.confirming matches Ok(b) ==> d.confirming == Some(b),
        f.confirming is Err ==> d.confirming is None,
        f.funding_address matches Ok(a) ==> opt_text(d.funding_address) == Some(a@),
        f.funding_address is Err ==> d.funding_address is None,
        opt_text(d.signer) == opt_text(f.signer),
        d.synced == f.synced->Ok_0,
        d.paused == paused,
        f.state.init is Initialized ==> d.init@ == "initialized"@ && !d.synced_to_tip,
        f.state.init is Uninitialized ==> d.init@ == "uninitialized"@ && d.synced_to_tip == (
        f.synced_to_tip == Some(true)),
        f.state.init matches InitState::Initializing { done, required } ==> d.init@
            == "initializing"@ && d.init_done == done && d.init_required == required,
        views(d.keys@) == listed_rows(f.state.state.entries()),
        d.db_version == f.state.version.version,
        f.state.version.version == 0 ==> !d.blocks_sync && !d.blocks_read && !d.blocks_write,
        f.state.version.version > 0 ==> d.blocks_sync == f.state.version.blocks.sync
            && d.blocks_read == f.state.version.blocks.read && d.blocks_write
            == f.state.version.blocks.write,
{
}

} // verus!
