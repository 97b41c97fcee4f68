//! The shared scan: where a database's wallet lies, how a database joins the
//! scan, and how it is found there.

use crate::config::{Role, WalletConfig, WalletEngine};
use crate::internal::history::list_contains;
use crate::internal::snapshot::copy_bytes;
use crate::lex::str_equal;
use crate::network::{network_name, Network};
use crate::sort::views;
use crate::text::{
    all_digits, decimal, decimal_round_trip, decimal_string, decimal_value, is_digit, opt_str, opt_text, push_text, texts,
};
use vstd::prelude::*;
use vstd::string::*;

verus! {

/// The directory of the shared scan. Its name starts with a dot: it is no
/// database.
pub const FLEET_DIR: &'static str = ".fleet";

/// The directory of the manifests.
pub const MANIFEST_DIR: &'static str = "wallets.d";

/// The directory of the shards.
pub const SHARDS_DIR: &'static str = "shards";

/// The marker that turns the shared scan off for new databases.
pub const FLEET_DEFAULT_OFF: &'static str = ".fleet-default-off";

/// The wallet that the scan always has; no member can be called so.
pub const WALLET: &'static str = "default";

/// A number in decimal with at least four digits.
pub open spec fn four_digits(n: nat) -> Seq<char> {
    let d = decimal(n);
    if d.len() == 1 {
        "000"@ + d
    } else if d.len() == 2 {
        "00"@ + d
    } else if d.len() == 3 {
        "0"@ + d
    } else {
        d
    }
}

/// The name of a shard's directory.
pub open spec fn shard_name(index: nat) -> Seq<char> {
    "shard-"@ + four_digits(index)
}

/// The name of a shard's directory.
pub fn shard_dir_name(index: usize) -> (r: String)
    ensures
        r@ == shard_name(index as nat),
{
    let d = decimal_string(index as u64);
    proof {
        decimal_round_trip(index as nat);
        assert forall|i: int| 0 <= i < d@.len() implies is_digit(#[trigger] d@[i]) by {}
    }
    let n: usize = d.as_str().unicode_len();
    let mut r = String::new();
    r.append("shard-");
    if n == 1 {
        r.append("000");
    } else if n == 2 {
        r.append("00");
    } else if n == 3 {
        r.append("0");
    }
    r.append(d.as_str());
    assert(r@ =~= shard_name(index as nat));
    r
}

proof fn lemma_leading_zero(s: Seq<char>)
    requires
        all_digits(s),
    ensures
        all_digits(seq!['0'] + s),
        decimal_value(seq!['0'] + s) == decimal_value(s),
    decreases s.len(),
{
    let t = seq!['0'] + s;
    assert forall|i: int| 0 <= i < t.len() implies is_digit(#[trigger] t[i]) by {
        if i > 0 {
            assert(t[i] == s[i - 1]);
        }
    }
    if s.len() == 0 {
        assert(t.drop_last() =~= Seq::<char>::empty());
        assert(decimal_value(t.drop_last()) == 0);
    } else {
        assert(s.drop_last() =~= s.take(s.len() - 1));
        assert forall|i: int| 0 <= i < s.drop_last().len() implies is_digit(
            #[trigger] s.drop_last()[i],
        ) by {
            assert(s.drop_last()[i] == s[i]);
        }
        lemma_leading_zero(s.drop_last());
        assert(t.drop_last() =~= seq!['0'] + s.drop_last());
        assert(t.last() == s.last());
    }
}

proof fn lemma_four_digits(n: nat)
    ensures
        all_digits(four_digits(n)),
        decimal_value(four_digits(n)) == n,
{
    decimal_round_trip(n);
    let d = decimal(n);
    reveal_strlit("0");
    reveal_strlit("00");
    reveal_strlit("000");
    lemma_leading_zero(d);
    let a = seq!['0'] + d;
    lemma_leading_zero(a);
    let b = seq!['0'] + a;
    lemma_leading_zero(b);
    assert("0"@ + d =~= a);
    assert("00"@ + d =~= b);
    assert("000"@ + d =~= seq!['0'] + b);
}

/// Two shards never share a name.
pub proof fn shard_names_differ(i: nat, j: nat)
    requires
        i != j,
    ensures
        shard_name(i) != shard_name(j),
{
    lemma_four_digits(i);
    lemma_four_digits(j);
    if shard_name(i) == shard_name(j) {
        let p = "shard-"@;
        assert(shard_name(i).skip(p.len() as int) =~= four_digits(i));
        assert(shard_name(j).skip(p.len() as int) =~= four_digits(j));
    }
}

/// The place of a network's shared scan under the data directory.
pub fn fleet_dir(network: Network) -> (r: Vec<String>)
    ensures
        texts(r@) == seq![FLEET_DIR@, network_name(network)],
{
    let mut r: Vec<String> = Vec::new();
    assert(texts(r@) =~= Seq::<Seq<char>>::empty());
    push_text(&mut r, FLEET_DIR);
    push_text(&mut r, network.name());
    assert(texts(r@) =~= seq![FLEET_DIR@, network_name(network)]);
    r
}

/// The place of its manifests.
pub fn manifest_dir(network: Network) -> (r: Vec<String>)
    ensures
        texts(r@) == seq![FLEET_DIR@, network_name(network), MANIFEST_DIR@],
{
    let mut r = fleet_dir(network);
    push_text(&mut r, MANIFEST_DIR);
    assert(texts(r@) =~= seq![FLEET_DIR@, network_name(network), MANIFEST_DIR@]);
    r
}

/// The place of its shards.
pub fn shards_dir(network: Network) -> (r: Vec<String>)
    ensures
        texts(r@) == seq![FLEET_DIR@, network_name(network), SHARDS_DIR@],
{
    let mut r = fleet_dir(network);
    push_text(&mut r, SHARDS_DIR);
    assert(texts(r@) =~= seq![FLEET_DIR@, network_name(network), SHARDS_DIR@]);
    r
}

/// The file name of a member's manifest: the name of the database is the stem.
pub fn manifest_file(name: &str) -> (r: String)
    ensures
        r@ == name@ + ".toml"@,
{
    let mut r = String::new();
    r.append(name);
    r.append(".toml");
    assert(r@ =~= name@ + ".toml"@);
    r
}

/// The place of a member's manifest.
pub fn manifest_path(network: Network, name: &str) -> (r: Vec<String>)
    ensures
        texts(r@) == seq![
            FLEET_DIR@,
            network_name(network),
            MANIFEST_DIR@,
            name@ + ".toml"@,
        ],
{
    let mut r = manifest_dir(network);
    push_text(&mut r, manifest_file(name).as_str());
    assert(texts(r@) =~= seq![
        FLEET_DIR@,
        network_name(network),
        MANIFEST_DIR@,
        name@ + ".toml"@,
    ]);
    r
}

/// The place of a shard's wallet files.
pub fn shard_engine_dir(network: Network, shard: &str) -> (r: Vec<String>)
    ensures
        texts(r@) == seq![FLEET_DIR@, network_name(network), SHARDS_DIR@, shard@, "lrz"@],
{
    let mut r = shards_dir(network);
    push_text(&mut r, shard);
    push_text(&mut r, "lrz");
    assert(texts(r@) =~= seq![FLEET_DIR@, network_name(network), SHARDS_DIR@, shard@, "lrz"@]);
    r
}

/// Whether the first `n` shards are all there, and the next is not.
pub open spec fn is_shard_count(dirs: Seq<Seq<char>>, n: nat) -> bool {
    &&& forall|i: nat| i < n ==> dirs.contains(#[trigger] shard_name(i))
    &&& !dirs.contains(shard_name(n))
}

/// The shards that are there, in order, up to the first gap, among the
/// directories that exist.
pub fn existing_shard_dirs(dirs: &Vec<String>) -> (r: Vec<String>)
    requires
        dirs.len() < usize::MAX,
    ensures
        is_shard_count(texts(dirs@), r.len() as nat),
        forall|i: int| 0 <= i < r.len() ==> (#[trigger] r@[i])@ == shard_name(i as nat),
{
    let mut r: Vec<String> = Vec::new();
    let ghost all = texts(dirs@);
    let ghost mut left: Set<Seq<char>> = all.to_set();
    proof {
        vstd::seq_lib::seq_to_set_is_finite(all);
        all.lemma_cardinality_of_set();
    }
    loop
        invariant
            all == texts(dirs@),
            left.finite(),
            left.len() + r.len() <= dirs.len(),
            dirs.len() < usize::MAX,
            forall|i: int| 0 <= i < r.len() ==> (#[trigger] r@[i])@ == shard_name(i as nat),
            forall|i: nat| i < r.len() ==> all.contains(#[trigger] shard_name(i)),
            forall|s: Seq<char>|
                #[trigger] all.contains(s) && (forall|i: nat|
                    i < r.len() ==> s != #[trigger] shard_name(i)) ==> left.contains(s),
        decreases left.len(),
    {
        let name = shard_dir_name(r.len());
        if !list_contains(dirs, name.as_str()) {
            return r;
        }
        proof {
            let n = r.len() as nat;
            assert forall|i: nat| i < n implies shard_name(n) != #[trigger] shard_name(i) by {
                shard_names_differ(i, n);
            }
            assert(all.contains(shard_name(n)));
            assert(left.contains(shard_name(n)));
            let next = left.remove(shard_name(n));
            assert forall|s: Seq<char>|
                #[trigger] all.contains(s) && (forall|i: nat|
                    i < n + 1 ==> s != #[trigger] shard_name(i)) implies next.contains(s) by {
                assert(s != shard_name(n));
                assert forall|i: nat| i < n implies s != #[trigger] shard_name(i) by {}
            }
            left = next;
        }
        r.push(name);
    }
}

/// A manifest: what enrols a database in the scan.
#[derive(Clone, Debug, PartialEq, Eq)]
pub struct Manifest {
    pub ufvk: String,
    pub birthday: u32,
}

/// [`Manifest`] as mathematics.
pub struct ManifestModel {
    pub ufvk: Seq<char>,
    pub birthday: u32,
}

impl View for Manifest {
    type V = ManifestModel;

    open spec fn view(&self) -> ManifestModel {
        ManifestModel { ufvk: self.ufvk@, birthday: self.birthday }
    }
}

impl Manifest {
    /// Whether two manifests say the same.
    pub fn same(&self, other: &Manifest) -> (r: bool)
        ensures
            r == (self@ == other@),
    {
        self.birthday == other.birthday && str_equal(self.ufvk.as_str(), other.ufvk.as_str())
    }
}

/// The manifest of a database, which needs its viewing key pinned.
pub fn manifest_for(cfg: &WalletConfig) -> (r: Result<Manifest, String>)
    ensures
        r is Ok <==> cfg.ufvk is Some,
        r matches Ok(m) ==> opt_text(cfg.ufvk) == Some(m@.ufvk) && m.birthday == cfg.birthday,
        r matches Err(e) ==> e@
            == "this database has no viewing key pinned, so it cannot join the fleet"@,
{
    match &cfg.ufvk {
        Some(u) => Ok(Manifest { ufvk: u.clone(), birthday: cfg.birthday }),
        None => Err(
            "this database has no viewing key pinned, so it cannot join the fleet".to_owned(),
        ),
    }
}

/// Where a database's wallet files lie.
#[derive(Clone, Debug, PartialEq, Eq)]
pub enum WalletHome {
    /// In a directory of its own.
    Own { engine_dir: Vec<String> },
    /// In a shard, together with others.
    Fleet { engine_dir: Vec<String> },
    /// Nowhere yet: the scan has still to take it in.
    Importing,
}

/// An account in a shard.
#[derive(Clone, Debug, PartialEq, Eq)]
pub struct ShardAccount {
    /// The viewing key, if the account has one.
    pub ufvk: Option<String>,
    pub uuid: Vec<u8>,
}

/// [`ShardAccount`] as mathematics.
pub struct AccountModel {
    pub ufvk: Option<Seq<char>>,
    pub uuid: Seq<u8>,
}

impl View for ShardAccount {
    type V = AccountModel;

    open spec fn view(&self) -> AccountModel {
        AccountModel { ufvk: opt_text(self.ufvk), uuid: self.uuid@ }
    }
}

/// A shard.
#[derive(Clone, Debug, PartialEq, Eq)]
pub struct Shard {
    pub name: String,
    pub accounts: Vec<ShardAccount>,
}

/// [`Shard`] as mathematics.
pub struct ShardModel {
    pub name: Seq<char>,
    pub accounts: Seq<AccountModel>,
}

impl View for Shard {
    type V = ShardModel;

    open spec fn view(&self) -> ShardModel {
        ShardModel { name: self.name@, accounts: views(self.accounts@) }
    }
}

/// The first account of a viewing key.
pub open spec fn account_of(s: Seq<AccountModel>, want: Seq<char>) -> Option<Seq<u8>>
    decreases s.len(),
{
    if s.len() == 0 {
        None
    } else if s[0].ufvk == Some(want) {
        Some(s[0].uuid)
    } else {
        account_of(s.drop_first(), want)
    }
}

/// The account of a viewing key in a shard.
pub fn account_in_shard(shard: &Shard, want: &str) -> (r: Option<Vec<u8>>)
    ensures
        r is Some <==> account_of(shard@.accounts, want@) is Some,
        r matches Some(u) ==> account_of(shard@.accounts, want@) == Some(u@),
{
    let ghost all = views(shard.accounts@);
    let mut i: usize = 0;
    assert(all.skip(0) =~= all);
    while i < shard.accounts.len()
        invariant
            i <= shard.accounts.len(),
            all == views(shard.accounts@),
            account_of(all, want@) == account_of(all.skip(i as int), want@),
        decreases shard.accounts.len() - i,
    {
        assert(all.skip(i as int)[0] == shard.accounts@[i as int]@);
        assert(all.skip(i as int).drop_first() =~= all.skip(i + 1));
        match &shard.accounts[i].ufvk {
            None => {},
            Some(u) => {
                if str_equal(u.as_str(), want) {
                    return Some(copy_bytes(&shard.accounts[i].uuid));
                }
            },
        }
        i += 1;
    }
    None
}

/// The place of the first shard of a name, or the number of shards.
pub open spec fn shard_place(s: Seq<ShardModel>, name: Seq<char>) -> nat
    decreases s.len(),
{
    if s.len() == 0 || s[0].name == name {
        0
    } else {
        1 + shard_place(s.drop_first(), name)
    }
}

/// The shards in the order in which they are looked through: the remembered one
/// changes places with the first.
pub open spec fn search_order(s: Seq<ShardModel>, cached: Option<Seq<char>>) -> Seq<ShardModel> {
    match cached {
        None => s,
        Some(name) => {
            let p = shard_place(s, name) as int;
            if p < s.len() {
                s.update(0, s[p]).update(p, s[0])
            } else {
                s
            }
        },
    }
}

/// The first shard that holds an account of the viewing key, with that account.
pub open spec fn first_holder(s: Seq<ShardModel>, want: Seq<char>) -> Option<(Seq<char>, Seq<u8>)>
    decreases s.len(),
{
    if s.len() == 0 {
        None
    } else {
        match account_of(s[0].accounts, want) {
            Some(u) => Some((s[0].name, u)),
            None => first_holder(s.drop_first(), want),
        }
    }
}

/// The shard that holds an account of the viewing key, with that account. The
/// remembered shard is looked at first.
pub fn search_shards(shards: &Vec<Shard>, want: &str, cached: Option<&str>) -> (r: Option<
    (String, Vec<u8>),
>)
    ensures
        r is Some <==> first_holder(search_order(views(shards@), opt_str(cached)), want@) is Some,
        r matches Some(x) ==> first_holder(
            search_order(views(shards@), opt_str(cached)),
            want@,
        ) == Some((x.0@, x.1@)),
{
    let ghost all = views(shards@);
    let n: usize = shards.len();
    let mut p: usize = n;
    match cached {
        None => {},
        Some(name) => {
            let mut i: usize = 0;
            assert(all.skip(0) =~= all);
            while i < n && !str_equal(shards[i].name.as_str(), name)
                invariant
                    i <= n,
                    n == shards.len(),
                    all == views(shards@),
                    shard_place(all, name@) == i + shard_place(all.skip(i as int), name@),
                decreases n - i,
            {
                assert(all.skip(i as int)[0] == shards@[i as int]@);
                assert(all.skip(i as int).drop_first() =~= all.skip(i + 1));
                i += 1;
            }
            proof {
                if i < n {
                    assert(all.skip(i as int)[0] == shards@[i as int]@);
                }
            }
            p = i;
        },
    }
    let ghost order = search_order(all, opt_str(cached));
    let mut k: usize = 0;
    assert(order.skip(0) =~= order);
    while k < n
        invariant
            k <= n,
            n == shards.len(),
            p <= n,
            all == views(shards@),
            order == search_order(all, opt_str(cached)),
            order.len() == n,
            match cached {
                None => p == n,
                Some(name) => p == shard_place(all, name@),
            },
            first_holder(order, want@) == first_holder(order.skip(k as int), want@),
        decreases n - k,
    {
        let at: usize = if p < n && k == 0 {
            p
        } else if p < n && k == p {
            0
        } else {
            k
        };
        assert(order[k as int] == all[at as int]);
        assert(order.skip(k as int)[0] == shards@[at as int]@);
        assert(order.skip(k as int).drop_first() =~= order.skip(k + 1));
        match account_in_shard(&shards[at], want) {
            None => {},
            Some(u) => {
                return Some((shards[at].name.clone(), u));
            },
        }
        k += 1;
    }
    None
}

/// Whether some shard holds an account of the viewing key.
pub open spec fn is_held(s: Seq<ShardModel>, want: Seq<char>) -> bool {
    exists|i: int| 0 <= i < s.len() && account_of((#[trigger] s[i]).accounts, want) is Some
}

proof fn lemma_first_holder(s: Seq<ShardModel>, want: Seq<char>)
    ensures
        first_holder(s, want) is Some <==> is_held(s, want),
    decreases s.len(),
{
    if s.len() > 0 {
        let t = s.drop_first();
        lemma_first_holder(t, want);
        if is_held(s, want) && account_of(s[0].accounts, want) is None {
            let i = choose|i: int|
                0 <= i < s.len() && account_of((#[trigger] s[i]).accounts, want) is Some;
            assert(t[i - 1] == s[i]);
        }
        if is_held(t, want) {
            let i = choose|i: int|
                0 <= i < t.len() && account_of((#[trigger] t[i]).accounts, want) is Some;
            assert(s[i + 1] == t[i]);
        }
    }
}

/// A remembered shard is only a hint: whatever it says, a member is found exactly
/// if some shard holds it.
pub proof fn stale_hint_never_misses(
    s: Seq<ShardModel>,
    want: Seq<char>,
    cached: Option<Seq<char>>,
)
    ensures
        first_holder(search_order(s, cached), want) is Some <==> is_held(s, want),
{
    let o = search_order(s, cached);
    lemma_first_holder(o, want);
    if cached is Some && shard_place(s, cached->0) < s.len() {
        let p = shard_place(s, cached->0) as int;
        if is_held(o, want) {
            let i = choose|i: int|
                0 <= i < o.len() && account_of((#[trigger] o[i]).accounts, want) is Some;
            let j = if i == 0 {
                p
            } else if i == p {
                0
            } else {
                i
            };
            assert(s[j] == o[i]);
        }
        if is_held(s, want) {
            let i = choose|i: int|
                0 <= i < s.len() && account_of((#[trigger] s[i]).accounts, want) is Some;
            let j = if i == p {
                0
            } else if i == 0 {
                p
            } else {
                i
            };
            assert(o[j] == s[i]);
        }
    }
}

/// A member's place: the shard that holds it, its account there, and whether the
/// remembered shard has to be corrected.
#[derive(Clone, Debug, PartialEq, Eq)]
pub struct MemberPlace {
    pub shard: String,
    pub uuid: Vec<u8>,
    pub correct_hint: bool,
}

/// Finds a member by its viewing key.
pub fn locate_member(cfg: &WalletConfig, shards: &Vec<Shard>) -> (r: Result<
    Option<MemberPlace>,
    String,
>)
    ensures
        r is Err <==> cfg.ufvk is None,
        r matches Err(e) ==> e@ == "a fleet member needs its viewing key pinned in keys.toml"@,
        r matches Ok(found) ==> ({
            let holder = first_holder(
                search_order(views(shards@), opt_text(cfg.shard)),
                opt_text(cfg.ufvk)->0,
            );
            &&& found is Some <==> holder is Some
            &&& found matches Some(p) ==> holder == Some((p.shard@, p.uuid@)) && p.correct_hint == (
            opt_text(cfg.shard) != Some(p.shard@))
        }),
{
    let want = match &cfg.ufvk {
        Some(u) => u.as_str(),
        None => {
            return Err("a fleet member needs its viewing key pinned in keys.toml".to_owned());
        },
    };
    let cached = match &cfg.shard {
        Some(s) => Some(s.as_str()),
        None => None,
    };
    match search_shards(shards, want, cached) {
        None => Ok(None),
        Some((shard, uuid)) => {
            let same: bool = match cached {
                Some(c) => str_equal(c, shard.as_str()),
                None => false,
            };
            Ok(Some(MemberPlace { shard, uuid, correct_hint: !same }))
        },
    }
}

/// Where a database's wallet files lie: in its own directory unless it is served
/// by the shared scan; there in the shard that was found, if one was.
pub fn locate(cfg: &WalletConfig, own_engine_dir: Vec<String>, found: Option<&MemberPlace>) -> (r:
    WalletHome)
    ensures
        !(cfg.engine is Fleet) ==> r == (WalletHome::Own { engine_dir: own_engine_dir }),
        cfg.engine is Fleet && found is None ==> r is Importing,
        cfg.engine is Fleet && found is Some ==> (r matches WalletHome::Fleet { engine_dir } && texts(
            engine_dir@,
        ) == seq![FLEET_DIR@, network_name(cfg.network), SHARDS_DIR@, found->0.shard@, "lrz"@]),
{
    if !cfg.engine.is_fleet_member() {
        return WalletHome::Own { engine_dir: own_engine_dir };
    }
    match found {
        Some(p) => WalletHome::Fleet {
            engine_dir: shard_engine_dir(cfg.network, p.shard.as_str()),
        },
        None => WalletHome::Importing,
    }
}

/// Whether new watched databases join the shared scan: unless its marker is
/// there. Where the data directory cannot be read, they would.
pub open spec fn joins_by_default(off_marker: Option<bool>) -> bool {
    off_marker != Some(true)
}

/// Whether the marker has to be there for a default.
pub open spec fn off_marker_of(on: bool) -> bool {
    !on
}

/// Whether the marker has to be there for a default.
pub fn marker_for(on: bool) -> (r: bool)
    ensures
        r == off_marker_of(on),
{
    !on
}

/// The default that was set is the one that is read; where none was set, or none
/// can be read, new watched databases join.
pub proof fn set_default_is_read_back(on: bool)
    ensures
        joins_by_default(Some(off_marker_of(on))) == on,
        joins_by_default(Some(false)),
        joins_by_default(None),
{
}

/// Whether new watched databases join the shared scan, given whether the marker is
/// there.
pub fn fleet_is_default(off_marker: Option<bool>) -> (r: bool)
    ensures
        r == joins_by_default(off_marker),
{
    match off_marker {
        Some(there) => !there,
        None => true,
    }
}

/// Whether a database joins by itself.
pub open spec fn joins_by_itself(cfg: WalletConfig, db_name: Seq<char>, fleet_default: bool) -> bool {
    cfg.engine is Unset && cfg.role is Watch && db_name != WALLET@ && fleet_default
}

/// Whether a database joins by itself: nobody has decided, it is watched, its
/// name is not the one that every engine has, and the default says so.
pub fn should_enrol(cfg: &WalletConfig, db_name: &str, fleet_default: bool) -> (r: bool)
    ensures
        r == joins_by_itself(*cfg, db_name@, fleet_default),
{
    cfg.engine.is_unset() && matches!(cfg.role, Role::Watch) && !str_equal(db_name, WALLET)
        && fleet_default
}

/// What has to be written to enrol a database: its manifest. A viewing key that
/// is not pinned yet is taken from the address, and pinned.
pub fn join(cfg: &mut WalletConfig, from_address: Option<Result<String, String>>) -> (r: Result<
    Manifest,
    String,
>)
    ensures
        *final(cfg) == (WalletConfig { ufvk: final(cfg).ufvk, ..*old(cfg) }),
        r is Ok <==> (old(cfg).ufvk is Some || (from_address matches Some(Ok(_)))),
        r matches Ok(m) ==> opt_text(final(cfg).ufvk) == Some(m@.ufvk) && m.birthday
            == old(cfg).birthday,
        old(cfg).ufvk is Some ==> *final(cfg) == *old(cfg),
        r is Ok && old(cfg).ufvk is None ==> opt_text(final(cfg).ufvk) == Some(
            (from_address->0->Ok_0)@,
        ),
        r matches Err(e) ==> *final(cfg) == *old(cfg) && e@ == (match from_address {
            None => "this database has no address to derive its viewing key from"@,
            Some(Err(why)) => why@,
            Some(Ok(_)) => e@,
        }),
{
    if cfg.ufvk.is_none() {
        match from_address {
            None => {
                return Err(
                    "this database has no address to derive its viewing key from".to_owned(),
                );
            },
            Some(Err(why)) => {
                return Err(why);
            },
            Some(Ok(u)) => {
                cfg.ufvk = Some(u);
            },
        }
    }
    manifest_for(cfg)
}

/// Settles an enrolment once its manifest was written, or found in place already:
/// only then does the database count as joining.
pub fn enrol(cfg: &mut WalletConfig, manifest: &Manifest, written: bool, existing: Option<&Manifest>)
    -> (r: bool)
    ensures
        r == (written || (existing is Some && existing->0@ == manifest@)),
        r ==> *final(cfg) == (WalletConfig { engine: WalletEngine::FleetPending, ..*old(cfg) }),
        !r ==> *final(cfg) == *old(cfg),
{
    let in_place: bool = written || match existing {
        Some(e) => e.same(manifest),
        None => false,
    };
    if in_place {
        cfg.engine = WalletEngine::FleetPending;
    }
    in_place
}

/// Settles that a database has left the shared scan, once its manifest is gone.
pub fn leave(cfg: &mut WalletConfig)
    ensures
        *final(cfg) == (WalletConfig { engine: WalletEngine::Own, ..*old(cfg) }),
{
    cfg.engine = WalletEngine::Own;
}

/// Whether a joining database moves over to its shard.
pub open spec fn may_flip(engine: WalletEngine, own_scanned: u32, shard_scanned: u32) -> bool {
    engine is FleetPending && shard_scanned >= own_scanned
}

/// Moves a joining database over to its shard once that has scanned as far as the
/// database's own wallet; tells whether it did.
pub fn flip_if_caught_up(cfg: &mut WalletConfig, own_scanned: u32, shard_scanned: u32) -> (r: bool)
    ensures
        r == may_flip(old(cfg).engine, own_scanned, shard_scanned),
        r ==> *final(cfg) == (WalletConfig { engine: WalletEngine::Fleet, ..*old(cfg) }),
        !r ==> *final(cfg) == *old(cfg),
{
    if !matches!(cfg.engine, WalletEngine::FleetPending) || shard_scanned < own_scanned {
        return false;
    }
    cfg.engine = WalletEngine::Fleet;
    true
}

/// A member is found where its viewing key is: the account that is given holds that
/// key, in the shard that is named.
pub proof fn a_member_is_found_by_its_key(
    s: Seq<ShardModel>,
    want: Seq<char>,
    cached: Option<Seq<char>>,
)
    requires
        first_holder(search_order(s, cached), want) is Some,
    ensures
        ({
            let found = first_holder(search_order(s, cached), want)->0;
            exists|i: int, j: int|
                0 <= i < s.len() && 0 <= j < s[i].accounts.len() && s[i].name == found.0
                    && (#[trigger] s[i].accounts[j]).ufvk == Some(want) && s[i].accounts[j].uuid
                    == found.1
        }),
{
    let o = search_order(s, cached);
    let (i, j) = lemma_holder_place(o, want);
    let p: int = match cached {
        Some(name) => shard_place(s, name) as int,
        None => s.len() as int,
    };
    let k = if p < s.len() && i == 0 {
        p
    } else if p < s.len() && i == p {
        0
    } else {
        i
    };
    assert(s[k] == o[i]);
    assert(s[k].accounts[j].ufvk == Some(want));
}

proof fn lemma_account_place(s: Seq<AccountModel>, want: Seq<char>) -> (j: int)
    requires
        account_of(s, want) is Some,
    ensures
        0 <= j < s.len(),
        s[j].ufvk == Some(want),
        account_of(s, want) == Some(s[j].uuid),
    decreases s.len(),
{
    if s[0].ufvk == Some(want) {
        0
    } else {
        lemma_account_place(s.drop_first(), want) + 1
    }
}

proof fn lemma_holder_place(s: Seq<ShardModel>, want: Seq<char>) -> (r: (int, int))
    requires
        first_holder(s, want) is Some,
    ensures
        0 <= r.0 < s.len(),
        0 <= r.1 < s[r.0].accounts.len(),
        s[r.0].accounts[r.1].ufvk == Some(want),
        first_holder(s, want) == Some((s[r.0].name, s[r.0].accounts[r.1].uuid)),
    decreases s.len(),
{
    if account_of(s[0].accounts, want) is Some {
        (0, lemma_account_place(s[0].accounts, want))
    } else {
        let r = lemma_holder_place(s.drop_first(), want);
        (r.0 + 1, r.1)
    }
}

proof fn lemma_account_found(s: Seq<AccountModel>, want: Seq<char>, j: int)
    requires
        0 <= j < s.len(),
        s[j].ufvk == Some(want),
    ensures
        account_of(s, want) is Some,
    decreases s.len(),
{
    if s[0].ufvk != Some(want) {
        lemma_account_found(s.drop_first(), want, j - 1);
    }
}

/// A viewing key that some shard holds is found, whatever shard is remembered.
pub proof fn a_held_key_is_found(
    s: Seq<ShardModel>,
    want: Seq<char>,
    cached: Option<Seq<char>>,
    i: int,
    j: int,
)
    requires
        0 <= i < s.len(),
        0 <= j < s[i].accounts.len(),
        s[i].accounts[j].ufvk == Some(want),
    ensures
        first_holder(search_order(s, cached), want) is Some,
{
    lemma_account_found(s[i].accounts, want, j);
    stale_hint_never_misses(s, want, cached);
}

/// Who joins by itself: a watched database of which nobody has decided, unless the
/// default is off or it has the name that every engine has. Nobody is moved against
/// a decision, and nobody who can write.
pub proof fn who_joins_by_itself(cfg: WalletConfig, name: Seq<char>, on: bool)
    ensures
        !on ==> !joins_by_itself(cfg, name, on),
        cfg.engine is Own || cfg.engine is FleetPending || cfg.engine is Fleet
            ==> !joins_by_itself(cfg, name, on),
        cfg.role is Admin ==> !joins_by_itself(cfg, name, on),
        !joins_by_itself(cfg, "default"@, on),
        on && cfg.engine is Unset && cfg.role is Watch && name != "default"@ ==> joins_by_itself(
            cfg,
            name,
            on,
        ),
{
}

/// A joining database moves over only once its shard has scanned all that its own
/// wallet has, and then it does: nothing that it showed is lost by the move.
pub proof fn moving_over_loses_nothing(engine: WalletEngine, own: u32, shard: u32)
    ensures
        may_flip(engine, own, shard) ==> own <= shard && engine is FleetPending,
        engine is FleetPending && own <= shard ==> may_flip(engine, own, shard),
{
}

/// The remembered shard is looked at first: where it still holds the member, the
/// member is found there.
pub proof fn the_remembered_shard_comes_first(s: Seq<ShardModel>, want: Seq<char>, p: int)
    requires
        0 <= p < s.len(),
        forall|i: int| 0 <= i < p ==> (#[trigger] s[i]).name != s[p].name,
        account_of(s[p].accounts, want) is Some,
    ensures
        first_holder(search_order(s, Some(s[p].name)), want) == Some(
            (s[p].name, account_of(s[p].accounts, want)->0),
        ),
{
    lemma_place(s, s[p].name, p);
    let o = search_order(s, Some(s[p].name));
    assert(o[0] == s[p]);
}

proof fn lemma_place(s: Seq<ShardModel>, name: Seq<char>, p: int)
    requires
        0 <= p < s.len(),
        s[p].name == name,
        forall|i: int| 0 <= i < p ==> (#[trigger] s[i]).name != name,
    ensures
        shard_place(s, name) == p,
    decreases s.len(),
{
    if p > 0 {
        assert(s[0].name != name);
        let t = s.drop_first();
        assert forall|i: int| 0 <= i < p - 1 implies (#[trigger] t[i]).name != name by {
            assert(s[i + 1].name != name);
        }
        lemma_place(t, name, p - 1);
    }
}

} // verus!
