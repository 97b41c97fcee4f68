//! How a snapshot is kept in a file: its layout version, the rows of the
//! registry, and the texts and numbers of its settings.

use crate::ordmap::{entries_map, keys_ascending};
use crate::protocol::{
    comma_joined, empty_auth, genesis_version, lemma_parsed_scope_allows, parse_blocks,
    parse_scope, scope_capabilities, scope_round_trip, with_owner, AuthModel, AuthRegistry,
    BlockSet, Op, Scope, VersionState, GENESIS_DB_VERSION,
};
use crate::internal::snapshot::SCHEMA_VERSION;
use crate::lex::str_equal;
use crate::text::{opt_str, parse_u32, u32_of};
use vstd::prelude::*;
use vstd::string::*;

verus! {

/// What to do with a stored snapshot.
#[derive(Clone, Copy, Debug, PartialEq, Eq, Structural)]
pub enum LayoutAction {
    /// The file is new: create its tables.
    Create,
    /// The file has this layout.
    Keep,
    /// The file has another layout: drop everything and start again.
    Wipe,
}

/// What to do with a stored snapshot of a layout version.
pub fn layout_action(version: u32) -> (r: LayoutAction)
    ensures
        r is Create <==> version == 0,
        r is Keep <==> version == SCHEMA_VERSION,
        r is Wipe <==> version != 0 && version != SCHEMA_VERSION,
{
    if version == 0 {
        LayoutAction::Create
    } else if version == SCHEMA_VERSION {
        LayoutAction::Keep
    } else {
        LayoutAction::Wipe
    }
}

/// A stored registry row: an identity and its role, `owner` or a scope.
pub open spec fn auth_row(r: (String, String)) -> (Seq<char>, Seq<char>) {
    (r.0@, r.1@)
}

/// The registry with one more stored row. A role that cannot be read is skipped,
/// and an owner is never made a writer.
pub open spec fn with_auth_row(a: AuthModel, row: (Seq<char>, Seq<char>)) -> AuthModel {
    if row.1 == "owner"@ {
        with_owner(a, row.0)
    } else {
        match parse_scope(row.1) {
            Some(s) => if a.owners.contains(row.0) {
                a
            } else {
                AuthModel { writers: a.writers.insert(row.0, s), ..a }
            },
            None => a,
        }
    }
}

/// The registry that stored rows add up to.
pub open spec fn auth_of_rows(rows: Seq<(Seq<char>, Seq<char>)>) -> AuthModel
    decreases rows.len(),
{
    if rows.len() == 0 {
        empty_auth()
    } else {
        with_auth_row(auth_of_rows(rows.drop_last()), rows.last())
    }
}

/// The rows under which owners and writers are stored: owners first.
pub open spec fn auth_rows(owners: Seq<Seq<char>>, writers: Seq<(Seq<char>, Scope)>) -> Seq<
    (Seq<char>, Seq<char>),
> {
    owners.map_values(|o: Seq<char>| (o, "owner"@)) + writers.map_values(
        |w: (Seq<char>, Scope)| (w.0, comma_joined(scope_capabilities(w.1))),
    )
}

/// Rebuilds the registry from its stored rows.
pub fn load_auth(rows: &Vec<(String, String)>) -> (r: AuthRegistry)
    ensures
        r.wf(),
        r@ == auth_of_rows(rows@.map_values(|x: (String, String)| auth_row(x))),
{
    let mut auth = AuthRegistry::default();
    let ghost all = rows@.map_values(|x: (String, String)| auth_row(x));
    let mut i: usize = 0;
    while i < rows.len()
        invariant
            i <= rows.len(),
            all == rows@.map_values(|x: (String, String)| auth_row(x)),
            auth.wf(),
            auth@ == auth_of_rows(all.take(i as int)),
        decreases rows.len() - i,
    {
        let ghost before = auth@;
        assert(all.take(i + 1).drop_last() =~= all.take(i as int));
        assert(all.take(i + 1).last() == auth_row(rows@[i as int]));
        if str_equal(rows[i].1.as_str(), "owner") {
            auth.insert_owner(rows[i].0.clone());
        } else {
            match Scope::parse(rows[i].1.as_str()) {
                None => {},
                Some(scope) => {
                    let wire = scope.to_wire();
                    proof {
                        lemma_parsed_scope_allows(rows@[i as int].1@);
                        scope_round_trip(scope);
                    }
                    auth.apply_management(
                        Op::WriterSet,
                        Some(rows[i].0.as_str()),
                        Some(wire.as_str()),
                    );
                    assert(auth@ =~= with_auth_row(before, auth_row(rows@[i as int])));
                },
            }
        }
        i += 1;
    }
    assert(all.take(i as int) =~= all);
    auth
}

/// The rows under which a registry is stored.
pub fn persist_auth(auth: &AuthRegistry) -> (r: Vec<(String, String)>)
    requires
        auth.wf(),
    ensures
        r@.map_values(|x: (String, String)| auth_row(x)) == auth_rows(
            auth.owner_seq(),
            auth.writer_seq(),
        ),
{
    let mut r: Vec<(String, String)> = Vec::new();
    let ghost want = auth_rows(auth.owner_seq(), auth.writer_seq());
    let n: usize = auth.owner_count();
    let mut i: usize = 0;
    while i < n
        invariant
            i <= n,
            n == auth.owner_seq().len(),
            r.len() == i,
            want == auth_rows(auth.owner_seq(), auth.writer_seq()),
            forall|k: int| 0 <= k < i ==> auth_row(#[trigger] r@[k]) == want[k],
        decreases n - i,
    {
        r.push((auth.owner_at(i).clone(), "owner".to_owned()));
        i += 1;
    }
    let w: usize = auth.writer_count();
    let mut j: usize = 0;
    while j < w
        invariant
            j <= w,
            w == auth.writer_seq().len(),
            n == auth.owner_seq().len(),
            r.len() == n + j,
            want == auth_rows(auth.owner_seq(), auth.writer_seq()),
            forall|k: int| 0 <= k < n + j ==> auth_row(#[trigger] r@[k]) == want[k],
        decreases w - j,
    {
        r.push((auth.writer_at(j).clone(), auth.scope_at(j).to_wire()));
        j += 1;
    }
    assert(r@.map_values(|x: (String, String)| auth_row(x)) =~= want);
    r
}

proof fn lemma_load_owners(owners: Seq<Seq<char>>, writers: Seq<(Seq<char>, Scope)>, k: int)
    requires
        0 <= k <= owners.len(),
    ensures
        auth_of_rows(auth_rows(owners, writers).take(k)) == (AuthModel {
            owners: owners.take(k).to_set(),
            writers: Map::empty(),
        }),
    decreases k,
{
    let all = auth_rows(owners, writers);
    if k == 0 {
        assert(owners.take(0).to_set() =~= Set::<Seq<char>>::empty());
        assert(auth_of_rows(all.take(0)) =~= empty_auth());
    } else {
        lemma_load_owners(owners, writers, k - 1);
        assert(all.take(k).drop_last() =~= all.take(k - 1));
        assert(all.take(k).last() == (owners[k - 1], "owner"@));
        assert(owners.take(k) =~= owners.take(k - 1).push(owners[k - 1]));
        assert(owners.take(k).to_set() =~= owners.take(k - 1).to_set().insert(owners[k - 1])) by {
            owners.take(k - 1).lemma_push_to_set_commute(owners[k - 1]);
        }
        assert(Map::<Seq<char>, Scope>::empty().remove(owners[k - 1]) =~= Map::empty());
        assert(auth_of_rows(all.take(k)) =~= AuthModel {
            owners: owners.take(k).to_set(),
            writers: Map::empty(),
        });
    }
}

proof fn lemma_wire_is_not_owner(s: Scope)
    requires
        s.create || s.update || s.destroy,
    ensures
        comma_joined(scope_capabilities(s)) != "owner"@,
{
    scope_round_trip(s);
    reveal_strlit("owner");
    let o = "owner"@;
    assert(o[0] == 'o');
    assert forall|i: int| 0 <= i < o.len() implies #[trigger] o[i] != ',' by {}
    crate::text::lemma_split_one(o, ',');
    reveal_strlit("CREATE");
    reveal_strlit("UPDATE");
    reveal_strlit("DESTROY");
    let parts = crate::text::split(o, ',');
    assert(parts[0] == o);
    assert("CREATE"@[0] == 'C' && "UPDATE"@[0] == 'U' && "DESTROY"@[0] == 'D');
    assert(!crate::protocol::is_capability(parts[0]));
}

proof fn lemma_load_writers(owners: Seq<Seq<char>>, writers: Seq<(Seq<char>, Scope)>, k: int)
    requires
        0 <= k <= writers.len(),
        keys_ascending(writers),
        owners.to_set().disjoint(entries_map(writers).dom()),
        forall|i: int|
            0 <= i < writers.len() ==> ({
                let s = (#[trigger] writers[i]).1;
                s.create || s.update || s.destroy
            }),
    ensures
        auth_of_rows(auth_rows(owners, writers).take(owners.len() + k)) == (AuthModel {
            owners: owners.to_set(),
            writers: entries_map(writers.take(k)),
        }),
    decreases k,
{
    let all = auth_rows(owners, writers);
    if k == 0 {
        lemma_load_owners(owners, writers, owners.len() as int);
        assert(owners.take(owners.len() as int) =~= owners);
        assert(entries_map(writers.take(0)) =~= Map::<Seq<char>, Scope>::empty());
    } else {
        lemma_load_writers(owners, writers, k - 1);
        let n = owners.len() as int;
        let w = writers[k - 1];
        assert(all.take(n + k).drop_last() =~= all.take(n + k - 1));
        assert(all.take(n + k).last() == (w.0, comma_joined(scope_capabilities(w.1))));
        lemma_wire_is_not_owner(w.1);
        scope_round_trip(w.1);
        crate::ordmap::lemma_entries_take(writers, k - 1);
        assert(entries_map(writers).dom().contains(w.0));
        assert(!owners.to_set().contains(w.0));
    }
}

/// A stored registry is read back as it was. (A writer whose scope allows nothing
/// has no stored form; no operation makes one.)
pub proof fn stored_registry_round_trip(auth: AuthRegistry)
    requires
        auth.wf(),
        forall|i: int|
            0 <= i < auth.writer_seq().len() ==> ({
                let s = (#[trigger] auth.writer_seq()[i]).1;
                s.create || s.update || s.destroy
            }),
    ensures
        auth_of_rows(auth_rows(auth.owner_seq(), auth.writer_seq())) == auth@,
{
    auth.lemma_lists();
    let o = auth.owner_seq();
    let w = auth.writer_seq();
    lemma_load_writers(o, w, w.len() as int);
    assert(w.take(w.len() as int) =~= w);
    let all = auth_rows(o, w);
    assert(all.take((o.len() + w.len()) as int) =~= all);
    assert(auth_of_rows(all) =~= auth@);
}

/// The version state of stored settings: the genesis version where none is
/// stored, an error where it is no number; no flags where they cannot be read.
pub fn read_version(version: Option<&str>, blocks: Option<&str>) -> (r: Option<VersionState>)
    ensures
        r is None <==> (version is Some && u32_of(opt_str(version)->0) is None),
        r matches Some(v) ==> {
            &&& v.version == (match opt_str(version) {
                Some(s) => u32_of(s)->0,
                None => GENESIS_DB_VERSION,
            })
            &&& v.blocks == (match opt_str(blocks) {
                Some(s) => match parse_blocks(s) {
                    Some(b) => b,
                    None => genesis_version().blocks,
                },
                None => genesis_version().blocks,
            })
        },
{
    let number: u32 = match version {
        None => GENESIS_DB_VERSION,
        Some(s) => match parse_u32(s) {
            None => {
                return None;
            },
            Some(n) => n,
        },
    };
    let flags = match blocks {
        None => BlockSet::default(),
        Some(s) => match BlockSet::parse(s) {
            None => BlockSet::default(),
            Some(b) => b,
        },
    };
    Some(VersionState { version: number, blocks: flags })
}

/// A stored high-water mark: the signed number with the same bits.
pub open spec fn mark_on_disk(v: u64) -> int {
    if v <= i64::MAX {
        v as int
    } else {
        v - 0x1_0000_0000_0000_0000
    }
}

/// A high-water mark as it is read: a negative number counts as zero.
pub open spec fn mark_in_use(v: i64) -> int {
    if v < 0 {
        0
    } else {
        v as int
    }
}

/// A stored high-water mark: the signed number with the same bits.
pub fn stored_mark(v: u64) -> (r: i64)
    ensures
        r == mark_on_disk(v),
{
    if v <= i64::MAX as u64 {
        v as i64
    } else {
        -((u64::MAX - v) as i64) - 1
    }
}

/// A high-water mark as it is read: a negative number counts as zero.
pub fn loaded_mark(v: i64) -> (r: u64)
    ensures
        r == mark_in_use(v),
{
    if v < 0 {
        0
    } else {
        v as u64
    }
}

/// The times and sequences of stored rows: a number that does not fit counts as
/// the largest that does.
pub fn loaded_time(t: i64) -> (r: u32)
    ensures
        r == (if 0 <= t <= u32::MAX {
            t as int
        } else {
            u32::MAX as int
        }),
{
    if 0 <= t && t <= u32::MAX as i64 {
        t as u32
    } else {
        u32::MAX
    }
}

/// A stored role is `owner` or a scope: the first makes an owner, the second a
/// writer with that scope unless it is an owner already, and anything else is
/// skipped.
pub proof fn a_stored_role_is_read_for_what_it_says(
    a: AuthModel,
    id: Seq<char>,
    s: Scope,
    other: Seq<char>,
)
    requires
        s.create || s.update || s.destroy,
    ensures
        with_auth_row(a, (id, "owner"@)).owners.contains(id),
        !with_auth_row(a, (id, "owner"@)).writers.dom().contains(id),
        ({
            let wire = comma_joined(scope_capabilities(s));
            let b = with_auth_row(a, (id, wire));
            &&& a.owners.contains(id) ==> b == a
            &&& !a.owners.contains(id) ==> b.writers.dom().contains(id) && b.writers[id] == s
                && b.owners == a.owners
        }),
        other != "owner"@ && parse_scope(other) is None ==> with_auth_row(a, (id, other)) == a,
{
    scope_round_trip(s);
    lemma_wire_is_not_owner(s);
}

/// A stored mark is read back as it was, up to the largest that the file can hold as a
/// positive number.
pub proof fn a_stored_mark_is_read_back(v: u64)
    requires
        v <= i64::MAX,
    ensures
        i64::MIN <= mark_on_disk(v) <= i64::MAX,
        mark_in_use(mark_on_disk(v) as i64) == v,
{
}

} // verus!
