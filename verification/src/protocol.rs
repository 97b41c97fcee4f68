//! The rules of the memo protocol: operations, authority, replay protection and
//! protocol versions.

use crate::lex::{str_equal, str_lt};
use crate::ordmap::{Duplicate, OrdMap};
use crate::text::{all_digits, chars_of, copy_opt, decimal, decimal_round_trip, decimal_value, digits_only, opt_str, opt_text, parse_digits, split, split_text};
use vstd::prelude::*;
use vstd::string::*;

verus! {

/// The protocol version that a database starts with.
pub const GENESIS_DB_VERSION: u32 = 0;

/// The highest protocol version that this build supports.
pub const MAX_DB_VERSION: u32 = 0;

/// An operation that a memo asks for.
#[derive(Clone, Copy, Debug, PartialEq, Eq, Structural)]
pub enum Op {
    Init,
    Put,
    SetL,
    Del,
    OwnerSet,
    OwnerDel,
    WriterSet,
    WriterDel,
    Version,
    Finalize,
}

/// The name of an operation on the wire.
pub open spec fn op_name(op: Op) -> Seq<char> {
    match op {
        Op::Init => "INIT"@,
        Op::Put => "SET"@,
        Op::SetL => "SETL"@,
        Op::Del => "DEL"@,
        Op::OwnerSet => "OWNERSET"@,
        Op::OwnerDel => "OWNERDEL"@,
        Op::WriterSet => "WRITERSET"@,
        Op::WriterDel => "WRITERDEL"@,
        Op::Version => "VERSION"@,
        Op::Finalize => "FINALIZE"@,
    }
}

/// A write to a key: `SET`, `SETL` or `DEL`.
pub open spec fn is_data_op(op: Op) -> bool {
    op is Put || op is SetL || op is Del
}

/// A change of the registry: `OWNER*` or `WRITER*`.
pub open spec fn is_registry_op(op: Op) -> bool {
    op is OwnerSet || op is OwnerDel || op is WriterSet || op is WriterDel
}

impl Op {
    /// The name on the wire.
    pub fn as_str(self) -> (r: &'static str)
        ensures
            r@ == op_name(self),
    {
        match self {
            Op::Init => "INIT",
            Op::Put => "SET",
            Op::SetL => "SETL",
            Op::Del => "DEL",
            Op::OwnerSet => "OWNERSET",
            Op::OwnerDel => "OWNERDEL",
            Op::WriterSet => "WRITERSET",
            Op::WriterDel => "WRITERDEL",
            Op::Version => "VERSION",
            Op::Finalize => "FINALIZE",
        }
    }
}

/// What a scoped writer may do.
#[derive(Clone, Copy, Debug, PartialEq, Eq, Structural)]
pub struct Scope {
    /// Write a key that does not exist.
    pub create: bool,
    /// Write a key that exists.
    pub update: bool,
    /// Delete a key.
    pub destroy: bool,
}

impl View for Scope {
    type V = Scope;

    open spec fn view(&self) -> Scope {
        *self
    }
}

impl Duplicate for Scope {
    fn duplicate(&self) -> (r: Self) {
        *self
    }
}

/// Whether `t` names a capability.
pub open spec fn is_capability(t: Seq<char>) -> bool {
    t == "CREATE"@ || t == "UPDATE"@ || t == "DESTROY"@
}

/// The scope that a comma-separated list of capabilities stands for; none if it
/// holds anything else.
pub open spec fn parse_scope(s: Seq<char>) -> Option<Scope> {
    let parts = split(s, ',');
    if forall|i: int| 0 <= i < parts.len() ==> is_capability(#[trigger] parts[i]) {
        Some(
            Scope {
                create: parts.contains("CREATE"@),
                update: parts.contains("UPDATE"@),
                destroy: parts.contains("DESTROY"@),
            },
        )
    } else {
        None
    }
}

/// The capabilities of a scope in their fixed order.
pub open spec fn scope_capabilities(s: Scope) -> Seq<Seq<char>> {
    (if s.create {
        seq!["CREATE"@]
    } else {
        Seq::empty()
    }) + (if s.update {
        seq!["UPDATE"@]
    } else {
        Seq::empty()
    }) + (if s.destroy {
        seq!["DESTROY"@]
    } else {
        Seq::empty()
    })
}

/// Texts joined by commas.
pub open spec fn comma_joined(parts: Seq<Seq<char>>) -> Seq<char>
    decreases parts.len(),
{
    if parts.len() == 0 {
        Seq::empty()
    } else if parts.len() == 1 {
        parts[0]
    } else {
        comma_joined(parts.drop_last()) + ","@ + parts.last()
    }
}

/// Joins texts by commas.
fn join_commas(parts: &Vec<String>) -> (r: String)
    ensures
        r@ == comma_joined(crate::text::texts(parts@)),
{
    let mut r = String::new();
    let mut i: usize = 0;
    let ghost all = crate::text::texts(parts@);
    while i < parts.len()
        invariant
            i <= parts.len(),
            all == crate::text::texts(parts@),
            r@ == comma_joined(all.take(i as int)),
        decreases parts.len() - i,
    {
        if i > 0 {
            r.append(",");
        }
        r.append(parts[i].as_str());
        proof {
            assert(all.take(i + 1).drop_last() =~= all.take(i as int));
            if i == 0 {
                assert(r@ =~= all.take(1)[0]);
            }
        }
        i += 1;
    }
    assert(all.take(i as int) =~= all);
    r
}

impl Scope {
    /// Reads a comma-separated list of capabilities.
    pub fn parse(s: &str) -> (r: Option<Scope>)
        ensures
            r == parse_scope(s@),
    {
        let parts = split_text(s, ',');
        let ghost want = split(s@, ',');
        let mut scope = Scope { create: false, update: false, destroy: false };
        let mut i: usize = 0;
        while i < parts.len()
            invariant
                i <= parts.len(),
                parts.len() == want.len(),
                want == split(s@, ','),
                forall|k: int| 0 <= k < parts.len() ==> (#[trigger] parts@[k])@ == want[k],
                forall|k: int| 0 <= k < i ==> is_capability(#[trigger] want[k]),
                scope.create == want.take(i as int).contains("CREATE"@),
                scope.update == want.take(i as int).contains("UPDATE"@),
                scope.destroy == want.take(i as int).contains("DESTROY"@),
            decreases parts.len() - i,
        {
            let part = parts[i].as_str();
            proof {
                assert(want.take(i + 1) =~= want.take(i as int).push(want[i as int]));
                lemma_push_contains(want.take(i as int), want[i as int]);
                lemma_capabilities_differ();
            }
            if str_equal(part, "CREATE") {
                scope.create = true;
            } else if str_equal(part, "UPDATE") {
                scope.update = true;
            } else if str_equal(part, "DESTROY") {
                scope.destroy = true;
            } else {
                assert(!is_capability(want[i as int]));
                return None;
            }
            i += 1;
        }
        assert(want.take(i as int) =~= want);
        Some(scope)
    }

    /// The names of the capabilities in their fixed order.
    pub fn capabilities(&self) -> (r: Vec<String>)
        ensures
            crate::text::texts(r@) == scope_capabilities(*self),
    {
        let mut r: Vec<String> = Vec::new();
        if self.create {
            r.push("CREATE".to_owned());
        }
        if self.update {
            r.push("UPDATE".to_owned());
        }
        if self.destroy {
            r.push("DESTROY".to_owned());
        }
        assert(crate::text::texts(r@) =~= scope_capabilities(*self));
        r
    }

    /// The list on the wire.
    pub fn to_wire(&self) -> (r: String)
        ensures
            r@ == comma_joined(scope_capabilities(*self)),
    {
        let parts = self.capabilities();
        join_commas(&parts)
    }
}

/// What a sequence holds after a push.
proof fn lemma_push_contains(s: Seq<Seq<char>>, x: Seq<char>)
    ensures
        forall|y: Seq<char>| #[trigger] s.push(x).contains(y) <==> s.contains(y) || y == x,
{
    assert forall|y: Seq<char>| #[trigger] s.push(x).contains(y) <==> s.contains(y) || y == x by {
        if s.contains(y) {
            let i = choose|i: int| 0 <= i < s.len() && s[i] == y;
            assert(s.push(x)[i] == y);
        }
        if y == x {
            assert(s.push(x)[s.len() as int] == y);
        }
    }
}

proof fn lemma_capabilities_differ()
    ensures
        "CREATE"@ != "UPDATE"@,
        "CREATE"@ != "DESTROY"@,
        "UPDATE"@ != "DESTROY"@,
{
    reveal_strlit("CREATE");
    reveal_strlit("UPDATE");
    reveal_strlit("DESTROY");
    assert("CREATE"@[0] == 'C');
    assert("UPDATE"@[0] == 'U');
    assert("DESTROY"@[0] == 'D');
}

proof fn lemma_no_commas()
    ensures
        forall|i: int| 0 <= i < "CREATE"@.len() ==> #[trigger] "CREATE"@[i] != ',',
        forall|i: int| 0 <= i < "UPDATE"@.len() ==> #[trigger] "UPDATE"@[i] != ',',
        forall|i: int| 0 <= i < "DESTROY"@.len() ==> #[trigger] "DESTROY"@[i] != ',',
        ","@ == seq![','],
{
    reveal_strlit("CREATE");
    reveal_strlit("UPDATE");
    reveal_strlit("DESTROY");
    reveal_strlit(",");
    assert(","@ =~= seq![',']);
}

/// Reading a printed scope gives the scope back. (A scope that allows nothing
/// prints as an empty text, which is no scope.)
pub proof fn scope_round_trip(s: Scope)
    requires
        s.create || s.update || s.destroy,
    ensures
        parse_scope(comma_joined(scope_capabilities(s))) == Some(s),
{
    let caps = scope_capabilities(s);
    lemma_no_commas();
    lemma_capabilities_differ();
    lemma_split_joined(caps);
    let parts = split(comma_joined(caps), ',');
    assert(parts == caps);
    if s.create {
        assert(caps[0] == "CREATE"@);
    }
    if s.destroy {
        assert(caps[caps.len() - 1] == "DESTROY"@);
    }
    if s.update {
        assert(caps[if s.create {
            1int
        } else {
            0int
        }] == "UPDATE"@);
    }
}

/// A readable scope allows something.
pub proof fn lemma_parsed_scope_allows(s: Seq<char>)
    requires
        parse_scope(s) is Some,
    ensures
        ({
            let scope = parse_scope(s)->0;
            scope.create || scope.update || scope.destroy
        }),
{
    let parts = split(s, ',');
    assert(parts.len() > 0);
    assert(is_capability(parts[0]));
    assert(parts.contains(parts[0]));
}

/// Splitting joined texts gives the texts back, if none holds a comma.
proof fn lemma_split_joined(parts: Seq<Seq<char>>)
    requires
        parts.len() > 0,
        forall|i: int, j: int|
            0 <= i < parts.len() && 0 <= j < parts[i].len() ==> #[trigger] parts[i][j] != ',',
    ensures
        split(comma_joined(parts), ',') == parts,
    decreases parts.len(),
{
    if parts.len() == 1 {
        let p = parts[0];
        assert forall|j: int| 0 <= j < p.len() implies #[trigger] p[j] != ',' by {
            assert(parts[0][j] != ',');
        }
        crate::text::lemma_split_one(p, ',');
        assert(parts =~= seq![p]);
    } else {
        lemma_join_first(parts);
        let p = parts[0];
        assert forall|j: int| 0 <= j < p.len() implies #[trigger] p[j] != ',' by {
            assert(parts[0][j] != ',');
        }
        let rest = parts.drop_first();
        assert forall|i: int, j: int|
            0 <= i < rest.len() && 0 <= j < rest[i].len() implies #[trigger] rest[i][j] != ',' by {
            assert(parts[i + 1][j] != ',');
        }
        lemma_split_joined(rest);
        crate::text::lemma_split_first(p, ',', comma_joined(rest));
        assert(parts =~= seq![p] + rest);
    }
}

/// Joining can start from the first text as well as from the last.
proof fn lemma_join_first(parts: Seq<Seq<char>>)
    requires
        parts.len() >= 2,
    ensures
        comma_joined(parts) == parts[0].push(',') + comma_joined(parts.drop_first()),
    decreases parts.len(),
{
    lemma_no_commas();
    let rest = parts.drop_first();
    if parts.len() == 2 {
        assert(parts.drop_last() =~= seq![parts[0]]);
        assert(comma_joined(seq![parts[0]]) == parts[0]);
        assert(comma_joined(rest) == parts[1]);
        assert(comma_joined(parts) == parts[0] + ","@ + parts[1]);
        assert(comma_joined(parts) =~= parts[0].push(',') + comma_joined(rest));
    } else {
        let front = parts.drop_last();
        lemma_join_first(front);
        assert(front.drop_first() =~= rest.drop_last());
        assert(front[0] == parts[0]);
        assert(comma_joined(parts) == comma_joined(front) + ","@ + parts.last());
        assert(comma_joined(rest) == comma_joined(rest.drop_last()) + ","@ + parts.last());
        assert(comma_joined(parts) =~= parts[0].push(',') + comma_joined(rest));
    }
}

/// What an out-of-date client must refuse to do.
#[derive(Clone, Copy, Debug, PartialEq, Eq, Structural)]
pub struct BlockSet {
    pub sync: bool,
    pub read: bool,
    pub write: bool,
}

impl View for BlockSet {
    type V = BlockSet;

    open spec fn view(&self) -> BlockSet {
        *self
    }
}

/// Whether `t` names a block flag.
pub open spec fn is_block_flag(t: Seq<char>) -> bool {
    t == "warn"@ || t == "blocksync"@ || t == "blockread"@ || t == "blockwrite"@ || t
        == "blockall"@
}

/// The flags that a comma-separated list stands for; none if it holds anything
/// else.
pub open spec fn parse_blocks(s: Seq<char>) -> Option<BlockSet> {
    let parts = split(s, ',');
    if forall|i: int| 0 <= i < parts.len() ==> is_block_flag(#[trigger] parts[i]) {
        let all = parts.contains("blockall"@);
        Some(
            BlockSet {
                sync: all || parts.contains("blocksync"@),
                read: all || parts.contains("blockread"@),
                write: all || parts.contains("blockwrite"@),
            },
        )
    } else {
        None
    }
}

/// The flags on the wire.
pub open spec fn blocks_wire(b: BlockSet) -> Seq<char> {
    if b.sync && b.read && b.write {
        "blockall"@
    } else if !b.sync && !b.read && !b.write {
        "warn"@
    } else {
        comma_joined(
            (if b.sync {
                seq!["blocksync"@]
            } else {
                Seq::empty()
            }) + (if b.read {
                seq!["blockread"@]
            } else {
                Seq::empty()
            }) + (if b.write {
                seq!["blockwrite"@]
            } else {
                Seq::empty()
            }),
        )
    }
}

proof fn lemma_flags_differ()
    ensures
        "warn"@ != "blocksync"@,
        "warn"@ != "blockread"@,
        "warn"@ != "blockwrite"@,
        "warn"@ != "blockall"@,
        "blocksync"@ != "blockread"@,
        "blocksync"@ != "blockwrite"@,
        "blocksync"@ != "blockall"@,
        "blockread"@ != "blockwrite"@,
        "blockread"@ != "blockall"@,
        "blockwrite"@ != "blockall"@,
{
    reveal_strlit("warn");
    reveal_strlit("blocksync");
    reveal_strlit("blockread");
    reveal_strlit("blockwrite");
    reveal_strlit("blockall");
    assert("warn"@[0] == 'w' && "blocksync"@[0] == 'b' && "blockread"@[0] == 'b');
    assert("blockwrite"@[0] == 'b' && "blockall"@[0] == 'b');
    assert("blocksync"@[5] == 's' && "blockread"@[5] == 'r');
    assert("blockwrite"@[5] == 'w' && "blockall"@[5] == 'a');
}

impl BlockSet {
    /// No flag at all.
    pub fn default() -> (r: BlockSet)
        ensures
            r == (BlockSet { sync: false, read: false, write: false }),
    {
        BlockSet { sync: false, read: false, write: false }
    }

    /// Every flag.
    pub fn all() -> (r: BlockSet)
        ensures
            r == (BlockSet { sync: true, read: true, write: true }),
    {
        BlockSet { sync: true, read: true, write: true }
    }

    /// Reads a comma-separated list of flags.
    pub fn parse(s: &str) -> (r: Option<BlockSet>)
        ensures
            r == parse_blocks(s@),
    {
        let parts = split_text(s, ',');
        let ghost want = split(s@, ',');
        let mut all: bool = false;
        let mut sync: bool = false;
        let mut read: bool = false;
        let mut write: bool = false;
        let mut i: usize = 0;
        while i < parts.len()
            invariant
                i <= parts.len(),
                parts.len() == want.len(),
                want == split(s@, ','),
                forall|k: int| 0 <= k < parts.len() ==> (#[trigger] parts@[k])@ == want[k],
                forall|k: int| 0 <= k < i ==> is_block_flag(#[trigger] want[k]),
                all == want.take(i as int).contains("blockall"@),
                sync == want.take(i as int).contains("blocksync"@),
                read == want.take(i as int).contains("blockread"@),
                write == want.take(i as int).contains("blockwrite"@),
            decreases parts.len() - i,
        {
            let part = parts[i].as_str();
            proof {
                assert(want.take(i + 1) =~= want.take(i as int).push(want[i as int]));
                lemma_push_contains(want.take(i as int), want[i as int]);
                lemma_flags_differ();
            }
            if str_equal(part, "blockall") {
                all = true;
            } else if str_equal(part, "blocksync") {
                sync = true;
            } else if str_equal(part, "blockread") {
                read = true;
            } else if str_equal(part, "blockwrite") {
                write = true;
            } else if !str_equal(part, "warn") {
                assert(!is_block_flag(want[i as int]));
                return None;
            }
            i += 1;
        }
        assert(want.take(i as int) =~= want);
        Some(BlockSet { sync: all || sync, read: all || read, write: all || write })
    }

    /// The list on the wire.
    pub fn to_wire(&self) -> (r: String)
        ensures
            r@ == blocks_wire(*self),
    {
        if self.sync && self.read && self.write {
            return "blockall".to_owned();
        }
        if !self.sync && !self.read && !self.write {
            return "warn".to_owned();
        }
        let mut parts: Vec<String> = Vec::new();
        if self.sync {
            parts.push("blocksync".to_owned());
        }
        if self.read {
            parts.push("blockread".to_owned());
        }
        if self.write {
            parts.push("blockwrite".to_owned());
        }
        assert(crate::text::texts(parts@) =~= (if self.sync {
            seq!["blocksync"@]
        } else {
            Seq::empty()
        }) + (if self.read {
            seq!["blockread"@]
        } else {
            Seq::empty()
        }) + (if self.write {
            seq!["blockwrite"@]
        } else {
            Seq::empty()
        }));
        join_commas(&parts)
    }
}

/// Reading printed block flags gives the flags back.
pub proof fn blocks_round_trip(b: BlockSet)
    ensures
        parse_blocks(blocks_wire(b)) == Some(b),
{
    lemma_flags_differ();
    reveal_strlit("warn");
    reveal_strlit("blocksync");
    reveal_strlit("blockread");
    reveal_strlit("blockwrite");
    reveal_strlit("blockall");
    if b.sync && b.read && b.write {
        lemma_split_joined(seq!["blockall"@]);
        assert(seq!["blockall"@][0] == "blockall"@);
    } else if !b.sync && !b.read && !b.write {
        lemma_split_joined(seq!["warn"@]);
    } else {
        let parts = (if b.sync {
            seq!["blocksync"@]
        } else {
            Seq::empty()
        }) + (if b.read {
            seq!["blockread"@]
        } else {
            Seq::empty()
        }) + (if b.write {
            seq!["blockwrite"@]
        } else {
            Seq::empty()
        });
        lemma_split_joined(parts);
        if b.sync {
            assert(parts[0] == "blocksync"@);
        }
        if b.write {
            assert(parts[parts.len() - 1] == "blockwrite"@);
        }
        if b.read {
            assert(parts[if b.sync {
                1int
            } else {
                0int
            }] == "blockread"@);
        }
    }
}

/// The protocol version that a database asks for, and what it asks of a client
/// that does not have it.
#[derive(Clone, Copy, Debug, PartialEq, Eq, Structural)]
pub struct VersionState {
    pub version: u32,
    pub blocks: BlockSet,
}

/// The state of a database that never asked for a version.
pub open spec fn genesis_version() -> VersionState {
    VersionState {
        version: GENESIS_DB_VERSION,
        blocks: BlockSet { sync: false, read: false, write: false },
    }
}

/// The version state after a `VERSION` operation: one step up, with readable
/// flags, or none.
pub open spec fn version_step(v: VersionState, key: Seq<char>, value: Option<Seq<char>>) -> Option<
    VersionState,
> {
    if key.len() > 0 && all_digits(key) && decimal_value(key) == v.version + 1
        && decimal_value(key) <= u32::MAX && value is Some && parse_blocks(value->0) is Some {
        Some(VersionState { version: (v.version + 1) as u32, blocks: parse_blocks(value->0)->0 })
    } else {
        None
    }
}

/// Whether a flag of a database stops this client: it is set, and the database asks
/// for a version that this client does not have.
pub open spec fn is_blocked(v: VersionState, flag: bool) -> bool {
    v.version > MAX_DB_VERSION && flag
}

impl VersionState {
    /// The state of a database that never asked for a version.
    pub fn default() -> (r: VersionState)
        ensures
            r == genesis_version(),
    {
        VersionState { version: GENESIS_DB_VERSION, blocks: BlockSet::default() }
    }

    /// Whether this client must stop scanning the chain.
    pub fn blocks_sync(&self) -> (r: bool)
        ensures
            r == is_blocked(*self, self.blocks.sync),
    {
        self.version > MAX_DB_VERSION && self.blocks.sync
    }

    /// Whether this client must refuse to show the state.
    pub fn blocks_read(&self) -> (r: bool)
        ensures
            r == is_blocked(*self, self.blocks.read),
    {
        self.version > MAX_DB_VERSION && self.blocks.read
    }

    /// Whether this client must refuse to write.
    pub fn blocks_write(&self) -> (r: bool)
        ensures
            r == is_blocked(*self, self.blocks.write),
    {
        self.version > MAX_DB_VERSION && self.blocks.write
    }

    /// Applies a `VERSION` operation; tells whether it took effect.
    pub fn apply_version(&mut self, key: &str, value: Option<&str>) -> (done: bool)
        ensures
            done == (version_step(*old(self), key@, opt_str(value)) is Some),
            done ==> version_step(*old(self), key@, opt_str(value)) == Some(*final(self)),
            !done ==> *final(self) == *old(self),
    {
        let cs = chars_of(key);
        if cs.len() == 0 || !digits_only(cs.as_slice()) {
            return false;
        }
        match parse_digits(cs.as_slice()) {
            None => false,
            Some(n) => {
                if n > u32::MAX as u64 || self.version == u32::MAX || n != self.version as u64 + 1 {
                    return false;
                }
                match value {
                    None => false,
                    Some(text) => match BlockSet::parse(text) {
                        None => false,
                        Some(blocks) => {
                            self.version = self.version + 1;
                            self.blocks = blocks;
                            true
                        },
                    },
                }
            },
        }
    }
}

/// How far the database's own `INIT` has come.
#[derive(Clone, Copy, Debug, PartialEq, Eq, Structural)]
pub enum InitState {
    Uninitialized,
    Initializing { done: u32, required: u32 },
    Initialized,
}

/// How deep a memo is buried.
#[derive(Clone, Copy, Debug, PartialEq, Eq, Structural)]
pub enum WriteStatus {
    Confirmed,
    Confirming { done: u32, required: u32 },
}

/// What a signer may do.
#[derive(Clone, Copy, Debug, PartialEq, Eq, Structural)]
pub enum Authority {
    Owner,
    Writer(Scope),
}

/// The registry of signers: owners, and writers with their scopes. No signer is
/// both.
#[derive(Clone, Debug, PartialEq, Eq)]
pub struct AuthRegistry {
    owners: OrdMap<()>,
    writers: OrdMap<Scope>,
}

/// The registry as mathematics.
#[verifier::ext_equal]
pub struct AuthModel {
    pub owners: Set<Seq<char>>,
    pub writers: Map<Seq<char>, Scope>,
}

/// An empty registry.
pub open spec fn empty_auth() -> AuthModel {
    AuthModel { owners: Set::empty(), writers: Map::empty() }
}

/// What `signer` may do.
pub open spec fn authority(a: AuthModel, signer: Seq<char>) -> Option<Authority> {
    if a.owners.contains(signer) {
        Some(Authority::Owner)
    } else if a.writers.dom().contains(signer) {
        Some(Authority::Writer(a.writers[signer]))
    } else {
        None
    }
}

/// Whether a scope covers a data operation on a key that exists or not.
pub open spec fn scope_allows(s: Scope, op: Op, key_exists: bool) -> bool {
    match op {
        Op::Put | Op::SetL => if key_exists {
            s.update
        } else {
            s.create
        },
        Op::Del => s.destroy,
        _ => false,
    }
}

/// Whether `signer` may perform the data operation.
pub open spec fn write_allowed(a: AuthModel, signer: Seq<char>, op: Op, key_exists: bool) -> bool {
    match authority(a, signer) {
        Some(Authority::Owner) => is_data_op(op),
        Some(Authority::Writer(s)) => scope_allows(s, op, key_exists),
        None => false,
    }
}

/// Seats an owner; an owner holds no separate writer entry.
pub open spec fn with_owner(a: AuthModel, id: Seq<char>) -> AuthModel {
    AuthModel { owners: a.owners.insert(id), writers: a.writers.remove(id) }
}

/// The registry after a management operation on a target, which is none if it
/// names no key. What cannot be done changes nothing: removing who is not
/// there, the last owner, or giving an owner or an unreadable scope.
pub open spec fn managed(
    a: AuthModel,
    op: Op,
    target: Option<Seq<char>>,
    value: Option<Seq<char>>,
) -> AuthModel {
    match target {
        None => a,
        Some(id) => match op {
            Op::OwnerSet => with_owner(a, id),
            Op::OwnerDel => if a.owners.contains(id) && a.owners.len() > 1 {
                AuthModel { owners: a.owners.remove(id), ..a }
            } else {
                a
            },
            Op::WriterSet => if !a.owners.contains(id) && value is Some && parse_scope(
                value->0,
            ) is Some {
                AuthModel { writers: a.writers.insert(id, parse_scope(value->0)->0), ..a }
            } else {
                a
            },
            Op::WriterDel => AuthModel { writers: a.writers.remove(id), ..a },
            _ => a,
        },
    }
}

impl View for AuthRegistry {
    type V = AuthModel;

    closed spec fn view(&self) -> AuthModel {
        AuthModel { owners: self.owners.map().dom(), writers: self.writers.map() }
    }
}

impl AuthRegistry {
    /// Owners and writers are ordered, and no signer is both.
    pub closed spec fn wf(self) -> bool {
        &&& self.owners.wf()
        &&& self.writers.wf()
        &&& self@.owners.disjoint(self@.writers.dom())
    }

    /// The owners in order.
    pub closed spec fn owner_seq(self) -> Seq<Seq<char>> {
        self.owners.entries().map_values(|e: (Seq<char>, ())| e.0)
    }

    /// The writers in order, with their scopes.
    pub closed spec fn writer_seq(self) -> Seq<(Seq<char>, Scope)> {
        self.writers.entries()
    }

    /// The ordered lists and the registry hold the same.
    pub proof fn lemma_lists(self)
        requires
            self.wf(),
        ensures
            self@.owners == self.owner_seq().to_set(),
            self@.writers == crate::ordmap::entries_map(self.writer_seq()),
            crate::ordmap::keys_ascending(self.writer_seq()),
            self@.owners.disjoint(self@.writers.dom()),
            forall|i: int, j: int|
                0 <= i < j < self.owner_seq().len() ==> str_lt(
                    #[trigger] self.owner_seq()[i],
                    #[trigger] self.owner_seq()[j],
                ),
    {
        let e = self.owners.entries();
        let o = self.owner_seq();
        assert forall|k: Seq<char>| #[trigger] self@.owners.contains(k) <==> o.to_set().contains(
            k,
        ) by {
            if self@.owners.contains(k) {
                let i = choose|i: int| 0 <= i < e.len() && (#[trigger] e[i]).0 == k;
                assert(o[i] == k);
            }
            if o.contains(k) {
                let i = choose|i: int| 0 <= i < o.len() && o[i] == k;
                assert(e[i].0 == k);
            }
        }
        assert(self@.owners =~= o.to_set());
        assert forall|i: int, j: int| 0 <= i < j < o.len() implies str_lt(
            #[trigger] o[i],
            #[trigger] o[j],
        ) by {
            assert(str_lt(e[i].0, e[j].0));
        }
    }

    /// An empty registry.
    pub fn default() -> (r: AuthRegistry)
        ensures
            r.wf(),
            r@ == empty_auth(),
            r.owner_seq() == Seq::<Seq<char>>::empty(),
            r.writer_seq() == Seq::<(Seq<char>, Scope)>::empty(),
    {
        let r = AuthRegistry { owners: OrdMap::new(), writers: OrdMap::new() };
        assert(r@ =~= empty_auth());
        assert(r.owner_seq() =~= Seq::<Seq<char>>::empty());
        r
    }

    /// Whether `signer` is an owner.
    pub fn is_owner(&self, signer: &str) -> (r: bool)
        requires
            self.wf(),
        ensures
            r == self@.owners.contains(signer@),
    {
        self.owners.contains_key(signer)
    }

    /// What `signer` may do.
    pub fn authority_of(&self, signer: &str) -> (r: Option<Authority>)
        requires
            self.wf(),
        ensures
            r == authority(self@, signer@),
    {
        if self.owners.contains_key(signer) {
            Some(Authority::Owner)
        } else {
            match self.writers.get(signer) {
                Some(s) => Some(Authority::Writer(*s)),
                None => None,
            }
        }
    }

    /// Whether `signer` may perform the data operation.
    pub fn may_write(&self, signer: &str, op: Op, key_exists: bool) -> (r: bool)
        requires
            self.wf(),
        ensures
            r == write_allowed(self@, signer@, op, key_exists),
    {
        match self.authority_of(signer) {
            Some(Authority::Owner) => match op {
                Op::Put | Op::SetL | Op::Del => true,
                _ => false,
            },
            Some(Authority::Writer(s)) => match op {
                Op::Put | Op::SetL => if key_exists {
                    s.update
                } else {
                    s.create
                },
                Op::Del => s.destroy,
                _ => false,
            },
            None => false,
        }
    }

    /// Seats an owner.
    pub fn insert_owner(&mut self, id: String)
        requires
            old(self).wf(),
        ensures
            final(self).wf(),
            final(self)@ == with_owner(old(self)@, id@),
    {
        self.writers.remove(id.as_str());
        self.owners.insert(id, ());
        assert(self@ =~= with_owner(old(self)@, id@));
    }

    /// Applies a management operation on a target, which is none if the memo
    /// names no key; what cannot be done changes nothing.
    pub fn apply_management(&mut self, op: Op, target: Option<&str>, value: Option<&str>)
        requires
            old(self).wf(),
        ensures
            final(self).wf(),
            final(self)@ == managed(old(self)@, op, opt_str(target), opt_str(value)),
    {
        let id = match target {
            None => {
                return;
            },
            Some(id) => id,
        };
        match op {
            Op::OwnerSet => {
                self.insert_owner(id.to_owned());
            },
            Op::OwnerDel => {
                proof {
                    self.owners.lemma_dom_len();
                }
                if self.owners.contains_key(id) && self.owners.len() > 1 {
                    self.owners.remove(id);
                    assert(self@ =~= managed(old(self)@, op, opt_str(target), opt_str(value)));
                }
            },
            Op::WriterSet => {
                if !self.owners.contains_key(id) {
                    match value {
                        None => {},
                        Some(text) => match Scope::parse(text) {
                            None => {},
                            Some(scope) => {
                                self.writers.insert(id.to_owned(), scope);
                                assert(self@ =~= managed(
                                    old(self)@,
                                    op,
                                    opt_str(target),
                                    opt_str(value),
                                ));
                            },
                        },
                    }
                }
            },
            Op::WriterDel => {
                self.writers.remove(id);
                assert(self@ =~= managed(old(self)@, op, opt_str(target), opt_str(value)));
            },
            _ => {},
        }
    }

    /// A copy of the registry.
    pub fn copy(&self) -> (r: Self)
        requires
            self.wf(),
        ensures
            r.wf(),
            r@ == self@,
            r.owner_seq() == self.owner_seq(),
            r.writer_seq() == self.writer_seq(),
    {
        AuthRegistry { owners: self.owners.copy(), writers: self.writers.copy() }
    }

    /// The number of owners.
    pub fn owner_count(&self) -> (r: usize)
        ensures
            r == self.owner_seq().len(),
    {
        self.owners.len()
    }

    /// The owner at position `i`.
    pub fn owner_at(&self, i: usize) -> (r: &String)
        requires
            i < self.owner_seq().len(),
        ensures
            r@ == self.owner_seq()[i as int],
    {
        self.owners.key_at(i)
    }

    /// The number of writers.
    pub fn writer_count(&self) -> (r: usize)
        ensures
            r == self.writer_seq().len(),
    {
        self.writers.len()
    }

    /// The writer at position `i`.
    pub fn writer_at(&self, i: usize) -> (r: &String)
        requires
            i < self.writer_seq().len(),
        ensures
            r@ == self.writer_seq()[i as int].0,
    {
        self.writers.key_at(i)
    }

    /// The scope of the writer at position `i`.
    pub fn scope_at(&self, i: usize) -> (r: Scope)
        requires
            i < self.writer_seq().len(),
        ensures
            r == self.writer_seq()[i as int].1,
    {
        *self.writers.value_at(i)
    }
}

/// A write to a key that is not confirmed yet.
#[derive(Clone, Debug, PartialEq, Eq)]
pub enum PendingOp {
    Put { value: String, done: u32, required: u32, txid: String },
    Del { done: u32, required: u32, txid: String },
}

/// [`PendingOp`] as mathematics.
pub enum PendingModel {
    Put { value: Seq<char>, done: u32, required: u32, txid: Seq<char> },
    Del { done: u32, required: u32, txid: Seq<char> },
}

impl View for PendingOp {
    type V = PendingModel;

    open spec fn view(&self) -> PendingModel {
        match self {
            PendingOp::Put { value, done, required, txid } => PendingModel::Put {
                value: value@,
                done: *done,
                required: *required,
                txid: txid@,
            },
            PendingOp::Del { done, required, txid } => PendingModel::Del {
                done: *done,
                required: *required,
                txid: txid@,
            },
        }
    }
}

/// What is known of a key.
#[derive(Clone, Debug, PartialEq, Eq)]
pub struct KeyState {
    /// The confirmed value, if there is one.
    pub confirmed: Option<String>,
    /// The writes in flight, oldest first.
    pub pending: Vec<PendingOp>,
    /// When the confirmed value was written (unix seconds).
    pub updated_at: Option<u32>,
    /// The shown transaction id of that write.
    pub last_txid: Option<String>,
}

/// [`KeyState`] as mathematics.
#[verifier::ext_equal]
pub struct KeyModel {
    pub confirmed: Option<Seq<char>>,
    pub pending: Seq<PendingModel>,
    pub updated_at: Option<u32>,
    pub last_txid: Option<Seq<char>>,
}

impl View for KeyState {
    type V = KeyModel;

    open spec fn view(&self) -> KeyModel {
        KeyModel {
            confirmed: opt_text(self.confirmed),
            pending: self.pending@.map_values(|p: PendingOp| p@),
            updated_at: self.updated_at,
            last_txid: opt_text(self.last_txid),
        }
    }
}

/// The state of a database as a reader sees it.
#[derive(Clone, Debug, PartialEq, Eq)]
pub struct ReplayResult {
    pub init: InitState,
    pub state: OrdMap<KeyState>,
    pub auth: AuthRegistry,
    pub finalized: bool,
    pub version: VersionState,
    pub kv_versions: OrdMap<u64>,
    pub target_versions: OrdMap<u64>,
}

impl ReplayResult {
    /// Keys and registry are in order.
    pub open spec fn wf(self) -> bool {
        &&& self.state.wf()
        &&& self.auth.wf()
        &&& self.kv_versions.wf()
        &&& self.target_versions.wf()
    }
}

/// How far a write in the history has come.
#[derive(Clone, Copy, Debug, PartialEq, Eq, Structural)]
pub enum HistoryStatus {
    Pending,
    Confirming { done: u32, required: u32 },
    Confirmed { confirmations: u32 },
}

/// A write in the history as it is shown.
#[derive(Clone, Debug, PartialEq, Eq)]
pub struct HistoryEntry {
    pub op: Op,
    pub key: String,
    pub value: Option<String>,
    pub height: Option<u32>,
    /// When the block was mined (unix seconds).
    pub timestamp: Option<u32>,
    /// The shown transaction id.
    pub txid: String,
    pub output_index: u32,
    pub signature: Option<String>,
    pub seq: Option<u64>,
    pub signer: Option<String>,
    pub verified: Option<bool>,
    pub status: HistoryStatus,
    pub memo: Option<String>,
    /// The fee paid (zatoshi), where this wallet paid it.
    pub fee: Option<u64>,
    /// The value (zatoshi) that the write's own output carried, unless zero.
    pub output_value: Option<u64>,
}

/// [`HistoryEntry`] as mathematics.
pub struct EntryModel {
    pub op: Op,
    pub key: Seq<char>,
    pub value: Option<Seq<char>>,
    pub height: Option<u32>,
    pub timestamp: Option<u32>,
    pub txid: Seq<char>,
    pub output_index: u32,
    pub signature: Option<Seq<char>>,
    pub seq: Option<u64>,
    pub signer: Option<Seq<char>>,
    pub verified: Option<bool>,
    pub status: HistoryStatus,
    pub memo: Option<Seq<char>>,
    pub fee: Option<u64>,
    pub output_value: Option<u64>,
}

impl View for HistoryEntry {
    type V = EntryModel;

    open spec fn view(&self) -> EntryModel {
        EntryModel {
            op: self.op,
            key: self.key@,
            value: opt_text(self.value),
            height: self.height,
            timestamp: self.timestamp,
            txid: self.txid@,
            output_index: self.output_index,
            signature: opt_text(self.signature),
            seq: self.seq,
            signer: opt_text(self.signer),
            verified: self.verified,
            status: self.status,
            memo: opt_text(self.memo),
            fee: self.fee,
            output_value: self.output_value,
        }
    }
}

impl HistoryEntry {
    /// A copy.
    pub fn copy(&self) -> (r: HistoryEntry)
        ensures
            r@ == self@,
    {
        HistoryEntry {
            op: self.op,
            key: self.key.clone(),
            value: copy_opt(&self.value),
            height: self.height,
            timestamp: self.timestamp,
            txid: self.txid.clone(),
            output_index: self.output_index,
            signature: copy_opt(&self.signature),
            seq: self.seq,
            signer: copy_opt(&self.signer),
            verified: self.verified,
            status: self.status,
            memo: copy_opt(&self.memo),
            fee: self.fee,
            output_value: self.output_value,
        }
    }
}

/// One page of the history.
#[derive(Clone, Debug, PartialEq, Eq)]
pub struct HistoryResult {
    /// The database's creator: the signer of its `INIT`.
    pub signer: String,
    pub entries: Vec<HistoryEntry>,
    /// How many writes there are on all pages.
    pub total: u64,
    pub offset: u32,
    pub limit: Option<u32>,
}

/// Why a memo was not honored.
#[derive(Clone, Debug, PartialEq, Eq)]
pub enum DropReason {
    NoWriteAuthority,
    LastOwnerProtected,
    /// Any other reason, in words; whether it is the signature that failed.
    Other { text: String, signature: bool },
}

/// A reason in words.
pub open spec fn drop_text(r: DropReason) -> Seq<char> {
    match r {
        DropReason::NoWriteAuthority => "signer has no write authority"@,
        DropReason::LastOwnerProtected => "attempt to remove the last owner"@,
        DropReason::Other { text, .. } => text@,
    }
}

/// Whether it is the signature that failed.
pub open spec fn is_signature_fault(r: DropReason) -> bool {
    match r {
        DropReason::Other { signature, .. } => signature,
        _ => false,
    }
}

impl DropReason {
    /// The reason in words.
    pub fn message(&self) -> (r: String)
        ensures
            r@ == drop_text(*self),
    {
        match self {
            DropReason::NoWriteAuthority => "signer has no write authority".to_owned(),
            DropReason::LastOwnerProtected => "attempt to remove the last owner".to_owned(),
            DropReason::Other { text, .. } => text.clone(),
        }
    }

    /// Whether it is the signature that failed: no signer is known then.
    pub fn is_signature_failure(&self) -> (r: bool)
        ensures
            r == is_signature_fault(*self),
    {
        match self {
            DropReason::Other { signature, .. } => *signature,
            _ => false,
        }
    }
}

/// What became of a memo.
#[derive(Clone, Debug, PartialEq, Eq)]
pub enum RowOutcome {
    Applied,
    Pending,
    Dropped(DropReason),
}

/// A memo as an audit found it.
#[derive(Clone, Debug, PartialEq, Eq)]
pub struct AuditRow {
    pub mined_height: Option<u32>,
    pub timestamp: Option<u32>,
    pub txid: String,
    pub op: Option<Op>,
    pub key: Option<String>,
    pub value: Option<String>,
    /// The memo as it stood on the chain.
    pub raw: String,
    pub signer: Option<String>,
    pub outcome: RowOutcome,
}

/// What an audit found, oldest first.
#[derive(Clone, Debug, PartialEq, Eq)]
pub struct AuditResult {
    pub rows: Vec<AuditRow>,
    pub init: InitState,
    pub state: OrdMap<KeyState>,
    pub auth: AuthRegistry,
    pub version: VersionState,
}

/// When and by whom a role was given.
#[derive(Clone, Debug, PartialEq, Eq)]
pub struct GrantedRole {
    pub pubkey: String,
    pub height: Option<u32>,
    pub timestamp: Option<u32>,
    pub granted_by: Option<String>,
}

/// A role that was taken away, and when and by whom.
#[derive(Clone, Debug, PartialEq, Eq)]
pub struct RevokedRole {
    pub pubkey: String,
    pub was_owner: bool,
    /// What a writer could do.
    pub capabilities: Vec<String>,
    pub height: Option<u32>,
    pub timestamp: Option<u32>,
    pub revoked_by: Option<String>,
}

/// The high-water mark of an entity: the next sequence that nothing has used.
pub open spec fn high_water(versions: Map<Seq<char>, u64>, id: Seq<char>) -> u64 {
    if versions.dom().contains(id) {
        versions[id]
    } else {
        0
    }
}

/// A sequence at the high-water mark or at most `window` past it.
pub open spec fn in_window(mark: u64, seq: u64, window: u64) -> bool {
    mark <= seq && seq <= mark + window
}

/// Whether the sequence of an operation is accepted.
pub open spec fn seq_accepted(
    op: Op,
    key: Seq<char>,
    seq: u64,
    kv: Map<Seq<char>, u64>,
    targets: Map<Seq<char>, u64>,
    window: u64,
) -> bool {
    if is_data_op(op) {
        in_window(high_water(kv, key), seq, window)
    } else if is_registry_op(op) {
        in_window(high_water(targets, key), seq, window)
    } else {
        true
    }
}

/// The sequence after `seq`; the last one has none after it.
pub open spec fn next_seq(seq: u64) -> u64 {
    if seq == u64::MAX {
        u64::MAX
    } else {
        (seq + 1) as u64
    }
}

/// The high-water marks once `seq` has been used for `id`: they never fall.
pub open spec fn bumped(versions: Map<Seq<char>, u64>, id: Seq<char>, seq: u64) -> Map<
    Seq<char>,
    u64,
> {
    let mark = high_water(versions, id);
    versions.insert(
        id,
        if next_seq(seq) > mark {
            next_seq(seq)
        } else {
            mark
        },
    )
}

/// The high-water mark stored for `id`.
pub fn version_of(versions: &OrdMap<u64>, id: &str) -> (r: u64)
    requires
        versions.wf(),
    ensures
        r == high_water(versions.map(), id@),
{
    match versions.get(id) {
        Some(v) => *v,
        None => 0,
    }
}

/// Whether the sequence of an operation is accepted: a replayed or lost write
/// lies below the window, a runaway counter above it.
pub fn seq_in_window(
    op: Op,
    key: &str,
    seq: u64,
    kv_versions: &OrdMap<u64>,
    target_versions: &OrdMap<u64>,
    window: u64,
) -> (r: bool)
    requires
        kv_versions.wf(),
        target_versions.wf(),
    ensures
        r == seq_accepted(op, key@, seq, kv_versions.map(), target_versions.map(), window),
{
    let mark: u64 = match op {
        Op::Put | Op::SetL | Op::Del => version_of(kv_versions, key),
        Op::OwnerSet | Op::OwnerDel | Op::WriterSet | Op::WriterDel => version_of(
            target_versions,
            key,
        ),
        _ => {
            return true;
        },
    };
    mark <= seq && seq - mark <= window
}

/// Records that `seq` has been used for `id`.
pub fn bump_hw(versions: &mut OrdMap<u64>, id: String, seq: u64)
    requires
        old(versions).wf(),
    ensures
        final(versions).wf(),
        final(versions).map() == bumped(old(versions).map(), id@, seq),
{
    let mark: u64 = version_of(versions, id.as_str());
    let next: u64 = seq.saturating_add(1);
    if next > mark {
        versions.insert(id, next);
    } else {
        versions.insert(id, mark);
    }
}

/// What becomes of a memo.
#[derive(Clone, Copy, Debug, PartialEq, Eq, Structural)]
pub enum Verdict {
    Applied,
    Pending,
    Dropped,
}

/// Whether the rules honor an operation: `INIT` once and only from the root
/// signer, everything else only on an initialized database that is not sealed,
/// data within the signer's scope, the rest from owners alone.
pub open spec fn honored(
    op: Op,
    signer: Seq<char>,
    root: Seq<char>,
    initialized: bool,
    auth: AuthModel,
    finalized: bool,
    key_exists: bool,
) -> bool {
    if op is Init {
        !initialized && signer == root
    } else if !initialized || finalized {
        false
    } else if is_data_op(op) {
        write_allowed(auth, signer, op, key_exists)
    } else {
        auth.owners.contains(signer)
    }
}

/// What becomes of a memo that the rules honor or not, at a status.
pub open spec fn verdict(is_honored: bool, status: WriteStatus) -> Verdict {
    if !is_honored {
        Verdict::Dropped
    } else {
        match status {
            WriteStatus::Confirmed => Verdict::Applied,
            WriteStatus::Confirming { .. } => Verdict::Pending,
        }
    }
}

/// Decides what becomes of a memo: an honored one is applied once it is
/// confirmed and pending before that; any other is dropped.
pub fn decide(
    op: Op,
    signer: &str,
    root: &str,
    status: WriteStatus,
    initialized: bool,
    auth: &AuthRegistry,
    finalized: bool,
    key_exists: bool,
) -> (r: Verdict)
    requires
        auth.wf(),
    ensures
        r == verdict(
            honored(op, signer@, root@, initialized, auth@, finalized, key_exists),
            status,
        ),
{
    let ok: bool = match op {
        Op::Init => !initialized && str_equal(signer, root),
        Op::Put | Op::SetL | Op::Del => initialized && !finalized && auth.may_write(
            signer,
            op,
            key_exists,
        ),
        _ => initialized && !finalized && auth.is_owner(signer),
    };
    if !ok {
        Verdict::Dropped
    } else {
        match status {
            WriteStatus::Confirmed => Verdict::Applied,
            WriteStatus::Confirming { .. } => Verdict::Pending,
        }
    }
}

/// A registry that has an owner keeps one under every management operation.
pub proof fn an_owner_always_remains(
    a: AuthModel,
    op: Op,
    target: Option<Seq<char>>,
    value: Option<Seq<char>>,
)
    requires
        a.owners.finite(),
        a.owners.len() > 0,
    ensures
        managed(a, op, target, value).owners.finite(),
        managed(a, op, target, value).owners.len() > 0,
{
}

/// No signer is both owner and writer after a management operation, if none was
/// before.
pub proof fn owners_and_writers_stay_apart(
    a: AuthModel,
    op: Op,
    target: Option<Seq<char>>,
    value: Option<Seq<char>>,
)
    requires
        a.owners.disjoint(a.writers.dom()),
    ensures
        managed(a, op, target, value).owners.disjoint(
            managed(a, op, target, value).writers.dom(),
        ),
{
}

/// A high-water mark never falls, whatever sequence is used.
pub proof fn high_water_never_falls(
    versions: Map<Seq<char>, u64>,
    id: Seq<char>,
    seq: u64,
    other: Seq<char>,
)
    ensures
        high_water(bumped(versions, id, seq), other) >= high_water(versions, other),
{
}

/// A sequence that was used once is never accepted again: its memo cannot be
/// replayed. (The one exception is the last number of all, which has none after
/// it.)
pub proof fn used_sequence_is_refused(
    versions: Map<Seq<char>, u64>,
    id: Seq<char>,
    seq: u64,
    window: u64,
)
    requires
        seq < u64::MAX,
    ensures
        !in_window(high_water(bumped(versions, id, seq), id), seq, window),
{
}

/// The capabilities of a writer are independent of each other: `DESTROY` alone
/// decides on deleting, `UPDATE` alone on overwriting and `CREATE` alone on
/// writing a key that is not there, with `SET` and `SETL` alike.
pub proof fn capabilities_are_independent(a: AuthModel, signer: Seq<char>, scope: Scope)
    requires
        !a.owners.contains(signer),
        a.writers.dom().contains(signer),
        a.writers[signer] == scope,
    ensures
        write_allowed(a, signer, Op::Del, true) == scope.destroy,
        write_allowed(a, signer, Op::Del, false) == scope.destroy,
        write_allowed(a, signer, Op::Put, true) == scope.update,
        write_allowed(a, signer, Op::SetL, true) == scope.update,
        write_allowed(a, signer, Op::Put, false) == scope.create,
        write_allowed(a, signer, Op::SetL, false) == scope.create,
{
}

/// An owner may write, overwrite and delete every key; a signer that the registry
/// does not hold may do nothing of this; and nobody performs anything but `SET`,
/// `SETL` and `DEL` as a data write.
pub proof fn owners_write_and_strangers_do_not(
    a: AuthModel,
    signer: Seq<char>,
    op: Op,
    key_exists: bool,
)
    ensures
        a.owners.contains(signer) && (op is Put || op is SetL || op is Del) ==> write_allowed(
            a,
            signer,
            op,
            key_exists,
        ),
        !a.owners.contains(signer) && !a.writers.dom().contains(signer) ==> !write_allowed(
            a,
            signer,
            op,
            key_exists,
        ),
        !(op is Put || op is SetL || op is Del) ==> !write_allowed(a, signer, op, key_exists),
{
}

/// Reading a scope neither adds a capability nor drops one: whatever order they
/// come in, the printed scope names what was read, and nothing but `CREATE`,
/// `UPDATE` and `DESTROY` is ever read.
pub proof fn a_read_scope_names_what_was_granted(s: Seq<char>)
    requires
        parse_scope(s) is Some,
    ensures
        split(s, ',').to_set() == scope_capabilities(parse_scope(s)->0).to_set(),
        split(s, ',').to_set().subset_of(set!["CREATE"@, "UPDATE"@, "DESTROY"@]),
{
    let parts = split(s, ',');
    let scope = parse_scope(s)->0;
    let caps = scope_capabilities(scope);
    lemma_capabilities_differ();
    assert forall|t: Seq<char>| #[trigger] parts.contains(t) <==> caps.contains(t) by {
        if parts.contains(t) {
            let i = choose|i: int| 0 <= i < parts.len() && parts[i] == t;
            assert(is_capability(parts[i]));
        }
        if scope.create {
            assert(caps[0] == "CREATE"@);
        }
        if scope.destroy {
            assert(caps[caps.len() - 1] == "DESTROY"@);
        }
        if scope.update {
            assert(caps[if scope.create {
                1int
            } else {
                0int
            }] == "UPDATE"@);
        }
    }
    assert(parts.to_set() =~= caps.to_set());
    assert forall|t: Seq<char>| parts.to_set().contains(t) implies set![
        "CREATE"@,
        "UPDATE"@,
        "DESTROY"@,
    ].contains(t) by {
        let i = choose|i: int| 0 <= i < parts.len() && parts[i] == t;
        assert(is_capability(parts[i]));
    }
}

/// A scope that names nothing but capabilities is readable.
pub proof fn every_list_of_capabilities_is_a_scope(s: Seq<char>)
    requires
        forall|i: int|
            0 <= i < split(s, ',').len() ==> (#[trigger] split(s, ',')[i] == "CREATE"@ || split(
                s,
                ',',
            )[i] == "UPDATE"@ || split(s, ',')[i] == "DESTROY"@),
    ensures
        parse_scope(s) is Some,
        (parse_scope(s)->0).create == split(s, ',').contains("CREATE"@),
        (parse_scope(s)->0).update == split(s, ',').contains("UPDATE"@),
        (parse_scope(s)->0).destroy == split(s, ',').contains("DESTROY"@),
{
}

/// A writer may do exactly what it was granted: after a `WRITERSET` with a printed
/// scope, each kind of write is open to it if and only if the scope has the
/// capability, whatever it could do before.
pub proof fn a_writer_does_what_it_was_granted(a: AuthModel, id: Seq<char>, scope: Scope)
    requires
        !a.owners.contains(id),
        scope.create || scope.update || scope.destroy,
    ensures
        ({
            let wire = comma_joined(scope_capabilities(scope));
            let b = managed(a, Op::WriterSet, Some(id), Some(wire));
            &&& !b.owners.contains(id)
            &&& write_allowed(b, id, Op::Put, false) == scope.create
            &&& write_allowed(b, id, Op::SetL, false) == scope.create
            &&& write_allowed(b, id, Op::Put, true) == scope.update
            &&& write_allowed(b, id, Op::SetL, true) == scope.update
            &&& write_allowed(b, id, Op::Del, true) == scope.destroy
            &&& write_allowed(b, id, Op::Del, false) == scope.destroy
        }),
{
    scope_round_trip(scope);
}

/// Seating and revoking do what they say: an `OWNERSET` makes its target an owner,
/// an `OWNERDEL` takes that away as long as another owner is left, a `WRITERDEL`
/// leaves a writer with nothing, and a `WRITERSET` never touches an owner or heeds
/// an unreadable scope.
pub proof fn grants_and_revocations_take_effect(
    a: AuthModel,
    id: Seq<char>,
    other: Seq<char>,
    value: Option<Seq<char>>,
)
    requires
        a.owners.finite(),
        a.owners.disjoint(a.writers.dom()),
    ensures
        managed(a, Op::OwnerSet, Some(id), value).owners.contains(id),
        !managed(a, Op::OwnerSet, Some(id), value).writers.dom().contains(id),
        a.owners.contains(other) && other != id ==> !managed(
            a,
            Op::OwnerDel,
            Some(id),
            value,
        ).owners.contains(id),
        authority(managed(a, Op::OwnerDel, Some(id), value), id) is None || authority(
            managed(a, Op::OwnerDel, Some(id), value),
            id,
        ) == authority(a, id),
        a.owners == set![id] ==> managed(a, Op::OwnerDel, Some(id), value).owners.contains(id),
        !a.owners.contains(id) ==> authority(managed(a, Op::WriterDel, Some(id), value), id)
            is None,
        a.owners.contains(id) ==> managed(a, Op::WriterDel, Some(id), value) == a,
        a.owners.contains(id) ==> managed(a, Op::WriterSet, Some(id), value) == a,
        value is None || parse_scope(value->0) is None ==> managed(
            a,
            Op::WriterSet,
            Some(id),
            value,
        ) == a,
{
    if a.owners.contains(other) && other != id && a.owners.contains(id) {
        assert(a.owners.remove(id).contains(other));
        assert(a.owners.remove(id).len() > 0);
    }
    if a.owners.contains(id) {
        assert(!a.writers.dom().contains(id));
        assert(managed(a, Op::WriterDel, Some(id), value) =~= a);
    }
    if a.owners == set![id] {
        assert(a.owners.len() == 1);
    }
}

/// A management operation changes what its target may do and nothing else: every
/// other signer keeps its authority. An operation without a target, or that is no
/// management operation, changes nothing.
pub proof fn management_touches_its_target_alone(
    a: AuthModel,
    op: Op,
    target: Option<Seq<char>>,
    value: Option<Seq<char>>,
    other: Seq<char>,
)
    ensures
        target != Some(other) ==> authority(managed(a, op, target, value), other) == authority(
            a,
            other,
        ),
        target is None ==> managed(a, op, target, value) == a,
        !(op is OwnerSet || op is OwnerDel || op is WriterSet || op is WriterDel) ==> managed(
            a,
            op,
            target,
            value,
        ) == a,
{
}

/// Who is heard: the root signer alone opens a database, and only once; on an open
/// one, owners perform everything else, writers the data writes that their scope
/// covers, and strangers nothing; on a closed or sealed one nobody performs
/// anything else.
pub proof fn who_is_heard(
    op: Op,
    signer: Seq<char>,
    root: Seq<char>,
    auth: AuthModel,
    finalized: bool,
    key_exists: bool,
)
    ensures
        honored(Op::Init, signer, root, false, auth, finalized, key_exists) == (signer == root),
        !honored(Op::Init, signer, root, true, auth, finalized, key_exists),
        !(op is Init) ==> !honored(op, signer, root, false, auth, finalized, key_exists),
        !(op is Init) ==> !honored(op, signer, root, true, auth, true, key_exists),
        !(op is Init) && auth.owners.contains(signer) ==> honored(
            op,
            signer,
            root,
            true,
            auth,
            false,
            key_exists,
        ),
        !auth.owners.contains(signer) && auth.writers.dom().contains(signer) ==> {
            let scope = auth.writers[signer];
            &&& honored(Op::Del, signer, root, true, auth, false, key_exists) == scope.destroy
            &&& honored(Op::Put, signer, root, true, auth, false, true) == scope.update
            &&& honored(Op::SetL, signer, root, true, auth, false, true) == scope.update
            &&& honored(Op::Put, signer, root, true, auth, false, false) == scope.create
            &&& honored(Op::SetL, signer, root, true, auth, false, false) == scope.create
        },
        !auth.owners.contains(signer) && (op is OwnerSet || op is OwnerDel || op is WriterSet
            || op is WriterDel || op is Version || op is Finalize) ==> !honored(
            op,
            signer,
            root,
            true,
            auth,
            false,
            key_exists,
        ),
        !auth.owners.contains(signer) && !auth.writers.dom().contains(signer) ==> !honored(
            op,
            signer,
            root,
            true,
            auth,
            false,
            key_exists,
        ),
{
}

/// What is accepted of a key or a target: the mark and the `window` sequences past
/// it, and none below. A key that nothing was written to starts at zero. `SET`,
/// `SETL` and `DEL` of a key share one mark, the four management operations on a
/// target another, and `INIT`, `VERSION` and `FINALIZE` have none.
pub proof fn the_window_opens_at_the_mark(
    op: Op,
    key: Seq<char>,
    seq: u64,
    kv: Map<Seq<char>, u64>,
    targets: Map<Seq<char>, u64>,
    window: u64,
)
    ensures
        (op is Put || op is SetL || op is Del) && kv.dom().contains(key) ==> (seq_accepted(
            op,
            key,
            seq,
            kv,
            targets,
            window,
        ) <==> 0 <= seq - kv[key] <= window),
        (op is Put || op is SetL || op is Del) && !kv.dom().contains(key) ==> (seq_accepted(
            op,
            key,
            seq,
            kv,
            targets,
            window,
        ) <==> seq <= window),
        (op is OwnerSet || op is OwnerDel || op is WriterSet || op is WriterDel)
            && targets.dom().contains(key) ==> (seq_accepted(op, key, seq, kv, targets, window)
            <==> 0 <= seq - targets[key] <= window),
        (op is OwnerSet || op is OwnerDel || op is WriterSet || op is WriterDel)
            && !targets.dom().contains(key) ==> (seq_accepted(op, key, seq, kv, targets, window)
            <==> seq <= window),
        op is Init || op is Version || op is Finalize ==> seq_accepted(
            op,
            key,
            seq,
            kv,
            targets,
            window,
        ),
{
}

/// The sequence after one that was accepted is the next that is: the mark moves
/// right behind it, and no other key's mark moves.
pub proof fn the_mark_follows_what_was_used(
    versions: Map<Seq<char>, u64>,
    id: Seq<char>,
    seq: u64,
    window: u64,
    other: Seq<char>,
)
    requires
        in_window(high_water(versions, id), seq, window),
        seq < u64::MAX,
    ensures
        high_water(bumped(versions, id, seq), id) == seq + 1,
        in_window(high_water(bumped(versions, id, seq), id), (seq + 1) as u64, window),
        other != id ==> high_water(bumped(versions, id, seq), other) == high_water(versions, other),
        bumped(versions, id, seq).dom() == versions.dom().insert(id),
{
    assert(bumped(versions, id, seq).dom() =~= versions.dom().insert(id));
}

/// No two operations share a name.
pub proof fn op_names_are_distinct(a: Op, b: Op)
    ensures
        op_name(a) == op_name(b) ==> a == b,
{
    reveal_strlit("INIT");
    reveal_strlit("SET");
    reveal_strlit("SETL");
    reveal_strlit("DEL");
    reveal_strlit("OWNERSET");
    reveal_strlit("OWNERDEL");
    reveal_strlit("WRITERSET");
    reveal_strlit("WRITERDEL");
    reveal_strlit("VERSION");
    reveal_strlit("FINALIZE");
    if op_name(a) == op_name(b) {
        assert(op_name(a).len() == op_name(b).len());
        assert(op_name(a)[0] == op_name(b)[0]);
        assert(op_name(a).len() > 6 ==> op_name(a)[5] == op_name(b)[5] && op_name(a)[6]
            == op_name(b)[6]);
    }
}

/// A request for the next version takes effect with the flags that it prints, and
/// no other version can be reached: versions go up one by one.
pub proof fn versions_go_up_one_by_one(
    v: VersionState,
    blocks: BlockSet,
    key: Seq<char>,
    value: Option<Seq<char>>,
)
    ensures
        v.version < u32::MAX ==> version_step(
            v,
            decimal((v.version + 1) as nat),
            Some(blocks_wire(blocks)),
        ) == Some(VersionState { version: (v.version + 1) as u32, blocks }),
        version_step(v, key, value) is Some ==> (version_step(v, key, value)->0).version
            == v.version + 1,
        version_step(v, key, value) is Some ==> value is Some && parse_blocks(value->0) == Some(
            (version_step(v, key, value)->0).blocks,
        ),
        version_step(v, key, None) is None,
{
    blocks_round_trip(blocks);
    decimal_round_trip((v.version + 1) as nat);
}

/// Reading block flags neither adds one nor drops one: `blockall` stands for all
/// three, `warn` for none, and nothing but flags is ever read.
pub proof fn read_flags_are_what_was_asked(s: Seq<char>)
    requires
        parse_blocks(s) is Some,
    ensures
        ({
            let b = parse_blocks(s)->0;
            let parts = split(s, ',');
            &&& b.sync <==> parts.contains("blocksync"@) || parts.contains("blockall"@)
            &&& b.read <==> parts.contains("blockread"@) || parts.contains("blockall"@)
            &&& b.write <==> parts.contains("blockwrite"@) || parts.contains("blockall"@)
            &&& parts.to_set().subset_of(
                set!["warn"@, "blocksync"@, "blockread"@, "blockwrite"@, "blockall"@],
            )
        }),
{
    let parts = split(s, ',');
    assert forall|t: Seq<char>| parts.to_set().contains(t) implies set![
        "warn"@,
        "blocksync"@,
        "blockread"@,
        "blockwrite"@,
        "blockall"@,
    ].contains(t) by {
        let i = choose|i: int| 0 <= i < parts.len() && parts[i] == t;
        assert(is_block_flag(parts[i]));
    }
}

/// A printed scope names each capability exactly where the scope has it.
pub proof fn capabilities_name_the_scope(s: Scope)
    ensures
        scope_capabilities(s).contains("CREATE"@) <==> s.create,
        scope_capabilities(s).contains("UPDATE"@) <==> s.update,
        scope_capabilities(s).contains("DESTROY"@) <==> s.destroy,
{
    lemma_capabilities_differ();
    let caps = scope_capabilities(s);
    if s.create {
        assert(caps[0] == "CREATE"@);
    }
    if s.destroy {
        assert(caps[caps.len() - 1] == "DESTROY"@);
    }
    if s.update {
        assert(caps[if s.create {
            1int
        } else {
            0int
        }] == "UPDATE"@);
    }
}

/// Nothing is applied that the rules do not honor, and nothing before it is
/// confirmed; what they honor is never dropped.
pub proof fn only_confirmed_and_honored_memos_apply(
    op: Op,
    signer: Seq<char>,
    root: Seq<char>,
    initialized: bool,
    auth: AuthModel,
    finalized: bool,
    key_exists: bool,
    status: WriteStatus,
)
    ensures
        ({
            let h = honored(op, signer, root, initialized, auth, finalized, key_exists);
            let v = verdict(h, status);
            &&& v is Applied <==> h && status is Confirmed
            &&& v is Pending <==> h && status is Confirming
            &&& v is Dropped <==> !h
        }),
{
}

/// A flag stops only clients that do not have the version: a database that never
/// asked for one stops nobody, and one that asks for a newer one stops this client
/// in what its flags name.
pub proof fn flags_stop_older_clients_alone(v: VersionState, flag: bool)
    ensures
        v.version == 0 ==> !is_blocked(v, flag),
        v.version > 0 ==> (is_blocked(v, flag) <==> flag),
        !is_blocked(genesis_version(), genesis_version().blocks.sync),
        !is_blocked(genesis_version(), genesis_version().blocks.read),
        !is_blocked(genesis_version(), genesis_version().blocks.write),
        genesis_version().version == 0,
        !genesis_version().blocks.sync && !genesis_version().blocks.read
            && !genesis_version().blocks.write,
{
}

} // verus!
