//! The confirmed state of a database: what its deeply buried memos add up to,
//! with an append-only history of every honored write.
//!
//! A memo enters the snapshot only once it lies [`SAFE_DEPTH`] blocks deep, far
//! below any reorganisation of the chain, so nothing here is ever taken back. The
//! blocks above are replayed on each read.

use crate::internal::txid::{txid_display, txid_text};
use crate::lex::{bytes_before, bytes_equal, lemma_lex_transitive, lemma_lex_trichotomy, lex_lt, str_equal};
use crate::ordmap::{Duplicate, OrdMap};
use crate::protocol::{
    bump_hw, bumped, comma_joined, decide, empty_auth, genesis_version, high_water, honored,
    is_data_op, is_registry_op, managed, op_name, scope_capabilities, scope_round_trip,
    seq_accepted, seq_in_window, version_step, versions_go_up_one_by_one, with_owner, AuthModel,
    AuthRegistry, BlockSet, Op, Scope, Verdict, VersionState, WriteStatus,
};
use crate::text::{copy_opt, decimal, opt_text};
use vstd::prelude::*;
use vstd::string::*;

verus! {

/// A memo enters the snapshot once it is at least this many blocks deep.
pub const SAFE_DEPTH: u32 = 100;

/// The version of the stored layout. A stored snapshot of any other version is
/// discarded and built again from the chain.
pub const SCHEMA_VERSION: u32 = 12;

/// The place of an output on the chain, and the order of all outputs.
#[verifier::ext_equal]
pub struct Pos {
    pub height: int,
    pub txid: Seq<u8>,
    pub output_index: int,
}

/// Chain order: by height, then transaction id, then output.
pub open spec fn pos_lt(a: Pos, b: Pos) -> bool {
    ||| a.height < b.height
    ||| a.height == b.height && lex_lt(a.txid, b.txid)
    ||| a.height == b.height && a.txid == b.txid && a.output_index < b.output_index
}

/// Two places are the same or one lies before the other.
pub proof fn lemma_pos_trichotomy(a: Pos, b: Pos)
    ensures
        pos_lt(a, b) || pos_lt(b, a) || a == b,
        !(pos_lt(a, b) && pos_lt(b, a)),
        a == b ==> !pos_lt(a, b),
{
    lemma_lex_trichotomy(a.txid, b.txid);
}

/// Chain order is transitive.
pub proof fn lemma_pos_transitive(a: Pos, b: Pos, c: Pos)
    requires
        pos_lt(a, b),
        pos_lt(b, c),
    ensures
        pos_lt(a, c),
{
    if lex_lt(a.txid, b.txid) && lex_lt(b.txid, c.txid) {
        lemma_lex_transitive(a.txid, b.txid, c.txid);
    }
}

/// The place of the last memo that the snapshot has taken in.
#[derive(Clone, Debug, PartialEq, Eq)]
pub struct Watermark {
    pub height: u32,
    /// The stored bytes of the transaction id.
    pub txid: Vec<u8>,
    pub output_index: u32,
}

impl View for Watermark {
    type V = Pos;

    open spec fn view(&self) -> Pos {
        Pos { height: self.height as int, txid: self.txid@, output_index: self.output_index as int }
    }
}

/// The watermark of a snapshot that has taken nothing in.
pub open spec fn genesis_pos() -> Pos {
    Pos { height: 0, txid: Seq::empty(), output_index: 0 }
}

impl Watermark {
    /// The watermark of a snapshot that has taken nothing in.
    pub fn default() -> (r: Watermark)
        ensures
            r@ == genesis_pos(),
    {
        let r = Watermark { height: 0, txid: Vec::new(), output_index: 0 };
        assert(r@ =~= genesis_pos());
        r
    }

    /// A copy.
    pub fn copy(&self) -> (r: Watermark)
        ensures
            r@ == self@,
    {
        let r = Watermark {
            height: self.height,
            txid: copy_bytes(&self.txid),
            output_index: self.output_index,
        };
        assert(r@ =~= self@);
        r
    }
}

/// The bytes of an optional field.
pub open spec fn opt_bytes(o: Option<Vec<u8>>) -> Option<Seq<u8>> {
    match o {
        Some(b) => Some(b@),
        None => None,
    }
}

/// A copy of an optional field.
pub fn copy_opt_bytes(o: &Option<Vec<u8>>) -> (r: Option<Vec<u8>>)
    ensures
        opt_bytes(r) == opt_bytes(*o),
{
    match o {
        Some(b) => Some(copy_bytes(b)),
        None => None,
    }
}

/// A copy of some bytes.
pub fn copy_bytes(b: &Vec<u8>) -> (r: Vec<u8>)
    ensures
        r@ == b@,
{
    let mut r: Vec<u8> = Vec::new();
    let mut i: usize = 0;
    while i < b.len()
        invariant
            i <= b.len(),
            r@ == b@.take(i as int),
        decreases b.len() - i,
    {
        r.push(b[i]);
        i += 1;
        assert(b@.take(i as int) =~= b@.take(i - 1).push(b@[i - 1]));
    }
    assert(b@.take(i as int) =~= b@);
    r
}

/// A memo that parsed as an operation and whose signature led to a signer.
#[derive(Clone, Debug, PartialEq, Eq)]
pub struct Command {
    pub op: Op,
    /// The key of a data operation, the target of a management operation, the
    /// version of `VERSION`, the address that `INIT` echoes.
    pub key: String,
    /// The canonical identity that `key` names, if it names one.
    pub target: Option<String>,
    pub value: Option<String>,
    /// The replay-protection sequence that the memo was signed over.
    pub seq: u64,
    pub sig_hex: String,
    /// The canonical identity of the signer.
    pub signer: String,
    /// The signed first-line comment, if there was one.
    pub comment: Option<String>,
}

/// [`Command`] as mathematics.
pub struct CommandModel {
    pub op: Op,
    pub key: Seq<char>,
    pub target: Option<Seq<char>>,
    pub value: Option<Seq<char>>,
    pub seq: u64,
    pub sig: Seq<char>,
    pub signer: Seq<char>,
    pub comment: Option<Seq<char>>,
}

impl View for Command {
    type V = CommandModel;

    open spec fn view(&self) -> CommandModel {
        CommandModel {
            op: self.op,
            key: self.key@,
            target: opt_text(self.target),
            value: opt_text(self.value),
            seq: self.seq,
            sig: self.sig_hex@,
            signer: self.signer@,
            comment: opt_text(self.comment),
        }
    }
}

/// A memo that is deep enough to enter the snapshot.
#[derive(Clone, Debug, PartialEq, Eq)]
pub struct PromoteRow {
    pub mined_height: u32,
    pub txid: Vec<u8>,
    pub output_index: u32,
    /// When the block was mined (unix seconds), if known.
    pub block_time: Option<u32>,
    /// The memo as it stood on the chain.
    pub memo_text: String,
    /// The operation, unless the memo is no operation of this protocol or its
    /// signature leads to no signer.
    pub command: Option<Command>,
}

/// [`PromoteRow`] as mathematics.
pub struct RowModel {
    pub pos: Pos,
    pub block_time: Option<u32>,
    pub memo: Seq<char>,
    pub command: Option<CommandModel>,
}

impl View for PromoteRow {
    type V = RowModel;

    open spec fn view(&self) -> RowModel {
        RowModel {
            pos: Pos {
                height: self.mined_height as int,
                txid: self.txid@,
                output_index: self.output_index as int,
            },
            block_time: self.block_time,
            memo: self.memo_text@,
            command: match self.command {
                Some(c) => Some(c@),
                None => None,
            },
        }
    }
}

/// One honored write in the history.
#[derive(Clone, Debug, PartialEq, Eq)]
pub struct HistRow {
    pub mined_height: u32,
    pub txid: Vec<u8>,
    pub output_index: u32,
    pub key: String,
    /// The operation as it stood on the wire.
    pub op: String,
    pub value: Option<String>,
    pub signature: String,
    pub block_time: Option<u32>,
    /// Who signed the write, which need not be the root signer.
    pub signer: String,
    pub seq: u64,
    pub comment: Option<String>,
    /// The memo as it stood on the chain.
    pub memo: String,
}

/// [`HistRow`] as mathematics.
pub struct HistModel {
    pub pos: Pos,
    pub key: Seq<char>,
    pub op: Seq<char>,
    pub value: Option<Seq<char>>,
    pub signature: Seq<char>,
    pub block_time: Option<u32>,
    pub signer: Seq<char>,
    pub seq: u64,
    pub comment: Option<Seq<char>>,
    pub memo: Seq<char>,
}

impl View for HistRow {
    type V = HistModel;

    open spec fn view(&self) -> HistModel {
        HistModel {
            pos: Pos {
                height: self.mined_height as int,
                txid: self.txid@,
                output_index: self.output_index as int,
            },
            key: self.key@,
            op: self.op@,
            value: opt_text(self.value),
            signature: self.signature@,
            block_time: self.block_time,
            signer: self.signer@,
            seq: self.seq,
            comment: opt_text(self.comment),
            memo: self.memo@,
        }
    }
}

impl HistRow {
    /// A copy.
    pub fn copy(&self) -> (r: HistRow)
        ensures
            r@ == self@,
    {
        HistRow {
            mined_height: self.mined_height,
            txid: copy_bytes(&self.txid),
            output_index: self.output_index,
            key: self.key.clone(),
            op: self.op.clone(),
            value: copy_opt(&self.value),
            signature: self.signature.clone(),
            block_time: self.block_time,
            signer: self.signer.clone(),
            seq: self.seq,
            comment: copy_opt(&self.comment),
            memo: self.memo.clone(),
        }
    }
}

/// What the snapshot holds under a key.
#[derive(Clone, Debug, PartialEq, Eq)]
pub struct KvCell {
    pub value: String,
    pub mined_height: u32,
    /// The shown transaction id of the write.
    pub txid: Option<String>,
    pub block_time: Option<u32>,
}

/// [`KvCell`] as mathematics.
pub struct KvModel {
    pub value: Seq<char>,
    pub mined_height: u32,
    pub txid: Option<Seq<char>>,
    pub block_time: Option<u32>,
}

impl View for KvCell {
    type V = KvModel;

    open spec fn view(&self) -> KvModel {
        KvModel {
            value: self.value@,
            mined_height: self.mined_height,
            txid: opt_text(self.txid),
            block_time: self.block_time,
        }
    }
}

impl Duplicate for KvCell {
    fn duplicate(&self) -> (r: Self) {
        KvCell {
            value: self.value.clone(),
            mined_height: self.mined_height,
            txid: copy_opt(&self.txid),
            block_time: self.block_time,
        }
    }
}

/// The confirmed state of a database.
#[derive(Clone, Debug, PartialEq, Eq)]
pub struct Snapshot {
    pub initialized: bool,
    pub finalized: bool,
    pub watermark: Watermark,
    pub version: VersionState,
    pub kv: OrdMap<KvCell>,
    pub history: Vec<HistRow>,
    pub auth: AuthRegistry,
    pub kv_versions: OrdMap<u64>,
    pub target_versions: OrdMap<u64>,
}

/// [`Snapshot`] as mathematics.
#[verifier::ext_equal]
pub struct SnapModel {
    pub initialized: bool,
    pub finalized: bool,
    pub watermark: Pos,
    pub version: VersionState,
    pub kv: Map<Seq<char>, KvModel>,
    pub history: Seq<HistModel>,
    pub auth: AuthModel,
    pub kv_versions: Map<Seq<char>, u64>,
    pub target_versions: Map<Seq<char>, u64>,
}

impl View for Snapshot {
    type V = SnapModel;

    open spec fn view(&self) -> SnapModel {
        SnapModel {
            initialized: self.initialized,
            finalized: self.finalized,
            watermark: self.watermark@,
            version: self.version,
            kv: self.kv.map(),
            history: self.history@.map_values(|h: HistRow| h@),
            auth: self.auth@,
            kv_versions: self.kv_versions.map(),
            target_versions: self.target_versions.map(),
        }
    }
}

/// History rows stand in chain order, one for each place.
pub open spec fn in_chain_order(h: Seq<HistModel>) -> bool {
    forall|i: int, j: int| 0 <= i < j < h.len() ==> pos_lt(#[trigger] h[i].pos, #[trigger] h[j].pos)
}

/// Whether an operation is recorded in the history.
pub open spec fn is_recorded_op(op: Seq<char>) -> bool {
    op == "INIT"@ || op == "SET"@ || op == "SETL"@ || op == "DEL"@
}

/// The history holds data writes and `INIT` alone.
pub open spec fn only_recorded_ops(h: Seq<HistModel>) -> bool {
    forall|i: int| 0 <= i < h.len() ==> is_recorded_op((#[trigger] h[i]).op)
}

/// The snapshot of a database of which nothing is known.
pub open spec fn genesis() -> SnapModel {
    SnapModel {
        initialized: false,
        finalized: false,
        watermark: genesis_pos(),
        version: genesis_version(),
        kv: Map::empty(),
        history: Seq::empty(),
        auth: empty_auth(),
        kv_versions: Map::empty(),
        target_versions: Map::empty(),
    }
}

/// Why a batch was refused.
#[derive(Clone, Copy, Debug, PartialEq, Eq, Structural)]
pub enum PromoteError {
    /// An honored `SET` carries no value.
    SetWithoutValue,
    /// The history already holds a row at that place.
    DuplicateRow,
}

/// How many rows of `h` come before `p`.
pub open spec fn rank(h: Seq<HistModel>, p: Pos) -> nat
    decreases h.len(),
{
    if h.len() == 0 {
        0
    } else {
        rank(h.drop_last(), p) + (if pos_lt(h.last().pos, p) {
            1nat
        } else {
            0
        })
    }
}

/// Whether `h` holds a row at `p`.
pub open spec fn has_row(h: Seq<HistModel>, p: Pos) -> bool {
    exists|i: int| 0 <= i < h.len() && (#[trigger] h[i]).pos == p
}

proof fn lemma_rank(h: Seq<HistModel>, p: Pos, q: int)
    requires
        0 <= q <= h.len(),
        forall|i: int| 0 <= i < q ==> pos_lt((#[trigger] h[i]).pos, p),
        forall|i: int| q <= i < h.len() ==> !pos_lt((#[trigger] h[i]).pos, p),
    ensures
        rank(h, p) == q,
    decreases h.len(),
{
    if h.len() > 0 {
        let t = h.drop_last();
        let n = h.len() - 1;
        assert(h.last() == h[n]);
        lemma_rank(
            t,
            p,
            if q <= n {
                q
            } else {
                n
            },
        );
    }
}

/// The snapshot with one more history row, at its place in chain order.
pub open spec fn with_row(m: SnapModel, h: HistModel) -> Result<SnapModel, PromoteError> {
    if has_row(m.history, h.pos) {
        Err(PromoteError::DuplicateRow)
    } else {
        Ok(SnapModel { history: m.history.insert(rank(m.history, h.pos) as int, h), ..m })
    }
}

/// The history row of an honored write.
pub open spec fn hist_row(
    row: RowModel,
    cmd: CommandModel,
    value: Option<Seq<char>>,
    seq: u64,
) -> HistModel {
    HistModel {
        pos: row.pos,
        key: cmd.key,
        op: op_name(cmd.op),
        value,
        signature: cmd.sig,
        block_time: row.block_time,
        signer: cmd.signer,
        seq,
        comment: cmd.comment,
        memo: row.memo,
    }
}

/// What the snapshot holds under a key that `row` wrote.
pub open spec fn written_cell(row: RowModel, value: Seq<char>) -> KvModel {
    KvModel {
        value,
        mined_height: row.pos.height as u32,
        txid: if row.pos.txid.len() == 32 {
            Some(txid_text(row.pos.txid))
        } else {
            None
        },
        block_time: row.block_time,
    }
}

/// The snapshot after an operation that the rules honor.
pub open spec fn applied(
    m: SnapModel,
    row: RowModel,
    cmd: CommandModel,
    root: Seq<char>,
) -> Result<SnapModel, PromoteError> {
    match cmd.op {
        Op::Init => with_row(
            SnapModel { initialized: true, auth: with_owner(m.auth, root), ..m },
            hist_row(row, cmd, None, 0),
        ),
        Op::Put | Op::SetL => match cmd.value {
            None => Err(PromoteError::SetWithoutValue),
            Some(v) => with_row(
                SnapModel {
                    kv: m.kv.insert(cmd.key, written_cell(row, v)),
                    kv_versions: bumped(m.kv_versions, cmd.key, cmd.seq),
                    ..m
                },
                hist_row(row, cmd, Some(v), cmd.seq),
            ),
        },
        Op::Del => with_row(
            SnapModel {
                kv: m.kv.remove(cmd.key),
                kv_versions: bumped(m.kv_versions, cmd.key, cmd.seq),
                ..m
            },
            hist_row(row, cmd, None, cmd.seq),
        ),
        Op::OwnerSet | Op::OwnerDel | Op::WriterSet | Op::WriterDel => Ok(
            SnapModel {
                auth: managed(m.auth, cmd.op, cmd.target, cmd.value),
                target_versions: bumped(m.target_versions, cmd.key, cmd.seq),
                ..m
            },
        ),
        Op::Version => Ok(
            SnapModel {
                version: match version_step(m.version, cmd.key, cmd.value) {
                    Some(v) => v,
                    None => m.version,
                },
                ..m
            },
        ),
        Op::Finalize => Ok(SnapModel { finalized: true, ..m }),
    }
}

/// Whether the snapshot honors an operation: its sequence is accepted and its
/// signer may perform it.
pub open spec fn accepts(m: SnapModel, cmd: CommandModel, root: Seq<char>, window: u64) -> bool {
    &&& seq_accepted(cmd.op, cmd.key, cmd.seq, m.kv_versions, m.target_versions, window)
    &&& honored(
        cmd.op,
        cmd.signer,
        root,
        m.initialized,
        m.auth,
        m.finalized,
        m.kv.dom().contains(cmd.key),
    )
}

/// The snapshot after one row. A memo that is no operation, or one that is not
/// honored, changes nothing.
pub open spec fn step(m: SnapModel, row: RowModel, root: Seq<char>, window: u64) -> Result<
    SnapModel,
    PromoteError,
> {
    match row.command {
        None => Ok(m),
        Some(cmd) => if accepts(m, cmd, root, window) {
            applied(m, row, cmd, root)
        } else {
            Ok(m)
        },
    }
}

/// The snapshot after a batch of rows, one by one; the first row that cannot be
/// recorded refuses the whole batch.
pub open spec fn fold(
    m: SnapModel,
    rows: Seq<RowModel>,
    root: Seq<char>,
    window: u64,
) -> Result<SnapModel, PromoteError>
    decreases rows.len(),
{
    if rows.len() == 0 {
        Ok(m)
    } else {
        match fold(m, rows.drop_last(), root, window) {
            Err(e) => Err(e),
            Ok(n) => step(n, rows.last(), root, window),
        }
    }
}

/// The snapshot after a promoted batch. A batch that leaves the database without
/// its `INIT` is put off whole: the `INIT` may still lie in blocks that have not
/// been scanned.
pub open spec fn promoted(
    m: SnapModel,
    rows: Seq<RowModel>,
    root: Seq<char>,
    window: u64,
) -> Result<SnapModel, PromoteError> {
    if rows.len() == 0 {
        Ok(m)
    } else {
        match fold(m, rows, root, window) {
            Err(e) => Err(e),
            Ok(n) => if !n.initialized {
                Ok(m)
            } else {
                Ok(SnapModel { watermark: rows.last().pos, ..n })
            },
        }
    }
}

/// The rows of a batch as mathematics.
pub open spec fn row_models(rows: Seq<PromoteRow>) -> Seq<RowModel> {
    rows.map_values(|r: PromoteRow| r@)
}

impl Snapshot {
    /// Keys, registry and history are in order.
    pub open spec fn wf(self) -> bool {
        &&& self.kv.wf()
        &&& self.auth.wf()
        &&& self.kv_versions.wf()
        &&& self.target_versions.wf()
        &&& in_chain_order(self@.history)
        &&& only_recorded_ops(self@.history)
    }

    /// The snapshot of a database of which nothing is known.
    pub fn new() -> (r: Snapshot)
        ensures
            r.wf(),
            r@ == genesis(),
    {
        let r = Snapshot {
            initialized: false,
            finalized: false,
            watermark: Watermark::default(),
            version: VersionState::default(),
            kv: OrdMap::new(),
            history: Vec::new(),
            auth: AuthRegistry::default(),
            kv_versions: OrdMap::new(),
            target_versions: OrdMap::new(),
        };
        assert(r@ =~= genesis());
        r
    }

    /// Forgets everything.
    pub fn wipe(&mut self)
        ensures
            final(self).wf(),
            final(self)@ == genesis(),
    {
        *self = Snapshot::new();
    }

    /// A copy.
    pub fn copy(&self) -> (r: Snapshot)
        requires
            self.wf(),
        ensures
            r.wf(),
            r@ == self@,
    {
        let mut history: Vec<HistRow> = Vec::new();
        let mut i: usize = 0;
        while i < self.history.len()
            invariant
                i <= self.history.len(),
                history.len() == i,
                forall|k: int| 0 <= k < i ==> (#[trigger] history@[k])@ == self.history@[k]@,
            decreases self.history.len() - i,
        {
            history.push(self.history[i].copy());
            i += 1;
        }
        let r = Snapshot {
            initialized: self.initialized,
            finalized: self.finalized,
            watermark: self.watermark.copy(),
            version: self.version,
            kv: self.kv.copy(),
            history,
            auth: self.auth.copy(),
            kv_versions: self.kv_versions.copy(),
            target_versions: self.target_versions.copy(),
        };
        assert(r@ =~= self@);
        r
    }

    /// Appends a history row at its place; false if there is one already.
    fn record(&mut self, row: HistRow) -> (done: bool)
        requires
            old(self).wf(),
            is_recorded_op(row@.op),
        ensures
            final(self).wf(),
            done == (with_row(old(self)@, row@) is Ok),
            done ==> with_row(old(self)@, row@) == Ok::<SnapModel, PromoteError>(final(self)@),
            !done ==> final(self)@ == old(self)@,
    {
        let ghost h = self@.history;
        let ghost p = row@.pos;
        let mut q: usize = self.history.len();
        while q > 0 && !row_before(&self.history[q - 1], &row)
            invariant
                q <= self.history.len(),
                self.history.len() == h.len(),
                h == self@.history,
                p == row@.pos,
                forall|i: int| q <= i < h.len() ==> !pos_lt((#[trigger] h[i]).pos, p),
            decreases q,
        {
            q -= 1;
        }
        proof {
            assert forall|i: int| 0 <= i < q implies pos_lt((#[trigger] h[i]).pos, p) by {
                if i < q - 1 {
                    assert(pos_lt(h[i].pos, h[q - 1].pos));
                    lemma_pos_transitive(h[i].pos, h[q - 1].pos, p);
                }
            }
            lemma_rank(h, p, q as int);
        }
        if q < self.history.len() && same_place(&self.history[q], &row) {
            assert(h[q as int].pos == p);
            return false;
        }
        proof {
            if has_row(h, p) {
                let i = choose|i: int| 0 <= i < h.len() && (#[trigger] h[i]).pos == p;
                lemma_pos_trichotomy(p, p);
                if i < q {
                    assert(pos_lt(h[i].pos, p));
                } else if i > q {
                    assert(pos_lt(h[q as int].pos, h[i].pos));
                    assert(!pos_lt(h[q as int].pos, p));
                }
            }
            lemma_insert_row(h, row@, q as int);
        }
        self.history.insert(q, row);
        assert(self@.history =~= h.insert(q as int, row@));
        assert(self@ =~= SnapModel { history: h.insert(q as int, row@), ..old(self)@ });
        true
    }
}

proof fn lemma_insert_row(h: Seq<HistModel>, r: HistModel, q: int)
    requires
        in_chain_order(h),
        0 <= q <= h.len(),
        !has_row(h, r.pos),
        forall|i: int| 0 <= i < q ==> pos_lt((#[trigger] h[i]).pos, r.pos),
        forall|i: int| q <= i < h.len() ==> !pos_lt((#[trigger] h[i]).pos, r.pos),
    ensures
        in_chain_order(h.insert(q, r)),
{
    let t = h.insert(q, r);
    assert forall|i: int, j: int| 0 <= i < j < t.len() implies pos_lt(
        #[trigger] t[i].pos,
        #[trigger] t[j].pos,
    ) by {
        if j < q {
            assert(pos_lt(h[i].pos, h[j].pos));
        } else if j == q {
            assert(pos_lt(h[i].pos, r.pos));
        } else {
            assert(t[j] == h[j - 1]);
            if i < q {
                assert(pos_lt(h[i].pos, h[j - 1].pos));
            } else if i == q {
                assert(!pos_lt(h[j - 1].pos, r.pos));
                assert(h[j - 1].pos != r.pos);
                lemma_pos_trichotomy(h[j - 1].pos, r.pos);
            } else {
                assert(t[i] == h[i - 1]);
                assert(pos_lt(h[i - 1].pos, h[j - 1].pos));
            }
        }
    }
}

/// Whether `a` comes before `b` in chain order.
fn row_before(a: &HistRow, b: &HistRow) -> (r: bool)
    ensures
        r == pos_lt(a@.pos, b@.pos),
{
    if a.mined_height != b.mined_height {
        return a.mined_height < b.mined_height;
    }
    if bytes_before(a.txid.as_slice(), b.txid.as_slice()) {
        return true;
    }
    proof {
        lemma_lex_trichotomy(a.txid@, b.txid@);
    }
    bytes_equal(a.txid.as_slice(), b.txid.as_slice()) && a.output_index < b.output_index
}

/// Whether two rows stand at the same place.
fn same_place(a: &HistRow, b: &HistRow) -> (r: bool)
    ensures
        r == (a@.pos == b@.pos),
{
    let r = a.mined_height == b.mined_height && a.output_index == b.output_index && bytes_equal(
        a.txid.as_slice(),
        b.txid.as_slice(),
    );
    assert(r ==> a@.pos =~= b@.pos);
    r
}

/// The history row of an honored write.
fn make_row(row: &PromoteRow, cmd: &Command, value: Option<String>, seq: u64) -> (r: HistRow)
    ensures
        r@ == hist_row(row@, cmd@, opt_text(value), seq),
{
    HistRow {
        mined_height: row.mined_height,
        txid: copy_bytes(&row.txid),
        output_index: row.output_index,
        key: cmd.key.clone(),
        op: cmd.op.as_str().to_owned(),
        value,
        signature: cmd.sig_hex.clone(),
        block_time: row.block_time,
        signer: cmd.signer.clone(),
        seq,
        comment: copy_opt(&cmd.comment),
        memo: row.memo_text.clone(),
    }
}

impl Snapshot {
    /// Takes one row in. On an error the snapshot may be left half changed.
    fn apply_row(&mut self, row: &PromoteRow, root: &str, window: u64) -> (r: Result<
        (),
        PromoteError,
    >)
        requires
            old(self).wf(),
        ensures
            final(self).wf(),
            r matches Ok(_) ==> step(old(self)@, row@, root@, window) == Ok::<
                SnapModel,
                PromoteError,
            >(final(self)@),
            r matches Err(e) ==> step(old(self)@, row@, root@, window) == Err::<
                SnapModel,
                PromoteError,
            >(e),
    {
        let cmd = match &row.command {
            None => {
                return Ok(());
            },
            Some(cmd) => cmd,
        };
        if !seq_in_window(
            cmd.op,
            cmd.key.as_str(),
            cmd.seq,
            &self.kv_versions,
            &self.target_versions,
            window,
        ) {
            return Ok(());
        }
        let key_exists = self.kv.contains_key(cmd.key.as_str());
        let verdict = decide(
            cmd.op,
            cmd.signer.as_str(),
            root,
            WriteStatus::Confirmed,
            self.initialized,
            &self.auth,
            self.finalized,
            key_exists,
        );
        match verdict {
            Verdict::Applied => {},
            _ => {
                return Ok(());
            },
        }
        assert(accepts(old(self)@, cmd@, root@, window));
        match cmd.op {
            Op::Init => {
                self.initialized = true;
                self.auth.insert_owner(root.to_owned());
                assert(self@ =~= SnapModel {
                    initialized: true,
                    auth: with_owner(old(self)@.auth, root@),
                    ..old(self)@
                });
                if !self.record(make_row(row, cmd, None, 0)) {
                    return Err(PromoteError::DuplicateRow);
                }
                Ok(())
            },
            Op::Put | Op::SetL => {
                let value = match &cmd.value {
                    None => {
                        return Err(PromoteError::SetWithoutValue);
                    },
                    Some(v) => v,
                };
                let cell = KvCell {
                    value: value.clone(),
                    mined_height: row.mined_height,
                    txid: txid_display(row.txid.as_slice()),
                    block_time: row.block_time,
                };
                assert(cell@ == written_cell(row@, value@));
                self.kv.insert(cmd.key.clone(), cell);
                bump_hw(&mut self.kv_versions, cmd.key.clone(), cmd.seq);
                assert(self@ =~= SnapModel {
                    kv: old(self)@.kv.insert(cmd.key@, written_cell(row@, value@)),
                    kv_versions: bumped(old(self)@.kv_versions, cmd.key@, cmd.seq),
                    ..old(self)@
                });
                if !self.record(make_row(row, cmd, Some(value.clone()), cmd.seq)) {
                    return Err(PromoteError::DuplicateRow);
                }
                Ok(())
            },
            Op::Del => {
                self.kv.remove(cmd.key.as_str());
                bump_hw(&mut self.kv_versions, cmd.key.clone(), cmd.seq);
                assert(self@ =~= SnapModel {
                    kv: old(self)@.kv.remove(cmd.key@),
                    kv_versions: bumped(old(self)@.kv_versions, cmd.key@, cmd.seq),
                    ..old(self)@
                });
                if !self.record(make_row(row, cmd, None, cmd.seq)) {
                    return Err(PromoteError::DuplicateRow);
                }
                Ok(())
            },
            Op::OwnerSet | Op::OwnerDel | Op::WriterSet | Op::WriterDel => {
                let target = match &cmd.target {
                    Some(t) => Some(t.as_str()),
                    None => None,
                };
                let value = match &cmd.value {
                    Some(v) => Some(v.as_str()),
                    None => None,
                };
                self.auth.apply_management(cmd.op, target, value);
                // The mark moves even where the registry did not: a memo that is
                // refused for what the registry holds now cannot be replayed once
                // it holds something else.
                bump_hw(&mut self.target_versions, cmd.key.clone(), cmd.seq);
                assert(self@ =~= SnapModel {
                    auth: managed(old(self)@.auth, cmd.op, cmd@.target, cmd@.value),
                    target_versions: bumped(old(self)@.target_versions, cmd.key@, cmd.seq),
                    ..old(self)@
                });
                Ok(())
            },
            Op::Version => {
                let value = match &cmd.value {
                    Some(v) => Some(v.as_str()),
                    None => None,
                };
                let _ = self.version.apply_version(cmd.key.as_str(), value);
                assert(self@ =~= SnapModel {
                    version: match version_step(old(self)@.version, cmd@.key, cmd@.value) {
                        Some(v) => v,
                        None => old(self)@.version,
                    },
                    ..old(self)@
                });
                Ok(())
            },
            Op::Finalize => {
                self.finalized = true;
                assert(self@ =~= SnapModel { finalized: true, ..old(self)@ });
                Ok(())
            },
        }
    }

    /// The snapshot after some rows, one by one. Nothing is taken in: the snapshot
    /// itself stays as it is.
    pub fn folded(&self, rows: &Vec<PromoteRow>, root: &str, window: u64) -> (r: Result<
        Snapshot,
        PromoteError,
    >)
        requires
            self.wf(),
        ensures
            match r {
                Ok(s) => s.wf() && fold(self@, row_models(rows@), root@, window) == Ok::<
                    SnapModel,
                    PromoteError,
                >(s@),
                Err(e) => fold(self@, row_models(rows@), root@, window) == Err::<
                    SnapModel,
                    PromoteError,
                >(e),
            },
    {
        let ghost models = row_models(rows@);
        let mut work = self.copy();
        let mut i: usize = 0;
        while i < rows.len()
            invariant
                i <= rows.len(),
                models == row_models(rows@),
                work.wf(),
                fold(self@, models.take(i as int), root@, window) == Ok::<SnapModel, PromoteError>(
                    work@,
                ),
                self.wf(),
            decreases rows.len() - i,
        {
            let ghost n = work@;
            proof {
                assert(models.take(i + 1).drop_last() =~= models.take(i as int));
                assert(models.take(i + 1).last() == rows@[i as int]@);
            }
            match work.apply_row(&rows[i], root, window) {
                Ok(_) => {},
                Err(e) => {
                    proof {
                        lemma_fold_error(self@, models, i + 1, root@, window, e);
                    }
                    return Err(e);
                },
            }
            i += 1;
        }
        assert(models.take(i as int) =~= models);
        Ok(work)
    }

    /// Whether the history is in order, one row for each place, and holds nothing
    /// but what is recorded there.
    pub fn is_sound(&self) -> (r: bool)
        ensures
            r == (in_chain_order(self@.history) && only_recorded_ops(self@.history)),
    {
        let ghost h = self@.history;
        let mut i: usize = 0;
        while i < self.history.len()
            invariant
                i <= self.history.len(),
                h == self@.history,
                h.len() == self.history.len(),
                in_chain_order(h.take(i as int)),
                only_recorded_ops(h.take(i as int)),
            decreases self.history.len() - i,
        {
            let row = &self.history[i];
            let op = row.op.as_str();
            assert(h[i as int] == row@);
            if !(str_equal(op, "INIT") || str_equal(op, "SET") || str_equal(op, "SETL")
                || str_equal(op, "DEL")) {
                return false;
            }
            if i > 0 {
                assert(h[i - 1] == self.history@[i - 1]@);
                if !row_before(&self.history[i - 1], row) {
                    return false;
                }
            }
            proof {
                let t = h.take(i + 1);
                assert forall|a: int, b: int| 0 <= a < b < t.len() implies pos_lt(
                    #[trigger] t[a].pos,
                    #[trigger] t[b].pos,
                ) by {
                    assert(t[a] == h[a] && t[b] == h[b]);
                    if b < i {
                        assert(pos_lt(h.take(i as int)[a].pos, h.take(i as int)[b].pos));
                    } else if a < i - 1 {
                        assert(pos_lt(h.take(i as int)[a].pos, h.take(i as int)[i - 1].pos));
                        lemma_pos_transitive(h[a].pos, h[i - 1].pos, h[i as int].pos);
                    }
                }
                assert forall|a: int| 0 <= a < t.len() implies is_recorded_op(
                    (#[trigger] t[a]).op,
                ) by {
                    if a < i {
                        assert(is_recorded_op(h.take(i as int)[a].op));
                    }
                }
            }
            i += 1;
        }
        assert(h.take(i as int) =~= h);
        true
    }

    /// Takes in a batch of rows, all or nothing. The rows come in chain order,
    /// past the watermark, each at least [`SAFE_DEPTH`] blocks deep; `root` is
    /// the signer that may broadcast `INIT`, `window` how far a sequence may run
    /// ahead.
    pub fn promote(&mut self, rows: &Vec<PromoteRow>, root: &str, window: u64) -> (r: Result<
        (),
        PromoteError,
    >)
        requires
            old(self).wf(),
        ensures
            final(self).wf(),
            r matches Ok(_) ==> promoted(old(self)@, row_models(rows@), root@, window) == Ok::<
                SnapModel,
                PromoteError,
            >(final(self)@),
            r matches Err(e) ==> promoted(old(self)@, row_models(rows@), root@, window) == Err::<
                SnapModel,
                PromoteError,
            >(e) && final(self)@ == old(self)@,
    {
        if rows.len() == 0 {
            return Ok(());
        }
        let ghost models = row_models(rows@);
        let mut work = match self.folded(rows, root, window) {
            Ok(w) => w,
            Err(e) => {
                return Err(e);
            },
        };
        if !work.initialized {
            return Ok(());
        }
        let last = &rows[rows.len() - 1];
        work.watermark = Watermark {
            height: last.mined_height,
            txid: copy_bytes(&last.txid),
            output_index: last.output_index,
        };
        assert(work.watermark@ =~= models.last().pos);
        *self = work;
        Ok(())
    }
}

/// An error in a part of a batch is the error of the whole.
proof fn lemma_fold_error(
    m: SnapModel,
    rows: Seq<RowModel>,
    k: int,
    root: Seq<char>,
    window: u64,
    e: PromoteError,
)
    requires
        0 <= k <= rows.len(),
        fold(m, rows.take(k), root, window) == Err::<SnapModel, PromoteError>(e),
    ensures
        fold(m, rows, root, window) == Err::<SnapModel, PromoteError>(e),
    decreases rows.len() - k,
{
    if k < rows.len() {
        assert(rows.take(k + 1).drop_last() =~= rows.take(k));
        lemma_fold_error(m, rows, k + 1, root, window, e);
    } else {
        assert(rows.take(k) =~= rows);
    }
}

/// A batch can be taken in two parts.
pub proof fn lemma_fold_append(
    m: SnapModel,
    a: Seq<RowModel>,
    b: Seq<RowModel>,
    root: Seq<char>,
    window: u64,
)
    ensures
        fold(m, a + b, root, window) == (match fold(m, a, root, window) {
            Err(e) => Err(e),
            Ok(n) => fold(n, b, root, window),
        }),
    decreases b.len(),
{
    if b.len() == 0 {
        assert(a + b =~= a);
    } else {
        lemma_fold_append(m, a, b.drop_last(), root, window);
        assert((a + b).drop_last() =~= a + b.drop_last());
        assert((a + b).last() == b.last());
    }
}

/// The watermark plays no part in what a batch does.
pub proof fn lemma_fold_watermark(
    m: SnapModel,
    w: Pos,
    rows: Seq<RowModel>,
    root: Seq<char>,
    window: u64,
)
    ensures
        fold(SnapModel { watermark: w, ..m }, rows, root, window) == (match fold(
            m,
            rows,
            root,
            window,
        ) {
            Err(e) => Err(e),
            Ok(n) => Ok(SnapModel { watermark: w, ..n }),
        }),
    decreases rows.len(),
{
    if rows.len() > 0 {
        lemma_fold_watermark(m, w, rows.drop_last(), root, window);
    }
}

/// What one row never undoes: initialization, the seal, high-water marks, and
/// recorded history.
pub open spec fn never_undone(m: SnapModel, n: SnapModel) -> bool {
    &&& m.initialized ==> n.initialized
    &&& m.finalized ==> n.finalized
    &&& n.version.version >= m.version.version
    &&& forall|k: Seq<char>|
        #[trigger] high_water(n.kv_versions, k) >= high_water(m.kv_versions, k)
    &&& forall|k: Seq<char>|
        #[trigger] high_water(n.target_versions, k) >= high_water(m.target_versions, k)
    &&& forall|i: int| 0 <= i < m.history.len() ==> n.history.contains(#[trigger] m.history[i])
}

proof fn lemma_rank_bound(h: Seq<HistModel>, p: Pos)
    ensures
        rank(h, p) <= h.len(),
    decreases h.len(),
{
    if h.len() > 0 {
        lemma_rank_bound(h.drop_last(), p);
    }
}

proof fn lemma_insert_keeps(h: Seq<HistModel>, r: HistModel, q: int)
    requires
        0 <= q <= h.len(),
    ensures
        forall|i: int| 0 <= i < h.len() ==> h.insert(q, r).contains(#[trigger] h[i]),
        h.insert(q, r).contains(r),
{
    let t = h.insert(q, r);
    assert forall|i: int| 0 <= i < h.len() implies t.contains(#[trigger] h[i]) by {
        if i < q {
            assert(t[i] == h[i]);
        } else {
            assert(t[i + 1] == h[i]);
        }
    }
    assert(t[q] == r);
}

proof fn lemma_step_never_undone(
    m: SnapModel,
    row: RowModel,
    root: Seq<char>,
    window: u64,
    n: SnapModel,
)
    requires
        step(m, row, root, window) == Ok::<SnapModel, PromoteError>(n),
    ensures
        never_undone(m, n),
        !m.initialized && !n.initialized ==> n == m,
{
    assert forall|i: int| 0 <= i < m.history.len() implies m.history.contains(
        #[trigger] m.history[i],
    ) by {}
    match row.command {
        None => {},
        Some(cmd) => {
            lemma_rank_bound(m.history, row.pos);
            lemma_insert_keeps(
                m.history,
                hist_row(row, cmd, None, 0),
                rank(m.history, row.pos) as int,
            );
            lemma_insert_keeps(
                m.history,
                hist_row(row, cmd, None, cmd.seq),
                rank(m.history, row.pos) as int,
            );
            lemma_insert_keeps(
                m.history,
                hist_row(row, cmd, cmd.value, cmd.seq),
                rank(m.history, row.pos) as int,
            );
        },
    }
}

proof fn lemma_never_undone_transitive(m: SnapModel, n: SnapModel, o: SnapModel)
    requires
        never_undone(m, n),
        never_undone(n, o),
    ensures
        never_undone(m, o),
{
    assert forall|k: Seq<char>| #[trigger]
        high_water(o.kv_versions, k) >= high_water(m.kv_versions, k) by {
        assert(high_water(n.kv_versions, k) >= high_water(m.kv_versions, k));
    }
    assert forall|k: Seq<char>| #[trigger]
        high_water(o.target_versions, k) >= high_water(m.target_versions, k) by {
        assert(high_water(n.target_versions, k) >= high_water(m.target_versions, k));
    }
    assert forall|i: int| 0 <= i < m.history.len() implies o.history.contains(
        #[trigger] m.history[i],
    ) by {
        assert(n.history.contains(m.history[i]));
        let j = choose|j: int| 0 <= j < n.history.len() && n.history[j] == m.history[i];
        assert(o.history.contains(n.history[j]));
    }
}

/// A batch never undoes anything, and one without the `INIT` does nothing.
pub proof fn lemma_fold_never_undone(
    m: SnapModel,
    rows: Seq<RowModel>,
    root: Seq<char>,
    window: u64,
    n: SnapModel,
)
    requires
        fold(m, rows, root, window) == Ok::<SnapModel, PromoteError>(n),
    ensures
        never_undone(m, n),
        !m.initialized && !n.initialized ==> n == m,
    decreases rows.len(),
{
    if rows.len() == 0 {
        assert forall|i: int| 0 <= i < m.history.len() implies m.history.contains(
            #[trigger] m.history[i],
        ) by {}
    } else {
        let k = fold(m, rows.drop_last(), root, window)->Ok_0;
        lemma_fold_never_undone(m, rows.drop_last(), root, window, k);
        lemma_step_never_undone(k, rows.last(), root, window, n);
        lemma_never_undone_transitive(m, k, n);
    }
}

/// Promoting never undoes anything: a database stays initialized, a sealed one
/// stays sealed, its version and its high-water marks never fall, and no row
/// leaves the history.
pub proof fn promote_never_undoes(
    m: SnapModel,
    rows: Seq<RowModel>,
    root: Seq<char>,
    window: u64,
    n: SnapModel,
)
    requires
        promoted(m, rows, root, window) == Ok::<SnapModel, PromoteError>(n),
    ensures
        never_undone(m, n),
{
    assert forall|i: int| 0 <= i < m.history.len() implies m.history.contains(
        #[trigger] m.history[i],
    ) by {}
    if rows.len() > 0 {
        let k = fold(m, rows, root, window)->Ok_0;
        lemma_fold_never_undone(m, rows, root, window, k);
    }
}

/// How a chain is cut into batches makes no difference: promoting the rest after
/// a part gives what promoting both at once gives.
pub proof fn promote_in_parts(
    m: SnapModel,
    a: Seq<RowModel>,
    b: Seq<RowModel>,
    root: Seq<char>,
    window: u64,
    n: SnapModel,
)
    requires
        promoted(m, a, root, window) == Ok::<SnapModel, PromoteError>(n),
    ensures
        promoted(m, a + b, root, window) == promoted(n, b, root, window),
{
    lemma_fold_append(m, a, b, root, window);
    if a.len() == 0 {
        assert(a + b =~= b);
    } else if b.len() == 0 {
        assert(a + b =~= a);
    } else {
        let k = fold(m, a, root, window)->Ok_0;
        assert((a + b).last() == b.last());
        lemma_fold_never_undone(m, a, root, window, k);
        if k.initialized {
            lemma_fold_watermark(k, a.last().pos, b, root, window);
            match fold(k, b, root, window) {
                Err(_) => {},
                Ok(o) => {
                    lemma_fold_never_undone(k, b, root, window, o);
                },
            }
        }
    }
}

/// A batch that does not bring the `INIT` changes nothing, not even the
/// watermark, so that its rows are offered again.
pub proof fn uninitialized_batch_is_put_off(
    m: SnapModel,
    rows: Seq<RowModel>,
    root: Seq<char>,
    window: u64,
    n: SnapModel,
)
    requires
        promoted(m, rows, root, window) == Ok::<SnapModel, PromoteError>(n),
        !n.initialized,
    ensures
        n == m,
{
}

/// Nothing changes on a sealed database but the watermark.
pub proof fn sealed_database_is_frozen(
    m: SnapModel,
    rows: Seq<RowModel>,
    root: Seq<char>,
    window: u64,
)
    requires
        m.initialized,
        m.finalized,
        rows.len() > 0,
    ensures
        promoted(m, rows, root, window) == Ok::<SnapModel, PromoteError>(
            SnapModel { watermark: rows.last().pos, ..m },
        ),
{
    lemma_sealed_fold(m, rows, root, window);
}

proof fn lemma_sealed_fold(m: SnapModel, rows: Seq<RowModel>, root: Seq<char>, window: u64)
    requires
        m.initialized,
        m.finalized,
    ensures
        fold(m, rows, root, window) == Ok::<SnapModel, PromoteError>(m),
    decreases rows.len(),
{
    if rows.len() > 0 {
        lemma_sealed_fold(m, rows.drop_last(), root, window);
    }
}

/// Before the `INIT` no row but a root-signed `INIT` does anything.
pub proof fn nothing_before_init(
    m: SnapModel,
    row: RowModel,
    cmd: CommandModel,
    root: Seq<char>,
    window: u64,
)
    requires
        !m.initialized,
        row.command == Some(cmd),
        !(cmd.op is Init && cmd.signer == root),
    ensures
        step(m, row, root, window) == Ok::<SnapModel, PromoteError>(m),
{
}

/// A memo is honored at most once: an accepted data or management operation, or
/// an `INIT`, is not accepted again in any later state. (The last sequence number
/// of all is left out: no mark lies above it.)
pub proof fn honored_at_most_once(
    m: SnapModel,
    row: RowModel,
    cmd: CommandModel,
    root: Seq<char>,
    window: u64,
    n: SnapModel,
    later: Seq<RowModel>,
    o: SnapModel,
)
    requires
        row.command == Some(cmd),
        accepts(m, cmd, root, window),
        is_data_op(cmd.op) || is_registry_op(cmd.op) || cmd.op is Init,
        cmd.seq < u64::MAX,
        step(m, row, root, window) == Ok::<SnapModel, PromoteError>(n),
        fold(n, later, root, window) == Ok::<SnapModel, PromoteError>(o),
    ensures
        !accepts(o, cmd, root, window),
{
    lemma_fold_never_undone(n, later, root, window, o);
    assert(high_water(o.kv_versions, cmd.key) >= high_water(n.kv_versions, cmd.key));
    assert(high_water(o.target_versions, cmd.key) >= high_water(n.target_versions, cmd.key));
}

/// A read gives back what was written: after an accepted `SET` the key holds the
/// value, after an accepted `DEL` it is gone, and no other key is touched.
pub proof fn read_gives_back_the_write(
    m: SnapModel,
    row: RowModel,
    cmd: CommandModel,
    root: Seq<char>,
    window: u64,
    n: SnapModel,
)
    requires
        row.command == Some(cmd),
        accepts(m, cmd, root, window),
        is_data_op(cmd.op),
        step(m, row, root, window) == Ok::<SnapModel, PromoteError>(n),
    ensures
        cmd.op is Del ==> !n.kv.dom().contains(cmd.key),
        !(cmd.op is Del) ==> n.kv.dom().contains(cmd.key) && Some(n.kv[cmd.key].value)
            == cmd.value,
        forall|k: Seq<char>|
            k != cmd.key ==> (#[trigger] n.kv.dom().contains(k) == m.kv.dom().contains(k)),
        forall|k: Seq<char>| k != cmd.key && m.kv.dom().contains(k) ==> n.kv[k] == m.kv[k],
{
}

/// An initialized database has at least one owner.
pub open spec fn has_owner(m: SnapModel) -> bool {
    &&& m.auth.owners.finite()
    &&& m.initialized ==> m.auth.owners.len() > 0
}

proof fn lemma_step_has_owner(m: SnapModel, row: RowModel, root: Seq<char>, window: u64, n: SnapModel)
    requires
        has_owner(m),
        step(m, row, root, window) == Ok::<SnapModel, PromoteError>(n),
    ensures
        has_owner(n),
{
    match row.command {
        None => {},
        Some(cmd) => {
            if accepts(m, cmd, root, window) && is_registry_op(cmd.op) {
                crate::protocol::an_owner_always_remains(m.auth, cmd.op, cmd.target, cmd.value);
            }
        },
    }
}

/// However a chain goes on, an initialized database keeps an owner.
pub proof fn promote_keeps_an_owner(
    m: SnapModel,
    rows: Seq<RowModel>,
    root: Seq<char>,
    window: u64,
    n: SnapModel,
)
    requires
        has_owner(m),
        promoted(m, rows, root, window) == Ok::<SnapModel, PromoteError>(n),
    ensures
        has_owner(n),
{
    if rows.len() > 0 {
        let k = fold(m, rows, root, window)->Ok_0;
        lemma_fold_has_owner(m, rows, root, window, k);
    }
}

proof fn lemma_fold_has_owner(
    m: SnapModel,
    rows: Seq<RowModel>,
    root: Seq<char>,
    window: u64,
    n: SnapModel,
)
    requires
        has_owner(m),
        fold(m, rows, root, window) == Ok::<SnapModel, PromoteError>(n),
    ensures
        has_owner(n),
    decreases rows.len(),
{
    if rows.len() > 0 {
        let k = fold(m, rows.drop_last(), root, window)->Ok_0;
        lemma_fold_has_owner(m, rows.drop_last(), root, window, k);
        lemma_step_has_owner(k, rows.last(), root, window, n);
    }
}

/// The values that a history adds up to: the last write of each key wins, a
/// delete removes it.
pub open spec fn replayed(h: Seq<HistModel>) -> Map<Seq<char>, Seq<char>>
    decreases h.len(),
{
    if h.len() == 0 {
        Map::empty()
    } else {
        let before = replayed(h.drop_last());
        let r = h.last();
        if r.op == "DEL"@ {
            before.remove(r.key)
        } else if (r.op == "SET"@ || r.op == "SETL"@) && r.value is Some {
            before.insert(r.key, r.value->0)
        } else {
            before
        }
    }
}

/// The values that the snapshot holds.
pub open spec fn kv_values(m: SnapModel) -> Map<Seq<char>, Seq<char>> {
    m.kv.map_values(|c: KvModel| c.value)
}

/// The rows come in chain order, all of them past `h`.
pub open spec fn follows(h: Seq<HistModel>, rows: Seq<RowModel>) -> bool {
    &&& forall|i: int, j: int|
        0 <= i < h.len() && 0 <= j < rows.len() ==> pos_lt(
            #[trigger] h[i].pos,
            #[trigger] rows[j].pos,
        )
    &&& forall|i: int, j: int|
        0 <= i < j < rows.len() ==> pos_lt(#[trigger] rows[i].pos, #[trigger] rows[j].pos)
}

proof fn lemma_data_ops_differ()
    ensures
        "DEL"@ != "SET"@,
        "DEL"@ != "SETL"@,
        "INIT"@ != "DEL"@,
        "INIT"@ != "SET"@,
        "INIT"@ != "SETL"@,
{
    reveal_strlit("DEL");
    reveal_strlit("SET");
    reveal_strlit("SETL");
    reveal_strlit("INIT");
    assert("DEL"@[0] == 'D' && "SET"@[0] == 'S' && "SETL"@[0] == 'S' && "INIT"@[0] == 'I');
}

proof fn lemma_step_history(m: SnapModel, row: RowModel, root: Seq<char>, window: u64, n: SnapModel)
    requires
        kv_values(m) == replayed(m.history),
        forall|i: int| 0 <= i < m.history.len() ==> pos_lt((#[trigger] m.history[i]).pos, row.pos),
        step(m, row, root, window) == Ok::<SnapModel, PromoteError>(n),
    ensures
        kv_values(n) == replayed(n.history),
        n.history == m.history || (n.history.len() == m.history.len() + 1 && n.history.drop_last()
            == m.history && n.history.last().pos == row.pos),
{
    lemma_data_ops_differ();
    match row.command {
        None => {},
        Some(cmd) => {
            if accepts(m, cmd, root, window) {
                lemma_rank(m.history, row.pos, m.history.len() as int);
                if cmd.op is Init || is_data_op(cmd.op) {
                    let r = n.history.last();
                    assert(n.history.drop_last() =~= m.history);
                    assert(kv_values(n) =~= replayed(n.history));
                } else {
                    assert(kv_values(n) =~= kv_values(m));
                }
            }
        },
    }
}

proof fn lemma_fold_history(
    m: SnapModel,
    rows: Seq<RowModel>,
    root: Seq<char>,
    window: u64,
    n: SnapModel,
)
    requires
        kv_values(m) == replayed(m.history),
        follows(m.history, rows),
        fold(m, rows, root, window) == Ok::<SnapModel, PromoteError>(n),
    ensures
        kv_values(n) == replayed(n.history),
        forall|i: int, p: Pos|
            0 <= i < n.history.len() && (forall|j: int|
                0 <= j < m.history.len() ==> pos_lt(#[trigger] m.history[j].pos, p)) && (forall|
                j: int,
            |
                0 <= j < rows.len() ==> pos_lt(#[trigger] rows[j].pos, p)) ==> #[trigger] pos_lt(
                n.history[i].pos,
                p,
            ),
    decreases rows.len(),
{
    if rows.len() > 0 {
        let front = rows.drop_last();
        let k = fold(m, front, root, window)->Ok_0;
        assert forall|i: int, j: int| 0 <= i < m.history.len() && 0 <= j < front.len() implies pos_lt(
            #[trigger] m.history[i].pos,
            #[trigger] front[j].pos,
        ) by {
            assert(pos_lt(m.history[i].pos, rows[j].pos));
        }
        assert forall|i: int, j: int| 0 <= i < j < front.len() implies pos_lt(
            #[trigger] front[i].pos,
            #[trigger] front[j].pos,
        ) by {
            assert(pos_lt(rows[i].pos, rows[j].pos));
        }
        lemma_fold_history(m, front, root, window, k);
        let last = rows.last();
        assert forall|i: int| 0 <= i < k.history.len() implies pos_lt(
            (#[trigger] k.history[i]).pos,
            last.pos,
        ) by {
            assert forall|j: int| 0 <= j < m.history.len() implies pos_lt(
                #[trigger] m.history[j].pos,
                last.pos,
            ) by {
                assert(pos_lt(m.history[j].pos, rows[rows.len() - 1].pos));
            }
            assert forall|j: int| 0 <= j < front.len() implies pos_lt(
                #[trigger] front[j].pos,
                last.pos,
            ) by {
                assert(pos_lt(rows[j].pos, rows[rows.len() - 1].pos));
            }
            assert(pos_lt(k.history[i].pos, last.pos));
        }
        lemma_step_history(k, last, root, window, n);
        assert forall|i: int, p: Pos|
            0 <= i < n.history.len() && (forall|j: int|
                0 <= j < m.history.len() ==> pos_lt(#[trigger] m.history[j].pos, p)) && (forall|
                j: int,
            |
                0 <= j < rows.len() ==> pos_lt(#[trigger] rows[j].pos, p)) implies #[trigger] pos_lt(
            n.history[i].pos,
            p,
        ) by {
            assert forall|j: int| 0 <= j < front.len() implies pos_lt(
                #[trigger] front[j].pos,
                p,
            ) by {
                assert(pos_lt(rows[j].pos, p));
            }
            assert(pos_lt(rows[rows.len() - 1].pos, p));
            if i < k.history.len() {
                assert(n.history[i] == k.history[i]);
                assert(pos_lt(k.history[i].pos, p));
            }
        }
    }
}

/// The values are what the history adds up to: as long as batches arrive in
/// chain order, replaying the history gives every key its value.
pub proof fn values_are_the_replayed_history(
    m: SnapModel,
    rows: Seq<RowModel>,
    root: Seq<char>,
    window: u64,
    n: SnapModel,
)
    requires
        kv_values(m) == replayed(m.history),
        follows(m.history, rows),
        promoted(m, rows, root, window) == Ok::<SnapModel, PromoteError>(n),
    ensures
        kv_values(n) == replayed(n.history),
{
    if rows.len() > 0 {
        let k = fold(m, rows, root, window)->Ok_0;
        lemma_fold_history(m, rows, root, window, k);
        assert(kv_values(n) =~= kv_values(m) || kv_values(n) =~= kv_values(k));
    }
}

/// A snapshot of which nothing is known starts in order: its values are what its
/// history adds up to, and no owner is missing.
pub proof fn genesis_is_in_order()
    ensures
        kv_values(genesis()) == replayed(genesis().history),
        has_owner(genesis()),
        in_chain_order(genesis().history),
{
    assert(kv_values(genesis()) =~= replayed(genesis().history));
}

/// Chain order goes by height first, then by the bytes of the transaction id, then
/// by the place in the transaction.
pub proof fn chain_order_is_by_height_then_transaction_then_output(a: Pos, b: Pos)
    ensures
        a.height < b.height ==> pos_lt(a, b) && !pos_lt(b, a),
        a.height == b.height && a.txid != b.txid ==> (pos_lt(a, b) <==> lex_lt(a.txid, b.txid)),
        a.height == b.height && a.txid == b.txid ==> (pos_lt(a, b) <==> a.output_index
            < b.output_index),
{
    lemma_lex_trichotomy(a.txid, b.txid);
}

/// Which operations a database takes in: a data write at or past the mark of its
/// key, not further past it than the window, from an owner or from a writer whose
/// scope has the one capability that the write needs.
pub proof fn data_writes_are_accepted_within_scope(
    m: SnapModel,
    cmd: CommandModel,
    root: Seq<char>,
    window: u64,
)
    requires
        m.initialized,
        !m.finalized,
        cmd.op is Put || cmd.op is SetL || cmd.op is Del,
    ensures
        ({
            let mark: int = if m.kv_versions.dom().contains(cmd.key) {
                m.kv_versions[cmd.key] as int
            } else {
                0
            };
            let in_turn = mark <= cmd.seq <= mark + window;
            &&& m.auth.owners.contains(cmd.signer) ==> (accepts(m, cmd, root, window) <==> in_turn)
            &&& !m.auth.owners.contains(cmd.signer) && m.auth.writers.dom().contains(cmd.signer)
                ==> {
                let scope = m.auth.writers[cmd.signer];
                accepts(m, cmd, root, window) <==> in_turn && (if cmd.op is Del {
                    scope.destroy
                } else if m.kv.dom().contains(cmd.key) {
                    scope.update
                } else {
                    scope.create
                })
            }
            &&& !m.auth.owners.contains(cmd.signer) && !m.auth.writers.dom().contains(cmd.signer)
                ==> !accepts(m, cmd, root, window)
        }),
{
}

/// A management operation is accepted from an owner alone, at or past the mark of
/// its target; `VERSION` and `FINALIZE` from an owner, whatever their sequence.
pub proof fn management_is_accepted_from_owners_alone(
    m: SnapModel,
    cmd: CommandModel,
    root: Seq<char>,
    window: u64,
)
    requires
        m.initialized,
        !m.finalized,
    ensures
        cmd.op is OwnerSet || cmd.op is OwnerDel || cmd.op is WriterSet || cmd.op is WriterDel ==> {
            let mark: int = if m.target_versions.dom().contains(cmd.key) {
                m.target_versions[cmd.key] as int
            } else {
                0
            };
            accepts(m, cmd, root, window) <==> m.auth.owners.contains(cmd.signer) && mark <= cmd.seq
                <= mark + window
        },
        cmd.op is Version || cmd.op is Finalize ==> (accepts(m, cmd, root, window)
            <==> m.auth.owners.contains(cmd.signer)),
        cmd.op is Init ==> !accepts(m, cmd, root, window),
{
}

/// An accepted `INIT` opens the database and seats the root signer as an owner, who
/// then may do everything; it gives nobody else anything and writes no key.
pub proof fn init_opens_the_database(
    m: SnapModel,
    row: RowModel,
    cmd: CommandModel,
    root: Seq<char>,
    window: u64,
    n: SnapModel,
)
    requires
        !m.initialized,
        row.command == Some(cmd),
        cmd.op is Init,
        step(m, row, root, window) == Ok::<SnapModel, PromoteError>(n),
    ensures
        n.initialized <==> cmd.signer == root,
        cmd.signer == root ==> n.auth.owners == m.auth.owners.insert(root)
            && !n.auth.writers.dom().contains(root),
        cmd.signer != root ==> n == m,
        n.kv == m.kv,
        n.finalized == m.finalized,
        n.version == m.version,
        n.kv_versions == m.kv_versions,
        n.target_versions == m.target_versions,
{
}

/// Taking in an accepted operation fails in two cases alone: a `SET` without a
/// value, and a write at a place that the history already holds.
pub proof fn accepted_operations_are_taken_in(
    m: SnapModel,
    row: RowModel,
    cmd: CommandModel,
    root: Seq<char>,
    window: u64,
)
    requires
        row.command == Some(cmd),
        accepts(m, cmd, root, window),
    ensures
        ({
            let recorded = cmd.op is Init || cmd.op is Put || cmd.op is SetL || cmd.op is Del;
            let bare = (cmd.op is Put || cmd.op is SetL) && cmd.value is None;
            let taken = recorded && exists|i: int|
                0 <= i < m.history.len() && (#[trigger] m.history[i]).pos == row.pos;
            &&& step(m, row, root, window) is Ok <==> !bare && !taken
            &&& bare ==> step(m, row, root, window) == Err::<SnapModel, PromoteError>(
                PromoteError::SetWithoutValue,
            )
            &&& !bare && taken ==> step(m, row, root, window) == Err::<SnapModel, PromoteError>(
                PromoteError::DuplicateRow,
            )
        }),
{
}

/// A value says where it was written: the height, the time and the transaction of
/// the memo that wrote it.
pub proof fn a_value_says_where_it_was_written(
    m: SnapModel,
    row: RowModel,
    cmd: CommandModel,
    root: Seq<char>,
    window: u64,
    n: SnapModel,
)
    requires
        row.command == Some(cmd),
        accepts(m, cmd, root, window),
        cmd.op is Put || cmd.op is SetL,
        0 <= row.pos.height <= u32::MAX,
        step(m, row, root, window) == Ok::<SnapModel, PromoteError>(n),
    ensures
        n.kv.dom().contains(cmd.key),
        cmd.value == Some(n.kv[cmd.key].value),
        n.kv[cmd.key].mined_height == row.pos.height,
        n.kv[cmd.key].block_time == row.block_time,
        row.pos.txid.len() == 32 ==> n.kv[cmd.key].txid == Some(txid_text(row.pos.txid)),
        row.pos.txid.len() != 32 ==> n.kv[cmd.key].txid is None,
{
}

/// An accepted write or `INIT` is recorded: the history gains one row, at the place
/// of the memo, with what the memo said, who signed it and over which sequence, and
/// keeps all others.
pub proof fn an_accepted_write_is_recorded(
    m: SnapModel,
    row: RowModel,
    cmd: CommandModel,
    root: Seq<char>,
    window: u64,
    n: SnapModel,
) -> (i: int)
    requires
        row.command == Some(cmd),
        accepts(m, cmd, root, window),
        cmd.op is Init || cmd.op is Put || cmd.op is SetL || cmd.op is Del,
        step(m, row, root, window) == Ok::<SnapModel, PromoteError>(n),
    ensures
        0 <= i < n.history.len(),
        n.history.len() == m.history.len() + 1,
        n.history.remove(i) == m.history,
        ({
            let h = n.history[i];
            &&& h.pos == row.pos
            &&& h.key == cmd.key
            &&& h.signer == cmd.signer
            &&& h.signature == cmd.sig
            &&& h.comment == cmd.comment
            &&& h.memo == row.memo
            &&& h.block_time == row.block_time
            &&& cmd.op is Init ==> h.op == "INIT"@ && h.value is None
            &&& cmd.op is Put ==> h.op == "SET"@ && h.value == cmd.value && h.value is Some
            &&& cmd.op is SetL ==> h.op == "SETL"@ && h.value == cmd.value && h.value is Some
            &&& cmd.op is Del ==> h.op == "DEL"@ && h.value is None
            &&& !(cmd.op is Init) ==> h.seq == cmd.seq
            &&& cmd.op is Init ==> h.seq == 0
        }),
{
    lemma_rank_bound(m.history, row.pos);
    let i = rank(m.history, row.pos) as int;
    assert(n.history.remove(i) =~= m.history);
    i
}

/// An accepted write moves the mark of its key right behind its sequence, so that
/// the next one is in turn, and leaves the registry, the version and all other
/// marks alone.
pub proof fn a_write_moves_the_mark_of_its_key(
    m: SnapModel,
    row: RowModel,
    cmd: CommandModel,
    root: Seq<char>,
    window: u64,
    n: SnapModel,
    other: Seq<char>,
)
    requires
        row.command == Some(cmd),
        accepts(m, cmd, root, window),
        cmd.op is Put || cmd.op is SetL || cmd.op is Del,
        cmd.seq < u64::MAX,
        step(m, row, root, window) == Ok::<SnapModel, PromoteError>(n),
    ensures
        n.kv_versions.dom().contains(cmd.key),
        n.kv_versions[cmd.key] == cmd.seq + 1,
        other != cmd.key ==> high_water(n.kv_versions, other) == high_water(m.kv_versions, other),
        n.target_versions == m.target_versions,
        n.auth == m.auth,
        n.version == m.version,
        n.initialized && !n.finalized,
        n.watermark == m.watermark,
{
}

/// An accepted management operation changes what its target may do: it becomes an
/// owner, or a writer with the scope that was printed, or loses what it had. It
/// moves the mark of the target and writes nothing.
pub proof fn an_accepted_grant_takes_effect(
    m: SnapModel,
    row: RowModel,
    cmd: CommandModel,
    id: Seq<char>,
    root: Seq<char>,
    window: u64,
    n: SnapModel,
    scope: Scope,
)
    requires
        row.command == Some(cmd),
        accepts(m, cmd, root, window),
        cmd.target == Some(id),
        cmd.seq < u64::MAX,
        scope.create || scope.update || scope.destroy,
        cmd.op is OwnerSet || cmd.op is OwnerDel || cmd.op is WriterSet || cmd.op is WriterDel,
        step(m, row, root, window) == Ok::<SnapModel, PromoteError>(n),
    ensures
        cmd.op is OwnerSet ==> n.auth.owners.contains(id),
        cmd.op is OwnerDel && m.auth.owners.contains(id) && m.auth.owners.len() >= 2
            ==> !n.auth.owners.contains(id),
        cmd.op is WriterDel ==> !n.auth.writers.dom().contains(id),
        cmd.op is WriterSet && !m.auth.owners.contains(id) && cmd.value == Some(
            comma_joined(scope_capabilities(scope)),
        ) ==> n.auth.writers.dom().contains(id) && n.auth.writers[id] == scope,
        n.target_versions.dom().contains(cmd.key),
        n.target_versions[cmd.key] == cmd.seq + 1,
        n.kv == m.kv,
        n.kv_versions == m.kv_versions,
        n.history == m.history,
        n.initialized && !n.finalized,
{
    scope_round_trip(scope);
}

/// An accepted `FINALIZE` seals the database and changes nothing else; an accepted
/// `VERSION` changes the version alone.
pub proof fn sealing_and_versions_touch_nothing_else(
    m: SnapModel,
    row: RowModel,
    cmd: CommandModel,
    root: Seq<char>,
    window: u64,
    n: SnapModel,
)
    requires
        row.command == Some(cmd),
        accepts(m, cmd, root, window),
        cmd.op is Finalize || cmd.op is Version,
        step(m, row, root, window) == Ok::<SnapModel, PromoteError>(n),
    ensures
        cmd.op is Finalize ==> n == (SnapModel { finalized: true, ..m }),
        cmd.op is Version ==> n == (SnapModel { version: n.version, ..m }),
        cmd.op is Version ==> (n.version == m.version || n.version.version == m.version.version
            + 1),
        cmd.op is Version && m.version.version < u32::MAX && cmd.key == decimal(
            (m.version.version + 1) as nat,
        ) && cmd.value == Some("blockall"@) ==> n.version.version == m.version.version + 1
            && n.version.blocks.sync && n.version.blocks.read && n.version.blocks.write,
{
    if m.version.version < u32::MAX {
        versions_go_up_one_by_one(
            m.version,
            BlockSet { sync: true, read: true, write: true },
            cmd.key,
            cmd.value,
        );
    }
}

/// A promoted batch moves the watermark to its last row, so that no row of it is
/// offered again.
pub proof fn promoting_moves_the_watermark(
    m: SnapModel,
    rows: Seq<RowModel>,
    root: Seq<char>,
    window: u64,
    n: SnapModel,
)
    requires
        promoted(m, rows, root, window) == Ok::<SnapModel, PromoteError>(n),
    ensures
        rows.len() > 0 && n.initialized ==> n.watermark == rows.last().pos,
        rows.len() == 0 || !n.initialized ==> n == m,
{
    if rows.len() > 0 {
        lemma_fold_never_undone(m, rows, root, window, fold(m, rows, root, window)->Ok_0);
    }
}

/// A row that asks for nothing, or whose operation is not accepted, changes
/// nothing.
pub proof fn what_is_not_accepted_changes_nothing(
    m: SnapModel,
    row: RowModel,
    root: Seq<char>,
    window: u64,
)
    requires
        row.command matches Some(cmd) ==> !accepts(m, cmd, root, window),
    ensures
        step(m, row, root, window) == Ok::<SnapModel, PromoteError>(m),
{
}

/// The version that a stored snapshot asks for; the genesis version where nothing
/// is stored. A recent request that the snapshot has not taken in yet is not seen
/// here.
pub fn cached_version(stored: Option<&Snapshot>) -> (r: VersionState)
    ensures
        r == (match stored {
            Some(s) => s.version,
            None => genesis_version(),
        }),
{
    match stored {
        Some(s) => s.version,
        None => VersionState::default(),
    }
}

} // verus!
