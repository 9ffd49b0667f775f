//! Transaction plumbing: the write handle that feeds deltas into a pipeline,
//! the context that resolves sink keyspaces at startup, and the write
//! transaction threaded through a pipeline.

use vstd::prelude::*;
use fxhash::FxHashSet;
use crate::names::{contains_name, empty_names, insert_name, names_in};
use crate::pipeline::Push;
use crate::store::{
    keyspace_name, open_keyspace, opt_bytes, tx_commit, tx_get, tx_insert, tx_remove, tx_writes,
};
use crate::text::{chars_of, push_char};
use vstd::utf8::encode_utf8;
use vstd::std_specs::cmp::PartialEqSpecImpl;

verus! {

/// A failure reported by the store, carrying the store's own error. Only a
/// failed store call yields such an error, so a `StoreError` always stands
/// for a failure the store reported.
#[derive(Debug)]
pub enum StoreError {
    Storage(fjall::Error),
}

/// Store errors compare equal whatever their cause: callers tell success from
/// a store failure, not one I/O error from another.
impl PartialEq for StoreError {
    fn eq(&self, other: &Self) -> (r: bool) {
        true
    }
}

impl PartialEqSpecImpl for StoreError {
    open spec fn obeys_eq_spec() -> bool {
        true
    }

    open spec fn eq_spec(&self, other: &Self) -> bool {
        true
    }
}

/// Write handle for feeding deltas into the head of a pipeline during one
/// write transaction. All deltas pushed through one handle belong to the
/// same transaction.
pub struct Tx<'g, 'tx, D: Clone, P: Push<D>> {
    pipeline: &'g mut P,
    tx: &'g mut WriteTx<'tx>,
    pushed: Ghost<Seq<(D, int)>>,
}

impl<'g, 'tx, D: Clone, P: Push<D>> Tx<'g, 'tx, D, P> {
    /// The deltas handed to the pipeline so far, in order.
    pub closed spec fn deltas(&self) -> Seq<(D, int)> {
        self.pushed@
    }

    /// The pipeline this handle feeds.
    pub closed spec fn pipeline(&self) -> P {
        *self.pipeline
    }

    /// The write transaction the pipeline writes into.
    pub closed spec fn write_tx(&self) -> WriteTx<'tx> {
        *self.tx
    }

    /// A handle that feeds `pipeline` within `tx`.
    pub fn new(pipeline: &'g mut P, tx: &'g mut WriteTx<'tx>) -> (r: Self)
        ensures
            r.deltas() == Seq::<(D, int)>::empty(),
    {
        Tx { pipeline, tx, pushed: Ghost(Seq::empty()) }
    }

    /// Push `data` with an explicit signed multiplicity: `+n` inserts `n`
    /// copies, `-n` retracts them. The pipeline's `push` is called once with
    /// the transaction, `data` and `delta`, and the pipeline and the
    /// transaction end as that call leaves them.
    pub fn push(&mut self, data: &D, delta: isize)
        ensures
            final(self).deltas() == old(self).deltas().push((*data, delta as int)),
            exists|r: &mut P, t: &mut WriteTx<'tx>|
                mut_ref_current(r) == old(self).pipeline() && mut_ref_future(r) == final(self).pipeline()
                    && mut_ref_current(t) == old(self).write_tx() && mut_ref_future(t)
                    == final(self).write_tx() && #[trigger] call_ensures(P::push, (r, t, data, delta), ()),
    {
        self.pipeline.push(self.tx, data, delta);
        proof {
            self.pushed@ = self.pushed@.push((*data, delta as int));
        }
    }

    /// Push one copy of `data` (delta `+1`).
    pub fn insert(&mut self, data: &D)
        ensures
            final(self).deltas() == old(self).deltas().push((*data, 1int)),
            exists|r: &mut P, t: &mut WriteTx<'tx>|
                mut_ref_current(r) == old(self).pipeline() && mut_ref_future(r) == final(self).pipeline()
                    && mut_ref_current(t) == old(self).write_tx() && mut_ref_future(t)
                    == final(self).write_tx() && #[trigger] call_ensures(P::push, (r, t, data, 1isize), ()),
    {
        self.push(data, 1);
    }

    /// Retract one copy of `data` (delta `-1`).
    pub fn remove(&mut self, data: &D)
        ensures
            final(self).deltas() == old(self).deltas().push((*data, -1int)),
            exists|r: &mut P, t: &mut WriteTx<'tx>|
                mut_ref_current(r) == old(self).pipeline() && mut_ref_future(r) == final(self).pipeline()
                    && mut_ref_current(t) == old(self).write_tx() && mut_ref_future(t)
                    == final(self).write_tx() && #[trigger] call_ensures(P::push, (r, t, data, -1isize), ()),
    {
        self.push(data, -1);
    }
}

/// The keyspace that backs the sink named `name`: `sink_{name}`.
pub open spec fn sink_keyspace(name: Seq<char>) -> Seq<char> {
    seq!['s', 'i', 'n', 'k', '_'] + name
}

/// Passed through the pipeline once at startup. Resolves named keyspaces and
/// collision-checks sink names.
pub struct PipelineInitCtx<'a> {
    store: &'a fjall::SingleWriterTxDatabase,
    taken: FxHashSet<String>,
}

impl<'a> PipelineInitCtx<'a> {
    /// The sink names claimed so far.
    pub closed spec fn claimed(&self) -> Set<Seq<char>> {
        names_in(self.taken)
    }

    /// The database whose keyspaces this context opens.
    pub closed spec fn store(&self) -> fjall::SingleWriterTxDatabase {
        *self.store
    }

    /// A context over `store` in which no name is claimed yet.
    pub fn new(store: &'a fjall::SingleWriterTxDatabase) -> (r: PipelineInitCtx<'a>)
        ensures
            r.claimed() == Set::<Seq<char>>::empty(),
            r.store() == *store,
    {
        PipelineInitCtx { store, taken: empty_names() }
    }

    /// Whether `name` was already claimed by a node of this pipeline.
    pub fn is_claimed(&self, name: &str) -> (r: bool)
        ensures
            r == self.claimed().contains(name@),
    {
        contains_name(&self.taken, name)
    }

    /// Claims `name` and opens (or creates) the keyspace for the named node,
    /// backing its state with the keyspace `sink_{name}`.
    ///
    /// A name may be claimed once per pipeline; a second claim of the same
    /// name is a programming error that the caller rules out (see
    /// [`is_claimed`](Self::is_claimed)).
    pub fn keyspace(&mut self, name: &str) -> (r: Result<fjall::SingleWriterTxKeyspace, StoreError>)
        requires
            !old(self).claimed().contains(name@),
            encode_utf8(name@).len() <= 250,
        ensures
            final(self).claimed() == old(self).claimed().insert(name@),
            final(self).store() == old(self).store(),
            r matches Ok(ks) ==> keyspace_name(ks) == sink_keyspace(name@),
    {
        let newly = insert_name(&mut self.taken, name.to_owned());
        assert(newly);
        let part = sink_keyspace_name(name);
        proof {
            lemma_encode_concat(seq!['s', 'i', 'n', 'k', '_'], name@);
            lemma_encode_sink();
        }
        match open_keyspace(self.store, part.as_str()) {
            Ok(ks) => Ok(ks),
            Err(e) => Err(StoreError::Storage(e)),
        }
    }
}

/// The text `sink_{name}`.
fn sink_keyspace_name(name: &str) -> (r: String)
    ensures
        r@ == sink_keyspace(name@),
{
    let mut s = String::new();
    push_char(&mut s, 's');
    push_char(&mut s, 'i');
    push_char(&mut s, 'n');
    push_char(&mut s, 'k');
    push_char(&mut s, '_');
    let cs = chars_of(name);
    let mut i: usize = 0;
    while i < cs.len()
        invariant
            i <= cs@.len(),
            cs@ == name@,
            s@ == seq!['s', 'i', 'n', 'k', '_'] + cs@.take(i as int),
        decreases cs@.len() - i,
    {
        push_char(&mut s, cs[i]);
        assert(cs@.take(i + 1) =~= cs@.take(i as int).push(cs@[i as int]));
        i = i + 1;
    }
    assert(cs@.take(i as int) =~= cs@);
    s
}

/// UTF-8 encodes a concatenation piecewise.
proof fn lemma_encode_concat(a: Seq<char>, b: Seq<char>)
    ensures
        encode_utf8(a + b) == encode_utf8(a) + encode_utf8(b),
    decreases a.len(),
{
    if a.len() == 0 {
        assert(a + b =~= b);
        assert(encode_utf8(a) =~= seq![]);
        assert(encode_utf8(a) + encode_utf8(b) =~= encode_utf8(b));
    } else {
        assert((a + b).drop_first() =~= a.drop_first() + b);
        lemma_encode_concat(a.drop_first(), b);
        assert((a + b)[0] == a[0]);
    }
}

/// The prefix `sink_` is five bytes of UTF-8.
proof fn lemma_encode_sink()
    ensures
        encode_utf8(seq!['s', 'i', 'n', 'k', '_']).len() == 5,
{
    let p = seq!['s', 'i', 'n', 'k', '_'];
    reveal_with_fuel(encode_utf8, 6);
    assert(p.drop_first() =~= seq!['i', 'n', 'k', '_']);
    assert(p.drop_first().drop_first() =~= seq!['n', 'k', '_']);
    assert(p.drop_first().drop_first().drop_first() =~= seq!['k', '_']);
    assert(p.drop_first().drop_first().drop_first().drop_first() =~= seq!['_']);
    assert(p.drop_first().drop_first().drop_first().drop_first().drop_first() =~= seq![]);
}

/// A store write transaction threaded through the pipeline.
///
/// Wraps the underlying transaction with a reusable scratch buffer (`buf`)
/// that nodes borrow for serialization instead of allocating per push.
pub struct WriteTx<'a> {
    tx: fjall::SingleWriterWriteTx<'a>,
    pub buf: Vec<u8>,
}

impl<'a> WriteTx<'a> {
    /// This transaction's own writes: `(keyspace name, key)` to the value
    /// written last, or `None` where the key was last removed.
    pub closed spec fn writes(&self) -> Map<(Seq<char>, Seq<u8>), Option<Seq<u8>>> {
        tx_writes(self.tx)
    }

    /// What a read of key `k` of the keyspace named `ks` is known to give:
    /// for a key this transaction wrote, `Some` of the value written last
    /// (`None` inside for a removal); `None` for a key it did not write,
    /// whose read goes to the snapshot.
    pub open spec fn read_back(&self, ks: Seq<char>, k: Seq<u8>) -> Option<Option<Seq<u8>>> {
        if self.writes().contains_key((ks, k)) {
            Some(self.writes()[(ks, k)])
        } else {
            None
        }
    }

    /// The contents of the scratch buffer.
    pub closed spec fn scratch(&self) -> Seq<u8> {
        self.buf@
    }

    /// Wraps `tx` with an empty scratch buffer.
    pub fn new(tx: fjall::SingleWriterWriteTx<'a>) -> (r: WriteTx<'a>)
        ensures
            r.writes() == tx_writes(tx),
            r.scratch() == Seq::<u8>::empty(),
    {
        WriteTx { tx, buf: Vec::with_capacity(64) }
    }

    /// Writes `v` at key `k` of keyspace `ks`.
    pub fn insert(&mut self, ks: &fjall::SingleWriterTxKeyspace, k: &[u8], v: &[u8])
        requires
            0 < k@.len() <= 65535,
            v@.len() <= u32::MAX,
        ensures
            final(self).writes() == old(self).writes().insert((keyspace_name(*ks), k@), Some(v@)),
            final(self).scratch() == old(self).scratch(),
    {
        tx_insert(&mut self.tx, ks, k, v);
    }

    /// Deletes key `k` of keyspace `ks`.
    pub fn remove(&mut self, ks: &fjall::SingleWriterTxKeyspace, k: &[u8])
        requires
            0 < k@.len() <= 65535,
        ensures
            final(self).writes() == old(self).writes().insert((keyspace_name(*ks), k@), None),
            final(self).scratch() == old(self).scratch(),
    {
        tx_remove(&mut self.tx, ks, k);
    }

    /// Reads key `k` of keyspace `ks`, seeing this transaction's own
    /// uncommitted writes: a key this transaction wrote reads what was
    /// written last, and that read cannot fail. Other keys are read from the
    /// transaction's snapshot; that read depends on the disk and nothing is
    /// stated of it.
    pub fn get(&mut self, ks: &fjall::SingleWriterTxKeyspace, k: &[u8]) -> (r: Result<
        Option<Vec<u8>>,
        StoreError,
    >)
        requires
            k@.len() <= 65535,
        ensures
            *final(self) == *old(self),
            old(self).read_back(keyspace_name(*ks), k@) matches Some(x) ==> (r matches Ok(v)
                && opt_bytes(v) == x),
    {
        match tx_get(&self.tx, ks, k) {
            Ok(v) => Ok(v),
            Err(e) => Err(StoreError::Storage(e)),
        }
    }

    /// Commits the transaction. Committing a transaction that wrote nothing
    /// always succeeds; otherwise success depends on the disk. What the
    /// store holds afterwards is not stated: the store is shared by every
    /// handle of the database and changes behind them.
    pub fn commit(self) -> (r: Result<(), StoreError>)
        ensures
            self.writes().dom().is_empty() ==> r is Ok,
    {
        match tx_commit(self.tx) {
            Ok(()) => Ok(()),
            Err(e) => Err(StoreError::Storage(e)),
        }
    }
}

/// A transaction reads back what it wrote: after [`WriteTx::insert`] of
/// `v` (or [`WriteTx::remove`], `v` being `None`) at key `k` of keyspace
/// `ks`, a read of that key gives `v`, and a read of any other key gives what
/// it gave before.
pub proof fn law_read_your_writes<'a>(
    before: WriteTx<'a>,
    after: WriteTx<'a>,
    ks: Seq<char>,
    k: Seq<u8>,
    v: Option<Seq<u8>>,
    ks2: Seq<char>,
    k2: Seq<u8>,
)
    requires
        after.writes() == before.writes().insert((ks, k), v),
    ensures
        after.read_back(ks, k) == Some(v),
        (ks2, k2) != (ks, k) ==> after.read_back(ks2, k2) == before.read_back(ks2, k2),
{
}

} // verus!
