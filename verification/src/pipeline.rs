//! Pipeline values, the [`Push`] trait that pipeline nodes implement, and the
//! model of the signed deltas that flow through a pipeline.
//!
//! Data flows as `(data, delta)` pairs: `+n` inserts `n` copies of `data`,
//! `-n` retracts them. The net multiplicity of a datum is the sum of the
//! deltas pushed for it; pushing a datum and later pushing it with the
//! opposite delta leaves that sum unchanged.

use vstd::prelude::*;
use crate::stream::{PipelineInitCtx, WriteTx};

verus! {

/// A pipeline node that accepts a stream of `(data, delta)` pairs.
///
/// Implemented by operators (which transform and forward), sinks (which
/// persist) and fan-outs. A node's lifecycle:
///
/// 1. [`init`](Push::init): once, when the owning stream opens; resolve
///    keyspaces and claim sink names.
/// 2. [`push`](Push::push): once per delta within a write transaction.
///    Stateful nodes typically buffer here rather than touching the store.
/// 3. [`commit`](Push::commit): once as the transaction completes; flush
///    buffered state and emit any resulting downstream deltas.
/// 4. [`abort`](Push::abort): instead of `commit` if the transaction fails;
///    discard buffered state so the node is clean for the next transaction.
///
/// Operators must propagate `commit` and `abort` to their downstream
/// node(s) even when they hold no state themselves.
pub trait Push<D: Clone> {
    /// Resolve keyspace handles and register sink names.
    fn init(&mut self, init: &mut PipelineInitCtx<'_>);

    /// Accept one delta: `+n` inserts `n` copies of `data`, `-n` retracts
    /// them.
    fn push(&mut self, tx: &mut WriteTx<'_>, data: &D, delta: isize);

    /// Flushes pending state to the store; called once as the transaction
    /// completes.
    fn commit(&mut self, tx: &mut WriteTx<'_>)
        default_ensures
            *final(tx) == *old(tx),
    {
        let _ = tx;
    }

    /// Drops pending state to reset the node for the next transaction.
    fn abort(&mut self) {
    }
}

/// A mutable reference to a node is a node: each method hands its call on to
/// the referenced node, so the referenced node and the call's other mutable
/// arguments end as that node's own method leaves them.
impl<D: Clone, T: Push<D>> Push<D> for &mut T {
    fn init(&mut self, init: &mut PipelineInitCtx<'_>)
        ensures
            exists|r: &mut T, c: &mut PipelineInitCtx<'_>|
                mut_ref_current(r) == mut_ref_current(*old(self)) && mut_ref_future(r) == mut_ref_current(*final(self)) && mut_ref_current(c) == *old(init) && mut_ref_future(c) == *final(init) && #[trigger] call_ensures(T::init, (r, c), ()),
    {
        (**self).init(init)
    }

    fn push(&mut self, tx: &mut WriteTx<'_>, data: &D, delta: isize)
        ensures
            exists|r: &mut T, t: &mut WriteTx<'_>|
                mut_ref_current(r) == mut_ref_current(*old(self)) && mut_ref_future(r) == mut_ref_current(*final(self)) && mut_ref_current(t) == *old(tx) && mut_ref_future(t) == *final(tx) && #[trigger] call_ensures(T::push, (r, t, data, delta), ()),
    {
        (**self).push(tx, data, delta)
    }

    fn commit(&mut self, tx: &mut WriteTx<'_>)
        ensures
            exists|r: &mut T, t: &mut WriteTx<'_>|
                mut_ref_current(r) == mut_ref_current(*old(self)) && mut_ref_future(r) == mut_ref_current(*final(self)) && mut_ref_current(t) == *old(tx) && mut_ref_future(t) == *final(tx) && #[trigger] call_ensures(T::commit, (r, t), ()),
    {
        (**self).commit(tx)
    }

    fn abort(&mut self)
        ensures
            exists|r: &mut T|
                mut_ref_current(r) == mut_ref_current(*old(self)) && mut_ref_future(r) == mut_ref_current(*final(self))
                    && #[trigger] call_ensures(T::abort, (r,), ()),
    {
        (**self).abort()
    }
}

/// The net multiplicity of `d` in a sequence of deltas: the sum of the
/// deltas pushed for it.
pub open spec fn net<D>(log: Seq<(D, int)>, d: D) -> int
    decreases log.len(),
{
    if log.len() == 0 {
        0
    } else {
        net(log.drop_last(), d) + if log.last().0 == d {
            log.last().1
        } else {
            0
        }
    }
}

/// Appending a delta for `e` changes the net multiplicity of `e` by that
/// delta and leaves every other datum's unchanged.
pub proof fn lemma_net_push<D>(log: Seq<(D, int)>, e: D, delta: int, d: D)
    ensures
        net(log.push((e, delta)), d) == net(log, d) + if e == d {
            delta
        } else {
            0
        },
{
    assert(log.push((e, delta)).drop_last() =~= log);
}

/// Retraction cancels: pushing `(d, n)` and then `(d, -n)` leaves the net
/// multiplicity of every datum as it was.
pub proof fn law_retraction_cancels<D>(log: Seq<(D, int)>, d: D, n: int, x: D)
    ensures
        net(log.push((d, n)).push((d, -n)), x) == net(log, x),
{
    lemma_net_push(log, d, n, x);
    lemma_net_push(log.push((d, n)), d, -n, x);
}

/// The net multiplicity of a concatenation is the sum of the parts'.
pub proof fn lemma_net_concat<D>(a: Seq<(D, int)>, b: Seq<(D, int)>, x: D)
    ensures
        net(a + b, x) == net(a, x) + net(b, x),
    decreases b.len(),
{
    if b.len() == 0 {
        assert(a + b =~= a);
    } else {
        assert((a + b).drop_last() =~= a + b.drop_last());
        lemma_net_concat(a, b.drop_last(), x);
    }
}

/// A value paired with a grouping key.
#[derive(Clone)]
pub struct Keyed<K, V> {
    pub key: K,
    pub val: V,
}

impl<K, V> Keyed<K, V> {
    /// Pair `val` with `key`.
    pub fn new(key: K, val: V) -> (r: Self)
        ensures
            r.key == key,
            r.val == val,
    {
        Keyed { key, val }
    }

    /// Key `val` by a function of itself.
    pub fn new_by<F: Fn(&V) -> K>(val: V, key_fn: F) -> (r: Self)
        requires
            key_fn.requires((&val,)),
        ensures
            key_fn.ensures((&val,), r.key),
            r.val == val,
    {
        let key = key_fn(&val);
        Keyed { key, val }
    }

    /// Discard the key.
    pub fn unkey(self) -> (r: V)
        ensures
            r == self.val,
    {
        self.val
    }
}

} // verus!
