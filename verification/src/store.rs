//! The transactional key-value store (fjall) that pipelines persist into,
//! as the rest of the crate sees it: declarations of fjall's types and one
//! trusted wrapper per fjall function that the crate calls.
//!
//! A write transaction is modelled by its own writes, [`tx_writes`]: a map
//! from `(keyspace name, key)` to the value written there, or `None` where
//! the key was removed. Inside a transaction fjall identifies a keyspace by
//! its name alone, so the transaction reads back exactly these writes. Keys
//! it has not written are read from the snapshot it was opened on, through
//! the handle's own database; nothing is stated of those reads.

use vstd::prelude::*;
use fjall::Readable;

verus! {

#[verifier::external_type_specification]
#[verifier::external_body]
pub struct ExSingleWriterTxDatabase(fjall::SingleWriterTxDatabase);

#[verifier::external_type_specification]
#[verifier::external_body]
pub struct ExSingleWriterTxKeyspace(fjall::SingleWriterTxKeyspace);

#[verifier::external_type_specification]
#[verifier::external_body]
pub struct ExSingleWriterWriteTx<'a>(fjall::SingleWriterWriteTx<'a>);

#[verifier::external_type_specification]
#[verifier::external_body]
pub struct ExFjallError(fjall::Error);

/// The name a keyspace handle was opened under. fjall identifies keyspaces
/// by name: two handles with the same name address the same keyspace.
pub uninterp spec fn keyspace_name(ks: fjall::SingleWriterTxKeyspace) -> Seq<char>;

/// The writes a transaction holds: `(keyspace name, key)` to the value
/// written last, or `None` where the key was last removed.
pub uninterp spec fn tx_writes(tx: fjall::SingleWriterWriteTx) -> Map<(Seq<char>, Seq<u8>), Option<Seq<u8>>>;

/// The contents of an optional byte vector.
pub open spec fn opt_bytes(o: Option<Vec<u8>>) -> Option<Seq<u8>> {
    match o {
        Some(v) => Some(v@),
        None => None,
    }
}

/// `SingleWriterTxDatabase::keyspace` with default creation options: opens
/// the keyspace `name`, creating it if absent. fjall panics on a name that is
/// empty or longer than 255 bytes, so those are excluded. The handle it
/// returns addresses the keyspace `name`; whether the open succeeds depends
/// on the disk and is not stated.
#[verifier::external_body]
pub(crate) fn open_keyspace(db: &fjall::SingleWriterTxDatabase, name: &str) -> (r: Result<
    fjall::SingleWriterTxKeyspace,
    fjall::Error,
>)
    requires
        name@.len() > 0,
        vstd::utf8::encode_utf8(name@).len() <= 255,
    ensures
        r matches Ok(ks) ==> keyspace_name(ks) == name@,
{
    db.keyspace(name, fjall::KeyspaceCreateOptions::default)
}

/// `SingleWriterWriteTx::insert`: the transaction's last write at `key` of
/// `ks` is now `value`. fjall panics on an empty key, a key over 65535 bytes or a
/// value over 2^32 - 1 bytes, so those are excluded.
#[verifier::external_body]
pub(crate) fn tx_insert(
    tx: &mut fjall::SingleWriterWriteTx,
    ks: &fjall::SingleWriterTxKeyspace,
    key: &[u8],
    value: &[u8],
)
    requires
        0 < key@.len() <= 65535,
        value@.len() <= u32::MAX,
    ensures
        tx_writes(*final(tx)) == tx_writes(*old(tx)).insert((keyspace_name(*ks), key@), Some(value@)),
{
    tx.insert(ks, key, value)
}

/// `SingleWriterWriteTx::remove`: the transaction's last write at `key` of
/// `ks` is now a removal. fjall panics on an empty key or a key over 65535 bytes.
#[verifier::external_body]
pub(crate) fn tx_remove(tx: &mut fjall::SingleWriterWriteTx, ks: &fjall::SingleWriterTxKeyspace, key: &[u8])
    requires
        0 < key@.len() <= 65535,
    ensures
        tx_writes(*final(tx)) == tx_writes(*old(tx)).insert((keyspace_name(*ks), key@), None),
{
    tx.remove(ks, key)
}

/// `Readable::get` on a write transaction: what the transaction reads at
/// `key` of `ks`. A key the transaction wrote is answered from its own
/// writes without touching the disk: the read succeeds with what was written
/// last. Any other key is read from the snapshot through the handle's
/// database and may fail with an I/O error; nothing is stated of that read.
/// fjall panics on a key over 65535 bytes, so those are excluded.
#[verifier::external_body]
pub(crate) fn tx_get(tx: &fjall::SingleWriterWriteTx, ks: &fjall::SingleWriterTxKeyspace, key: &[u8]) -> (r:
    Result<Option<Vec<u8>>, fjall::Error>)
    requires
        key@.len() <= 65535,
    ensures
        tx_writes(*tx).contains_key((keyspace_name(*ks), key@)) ==> r is Ok,
        r matches Ok(v) ==> (tx_writes(*tx).contains_key((keyspace_name(*ks), key@)) ==> opt_bytes(v)
            == tx_writes(*tx)[(keyspace_name(*ks), key@)]),
{
    match tx.get(ks, key) {
        Ok(v) => Ok(v.map(|s| s.to_vec())),
        Err(e) => Err(e),
    }
}

/// `SingleWriterWriteTx::commit`: makes the transaction's writes visible
/// to later transactions. A transaction that wrote nothing commits without
/// touching the disk, so it cannot fail; otherwise success depends on the
/// disk, and what the store holds afterwards is not stated.
#[verifier::external_body]
pub(crate) fn tx_commit(tx: fjall::SingleWriterWriteTx) -> (r: Result<(), fjall::Error>)
    ensures
        tx_writes(tx).dom().is_empty() ==> r is Ok,
{
    tx.commit()
}

} // verus!
