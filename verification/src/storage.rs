//! The storage boundary: declarations of the heed (LMDB) types the namespace
//! store works through, a name for the table's content as of a transaction
//! snapshot, and the three calls the store makes into heed. Everything else in
//! the crate is verified against the contracts stated here.

use vstd::prelude::*;
use heed::types::ByteSlice;
use heed::Error as HeedError;
use heed::{Database, Env, RoTxn, RwTxn};

verus! {

#[verifier::external_type_specification]
#[verifier::external_body]
#[verifier::reject_recursive_types(T)]
pub struct ExUnalignedSlice<T>(heed::types::UnalignedSlice<T>);

#[verifier::external_type_specification]
#[verifier::external_body]
#[verifier::reject_recursive_types(KC)]
#[verifier::reject_recursive_types(DC)]
pub struct ExDatabase<KC, DC>(Database<KC, DC>);

#[verifier::external_type_specification]
#[verifier::external_body]
#[verifier::reject_recursive_types(T)]
pub struct ExRoTxn<'e, T>(RoTxn<'e, T>);

#[verifier::external_type_specification]
#[verifier::external_body]
#[verifier::reject_recursive_types(T)]
pub struct ExRwTxn<'e, 'p, T>(RwTxn<'e, 'p, T>);

#[verifier::external_type_specification]
#[verifier::external_body]
pub struct ExEnv(Env);

#[verifier::external_type_specification]
#[verifier::external_body]
pub struct ExHeedError(HeedError);

/// Relies on heed's Clone for Database: the impl copies the handle's fields,
/// so the clone is the same handle.
pub assume_specification<KC, DC>[ <Database<KC, DC> as std::clone::Clone>::clone ](
    db: &Database<KC, DC>,
) -> (r: Database<KC, DC>)
    ensures
        r == *db,
;

/// The identity of a storage environment. heed ties every table handle and
/// every transaction to the environment it was opened in, and its table
/// operations assert that the two identities agree before doing anything.
pub uninterp spec fn env_id(env: Env) -> int;

/// The identity of the environment a table handle was opened in.
pub uninterp spec fn db_env(db: Database<ByteSlice, ByteSlice>) -> int;

/// The identity of the environment a read transaction was opened in.
pub uninterp spec fn ro_env(txn: RoTxn) -> int;

/// The identity of the environment a write transaction was opened in.
pub uninterp spec fn rw_env(txn: RwTxn) -> int;

/// The key-value pairs a table holds, as the given read transaction's
/// snapshot shows them.
pub uninterp spec fn ro_table(db: Database<ByteSlice, ByteSlice>, txn: RoTxn) -> Map<Seq<u8>, Seq<u8>>;

/// The key-value pairs a table holds, as the given write transaction sees
/// them: its snapshot at start plus its own writes so far.
pub uninterp spec fn rw_table(db: Database<ByteSlice, ByteSlice>, txn: RwTxn) -> Map<Seq<u8>, Seq<u8>>;

/// Relies on heed's Database::get: looks the key up in the table through the
/// given read transaction and hands back the stored bytes, if any. The call
/// asserts that the transaction belongs to the table's environment before it
/// reads, so a mismatched pair is excluded up front, and any result at all
/// certifies the agreement.
#[verifier::external_body]
pub(crate) fn db_get(
    db: &Database<ByteSlice, ByteSlice>,
    txn: &RoTxn,
    key: &[u8; 32],
) -> (r: Result<Option<Vec<u8>>, heed::Error>)
    requires
        ro_env(*txn) == db_env(*db),
    ensures
        (match r {
            Ok(Some(v)) => ro_table(*db, *txn).contains_key(key@) && v@ == ro_table(*db, *txn)[key@],
            Ok(None) => !ro_table(*db, *txn).contains_key(key@),
            Err(_) => ro_env(*txn) == db_env(*db),
        }),
{
    match db.get(txn, key.as_slice()) {
        Ok(found) => Ok(found.map(<[u8]>::to_vec)),
        Err(e) => Err(e),
    }
}

/// Relies on heed's Database::put: binds `key` to `value` in the table inside
/// the given write transaction, overwriting any earlier binding of the key.
/// The call asserts that the transaction belongs to the table's environment,
/// so a mismatched pair is excluded up front; the write never moves the
/// transaction to another environment.
#[verifier::external_body]
pub(crate) fn db_put(
    db: &Database<ByteSlice, ByteSlice>,
    txn: &mut RwTxn,
    key: &[u8; 32],
    value: &[u8; 32],
) -> (r: Result<(), heed::Error>)
    requires
        rw_env(*old(txn)) == db_env(*db),
    ensures
        rw_env(*final(txn)) == rw_env(*old(txn)),
        r is Ok ==> rw_table(*db, *final(txn)) == rw_table(*db, *old(txn)).insert(key@, value@),
{
    db.put(txn, key.as_slice(), value.as_slice())
}

/// Relies on heed's Env::create_database: opens the table of that name in the
/// storage environment, creating it first if it does not exist yet, and ties
/// the returned handle to that environment's identity. The name must hold no
/// NUL character, which the call cannot pass on to LMDB.
#[verifier::external_body]
pub(crate) fn create_db(env: &Env, name: &str) -> (r: Result<Database<ByteSlice, ByteSlice>, heed::Error>)
    requires
        forall|i: int| 0 <= i < name@.len() ==> name@[i] != '\0',
    ensures
        r matches Ok(db) ==> db_env(db) == env_id(*env),
{
    env.create_database::<ByteSlice, ByteSlice>(Some(name))
}

} // verus!
