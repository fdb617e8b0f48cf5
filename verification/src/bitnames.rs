//! The namespace store: one persistent table mapping each claimed key to its
//! value, with the single consensus rule that a key may be registered at most
//! once across the whole chain history. The host opens the transactional
//! handles and decides whether to commit or discard them; the store never
//! creates, commits or aborts a transaction of its own.

use vstd::prelude::*;
use heed::types::ByteSlice;
use heed::{Database, Env, RoTxn, RwTxn};
use crate::storage::{create_db, db_env, db_get, db_put, env_id, ro_env, ro_table, rw_env, rw_table};
use crate::types::{
    apply_outputs, apply_txs, body_claim_free, body_keys_fresh, fresh_for,
    lemma_apply_outputs_step, lemma_apply_txs_step, output_claim, tx_claim_free, tx_keys_fresh,
    BitName, Body, Content, FilledTransaction, Transaction,
};

verus! {

/// How many underlying tables this extension asks its host to provision in
/// the storage environment.
pub const NUM_DBS: u32 = 5;

/// Everything that can go wrong here: a storage-engine failure, passed
/// through to the host untouched, or a claim on a key that is already taken.
#[derive(Debug)]
pub enum Error {
    Heed(heed::Error),
    KeyAlreadyExists,
}

/// The result is a storage-engine failure, the one outcome the namespace
/// rules themselves never decide.
pub open spec fn is_storage_failure(r: Result<(), Error>) -> bool {
    match r {
        Err(Error::Heed(_)) => true,
        _ => false,
    }
}

/// What the uniqueness check says about one transaction: acceptance exactly
/// when no output claims an already-held key, rejection with
/// `KeyAlreadyExists` exactly when one does, and a storage failure only when
/// the storage engine itself failed — which takes a claim, since a claim-free
/// transaction causes no storage call at all and is owed acceptance.
pub open spec fn validation_outcome(
    m: Map<Seq<u8>, Seq<u8>>,
    t: Transaction,
    r: Result<(), Error>,
) -> bool {
    match r {
        Ok(()) => tx_keys_fresh(m, t),
        Err(Error::KeyAlreadyExists) => !tx_keys_fresh(m, t),
        Err(Error::Heed(_)) => !tx_claim_free(t),
    }
}

/// What the uniqueness check says about a whole body: every transaction is
/// checked independently against the same snapshot `m`, and a claim-free
/// body is owed acceptance.
pub open spec fn body_validation_outcome(
    m: Map<Seq<u8>, Seq<u8>>,
    b: Body,
    r: Result<(), Error>,
) -> bool {
    match r {
        Ok(()) => body_keys_fresh(m, b),
        Err(Error::KeyAlreadyExists) => !body_keys_fresh(m, b),
        Err(Error::Heed(_)) => !body_claim_free(b),
    }
}

/// The namespace store. It owns the one table and nothing else; all mutable
/// state lives behind the host's transactions.
#[derive(Clone)]
pub struct BitNamesState {
    key_to_value: Database<ByteSlice, ByteSlice>,
}

impl BitNamesState {
    /// The table's content as of the given read snapshot.
    pub closed spec fn table(self, txn: RoTxn) -> Map<Seq<u8>, Seq<u8>> {
        ro_table(self.key_to_value, txn)
    }

    /// The table's content as the given write transaction sees it.
    pub closed spec fn table_rw(self, txn: RwTxn) -> Map<Seq<u8>, Seq<u8>> {
        rw_table(self.key_to_value, txn)
    }

    /// The identity of the storage environment the store's table lives in.
    /// Every transaction handed to the store must come from that environment:
    /// heed asserts as much on each table operation.
    pub closed spec fn table_env(self) -> int {
        db_env(self.key_to_value)
    }

    /// Opens or creates the store's table inside the host's storage
    /// environment. Fails only on storage-engine errors; on success the
    /// store's table belongs to the given environment, so the host meets the
    /// store's transaction preconditions by drawing them from that one
    /// environment.
    pub fn new(env: &Env) -> (r: Result<Self, Error>)
        ensures
            r matches Err(e) ==> e is Heed,
            r matches Ok(s) ==> s.table_env() == env_id(*env),
    {
        proof {
            reveal_strlit("key_to_value");
        }
        match create_db(env, "key_to_value") {
            Ok(db) => Ok(BitNamesState { key_to_value: db }),
            Err(e) => Err(Error::Heed(e)),
        }
    }

    /// Looks one key up in the table through the given read snapshot, which
    /// must come from the store's own environment, and hands back the value
    /// bound to it, if any.
    pub fn lookup(&self, txn: &RoTxn, key: &[u8; 32]) -> (r: Result<Option<Vec<u8>>, Error>)
        requires
            ro_env(*txn) == self.table_env(),
        ensures
            (match r {
                Ok(Some(v)) => self.table(*txn).contains_key(key@) && v@ == self.table(*txn)[key@],
                Ok(None) => !self.table(*txn).contains_key(key@),
                Err(e) => e is Heed,
            }),
    {
        match db_get(&self.key_to_value, txn, key) {
            Ok(found) => Ok(found),
            Err(e) => Err(Error::Heed(e)),
        }
    }

    /// The uniqueness check: scans the transaction's outputs in order and,
    /// for every key-value claim, looks the key up through the given read
    /// snapshot, which must come from the store's own environment. Rejects at
    /// the first key already present; a pure read with no side effects.
    /// Non-claim outputs are ignored, and a claim-free transaction always
    /// passes.
    pub fn validate_keys_unique(&self, txn: &RoTxn, transaction: &Transaction) -> (r: Result<
        (),
        Error,
    >)
        requires
            ro_env(*txn) == self.table_env(),
        ensures
            validation_outcome(self.table(*txn), *transaction, r),
    {
        let n = transaction.outputs.len();
        #[verifier::loop_isolation(false)]
        for i in 0..n
            invariant
                forall|j: int| 0 <= j < i ==> fresh_for(self.table(*txn), #[trigger] transaction.outputs@[j]),
        {
            match &transaction.outputs[i].content {
                Content::Custom(claim) => match claim {
                    BitName::KeyValue { key, value: _ } => {
                        match db_get(&self.key_to_value, txn, key) {
                            Ok(Some(_)) => {
                                proof {
                                    assert(!fresh_for(self.table(*txn), transaction.outputs@[i as int]));
                                }
                                return Err(Error::KeyAlreadyExists);
                            },
                            Ok(None) => {},
                            Err(e) => {
                                proof {
                                    assert(output_claim(transaction.outputs@[i as int]) is Some);
                                    assert(!tx_claim_free(*transaction));
                                }
                                return Err(Error::Heed(e));
                            },
                        }
                    },
                },
                _ => {},
            }
        }
        Ok(())
    }

    /// Validates one filled transaction by applying the uniqueness check to
    /// its inner transaction. The height is taken for interface symmetry with
    /// the host and plays no part in the rule.
    pub fn validate_filled_transaction(
        &self,
        txn: &RoTxn,
        _height: u32,
        transaction: &FilledTransaction,
    ) -> (r: Result<(), Error>)
        requires
            ro_env(*txn) == self.table_env(),
        ensures
            validation_outcome(self.table(*txn), transaction.transaction, r),
    {
        self.validate_keys_unique(txn, &transaction.transaction)
    }

    /// Validates a block body by checking every transaction independently
    /// against the same read snapshot, in order. Two transactions of one body
    /// claiming the same new key both pass: each is held only against the
    /// already-committed table, not against its siblings.
    pub fn validate_body(&self, txn: &RoTxn, _height: u32, body: &Body) -> (r: Result<(), Error>)
        requires
            ro_env(*txn) == self.table_env(),
        ensures
            body_validation_outcome(self.table(*txn), *body, r),
    {
        let n = body.transactions.len();
        #[verifier::loop_isolation(false)]
        for i in 0..n
            invariant
                forall|j: int| 0 <= j < i ==> tx_keys_fresh(self.table(*txn), #[trigger] body.transactions@[j]),
        {
            match self.validate_keys_unique(txn, &body.transactions[i]) {
                Ok(()) => {},
                Err(e) => {
                    proof {
                        if e is Heed {
                            assert(!tx_claim_free(body.transactions@[i as int]));
                            assert(!body_claim_free(*body));
                        } else {
                            assert(!tx_keys_fresh(self.table(*txn), body.transactions@[i as int]));
                            assert(!body_keys_fresh(self.table(*txn), *body));
                        }
                    }
                    return Err(e);
                },
            }
        }
        Ok(())
    }

    /// Applies a validated body's effects: writes every key-value claim of
    /// every transaction into the table, in body order, through the host's
    /// write transaction, which must come from the store's own environment.
    /// Performs no uniqueness re-check, so a duplicate key that reached this
    /// stage is silently overwritten by the later claim. Fails only on
    /// storage-engine errors, which take a claim to provoke — a claim-free
    /// body is owed success; on failure the host discards the whole write
    /// transaction.
    pub fn connect_body(&self, txn: &mut RwTxn, _height: u32, body: &Body) -> (r: Result<(), Error>)
        requires
            rw_env(*old(txn)) == self.table_env(),
        ensures
            (match r {
                Ok(()) => self.table_rw(*final(txn)) == apply_txs(
                    self.table_rw(*old(txn)),
                    body.transactions@,
                ),
                Err(e) => e is Heed && !body_claim_free(*body),
            }),
    {
        let ghost m0 = self.table_rw(*txn);
        let n = body.transactions.len();
        #[verifier::loop_isolation(false)]
        for i in 0..n
            invariant
                rw_env(*txn) == self.table_env(),
                self.table_rw(*txn) == apply_txs(m0, body.transactions@.take(i as int)),
        {
            let outputs_len = body.transactions[i].outputs.len();
            #[verifier::loop_isolation(false)]
            for k in 0..outputs_len
                invariant
                    rw_env(*txn) == self.table_env(),
                    self.table_rw(*txn) == apply_outputs(
                        apply_txs(m0, body.transactions@.take(i as int)),
                        body.transactions@[i as int].outputs@.take(k as int),
                    ),
            {
                match &body.transactions[i].outputs[k].content {
                    Content::Custom(claim) => match claim {
                        BitName::KeyValue { key, value } => {
                            match db_put(&self.key_to_value, txn, key, value) {
                                Ok(()) => {
                                    proof {
                                        lemma_apply_outputs_step(
                                            apply_txs(m0, body.transactions@.take(i as int)),
                                            body.transactions@[i as int].outputs@,
                                            k as int,
                                        );
                                    }
                                },
                                Err(e) => {
                                    proof {
                                        assert(output_claim(
                                            body.transactions@[i as int].outputs@[k as int],
                                        ) is Some);
                                        assert(!tx_claim_free(body.transactions@[i as int]));
                                        assert(!body_claim_free(*body));
                                    }
                                    return Err(Error::Heed(e));
                                },
                            }
                        },
                    },
                    _ => {
                        proof {
                            lemma_apply_outputs_step(
                                apply_txs(m0, body.transactions@.take(i as int)),
                                body.transactions@[i as int].outputs@,
                                k as int,
                            );
                        }
                    },
                }
            }
            proof {
                assert(body.transactions@[i as int].outputs@.take(outputs_len as int)
                    =~= body.transactions@[i as int].outputs@);
                lemma_apply_txs_step(m0, body.transactions@, i as int);
            }
        }
        proof {
            assert(body.transactions@.take(n as int) =~= body.transactions@);
        }
        Ok(())
    }
}

} // verus!
