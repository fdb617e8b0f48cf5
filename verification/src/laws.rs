//! The global guarantees of the namespace rules, each proved from the
//! contracts the store states: validation is deterministic over a snapshot, a
//! committed key is never disturbed by a later validated body, claim-free
//! input is inert and owed success, and a body's sibling transactions are not
//! checked against one another.

use vstd::prelude::*;
use crate::bitnames::{body_validation_outcome, is_storage_failure, validation_outcome, Error};
use crate::types::{
    apply_outputs, apply_tx, apply_txs, body_claim_free, body_keys_fresh, fresh_for, output_claim,
    tx_claim_free, tx_keys_fresh, Body, Output, Transaction,
};

verus! {

/// A table that already binds `k` keeps that binding, and its value, after
/// the claims of any output sequence whose keys are all fresh for the table
/// `m` are written into `mi`, a table that agrees with `m` on `k`.
proof fn lemma_apply_outputs_preserves_key(
    mi: Map<Seq<u8>, Seq<u8>>,
    m: Map<Seq<u8>, Seq<u8>>,
    s: Seq<Output>,
    k: Seq<u8>,
)
    requires
        forall|i: int| 0 <= i < s.len() ==> fresh_for(m, #[trigger] s[i]),
        m.contains_key(k),
        mi.contains_key(k),
        mi[k] == m[k],
    ensures
        apply_outputs(mi, s).contains_key(k),
        apply_outputs(mi, s)[k] == m[k],
    decreases s.len(),
{
    if s.len() > 0 {
        assert forall|i: int| 0 <= i < s.drop_last().len() implies fresh_for(
            m,
            #[trigger] s.drop_last()[i],
        ) by {
            assert(s.drop_last()[i] == s[i]);
        }
        lemma_apply_outputs_preserves_key(mi, m, s.drop_last(), k);
        assert(fresh_for(m, s.last()));
    }
}

/// The same, lifted to a sequence of transactions each of which passes the
/// uniqueness check against `m`.
proof fn lemma_apply_txs_preserves_key(
    mi: Map<Seq<u8>, Seq<u8>>,
    m: Map<Seq<u8>, Seq<u8>>,
    ts: Seq<Transaction>,
    k: Seq<u8>,
)
    requires
        forall|i: int| 0 <= i < ts.len() ==> tx_keys_fresh(m, #[trigger] ts[i]),
        m.contains_key(k),
        mi.contains_key(k),
        mi[k] == m[k],
    ensures
        apply_txs(mi, ts).contains_key(k),
        apply_txs(mi, ts)[k] == m[k],
    decreases ts.len(),
{
    if ts.len() > 0 {
        assert forall|i: int| 0 <= i < ts.drop_last().len() implies tx_keys_fresh(
            m,
            #[trigger] ts.drop_last()[i],
        ) by {
            assert(ts.drop_last()[i] == ts[i]);
        }
        lemma_apply_txs_preserves_key(mi, m, ts.drop_last(), k);
        assert(tx_keys_fresh(m, ts.last()));
        lemma_apply_outputs_preserves_key(apply_txs(mi, ts.drop_last()), m, ts.last().outputs@, k);
    }
}

/// Uniqueness: once the table binds a key, no block body that passes
/// validation against that table changes the binding — the key stays present
/// with the same value after the body's claims are applied.
pub proof fn lemma_committed_key_stable(m: Map<Seq<u8>, Seq<u8>>, b: Body, k: Seq<u8>)
    requires
        m.contains_key(k),
        body_keys_fresh(m, b),
    ensures
        apply_txs(m, b.transactions@).contains_key(k),
        apply_txs(m, b.transactions@)[k] == m[k],
{
    lemma_apply_txs_preserves_key(m, m, b.transactions@, k);
}

/// Uniqueness, the rejecting half: a transaction with a claim on a key the
/// table already binds can never pass the uniqueness check.
pub proof fn lemma_reclaim_rejected(
    m: Map<Seq<u8>, Seq<u8>>,
    t: Transaction,
    i: int,
    c: (Seq<u8>, Seq<u8>),
    r: Result<(), Error>,
)
    requires
        0 <= i < t.outputs@.len(),
        output_claim(t.outputs@[i]) == Some(c),
        m.contains_key(c.0),
        validation_outcome(m, t, r),
    ensures
        !(r is Ok),
{
    assert(!fresh_for(m, t.outputs@[i]));
}

/// Idempotent validation: the check reads and decides, so two runs against
/// the same snapshot and the same transaction that both complete without a
/// storage failure return the same result.
pub proof fn lemma_validation_idempotent(
    m: Map<Seq<u8>, Seq<u8>>,
    t: Transaction,
    r1: Result<(), Error>,
    r2: Result<(), Error>,
)
    requires
        validation_outcome(m, t, r1),
        validation_outcome(m, t, r2),
        !is_storage_failure(r1),
        !is_storage_failure(r2),
    ensures
        r1 == r2,
{
    if r1 is Ok {
        assert(r2 is Ok);
        assert(r1 == Ok::<(), Error>(r1->Ok_0));
        assert(r2 == Ok::<(), Error>(r2->Ok_0));
        assert(r1->Ok_0 == r2->Ok_0);
    } else {
        assert(r2 is Err);
        assert(r1->Err_0 is KeyAlreadyExists);
        assert(r2->Err_0 is KeyAlreadyExists);
        assert(r1->Err_0 == r2->Err_0);
        assert(r1 == Err::<(), Error>(r1->Err_0));
        assert(r2 == Err::<(), Error>(r2->Err_0));
    }
}

/// Non-claim outputs are ignored: a transaction none of whose outputs carries
/// a claim passes the uniqueness check against any table, and applying it
/// leaves the table as it was.
pub proof fn lemma_non_claim_outputs_inert(m: Map<Seq<u8>, Seq<u8>>, t: Transaction)
    requires
        tx_claim_free(t),
    ensures
        tx_keys_fresh(m, t),
        apply_tx(m, t) == m,
{
    lemma_apply_outputs_inert(m, t.outputs@);
}

/// A claim-free transaction is owed acceptance: the uniqueness check's
/// contract leaves it no rejection and no storage failure, so the one result
/// it admits is success.
pub proof fn lemma_claim_free_tx_passes(
    m: Map<Seq<u8>, Seq<u8>>,
    t: Transaction,
    r: Result<(), Error>,
)
    requires
        tx_claim_free(t),
        validation_outcome(m, t, r),
    ensures
        r == Ok::<(), Error>(()),
{
    lemma_non_claim_outputs_inert(m, t);
    assert(r is Ok);
    assert(r == Ok::<(), Error>(r->Ok_0));
}

/// A claim-free body is owed acceptance by body validation, and commit is
/// owed success on it: applying it leaves the table exactly as it was.
pub proof fn lemma_claim_free_body_passes(
    m: Map<Seq<u8>, Seq<u8>>,
    b: Body,
    r: Result<(), Error>,
)
    requires
        body_claim_free(b),
        body_validation_outcome(m, b, r),
    ensures
        r == Ok::<(), Error>(()),
        apply_txs(m, b.transactions@) == m,
{
    assert forall|i: int| 0 <= i < b.transactions@.len() implies tx_keys_fresh(
        m,
        #[trigger] b.transactions@[i],
    ) by {
        lemma_non_claim_outputs_inert(m, b.transactions@[i]);
    }
    assert(r is Ok);
    assert(r == Ok::<(), Error>(r->Ok_0));
    lemma_claim_free_txs_inert(m, b.transactions@);
}

/// Applying any sequence of claim-free transactions changes nothing.
proof fn lemma_claim_free_txs_inert(m: Map<Seq<u8>, Seq<u8>>, ts: Seq<Transaction>)
    requires
        forall|i: int| 0 <= i < ts.len() ==> tx_claim_free(#[trigger] ts[i]),
    ensures
        apply_txs(m, ts) == m,
    decreases ts.len(),
{
    if ts.len() > 0 {
        assert forall|i: int| 0 <= i < ts.drop_last().len() implies tx_claim_free(
            #[trigger] ts.drop_last()[i],
        ) by {
            assert(ts.drop_last()[i] == ts[i]);
        }
        lemma_claim_free_txs_inert(m, ts.drop_last());
        assert(tx_claim_free(ts.last()));
        lemma_apply_outputs_inert(m, ts.last().outputs@);
    }
}

/// Writing the claims of a claim-free output sequence changes nothing.
proof fn lemma_apply_outputs_inert(m: Map<Seq<u8>, Seq<u8>>, s: Seq<Output>)
    requires
        forall|i: int| 0 <= i < s.len() ==> output_claim(#[trigger] s[i]) is None,
    ensures
        apply_outputs(m, s) == m,
    decreases s.len(),
{
    if s.len() > 0 {
        assert forall|i: int| 0 <= i < s.drop_last().len() implies output_claim(
            #[trigger] s.drop_last()[i],
        ) is None by {
            assert(s.drop_last()[i] == s[i]);
        }
        lemma_apply_outputs_inert(m, s.drop_last());
        assert(output_claim(s.last()) is None);
    }
}

/// Commit correctness: a body of two transactions claiming distinct keys not
/// yet in the table passes validation, and applying it binds each key to its
/// own claimed value.
pub proof fn lemma_commit_two_distinct(
    m: Map<Seq<u8>, Seq<u8>>,
    b: Body,
    o1: Output,
    o2: Output,
    k1: Seq<u8>,
    v1: Seq<u8>,
    k2: Seq<u8>,
    v2: Seq<u8>,
)
    requires
        !m.contains_key(k1),
        !m.contains_key(k2),
        k1 != k2,
        b.transactions@.len() == 2,
        b.transactions@[0].outputs@ =~= seq![o1],
        b.transactions@[1].outputs@ =~= seq![o2],
        output_claim(o1) == Some((k1, v1)),
        output_claim(o2) == Some((k2, v2)),
    ensures
        body_keys_fresh(m, b),
        apply_txs(m, b.transactions@).contains_key(k1),
        apply_txs(m, b.transactions@)[k1] == v1,
        apply_txs(m, b.transactions@).contains_key(k2),
        apply_txs(m, b.transactions@)[k2] == v2,
{
    let ts = b.transactions@;
    assert(body_keys_fresh(m, b)) by {
        assert forall|i: int| 0 <= i < ts.len() implies tx_keys_fresh(m, #[trigger] ts[i]) by {
            if i == 0 {
                assert(forall|j: int| 0 <= j < ts[0].outputs@.len() ==> ts[0].outputs@[j] == o1);
            } else {
                assert(forall|j: int| 0 <= j < ts[1].outputs@.len() ==> ts[1].outputs@[j] == o2);
            }
        }
    }
    let out0 = ts[0].outputs@;
    let out1 = ts[1].outputs@;
    let m1 = m.insert(k1, v1);
    assert(out0.drop_last() =~= Seq::<Output>::empty());
    assert(out0.last() == o1);
    assert(apply_outputs(m, Seq::<Output>::empty()) == m);
    assert(apply_tx(m, ts[0]) == m1);
    assert(ts.drop_last().drop_last() =~= Seq::<Transaction>::empty());
    assert(ts.drop_last().last() == ts[0]);
    assert(apply_txs(m, Seq::<Transaction>::empty()) == m);
    assert(apply_txs(m, ts.drop_last()) == m1);
    assert(out1.drop_last() =~= Seq::<Output>::empty());
    assert(out1.last() == o2);
    assert(apply_outputs(m1, Seq::<Output>::empty()) == m1);
    assert(ts.last() == ts[1]);
    assert(apply_txs(m, ts) == m1.insert(k2, v2));
}

/// The intra-body duplicate gap: a body of two transactions that each claim
/// the same key not yet in the table passes validation whole — each
/// transaction is held only against the committed table — and applying the
/// body leaves the key bound to the value the later transaction wrote.
pub proof fn lemma_intra_body_duplicate(
    m: Map<Seq<u8>, Seq<u8>>,
    b: Body,
    o1: Output,
    o2: Output,
    k: Seq<u8>,
    v1: Seq<u8>,
    v2: Seq<u8>,
)
    requires
        !m.contains_key(k),
        b.transactions@.len() == 2,
        b.transactions@[0].outputs@ =~= seq![o1],
        b.transactions@[1].outputs@ =~= seq![o2],
        output_claim(o1) == Some((k, v1)),
        output_claim(o2) == Some((k, v2)),
    ensures
        body_keys_fresh(m, b),
        apply_txs(m, b.transactions@).contains_key(k),
        apply_txs(m, b.transactions@)[k] == v2,
{
    let ts = b.transactions@;
    assert(body_keys_fresh(m, b)) by {
        assert forall|i: int| 0 <= i < ts.len() implies tx_keys_fresh(m, #[trigger] ts[i]) by {
            if i == 0 {
                assert(forall|j: int| 0 <= j < ts[0].outputs@.len() ==> ts[0].outputs@[j] == o1);
            } else {
                assert(forall|j: int| 0 <= j < ts[1].outputs@.len() ==> ts[1].outputs@[j] == o2);
            }
        }
    }
    let out0 = ts[0].outputs@;
    let out1 = ts[1].outputs@;
    let m1 = m.insert(k, v1);
    assert(out0.drop_last() =~= Seq::<Output>::empty());
    assert(out0.last() == o1);
    assert(apply_outputs(m, Seq::<Output>::empty()) == m);
    assert(apply_tx(m, ts[0]) == m1);
    assert(ts.drop_last().drop_last() =~= Seq::<Transaction>::empty());
    assert(ts.drop_last().last() == ts[0]);
    assert(apply_txs(m, Seq::<Transaction>::empty()) == m);
    assert(apply_txs(m, ts.drop_last()) == m1);
    assert(out1.drop_last() =~= Seq::<Output>::empty());
    assert(out1.last() == o2);
    assert(apply_outputs(m1, Seq::<Output>::empty()) == m1);
    assert(ts.last() == ts[1]);
    assert(apply_txs(m, ts) == m1.insert(k, v2));
}

} // verus!
