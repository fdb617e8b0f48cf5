//! The slice of the host ledger's data model that the namespace rules read:
//! transactions as lists of outputs, outputs as carriers of content, and the
//! one content case this crate manages, a key-value claim. The host owns the
//! full types; everything here holds exactly what the rules look at.

use vstd::prelude::*;

verus! {

/// A 32-byte hash: the shape of both the keys and the values of the namespace.
pub type Hash = [u8; 32];

/// The sidechain-specific output content this crate manages: a claim binding
/// a key to a value, each an opaque 32-byte hash.
#[derive(Clone, Debug, PartialEq, Eq)]
pub enum BitName {
    KeyValue { key: Hash, value: Hash },
}

impl BitName {
    /// The worth of this output in sats. Key-value claims are accounted for
    /// in the ledger's value balance, so they are worth nothing themselves.
    pub fn get_value(&self) -> (r: u64)
        ensures
            r == 0,
    {
        0
    }
}

/// What one output carries. The host ledger owns further cases; this crate
/// only ever reads the `Custom` one and passes every other case through
/// untouched, never assuming the set of cases is complete.
#[derive(Clone, Debug)]
pub enum Content {
    /// A plain value transfer, used for deposits.
    Value(u64),
    /// A withdrawal to the main chain; its routing details stay with the host.
    Withdrawal { value: u64, main_fee: u64 },
    /// The sidechain-specific content: a key-value claim.
    Custom(BitName),
}

/// One transaction output.
#[derive(Clone, Debug)]
pub struct Output {
    pub content: Content,
}

/// A ledger transaction, reduced to what the namespace rules read: its
/// outputs. Inputs and witness data stay with the host.
#[derive(Clone, Debug)]
pub struct Transaction {
    pub outputs: Vec<Output>,
}

/// A transaction annotated by the host with the resolved outputs its inputs
/// spend. The namespace rules read only the inner transaction.
#[derive(Clone, Debug)]
pub struct FilledTransaction {
    pub spent_utxos: Vec<Output>,
    pub transaction: Transaction,
}

/// A block body: the ordered transactions of one block, without the header,
/// which the host processes itself.
#[derive(Clone, Debug)]
pub struct Body {
    pub transactions: Vec<Transaction>,
}

/// The claim an output carries, if any: the key it takes and the value bound
/// to that key.
pub open spec fn output_claim(o: Output) -> Option<(Seq<u8>, Seq<u8>)> {
    match o.content {
        Content::Custom(BitName::KeyValue { key, value }) => Some((key@, value@)),
        _ => None,
    }
}

/// The transaction carries no key-value claim at all: every output is a
/// value transfer, a withdrawal or some other host case.
pub open spec fn tx_claim_free(t: Transaction) -> bool {
    forall|i: int| 0 <= i < t.outputs@.len() ==> output_claim(#[trigger] t.outputs@[i]) is None
}

/// No transaction of the body carries a key-value claim.
pub open spec fn body_claim_free(b: Body) -> bool {
    forall|i: int| 0 <= i < b.transactions@.len() ==> tx_claim_free(#[trigger] b.transactions@[i])
}

/// The output claims no key that the table `m` already holds.
pub open spec fn fresh_for(m: Map<Seq<u8>, Seq<u8>>, o: Output) -> bool {
    match output_claim(o) {
        Some(c) => !m.contains_key(c.0),
        None => true,
    }
}

/// No output of the transaction claims a key that the table `m` already
/// holds: the uniqueness rule accepts `t` against `m`.
pub open spec fn tx_keys_fresh(m: Map<Seq<u8>, Seq<u8>>, t: Transaction) -> bool {
    forall|i: int| 0 <= i < t.outputs@.len() ==> fresh_for(m, #[trigger] t.outputs@[i])
}

/// Every transaction of the body passes the uniqueness rule against the table
/// `m` — each one checked against `m` alone, not against its siblings.
pub open spec fn body_keys_fresh(m: Map<Seq<u8>, Seq<u8>>, b: Body) -> bool {
    forall|i: int| 0 <= i < b.transactions@.len() ==> tx_keys_fresh(m, #[trigger] b.transactions@[i])
}

/// The table after the claims of the outputs `s` are written into `m`, in
/// order; a later claim on the same key overwrites an earlier one.
pub open spec fn apply_outputs(m: Map<Seq<u8>, Seq<u8>>, s: Seq<Output>) -> Map<Seq<u8>, Seq<u8>>
    decreases s.len(),
{
    if s.len() == 0 {
        m
    } else {
        let prior = apply_outputs(m, s.drop_last());
        match output_claim(s.last()) {
            Some(c) => prior.insert(c.0, c.1),
            None => prior,
        }
    }
}

/// The table after one transaction's claims are written into `m`.
pub open spec fn apply_tx(m: Map<Seq<u8>, Seq<u8>>, t: Transaction) -> Map<Seq<u8>, Seq<u8>> {
    apply_outputs(m, t.outputs@)
}

/// The table after every transaction of the sequence is applied to `m`, in
/// order.
pub open spec fn apply_txs(m: Map<Seq<u8>, Seq<u8>>, ts: Seq<Transaction>) -> Map<Seq<u8>, Seq<u8>>
    decreases ts.len(),
{
    if ts.len() == 0 {
        m
    } else {
        apply_tx(apply_txs(m, ts.drop_last()), ts.last())
    }
}

/// Extending an output prefix by one output extends the applied table by that
/// output's claim, if it carries one.
pub proof fn lemma_apply_outputs_step(m: Map<Seq<u8>, Seq<u8>>, s: Seq<Output>, k: int)
    requires
        0 <= k < s.len(),
    ensures
        apply_outputs(m, s.take(k + 1)) == (match output_claim(s[k]) {
            Some(c) => apply_outputs(m, s.take(k)).insert(c.0, c.1),
            None => apply_outputs(m, s.take(k)),
        }),
{
    assert(s.take(k + 1).drop_last() =~= s.take(k));
    assert(s.take(k + 1).last() == s[k]);
}

/// Extending a transaction prefix by one transaction applies that
/// transaction's claims on top of the prefix's table.
pub proof fn lemma_apply_txs_step(m: Map<Seq<u8>, Seq<u8>>, ts: Seq<Transaction>, i: int)
    requires
        0 <= i < ts.len(),
    ensures
        apply_txs(m, ts.take(i + 1)) == apply_tx(apply_txs(m, ts.take(i)), ts[i]),
{
    assert(ts.take(i + 1).drop_last() =~= ts.take(i));
    assert(ts.take(i + 1).last() == ts[i]);
}

} // verus!
