//! End-to-end exercises of the namespace store against a real LMDB
//! environment: registration, lookup, rejection of duplicate claims across
//! blocks, the documented intra-body duplicate gap, and storage failures.

use bitnames::{BitName, BitNamesState, Body, Content, Error, FilledTransaction, Output, Transaction, NUM_DBS};
use heed::EnvOpenOptions;
use tempfile::TempDir;

fn open_env(dir: &TempDir, map_size: usize) -> heed::Env {
    EnvOpenOptions::new()
        .map_size(map_size)
        .max_dbs(NUM_DBS)
        .open(dir.path())
        .expect("opening the storage environment failed")
}

fn claim_output(key: [u8; 32], value: [u8; 32]) -> Output {
    Output {
        content: Content::Custom(BitName::KeyValue { key, value }),
    }
}

fn claim_tx(key: [u8; 32], value: [u8; 32]) -> Transaction {
    Transaction {
        outputs: vec![claim_output(key, value)],
    }
}

fn single_tx_body(tx: Transaction) -> Body {
    Body {
        transactions: vec![tx],
    }
}

fn state(env: &heed::Env) -> BitNamesState {
    match BitNamesState::new(env) {
        Ok(s) => s,
        Err(_) => panic!("creating the namespace table failed"),
    }
}

fn lookup_ok(s: &BitNamesState, txn: &heed::RoTxn, key: &[u8; 32]) -> Option<Vec<u8>> {
    match s.lookup(txn, key) {
        Ok(found) => found,
        Err(_) => panic!("lookup failed"),
    }
}

#[test]
fn commit_two_distinct_claims_then_lookup() {
    let dir = TempDir::new().unwrap();
    let env = open_env(&dir, 10 * 1024 * 1024);
    let s = state(&env);

    let k1 = [1u8; 32];
    let v1 = [10u8; 32];
    let k2 = [2u8; 32];
    let v2 = [20u8; 32];
    let body = Body {
        transactions: vec![claim_tx(k1, v1), claim_tx(k2, v2)],
    };

    let rtxn = env.read_txn().unwrap();
    assert!(matches!(s.validate_body(&rtxn, 1, &body), Ok(())));
    drop(rtxn);

    let mut wtxn = env.write_txn().unwrap();
    assert!(matches!(s.connect_body(&mut wtxn, 1, &body), Ok(())));
    wtxn.commit().unwrap();

    let rtxn = env.read_txn().unwrap();
    assert_eq!(lookup_ok(&s, &rtxn, &k1), Some(v1.to_vec()));
    assert_eq!(lookup_ok(&s, &rtxn, &k2), Some(v2.to_vec()));
    assert_eq!(lookup_ok(&s, &rtxn, &[3u8; 32]), None);
}

#[test]
fn reclaiming_a_key_in_a_later_block_is_rejected() {
    let dir = TempDir::new().unwrap();
    let env = open_env(&dir, 10 * 1024 * 1024);
    let s = state(&env);

    let k = [7u8; 32];
    let v = [1u8; 32];
    let v_prime = [2u8; 32];

    let mut wtxn = env.write_txn().unwrap();
    let body = single_tx_body(claim_tx(k, v));
    assert!(matches!(s.connect_body(&mut wtxn, 1, &body), Ok(())));
    wtxn.commit().unwrap();

    let rtxn = env.read_txn().unwrap();
    let retry = single_tx_body(claim_tx(k, v_prime));
    assert!(matches!(
        s.validate_body(&rtxn, 2, &retry),
        Err(Error::KeyAlreadyExists)
    ));
    assert!(matches!(
        s.validate_keys_unique(&rtxn, &claim_tx(k, v_prime)),
        Err(Error::KeyAlreadyExists)
    ));
    assert_eq!(lookup_ok(&s, &rtxn, &k), Some(v.to_vec()));
}

#[test]
fn validation_is_idempotent_on_one_snapshot() {
    let dir = TempDir::new().unwrap();
    let env = open_env(&dir, 10 * 1024 * 1024);
    let s = state(&env);

    let k = [9u8; 32];
    let v = [3u8; 32];
    let mut wtxn = env.write_txn().unwrap();
    assert!(matches!(
        s.connect_body(&mut wtxn, 1, &single_tx_body(claim_tx(k, v))),
        Ok(())
    ));
    wtxn.commit().unwrap();

    let rtxn = env.read_txn().unwrap();
    let fresh = claim_tx([8u8; 32], v);
    assert!(matches!(s.validate_keys_unique(&rtxn, &fresh), Ok(())));
    assert!(matches!(s.validate_keys_unique(&rtxn, &fresh), Ok(())));
    let stale = claim_tx(k, v);
    assert!(matches!(
        s.validate_keys_unique(&rtxn, &stale),
        Err(Error::KeyAlreadyExists)
    ));
    assert!(matches!(
        s.validate_keys_unique(&rtxn, &stale),
        Err(Error::KeyAlreadyExists)
    ));
}

#[test]
fn filled_transaction_claiming_taken_key_is_rejected() {
    let dir = TempDir::new().unwrap();
    let env = open_env(&dir, 10 * 1024 * 1024);
    let s = state(&env);

    let k = [5u8; 32];
    let v = [6u8; 32];
    let mut wtxn = env.write_txn().unwrap();
    assert!(matches!(
        s.connect_body(&mut wtxn, 1, &single_tx_body(claim_tx(k, v))),
        Ok(())
    ));
    wtxn.commit().unwrap();

    let rtxn = env.read_txn().unwrap();
    let filled = FilledTransaction {
        spent_utxos: vec![],
        transaction: claim_tx(k, [7u8; 32]),
    };
    assert!(matches!(
        s.validate_filled_transaction(&rtxn, 2, &filled),
        Err(Error::KeyAlreadyExists)
    ));
    assert_eq!(lookup_ok(&s, &rtxn, &k), Some(v.to_vec()));
}

#[test]
fn non_claim_outputs_pass_and_leave_table_unchanged() {
    let dir = TempDir::new().unwrap();
    let env = open_env(&dir, 10 * 1024 * 1024);
    let s = state(&env);

    let tx = Transaction {
        outputs: vec![
            Output {
                content: Content::Value(21_000_000),
            },
            Output {
                content: Content::Withdrawal {
                    value: 5_000,
                    main_fee: 100,
                },
            },
        ],
    };

    let rtxn = env.read_txn().unwrap();
    assert!(matches!(s.validate_keys_unique(&rtxn, &tx), Ok(())));
    drop(rtxn);

    let mut wtxn = env.write_txn().unwrap();
    assert!(matches!(
        s.connect_body(&mut wtxn, 1, &single_tx_body(tx)),
        Ok(())
    ));
    wtxn.commit().unwrap();

    let rtxn = env.read_txn().unwrap();
    assert_eq!(lookup_ok(&s, &rtxn, &[0u8; 32]), None);
}

#[test]
fn intra_body_duplicate_claims_pass_and_last_write_wins() {
    let dir = TempDir::new().unwrap();
    let env = open_env(&dir, 10 * 1024 * 1024);
    let s = state(&env);

    let k = [4u8; 32];
    let v1 = [1u8; 32];
    let v2 = [2u8; 32];
    let body = Body {
        transactions: vec![claim_tx(k, v1), claim_tx(k, v2)],
    };

    let rtxn = env.read_txn().unwrap();
    assert!(matches!(s.validate_body(&rtxn, 1, &body), Ok(())));
    drop(rtxn);

    let mut wtxn = env.write_txn().unwrap();
    assert!(matches!(s.connect_body(&mut wtxn, 1, &body), Ok(())));
    wtxn.commit().unwrap();

    let rtxn = env.read_txn().unwrap();
    assert_eq!(lookup_ok(&s, &rtxn, &k), Some(v2.to_vec()));
}

#[test]
fn empty_body_commits_and_changes_nothing() {
    let dir = TempDir::new().unwrap();
    let env = open_env(&dir, 10 * 1024 * 1024);
    let s = state(&env);

    let body = Body {
        transactions: vec![],
    };
    let mut wtxn = env.write_txn().unwrap();
    assert!(matches!(s.connect_body(&mut wtxn, 1, &body), Ok(())));
    wtxn.commit().unwrap();

    let rtxn = env.read_txn().unwrap();
    assert_eq!(lookup_ok(&s, &rtxn, &[1u8; 32]), None);
}

#[test]
fn storage_failure_surfaces_as_heed_error() {
    let dir = TempDir::new().unwrap();
    let env = open_env(&dir, 16 * 4096);
    let s = state(&env);

    let mut transactions = Vec::new();
    for i in 0..4096u32 {
        let mut k = [0u8; 32];
        k[0..4].copy_from_slice(&i.to_be_bytes());
        transactions.push(claim_tx(k, [255u8; 32]));
    }
    let body = Body { transactions };

    let mut wtxn = env.write_txn().unwrap();
    let r = s.connect_body(&mut wtxn, 1, &body);
    assert!(matches!(r, Err(Error::Heed(_))));
}

#[test]
fn key_value_claims_carry_no_sats() {
    let claim = BitName::KeyValue {
        key: [1u8; 32],
        value: [2u8; 32],
    };
    assert_eq!(claim.get_value(), 0);
}
