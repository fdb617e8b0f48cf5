//! A consensus-rule extension that hosts a name-registration namespace on a
//! blockchain-style ledger: an opaque 32-byte key is bound to an opaque
//! 32-byte value, and each key may be claimed exactly once, ever. The host
//! ledger drives every call, supplying the transactional storage handles; this
//! crate owns only the namespace table and its validation and commit rules.

pub mod types;
pub mod storage;
pub mod bitnames;
pub mod laws;

pub use crate::bitnames::{BitNamesState, Error, NUM_DBS};

pub use crate::types::{BitName, Body, Content, FilledTransaction, Output, Transaction};
