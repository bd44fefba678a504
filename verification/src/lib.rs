//! The bookkeeping of a single-owner wallet of cash notes: which notes it can
//! spend, which it has spent, which it made for others, and which spends still
//! wait for the network.
//!
//! A [`LocalWallet`] holds a main key, a ledger ([`KeyLessWallet`]), the
//! spends that wait ([`PendingSpends`]), and its wallet directory
//! ([`WalletDir`]). The wallet directory is held in memory; whoever owns the
//! wallet reads it from disk before and writes it back after. Building a
//! transfer is not the wallet's business: the sends take the builder as an
//! argument and apply what it hands back.
//!
//! Every operation that changes the wallet saves what it changed before it
//! returns:
//! - handing in a cash note puts the note on record and saves the ledger;
//! - applying a transfer, and so every send, puts the cash notes it made on
//!   record and saves the ledger and the spends that wait;
//! - taking in an index of payments saves the ledger, and forgetting the
//!   spends that wait saves that none waits.
//!
//! So a wallet that is loaded again from what it left in its directory is
//! the wallet as it was (`laws::law_what_is_on_file_loads_back`). Only a
//! transfer whose change cannot be handed in leaves the files behind the
//! wallet in memory: its inputs are spent in memory, and nothing more is
//! done or saved.
//!
//! Every contract is stated over the mathematical values of the types
//! (`WalletState`, `LedgerState`, `DirState`); `laws` holds what follows from
//! them for every wallet.

pub mod amount;
pub mod cash_note;
pub mod codec;
pub mod entries;
pub mod error;
pub mod id_set;
pub mod keys;
pub mod laws;
pub mod ledger;
pub mod order;
pub mod payments;
pub mod pending;
pub mod transfer;
pub mod wallet;
pub mod wallet_dir;

pub use amount::Nano;
pub use cash_note::{CashNote, Input, Output, Transaction};
pub use error::Error;
pub use keys::{
    DerivationIndex, DerivedSecretKey, MainPubkey, MainSecretKey, Signature, UniquePubkey,
};
pub use ledger::KeyLessWallet;
pub use payments::{ContentAddress, ContentPaymentsIdMap};
pub use pending::PendingSpends;
pub use transfer::{CashNoteRedemption, SpendRequest, Transfer, TransferOutputs};
pub use wallet::{DepositOutcome, LocalWallet};
pub use wallet_dir::WalletDir;
