//! The ways in which a wallet operation can fail.

use vstd::prelude::*;

verus! {

/// Why a wallet operation did not go through.
#[derive(Clone, Copy, Debug, PartialEq, Eq, Structural)]
pub enum Error {
    /// The main secret key is not the one the cash note was made out to.
    MainSecretKeyDoesNotMatchMainPubkey,
    /// The transaction that a cash note came from has no output under the note's identity,
    /// so the note's amount cannot be read.
    OutputNotFound,
    /// Taking the amount in would push the balance past the largest countable amount.
    BalanceOverflow,
    /// There is no wallet directory to load from.
    WalletNotFound,
    /// The operating system handed out no random bytes.
    RandomnessUnavailable,
    /// Not one part of a transfer could be read with the wallet's key.
    FailedToDecypherTransfer,
    /// The cash notes at hand do not cover the outputs that were asked for.
    NotEnoughBalance,
    /// The saved ledger cannot be read, or is not in order: it lists something
    /// twice, lists a cash note as both available and spent, or holds more
    /// than can be counted.
    MalformedWallet,
    /// The saved unconfirmed spends cannot be read.
    MalformedUnconfirmedTxs,
}

} // verus!
