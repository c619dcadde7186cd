//! The commands around the library, as plain values: what each one is
//! given. Reading files and printing results is left to the program that
//! runs them.
use vstd::prelude::*;

verus! {

/// Create the decryption share of one encrypted tally.
#[derive(Clone, Debug, PartialEq, Eq)]
pub struct TallyGenerateDecryptionShare {
    /// Path of the base64 text of the encrypted tally; standard input where
    /// absent.
    pub encrypted_tally: Option<String>,
    /// Path of the tagged text of the member secret key.
    pub decryption_key: String,
}

/// Merge the share bundles of several members into one.
#[derive(Clone, Debug, PartialEq, Eq)]
pub struct MergeShares {
    /// Paths of the bundles to merge, in member order.
    pub shares: Vec<String>,
}

/// A transaction-only load run: the arguments it is started with.
#[derive(Clone, Debug, PartialEq, Eq)]
pub struct TxOnly {
    pub args: Vec<String>,
}

/// The load runs that can be started as a batch.
#[derive(Clone, Debug, PartialEq, Eq)]
pub enum Batch {
    TxOnly(TxOnly),
}

impl Batch {
    /// The run that this batch command starts.
    pub fn exec(&self) -> (r: &TxOnly)
        ensures
            match self {
                Batch::TxOnly(t) => r == t,
            },
    {
        match self {
            Batch::TxOnly(tx_only_command) => tx_only_command,
        }
    }
}

} // verus!
