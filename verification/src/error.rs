//! Why an event was not applied, or why the engine could not start.

use vstd::prelude::*;

verus! {

/// The reasons for which an event is ignored, and the two failures of the
/// machinery around the accounts.
#[derive(Debug, PartialEq, Eq, Structural, Clone, Copy)]
pub enum Error {
    /// A deposit or withdrawal carries no usable amount.
    InvalidAmount,
    /// A dispute, resolve or chargeback names no accepted deposit.
    TransactionNotFound,
    /// The id of a deposit or withdrawal was used before on this account.
    DuplicateTransaction,
    /// The amount of a deposit was asked for under an id that has none.
    TransactionAccessError,
    /// The available funds do not cover a withdrawal or a dispute.
    NoAvailableFunds,
    /// The deposit is under dispute already.
    DuplicateDispute,
    /// A resolve or chargeback names a deposit that is not under dispute.
    DisputeNotFound,
    /// The held funds do not cover a resolve.
    MissingHeldFunds,
    /// The held funds do not cover a chargeback.
    NotEnoughChargeback,
    /// The input could not be opened.
    UnknownFile,
    /// An event could not be handed to its account.
    FailedPushingTx,
}

impl Error {
    /// The name of the variant.
    pub open spec fn name(self) -> Seq<char> {
        match self {
            Error::InvalidAmount => "InvalidAmount"@,
            Error::TransactionNotFound => "TransactionNotFound"@,
            Error::DuplicateTransaction => "DuplicateTransaction"@,
            Error::TransactionAccessError => "TransactionAccessError"@,
            Error::NoAvailableFunds => "NoAvailableFunds"@,
            Error::DuplicateDispute => "DuplicateDispute"@,
            Error::DisputeNotFound => "DisputeNotFound"@,
            Error::MissingHeldFunds => "MissingHeldFunds"@,
            Error::NotEnoughChargeback => "NotEnoughChargeback"@,
            Error::UnknownFile => "UnknownFile"@,
            Error::FailedPushingTx => "FailedPushingTx"@,
        }
    }

    /// The text that stands for the error in a log line: the variant's name
    /// between `(Error: ` and `)`.
    pub fn message(&self) -> (r: String)
        ensures
            r@ == "(Error: "@ + self.name() + ")"@,
    {
        let name = match self {
            Error::InvalidAmount => "InvalidAmount",
            Error::TransactionNotFound => "TransactionNotFound",
            Error::DuplicateTransaction => "DuplicateTransaction",
            Error::TransactionAccessError => "TransactionAccessError",
            Error::NoAvailableFunds => "NoAvailableFunds",
            Error::DuplicateDispute => "DuplicateDispute",
            Error::DisputeNotFound => "DisputeNotFound",
            Error::MissingHeldFunds => "MissingHeldFunds",
            Error::NotEnoughChargeback => "NotEnoughChargeback",
            Error::UnknownFile => "UnknownFile",
            Error::FailedPushingTx => "FailedPushingTx",
        };
        let mut text = "(Error: ".to_owned();
        text.append(name);
        text.append(")");
        text
    }
}

} // verus!
