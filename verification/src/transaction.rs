//! Events of the log: what kind they are, which account and which earlier
//! event they name, and the amount they carry.

use crate::amount::{amount_matches, decimal_from_str, parsed_decimal, Amount};
use crate::client::model::ClientView;
use crate::client::{Client, ClientID};
use crate::error::Error;
use vstd::prelude::*;

verus! {

/// Identifies an event within one account.
pub type TransactionID = u32;

/// The five kinds of event.
#[derive(Debug, Clone, Copy, PartialEq, Eq, Structural)]
pub enum TransactionType {
    Deposit,
    Withdrawal,
    Dispute,
    Resolve,
    Chargeback,
}

/// An event as mathematics: its kind and its amount in ten-thousandths.
pub struct TransactionView {
    pub tx_type: TransactionType,
    pub amount: Option<nat>,
}

/// A parsed record as mathematics.
pub struct ParsedTransactionView {
    pub tx_type: TransactionType,
    pub client_id: ClientID,
    pub tx_id: TransactionID,
    pub amount: Option<nat>,
}

impl ParsedTransactionView {
    /// The event without the two ids.
    pub open spec fn tx(self) -> TransactionView {
        TransactionView { tx_type: self.tx_type, amount: self.amount }
    }
}

/// The view of an optional amount.
pub open spec fn amount_view(amount: Option<Amount>) -> Option<nat> {
    match amount {
        Some(a) => Some(a@),
        None => None,
    }
}

/// The records as mathematics.
pub open spec fn tx_views(records: Seq<ParsedTransaction>) -> Seq<ParsedTransactionView> {
    records.map_values(|tx: ParsedTransaction| tx@)
}

/// One record of the log, as the parser delivers it.
#[derive(Debug, Clone, Copy, PartialEq)]
pub struct ParsedTransaction {
    pub tx_type: TransactionType,
    pub client_id: ClientID,
    pub tx_id: TransactionID,
    pub amount: Option<Amount>,
}

/// An event as an account sees it: the ids are known from the context.
#[derive(Debug, Clone, Copy)]
pub struct Transaction {
    pub tx_type: TransactionType,
    pub amount: Option<Amount>,
}

impl View for ParsedTransaction {
    type V = ParsedTransactionView;

    open spec fn view(&self) -> ParsedTransactionView {
        ParsedTransactionView {
            tx_type: self.tx_type,
            client_id: self.client_id,
            tx_id: self.tx_id,
            amount: amount_view(self.amount),
        }
    }
}

impl View for Transaction {
    type V = TransactionView;

    open spec fn view(&self) -> TransactionView {
        TransactionView { tx_type: self.tx_type, amount: amount_view(self.amount) }
    }
}

impl ParsedTransaction {
    /// The event that the record carries, without its ids.
    pub fn extract_tx(self) -> (r: Transaction)
        ensures
            r.tx_type == self.tx_type,
            r.amount == self.amount,
            r@ == self@.tx(),
    {
        Transaction { tx_type: self.tx_type, amount: self.amount }
    }
}

impl ParsedTransaction {
    /// The event that the record carries, and a fresh account under the id
    /// that the record names.
    pub fn extract_tx_and_client(self) -> (r: (Transaction, Client))
        ensures
            r.0.tx_type == self.tx_type,
            r.0.amount == self.amount,
            r.0@ == self@.tx(),
            r.1@ == ClientView::new(self.client_id),
            r.1.wf(),
    {
        (Transaction { tx_type: self.tx_type, amount: self.amount }, Client::new(self.client_id))
    }
}

impl Transaction {
    /// The amount of the event, or `InvalidAmount` where it carries none.
    pub fn get_amount(&self) -> (r: Result<Amount, Error>)
        ensures
            r == match self.amount {
                Some(a) => Ok::<Amount, Error>(a),
                None => Err::<Amount, Error>(Error::InvalidAmount),
            },
    {
        match self.amount {
            Some(a) => Ok(a),
            None => Err(Error::InvalidAmount),
        }
    }
}

/// Reads the amount field of a record: the text is read as a decimal and
/// rounded to four fractional digits, ties to the even neighbour. `None`
/// where the text is no decimal, or the decimal is negative or too large to
/// be an amount.
pub fn to_four_dp(text: &str) -> (r: Option<Amount>)
    ensures
        match parsed_decimal(text@) {
            Some((mantissa, scale)) => amount_matches(r, mantissa, scale),
            None => r is None,
        },
{
    match decimal_from_str(text) {
        Some(d) => Amount::from_parts(d.mantissa, d.scale),
        None => None,
    }
}

} // verus!
