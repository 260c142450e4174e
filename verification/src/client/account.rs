//! One account: its balances, its lock, and the records of what it has
//! accepted. Events are applied one at a time; an event that the rules refuse
//! leaves the account as it was.

use crate::amount::{decimal_add, decimal_ge, decimal_sub, Amount, MAX_DECIMALS, MAX_UNITS};
use crate::client::model::{
    lemma_balances_in_range, lemma_new_meets_inv, lemma_process_keeps_inv, ClientID, ClientView,
};
use crate::error::Error;
use crate::transaction::{
    tx_views, ParsedTransaction, Transaction, TransactionID, TransactionType, TransactionView,
};
use std::collections::{BTreeMap, HashSet};
use vstd::prelude::*;

verus! {

broadcast use {
    vstd::std_specs::hash::group_hash_axioms,
    vstd::std_specs::btree::group_btree_axioms,
    vstd::laws_cmp::group_laws_cmp,
};

/// The accepted deposits of an account, by id.
pub type TransactionsMap = BTreeMap<TransactionID, Amount>;

/// A set of transaction ids.
pub type UniqueTransactionIDs = HashSet<TransactionID>;

/// An account.
#[derive(Debug)]
pub struct Client {
    id: ClientID,
    available: Amount,
    held: Amount,
    locked: bool,
    deposits: TransactionsMap,
    disputed_deposit_ids: UniqueTransactionIDs,
    seen_transaction_ids: UniqueTransactionIDs,
}

/// One row of the final snapshot.
#[derive(Debug, Clone, Copy, PartialEq)]
pub struct SerializableClient {
    pub client: ClientID,
    pub available: Amount,
    pub held: Amount,
    pub total: Amount,
    pub locked: bool,
}

/// One row of the final snapshot as mathematics, amounts in ten-thousandths.
pub struct SnapshotView {
    pub client: ClientID,
    pub available: int,
    pub held: int,
    pub total: int,
    pub locked: bool,
}

impl View for SerializableClient {
    type V = SnapshotView;

    open spec fn view(&self) -> SnapshotView {
        SnapshotView {
            client: self.client,
            available: self.available@ as int,
            held: self.held@ as int,
            total: self.total@ as int,
            locked: self.locked,
        }
    }
}

/// The row that an account contributes to the final snapshot.
pub open spec fn snapshot_of(c: ClientView) -> SnapshotView {
    SnapshotView {
        client: c.id,
        available: c.available,
        held: c.held,
        total: c.available + c.held,
        locked: c.locked,
    }
}

/// The amounts of the deposits, in ten-thousandths.
pub open spec fn deposit_units(deposits: Map<TransactionID, Amount>) -> Map<TransactionID, nat> {
    deposits.map_values(|a: Amount| a@)
}

impl View for Client {
    type V = ClientView;

    closed spec fn view(&self) -> ClientView {
        ClientView {
            id: self.id,
            available: self.available@ as int,
            held: self.held@ as int,
            locked: self.locked,
            deposits: deposit_units(self.deposits@),
            disputed: self.disputed_deposit_ids@,
            seen: self.seen_transaction_ids@,
        }
    }
}

impl Client {
    /// Whether the account is one that events can have led to.
    pub open spec fn wf(&self) -> bool {
        self@.inv()
    }

    /// A fresh account.
    pub fn new(id: ClientID) -> (r: Client)
        ensures
            r@ == ClientView::new(id),
            r.wf(),
    {
        let r = Client {
            id,
            available: Amount::zero(),
            held: Amount::zero(),
            locked: false,
            deposits: TransactionsMap::new(),
            disputed_deposit_ids: UniqueTransactionIDs::new(),
            seen_transaction_ids: UniqueTransactionIDs::new(),
        };
        proof {
            assert(r@.deposits =~= Map::empty());
            lemma_new_meets_inv(id);
        }
        r
    }

    /// The id of the account.
    pub fn id(&self) -> (r: ClientID)
        ensures
            r == self@.id,
    {
        self.id
    }

    /// The funds free for withdrawal and dispute.
    pub fn available(&self) -> (r: Amount)
        ensures
            r@ == self@.available,
    {
        self.available
    }

    /// The funds held while disputes are open.
    pub fn held(&self) -> (r: Amount)
        ensures
            r@ == self@.held,
    {
        self.held
    }

    /// Whether a chargeback has locked the account.
    pub fn locked(&self) -> (r: bool)
        ensures
            r == self@.locked,
    {
        self.locked
    }

    /// The row that the account contributes to the final snapshot: its id,
    /// its two balances, their sum, and the lock. Every amount has at most
    /// four fractional digits.
    pub fn snapshot(&self) -> (r: SerializableClient)
        requires
            self.wf(),
        ensures
            r@ == snapshot_of(self@),
            r.available.decimals() <= MAX_DECIMALS,
            r.held.decimals() <= MAX_DECIMALS,
            r.total.decimals() <= MAX_DECIMALS,
    {
        proof {
            use_type_invariant(&self.available);
            use_type_invariant(&self.held);
            lemma_balances_in_range(self@);
        }
        let total = decimal_add(self.held, self.available);
        proof {
            self.available.lemma_bounds();
            self.held.lemma_bounds();
            total.lemma_bounds();
        }
        SerializableClient {
            client: self.id,
            available: self.available,
            held: self.held,
            total,
            locked: self.locked,
        }
    }

    /// Applies one event. A locked account ignores it; an unlocked account
    /// handles it, and is left unchanged where it refuses it.
    pub fn add_transaction(&mut self, txid: TransactionID, tx: Transaction)
        requires
            old(self).wf(),
        ensures
            final(self).wf(),
            final(self)@ == old(self)@.apply(txid, tx@),
    {
        if !self.locked {
            match self.process_transaction(txid, tx) {
                Ok(_) => (),
                Err(_e) => {},
            };
        }
    }

    /// Applies the records in their order, each as `add_transaction` applies
    /// one. Only the id and the event of a record are looked at: that every
    /// record names this account is for the caller to see to.
    pub fn add_transactions(&mut self, records: &Vec<ParsedTransaction>)
        requires
            old(self).wf(),
        ensures
            final(self).wf(),
            final(self)@ == old(self)@.apply_all(tx_views(records@)),
    {
        let ghost events = tx_views(records@);
        let mut next: usize = 0;
        assert(events.take(0) =~= Seq::empty());
        while next < records.len()
            invariant
                self.wf(),
                next <= records.len(),
                events == tx_views(records@),
                self@ == old(self)@.apply_all(events.take(next as int)),
            decreases records.len() - next,
        {
            let tx = records[next];
            self.add_transaction(tx.tx_id, tx.extract_tx());
            proof {
                assert(events.take(next + 1).drop_last() =~= events.take(next as int));
                assert(events.take(next + 1).last() == tx@);
            }
            next = next + 1;
        }
        assert(events.take(records.len() as int) =~= events);
    }

    /// The amount of the accepted deposit `txid`, or `TransactionAccessError`
    /// where the account has accepted no deposit under that id.
    pub fn get_tx_amount(&self, txid: TransactionID) -> (r: Result<Amount, Error>)
        ensures
            match r {
                Ok(amount) => self@.deposits.contains_key(txid) && amount@ == self@.deposits[txid],
                Err(e) => !self@.deposits.contains_key(txid) && e == Error::TransactionAccessError,
            },
    {
        match self.deposits.get(&txid) {
            Some(amount) => Ok(*amount),
            None => Err(Error::TransactionAccessError),
        }
    }

    /// Handles one event without regard to the lock, and says why it was
    /// refused if it was.
    pub fn process_transaction(&mut self, txid: TransactionID, tx: Transaction) -> (r: Result<
        (),
        Error,
    >)
        requires
            old(self).wf(),
        ensures
            final(self).wf(),
            r == old(self)@.check(txid, tx@),
            final(self)@ == old(self)@.process(txid, tx@),
    {
        match tx.tx_type {
            TransactionType::Deposit => self.deposit(txid, tx),
            TransactionType::Withdrawal => self.withdrawal(txid, tx),
            TransactionType::Dispute => self.dispute(txid),
            TransactionType::Resolve => self.resolve(txid),
            TransactionType::Chargeback => self.chargeback(txid),
        }
    }

    /// A deposit: refused where the id was used before, the event carries no
    /// amount, or the total of the account would leave the range of amounts;
    /// else the id is recorded, the amount is added to the available funds,
    /// and the deposit is recorded.
    fn deposit(&mut self, txid: TransactionID, tx: Transaction) -> (r: Result<(), Error>)
        requires
            old(self).wf(),
            tx.tx_type == TransactionType::Deposit,
        ensures
            final(self).wf(),
            r == old(self)@.check(txid, tx@),
            final(self)@ == old(self)@.process(txid, tx@),
    {
        if self.seen_transaction_ids.contains(&txid) {
            return Err(Error::DuplicateTransaction);
        }
        let amount = match tx.amount {
            Some(amount) => amount,
            None => {
                return Err(Error::InvalidAmount);
            },
        };
        proof {
            use_type_invariant(&self.available);
            use_type_invariant(&self.held);
            use_type_invariant(&amount);
            lemma_balances_in_range(self@);
        }
        let total = decimal_add(self.available, self.held);
        if amount.units() > MAX_UNITS - total.units() {
            return Err(Error::InvalidAmount);
        }
        proof {
            lemma_process_keeps_inv(self@, txid, tx@);
            lemma_balances_in_range(self@.process(txid, tx@));
        }
        self.seen_transaction_ids.insert(txid);
        self.available = decimal_add(self.available, amount);
        self.deposits.insert(txid, amount);
        assert(self@.deposits =~= old(self)@.deposits.insert(txid, amount@));
        Ok(())
    }

    /// A withdrawal: refused where the id was used before, the event carries
    /// no amount, or the available funds do not cover it; else the id is
    /// recorded and the amount is taken from the available funds.
    fn withdrawal(&mut self, txid: TransactionID, tx: Transaction) -> (r: Result<(), Error>)
        requires
            old(self).wf(),
            tx.tx_type == TransactionType::Withdrawal,
        ensures
            final(self).wf(),
            r == old(self)@.check(txid, tx@),
            final(self)@ == old(self)@.process(txid, tx@),
    {
        if self.seen_transaction_ids.contains(&txid) {
            return Err(Error::DuplicateTransaction);
        }
        let amount = match tx.amount {
            Some(amount) => amount,
            None => {
                return Err(Error::InvalidAmount);
            },
        };
        proof {
            use_type_invariant(&self.available);
            use_type_invariant(&amount);
            lemma_process_keeps_inv(self@, txid, tx@);
        }
        if decimal_ge(self.available, amount) {
            self.seen_transaction_ids.insert(txid);
            self.available = decimal_sub(self.available, amount);
            Ok(())
        } else {
            Err(Error::NoAvailableFunds)
        }
    }

    /// A dispute: refused where the id names no accepted deposit, the deposit
    /// is under dispute already, or the available funds do not cover it;
    /// else the amount of the deposit moves from available to held.
    fn dispute(&mut self, txid: TransactionID) -> (r: Result<(), Error>)
        requires
            old(self).wf(),
        ensures
            final(self).wf(),
            r == old(self)@.check_dispute(txid),
            final(self)@ == old(self)@.process(
                txid,
                TransactionView { tx_type: TransactionType::Dispute, amount: None },
            ),
    {
        let disputed_amount = match self.deposits.get(&txid) {
            Some(amount) => *amount,
            None => {
                return Err(Error::TransactionNotFound);
            },
        };
        if self.disputed_deposit_ids.contains(&txid) {
            return Err(Error::DuplicateDispute);
        }
        proof {
            use_type_invariant(&self.available);
            use_type_invariant(&self.held);
            use_type_invariant(&disputed_amount);
            let event = TransactionView { tx_type: TransactionType::Dispute, amount: None };
            lemma_process_keeps_inv(self@, txid, event);
            lemma_balances_in_range(self@.process(txid, event));
        }
        if decimal_ge(self.available, disputed_amount) {
            self.available = decimal_sub(self.available, disputed_amount);
            self.held = decimal_add(self.held, disputed_amount);
            self.disputed_deposit_ids.insert(txid);
            Ok(())
        } else {
            Err(Error::NoAvailableFunds)
        }
    }

    /// A resolve: refused where the id names no accepted deposit, the deposit
    /// is not under dispute, or the held funds do not cover it; else the
    /// amount of the deposit moves back from held to available.
    fn resolve(&mut self, txid: TransactionID) -> (r: Result<(), Error>)
        requires
            old(self).wf(),
        ensures
            final(self).wf(),
            r == old(self)@.check_resolve(txid),
            final(self)@ == old(self)@.process(
                txid,
                TransactionView { tx_type: TransactionType::Resolve, amount: None },
            ),
    {
        let disputed_amount = match self.deposits.get(&txid) {
            Some(amount) => *amount,
            None => {
                return Err(Error::TransactionNotFound);
            },
        };
        if !self.disputed_deposit_ids.contains(&txid) {
            return Err(Error::DisputeNotFound);
        }
        proof {
            use_type_invariant(&self.available);
            use_type_invariant(&self.held);
            use_type_invariant(&disputed_amount);
            let event = TransactionView { tx_type: TransactionType::Resolve, amount: None };
            lemma_process_keeps_inv(self@, txid, event);
            lemma_balances_in_range(self@.process(txid, event));
        }
        if decimal_ge(self.held, disputed_amount) {
            self.available = decimal_add(self.available, disputed_amount);
            self.held = decimal_sub(self.held, disputed_amount);
            self.disputed_deposit_ids.remove(&txid);
            Ok(())
        } else {
            Err(Error::MissingHeldFunds)
        }
    }

    /// A chargeback: refused where the id names no accepted deposit, the
    /// deposit is not under dispute, or the held funds do not cover it; else
    /// the amount of the deposit leaves the held funds, the dispute ends, and
    /// the account is locked.
    fn chargeback(&mut self, txid: TransactionID) -> (r: Result<(), Error>)
        requires
            old(self).wf(),
        ensures
            final(self).wf(),
            r == old(self)@.check_chargeback(txid),
            final(self)@ == old(self)@.process(
                txid,
                TransactionView { tx_type: TransactionType::Chargeback, amount: None },
            ),
    {
        let disputed_amount = match self.deposits.get(&txid) {
            Some(amount) => *amount,
            None => {
                return Err(Error::TransactionNotFound);
            },
        };
        if !self.disputed_deposit_ids.contains(&txid) {
            return Err(Error::DisputeNotFound);
        }
        proof {
            use_type_invariant(&self.held);
            use_type_invariant(&disputed_amount);
            let event = TransactionView { tx_type: TransactionType::Chargeback, amount: None };
            lemma_process_keeps_inv(self@, txid, event);
        }
        if decimal_ge(self.held, disputed_amount) {
            self.held = decimal_sub(self.held, disputed_amount);
            self.disputed_deposit_ids.remove(&txid);
            self.locked = true;
            Ok(())
        } else {
            Err(Error::NotEnoughChargeback)
        }
    }
}

} // verus!
