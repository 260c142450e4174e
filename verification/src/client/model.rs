//! The account state machine as mathematics: what each event does to the
//! balances, the lock and the records of an account, and what holds of every
//! account that events have been applied to.

use crate::amount::MAX_UNITS;
use crate::error::Error;
use crate::transaction::{ParsedTransactionView, TransactionID, TransactionType, TransactionView};
use vstd::prelude::*;

verus! {

/// Identifies an account.
pub type ClientID = u16;

/// The number of transaction ids.
pub const ID_SPACE: u64 = 0x1_0000_0000;

/// The sum of the deposits under dispute whose id is below `n`.
pub open spec fn disputed_below(
    deposits: Map<TransactionID, nat>,
    disputed: Set<TransactionID>,
    n: nat,
) -> nat
    decreases n,
{
    if n == 0 {
        0
    } else {
        let k = (n - 1) as TransactionID;
        disputed_below(deposits, disputed, (n - 1) as nat) + if disputed.contains(k) {
            deposits[k]
        } else {
            0
        }
    }
}

/// The sum of all deposits under dispute.
pub open spec fn disputed_total(
    deposits: Map<TransactionID, nat>,
    disputed: Set<TransactionID>,
) -> nat {
    disputed_below(deposits, disputed, ID_SPACE as nat)
}

/// The state of one account. Balances are in ten-thousandths.
pub struct ClientView {
    pub id: ClientID,
    /// Funds free for withdrawal and dispute.
    pub available: int,
    /// Funds held while a dispute is open.
    pub held: int,
    /// Whether a chargeback has succeeded.
    pub locked: bool,
    /// The amount of every accepted deposit, by its id.
    pub deposits: Map<TransactionID, nat>,
    /// The deposits that are under dispute.
    pub disputed: Set<TransactionID>,
    /// The ids of every accepted deposit and withdrawal.
    pub seen: Set<TransactionID>,
}

impl ClientView {
    /// A fresh account: nothing on it, nothing recorded, not locked.
    pub open spec fn new(id: ClientID) -> ClientView {
        ClientView {
            id,
            available: 0,
            held: 0,
            locked: false,
            deposits: Map::empty(),
            disputed: Set::empty(),
            seen: Set::empty(),
        }
    }

    /// Available and held funds together.
    pub open spec fn total(self) -> int {
        self.available + self.held
    }

    /// Why a deposit is refused, if it is: the id was used before, or the
    /// event carries no amount, or the account cannot hold the amount,
    /// because its total would leave the range of amounts.
    pub open spec fn check_deposit(self, txid: TransactionID, amount: Option<nat>) -> Result<
        (),
        Error,
    > {
        if self.seen.contains(txid) {
            Err(Error::DuplicateTransaction)
        } else if amount is None || self.total() + amount->0 > MAX_UNITS {
            Err(Error::InvalidAmount)
        } else {
            Ok(())
        }
    }

    /// Why a withdrawal is refused, if it is.
    pub open spec fn check_withdrawal(self, txid: TransactionID, amount: Option<nat>) -> Result<
        (),
        Error,
    > {
        if self.seen.contains(txid) {
            Err(Error::DuplicateTransaction)
        } else if amount is None {
            Err(Error::InvalidAmount)
        } else if self.available < amount->0 {
            Err(Error::NoAvailableFunds)
        } else {
            Ok(())
        }
    }

    /// Why a dispute is refused, if it is.
    pub open spec fn check_dispute(self, txid: TransactionID) -> Result<(), Error> {
        if !self.deposits.contains_key(txid) {
            Err(Error::TransactionNotFound)
        } else if self.disputed.contains(txid) {
            Err(Error::DuplicateDispute)
        } else if self.available < self.deposits[txid] {
            Err(Error::NoAvailableFunds)
        } else {
            Ok(())
        }
    }

    /// Why a resolve is refused, if it is.
    pub open spec fn check_resolve(self, txid: TransactionID) -> Result<(), Error> {
        if !self.deposits.contains_key(txid) {
            Err(Error::TransactionNotFound)
        } else if !self.disputed.contains(txid) {
            Err(Error::DisputeNotFound)
        } else if self.held < self.deposits[txid] {
            Err(Error::MissingHeldFunds)
        } else {
            Ok(())
        }
    }

    /// Why a chargeback is refused, if it is.
    pub open spec fn check_chargeback(self, txid: TransactionID) -> Result<(), Error> {
        if !self.deposits.contains_key(txid) {
            Err(Error::TransactionNotFound)
        } else if !self.disputed.contains(txid) {
            Err(Error::DisputeNotFound)
        } else if self.held < self.deposits[txid] {
            Err(Error::NotEnoughChargeback)
        } else {
            Ok(())
        }
    }

    /// Why an unlocked account refuses the event, if it does.
    pub open spec fn check(self, txid: TransactionID, tx: TransactionView) -> Result<(), Error> {
        match tx.tx_type {
            TransactionType::Deposit => self.check_deposit(txid, tx.amount),
            TransactionType::Withdrawal => self.check_withdrawal(txid, tx.amount),
            TransactionType::Dispute => self.check_dispute(txid),
            TransactionType::Resolve => self.check_resolve(txid),
            TransactionType::Chargeback => self.check_chargeback(txid),
        }
    }

    /// The account after an unlocked account has handled the event: changed
    /// as the kind of the event says where `check` accepts it, unchanged
    /// where it does not.
    pub open spec fn process(self, txid: TransactionID, tx: TransactionView) -> ClientView {
        if self.check(txid, tx) is Err {
            self
        } else {
            match tx.tx_type {
                TransactionType::Deposit => ClientView {
                    available: self.available + tx.amount->0,
                    deposits: self.deposits.insert(txid, tx.amount->0),
                    seen: self.seen.insert(txid),
                    ..self
                },
                TransactionType::Withdrawal => ClientView {
                    available: self.available - tx.amount->0,
                    seen: self.seen.insert(txid),
                    ..self
                },
                TransactionType::Dispute => ClientView {
                    available: self.available - self.deposits[txid],
                    held: self.held + self.deposits[txid],
                    disputed: self.disputed.insert(txid),
                    ..self
                },
                TransactionType::Resolve => ClientView {
                    available: self.available + self.deposits[txid],
                    held: self.held - self.deposits[txid],
                    disputed: self.disputed.remove(txid),
                    ..self
                },
                TransactionType::Chargeback => ClientView {
                    held: self.held - self.deposits[txid],
                    disputed: self.disputed.remove(txid),
                    locked: true,
                    ..self
                },
            }
        }
    }

    /// The account after the event: a locked account ignores every event.
    pub open spec fn apply(self, txid: TransactionID, tx: TransactionView) -> ClientView {
        if self.locked {
            self
        } else {
            self.process(txid, tx)
        }
    }

    /// Whether the event takes effect: the account is not locked and does
    /// not refuse it.
    pub open spec fn accepts(self, txid: TransactionID, tx: TransactionView) -> bool {
        !self.locked && self.check(txid, tx) is Ok
    }

    /// The account after the events, applied in their order.
    pub open spec fn apply_all(self, events: Seq<ParsedTransactionView>) -> ClientView
        decreases events.len(),
    {
        if events.len() == 0 {
            self
        } else {
            self.apply_all(events.drop_last()).apply(events.last().tx_id, events.last().tx())
        }
    }

    /// What holds of an account whatever events it has seen: no balance is
    /// negative, the total is within the range of amounts, only accepted
    /// deposits are under dispute, the id of every accepted deposit is
    /// recorded as seen, and the held funds are the deposits under dispute.
    pub open spec fn inv(self) -> bool {
        &&& 0 <= self.available
        &&& 0 <= self.held
        &&& self.total() <= MAX_UNITS
        &&& self.disputed.subset_of(self.deposits.dom())
        &&& self.deposits.dom().subset_of(self.seen)
        &&& self.held == disputed_total(self.deposits, self.disputed)
    }
}

/// A deposit that is recorded under a fresh id is not under dispute, so the
/// sum of the deposits under dispute stays what it was.
pub proof fn lemma_disputed_below_deposit(
    deposits: Map<TransactionID, nat>,
    disputed: Set<TransactionID>,
    txid: TransactionID,
    amount: nat,
    n: nat,
)
    requires
        !disputed.contains(txid),
    ensures
        disputed_below(deposits.insert(txid, amount), disputed, n) == disputed_below(
            deposits,
            disputed,
            n,
        ),
    decreases n,
{
    if n > 0 {
        lemma_disputed_below_deposit(deposits, disputed, txid, amount, (n - 1) as nat);
    }
}

/// A deposit that comes under dispute adds its amount to the sum of the
/// deposits under dispute below every bound above its id.
pub proof fn lemma_disputed_below_insert(
    deposits: Map<TransactionID, nat>,
    disputed: Set<TransactionID>,
    txid: TransactionID,
    n: nat,
)
    requires
        !disputed.contains(txid),
        n <= ID_SPACE,
    ensures
        disputed_below(deposits, disputed.insert(txid), n) == disputed_below(deposits, disputed, n)
            + if txid < n {
            deposits[txid]
        } else {
            0
        },
    decreases n,
{
    if n > 0 {
        lemma_disputed_below_insert(deposits, disputed, txid, (n - 1) as nat);
    }
}

/// A deposit whose dispute ends takes its amount out of the sum of the
/// deposits under dispute below every bound above its id.
pub proof fn lemma_disputed_below_remove(
    deposits: Map<TransactionID, nat>,
    disputed: Set<TransactionID>,
    txid: TransactionID,
    n: nat,
)
    requires
        disputed.contains(txid),
        n <= ID_SPACE,
    ensures
        disputed_below(deposits, disputed, n) == disputed_below(deposits, disputed.remove(txid), n)
            + if txid < n {
            deposits[txid]
        } else {
            0
        },
    decreases n,
{
    if n > 0 {
        lemma_disputed_below_remove(deposits, disputed, txid, (n - 1) as nat);
    }
}

/// The balances of an account that meets the invariant are within the range
/// of amounts.
pub proof fn lemma_balances_in_range(c: ClientView)
    requires
        c.inv(),
    ensures
        0 <= c.available <= MAX_UNITS,
        0 <= c.held <= MAX_UNITS,
        c.total() <= MAX_UNITS,
{
}

/// Where no deposit is under dispute, the deposits under dispute sum to
/// nothing.
pub proof fn lemma_nothing_disputed(deposits: Map<TransactionID, nat>, n: nat)
    ensures
        disputed_below(deposits, Set::empty(), n) == 0,
    decreases n,
{
    if n > 0 {
        lemma_nothing_disputed(deposits, (n - 1) as nat);
    }
}

/// A fresh account meets the invariant.
pub proof fn lemma_new_meets_inv(id: ClientID)
    ensures
        ClientView::new(id).inv(),
{
    lemma_nothing_disputed(Map::empty(), ID_SPACE as nat);
}

/// Handling an event keeps the invariant, whether the event is accepted or
/// refused.
pub proof fn lemma_process_keeps_inv(c: ClientView, txid: TransactionID, tx: TransactionView)
    requires
        c.inv(),
    ensures
        c.process(txid, tx).inv(),
        c.apply(txid, tx).inv(),
{
    if c.check(txid, tx) is Ok {
        match tx.tx_type {
            TransactionType::Deposit => {
                lemma_disputed_below_deposit(
                    c.deposits,
                    c.disputed,
                    txid,
                    tx.amount->0,
                    ID_SPACE as nat,
                );
            },
            TransactionType::Withdrawal => {},
            TransactionType::Dispute => {
                lemma_disputed_below_insert(c.deposits, c.disputed, txid, ID_SPACE as nat);
            },
            TransactionType::Resolve => {
                lemma_disputed_below_remove(c.deposits, c.disputed, txid, ID_SPACE as nat);
            },
            TransactionType::Chargeback => {
                lemma_disputed_below_remove(c.deposits, c.disputed, txid, ID_SPACE as nat);
            },
        }
    }
}

/// The held funds cover every deposit under dispute: a resolve or a
/// chargeback of a deposit under dispute is never refused for want of held
/// funds.
pub proof fn lemma_held_covers_disputes(c: ClientView, txid: TransactionID)
    requires
        c.inv(),
        c.disputed.contains(txid),
    ensures
        c.held >= c.deposits[txid],
        c.check_resolve(txid) is Ok,
        c.check_chargeback(txid) is Ok,
{
    lemma_disputed_below_remove(c.deposits, c.disputed, txid, ID_SPACE as nat);
}

impl ClientView {
    /// By how much an event of the given kind moves the total of the account
    /// in the direction of its kind: the amount of an accepted deposit or
    /// withdrawal, the amount of the deposit that an accepted chargeback
    /// takes back, and nothing for an event of another kind or one that does
    /// not take effect.
    pub open spec fn moved(self, event: ParsedTransactionView, kind: TransactionType) -> int {
        if event.tx_type != kind || !self.accepts(event.tx_id, event.tx()) {
            0
        } else {
            match kind {
                TransactionType::Deposit => event.amount->0 as int,
                TransactionType::Withdrawal => event.amount->0 as int,
                TransactionType::Chargeback => self.deposits[event.tx_id] as int,
                _ => 0,
            }
        }
    }

    /// The sum of what the events of the given kind move, each taken in the
    /// state that the events before it have led to.
    pub open spec fn moved_sum(
        self,
        events: Seq<ParsedTransactionView>,
        kind: TransactionType,
    ) -> int
        decreases events.len(),
    {
        if events.len() == 0 {
            0
        } else {
            self.moved_sum(events.drop_last(), kind) + self.apply_all(events.drop_last()).moved(
                events.last(),
                kind,
            )
        }
    }
}

/// Applying events keeps the invariant.
pub proof fn lemma_apply_all_keeps_inv(c: ClientView, events: Seq<ParsedTransactionView>)
    requires
        c.inv(),
    ensures
        c.apply_all(events).inv(),
    decreases events.len(),
{
    if events.len() > 0 {
        lemma_apply_all_keeps_inv(c, events.drop_last());
        lemma_process_keeps_inv(
            c.apply_all(events.drop_last()),
            events.last().tx_id,
            events.last().tx(),
        );
    }
}

/// Events do not change the id of the account.
pub proof fn lemma_apply_all_keeps_id(c: ClientView, events: Seq<ParsedTransactionView>)
    ensures
        c.apply_all(events).id == c.id,
    decreases events.len(),
{
    if events.len() > 0 {
        lemma_apply_all_keeps_id(c, events.drop_last());
    }
}

/// Whatever events a fresh account is given, neither of its balances is
/// negative afterwards, and every invariant of the account holds.
pub proof fn lemma_balances_never_negative(id: ClientID, events: Seq<ParsedTransactionView>)
    ensures
        ClientView::new(id).apply_all(events).available >= 0,
        ClientView::new(id).apply_all(events).held >= 0,
        ClientView::new(id).apply_all(events).inv(),
{
    lemma_new_meets_inv(id);
    lemma_apply_all_keeps_inv(ClientView::new(id), events);
}

/// The total of an account after a run of events is its total before, plus
/// the accepted deposits, less the accepted withdrawals, less the deposits
/// that accepted chargebacks took back.
pub proof fn lemma_total_is_net_of_accepted(c: ClientView, events: Seq<ParsedTransactionView>)
    ensures
        c.apply_all(events).total() == c.total() + c.moved_sum(events, TransactionType::Deposit)
            - c.moved_sum(events, TransactionType::Withdrawal) - c.moved_sum(
            events,
            TransactionType::Chargeback,
        ),
    decreases events.len(),
{
    if events.len() > 0 {
        lemma_total_is_net_of_accepted(c, events.drop_last());
    }
}

/// The total of an account that started fresh is the sum of its accepted
/// deposits, less its accepted withdrawals, less what chargebacks took back.
pub proof fn lemma_fresh_total_is_net_of_accepted(
    id: ClientID,
    events: Seq<ParsedTransactionView>,
)
    ensures
        ClientView::new(id).apply_all(events).total() == ClientView::new(id).moved_sum(
            events,
            TransactionType::Deposit,
        ) - ClientView::new(id).moved_sum(events, TransactionType::Withdrawal) - ClientView::new(
            id,
        ).moved_sum(events, TransactionType::Chargeback),
{
    lemma_total_is_net_of_accepted(ClientView::new(id), events);
}

/// One event moves the total of the account by what it moves in the
/// direction of its kind: up by an accepted deposit, down by an accepted
/// withdrawal or by the deposit that an accepted chargeback takes back. A
/// dispute or a resolve, and any event that does not take effect, leaves the
/// total as it was.
pub proof fn lemma_event_moves_total(c: ClientView, event: ParsedTransactionView)
    ensures
        c.apply(event.tx_id, event.tx()).total() == c.total() + c.moved(
            event,
            TransactionType::Deposit,
        ) - c.moved(event, TransactionType::Withdrawal) - c.moved(
            event,
            TransactionType::Chargeback,
        ),
        c.moved(event, TransactionType::Dispute) == 0,
        c.moved(event, TransactionType::Resolve) == 0,
{
}

/// What one event does to the total of an unlocked account, told from the
/// event and the account alone. A deposit under a fresh id adds its amount,
/// unless the total would leave the range of amounts. A withdrawal under a
/// fresh id that the available funds cover takes its amount. A chargeback
/// of a deposit under dispute takes the amount of that deposit. Every other
/// event leaves the total as it was.
pub proof fn lemma_total_after_event(c: ClientView, txid: TransactionID, tx: TransactionView)
    requires
        c.inv(),
        !c.locked,
    ensures
        c.apply(txid, tx).total() == c.total() + if tx.tx_type == TransactionType::Deposit
            && tx.amount is Some && !c.seen.contains(txid) && c.total() + tx.amount->0
            <= MAX_UNITS {
            tx.amount->0 as int
        } else if tx.tx_type == TransactionType::Withdrawal && tx.amount is Some
            && !c.seen.contains(txid) && tx.amount->0 <= c.available {
            -(tx.amount->0 as int)
        } else if tx.tx_type == TransactionType::Chargeback && c.disputed.contains(txid) {
            -(c.deposits[txid] as int)
        } else {
            0
        },
{
    if c.disputed.contains(txid) {
        lemma_held_covers_disputes(c, txid);
    }
}

/// A deposit with an amount, under an id that was not used before, on an
/// unlocked account that can hold it, is accepted: the amount is added to the
/// available funds, the deposit and its id are recorded, and nothing else
/// changes.
pub proof fn lemma_deposit_takes_effect(c: ClientView, txid: TransactionID, amount: nat)
    requires
        !c.locked,
        !c.seen.contains(txid),
        c.total() + amount <= MAX_UNITS,
    ensures
        ({
            let tx = TransactionView { tx_type: TransactionType::Deposit, amount: Some(amount) };
            &&& c.check(txid, tx) is Ok
            &&& c.apply(txid, tx) == ClientView {
                available: c.available + amount,
                deposits: c.deposits.insert(txid, amount),
                seen: c.seen.insert(txid),
                ..c
            }
        }),
{
}

/// The id of an accepted withdrawal never becomes the id of a deposit: no
/// dispute, resolve or chargeback can ever refer to the withdrawal.
pub proof fn lemma_withdrawal_is_never_disputable(
    c: ClientView,
    withdrawal: ParsedTransactionView,
    later: Seq<ParsedTransactionView>,
)
    requires
        c.inv(),
        withdrawal.tx_type == TransactionType::Withdrawal,
        c.accepts(withdrawal.tx_id, withdrawal.tx()),
    ensures
        ({
            let after = c.apply(withdrawal.tx_id, withdrawal.tx()).apply_all(later);
            &&& after.seen.contains(withdrawal.tx_id)
            &&& !after.deposits.contains_key(withdrawal.tx_id)
            &&& after.check_dispute(withdrawal.tx_id) == Err::<(), Error>(
                Error::TransactionNotFound,
            )
            &&& after.check_resolve(withdrawal.tx_id) == Err::<(), Error>(
                Error::TransactionNotFound,
            )
            &&& after.check_chargeback(withdrawal.tx_id) == Err::<(), Error>(
                Error::TransactionNotFound,
            )
        }),
    decreases later.len(),
{
    if later.len() > 0 {
        lemma_withdrawal_is_never_disputable(c, withdrawal, later.drop_last());
    }
}

/// Applying one run of events after another is applying the two runs joined.
pub proof fn lemma_apply_all_concat(
    c: ClientView,
    first: Seq<ParsedTransactionView>,
    second: Seq<ParsedTransactionView>,
)
    ensures
        c.apply_all(first + second) == c.apply_all(first).apply_all(second),
    decreases second.len(),
{
    if second.len() == 0 {
        assert(first + second =~= first);
    } else {
        lemma_apply_all_concat(c, first, second.drop_last());
        assert((first + second).drop_last() =~= first + second.drop_last());
    }
}

/// No event changes a locked account.
pub proof fn lemma_locked_account_is_frozen(c: ClientView, events: Seq<ParsedTransactionView>)
    requires
        c.locked,
    ensures
        c.apply_all(events) == c,
    decreases events.len(),
{
    if events.len() > 0 {
        lemma_locked_account_is_frozen(c, events.drop_last());
    }
}

/// Once a run of events has locked the account, no further event changes
/// anything on it: not the balances, not the deposits, not the disputes.
pub proof fn lemma_lock_is_final(
    c: ClientView,
    prefix: Seq<ParsedTransactionView>,
    suffix: Seq<ParsedTransactionView>,
)
    requires
        c.apply_all(prefix).locked,
    ensures
        c.apply_all(prefix + suffix) == c.apply_all(prefix),
{
    lemma_apply_all_concat(c, prefix, suffix);
    lemma_locked_account_is_frozen(c.apply_all(prefix), suffix);
}

/// The ids that an account has seen stay seen.
pub proof fn lemma_seen_ids_stay(c: ClientView, events: Seq<ParsedTransactionView>)
    ensures
        c.seen.subset_of(c.apply_all(events).seen),
    decreases events.len(),
{
    if events.len() > 0 {
        lemma_seen_ids_stay(c, events.drop_last());
    }
}

/// Once a deposit or withdrawal has been accepted, a later deposit or
/// withdrawal under the same id changes nothing, whatever came in between.
pub proof fn lemma_used_id_is_refused(
    c: ClientView,
    first: ParsedTransactionView,
    between: Seq<ParsedTransactionView>,
    second: ParsedTransactionView,
)
    requires
        first.tx_type == TransactionType::Deposit || first.tx_type == TransactionType::Withdrawal,
        second.tx_type == TransactionType::Deposit || second.tx_type
            == TransactionType::Withdrawal,
        second.tx_id == first.tx_id,
        c.accepts(first.tx_id, first.tx()),
    ensures
        ({
            let later = c.apply(first.tx_id, first.tx()).apply_all(between);
            &&& !later.accepts(second.tx_id, second.tx())
            &&& later.apply(second.tx_id, second.tx()) == later
        }),
{
    lemma_seen_ids_stay(c.apply(first.tx_id, first.tx()), between);
}

/// A dispute that is accepted and then resolved leaves the account exactly
/// as it was: the resolve is accepted, and both balances are back.
pub proof fn lemma_dispute_then_resolve(
    c: ClientView,
    txid: TransactionID,
    dispute: TransactionView,
    resolve: TransactionView,
)
    requires
        c.inv(),
        dispute.tx_type == TransactionType::Dispute,
        resolve.tx_type == TransactionType::Resolve,
        c.accepts(txid, dispute),
    ensures
        c.apply(txid, dispute).accepts(txid, resolve),
        c.apply(txid, dispute).apply(txid, resolve).available == c.available,
        c.apply(txid, dispute).apply(txid, resolve).held == c.held,
        c.apply(txid, dispute).apply(txid, resolve) == c,
{
    assert(c.disputed.insert(txid).remove(txid) =~= c.disputed);
}

} // verus!
