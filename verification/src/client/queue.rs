//! The per-account queues: records wait here, in the order of their arrival,
//! until a worker drains the queue of their account into the registry.

use crate::client::db::{
    client_of, db_push, db_run, lemma_db_run_by_account, lemma_events_of_empty,
    lemma_events_of_last, events_of, DbView,
};
use crate::client::manager::ClientsManager;
use crate::client::model::ClientID;
use crate::error::Error;
use crate::transaction::{tx_views, ParsedTransaction, ParsedTransactionView};
use std::collections::{HashMap, VecDeque};
use vstd::prelude::*;

verus! {

broadcast use vstd::std_specs::hash::group_hash_axioms;

/// The queues as mathematics: the waiting records of each account that has
/// a queue, oldest first.
pub type QueuesView = Map<ClientID, Seq<ParsedTransactionView>>;

/// The records that wait for the account `id`: none where it has no queue.
pub open spec fn queue_of(queues: QueuesView, id: ClientID) -> Seq<ParsedTransactionView> {
    if queues.contains_key(id) {
        queues[id]
    } else {
        Seq::empty()
    }
}

/// The queues after a record has joined the queue of its account, which is
/// made first where the account has none.
pub open spec fn queues_push(queues: QueuesView, event: ParsedTransactionView) -> QueuesView {
    queues.insert(event.client_id, queue_of(queues, event.client_id).push(event))
}

/// The queues after the queue of the account `id` has been drained.
pub open spec fn queues_drain(queues: QueuesView, id: ClientID) -> QueuesView {
    if queues.contains_key(id) {
        queues.insert(id, Seq::empty())
    } else {
        queues
    }
}

/// Whether every waiting record waits in the queue of the account it names.
pub open spec fn queues_inv(queues: QueuesView) -> bool {
    forall|id: ClientID, i: int|
        queues.contains_key(id) && 0 <= i < queues[id].len() ==> (#[trigger] queues[id][i]).client_id
            == id
}

/// The per-account queues.
pub struct ClientQueues {
    queues: HashMap<ClientID, VecDeque<ParsedTransaction>>,
}

impl View for ClientQueues {
    type V = QueuesView;

    closed spec fn view(&self) -> QueuesView {
        self.queues@.map_values(|queue: VecDeque<ParsedTransaction>| tx_views(queue@))
    }
}

/// No queues yet: each account gets its queue with its first record.
pub fn generate_clients_queues() -> (r: ClientQueues)
    ensures
        r@ == Map::<ClientID, Seq<ParsedTransactionView>>::empty(),
        r.wf(),
{
    let r = ClientQueues { queues: HashMap::new() };
    assert(r@ =~= Map::<ClientID, Seq<ParsedTransactionView>>::empty());
    r
}

impl ClientQueues {
    /// Whether every waiting record waits in the queue of its own account.
    pub open spec fn wf(&self) -> bool {
        queues_inv(self@)
    }

    /// The number of records that wait for the account `id`.
    pub fn pending(&self, id: ClientID) -> (r: usize)
        ensures
            r == queue_of(self@, id).len(),
    {
        match self.queues.get(&id) {
            Some(queue) => queue.len(),
            None => 0,
        }
    }
}

/// Appends the record to the queue of its account if the account has one,
/// and says whether it had.
pub fn push_without_adding(queues: &mut ClientQueues, tx: &ParsedTransaction) -> (r: Result<
    bool,
    Error,
>)
    requires
        old(queues).wf(),
    ensures
        final(queues).wf(),
        r == Ok::<bool, Error>(old(queues)@.contains_key(tx.client_id)),
        final(queues)@ == if old(queues)@.contains_key(tx.client_id) {
            queues_push(old(queues)@, tx@)
        } else {
            old(queues)@
        },
{
    let client_id = tx.client_id;
    match queues.queues.remove(&client_id) {
        Some(mut queue) => {
            let ghost before = queue@;
            queue.push_back(*tx);
            assert(tx_views(queue@) =~= tx_views(before).push(tx@));
            queues.queues.insert(client_id, queue);
            proof {
                assert(queues@ =~= queues_push(old(queues)@, tx@));
                lemma_push_keeps_inv(old(queues)@, tx@);
            }
            Ok(true)
        },
        None => {
            assert(queues@ =~= old(queues)@);
            Ok(false)
        },
    }
}

/// Appends the record to the queue of its account, which is made first where
/// the account has none.
pub fn push_tx(queues: &mut ClientQueues, tx: ParsedTransaction)
    requires
        old(queues).wf(),
    ensures
        final(queues).wf(),
        final(queues)@ == queues_push(old(queues)@, tx@),
{
    let client_id = tx.client_id;
    let added: bool = match push_without_adding(queues, &tx) {
        Ok(result) => result,
        Err(_) => {
            return ;
        },
    };
    if !added {
        let ghost before = queues@;
        let fresh: VecDeque<ParsedTransaction> = VecDeque::new();
        assert(tx_views(fresh@) =~= Seq::empty());
        queues.queues.insert(client_id, fresh);
        assert(queues@ =~= before.insert(client_id, Seq::empty()));
        let _ = push_without_adding(queues, &tx);
        assert(queues@ =~= queues_push(old(queues)@, tx@));
    }
}

/// Drains the queue of the account `client_id` into the registry: the
/// records that wait there are applied in the order of their arrival, and
/// the queue is left empty. Where the account has no queue, or nothing waits
/// in it, nothing changes.
pub fn consume(queues: &mut ClientQueues, client_id: ClientID, clients_manager: &mut ClientsManager)
    requires
        old(queues).wf(),
        old(clients_manager).wf(),
    ensures
        final(queues).wf(),
        final(clients_manager).wf(),
        final(queues)@ == queues_drain(old(queues)@, client_id),
        final(clients_manager)@ == db_run(
            old(clients_manager)@,
            queue_of(old(queues)@, client_id),
        ),
{
    let mut receiver = match queues.queues.remove(&client_id) {
        Some(receiver) => receiver,
        None => {
            assert(queues@ =~= old(queues)@);
            return ;
        },
    };
    let ghost all = receiver@;
    let mut batch: Vec<ParsedTransaction> = Vec::new();
    assert(batch@ + receiver@ =~= all);
    loop
        invariant
            batch@ + receiver@ == all,
        ensures
            batch@ == all,
            receiver@.len() == 0,
        decreases receiver@.len(),
    {
        match receiver.pop_front() {
            Some(tx) => {
                batch.push(tx);
                assert(batch@ + receiver@ =~= all);
            },
            None => {
                assert(batch@ =~= all);
                break ;
            },
        }
    }
    proof {
        assert(old(queues)@[client_id] == tx_views(all));
        assert forall|i: int| 0 <= i < batch@.len() implies (#[trigger] batch@[i]).client_id
            == client_id by {
            assert(old(queues)@[client_id][i].client_id == client_id);
        }
    }
    clients_manager.push_all(client_id, &batch);
    queues.queues.insert(client_id, receiver);
    assert(tx_views(receiver@) =~= Seq::empty());
    proof {
        assert(queues@ =~= queues_drain(old(queues)@, client_id));
        lemma_drain_keeps_inv(old(queues)@, client_id);
    }
}

/// The registry that there will be once every queue has been drained: an
/// account is in it where the registry holds it already or records wait for
/// it, and it is what the waiting records make of it.
pub open spec fn eventual(db: DbView, queues: QueuesView) -> DbView {
    Map::new(
        |id: ClientID| db.contains_key(id) || queue_of(queues, id).len() > 0,
        |id: ClientID| client_of(db, id).apply_all(queue_of(queues, id)),
    )
}

/// Whether nothing waits in any queue.
pub open spec fn all_drained(queues: QueuesView) -> bool {
    forall|id: ClientID| #[trigger] queues.contains_key(id) ==> queues[id].len() == 0
}

/// Where every record of a run names the account `id`, the run is the
/// records of that account, and no other account has any record in it.
pub proof fn lemma_events_of_own_queue(events: Seq<ParsedTransactionView>, id: ClientID)
    requires
        forall|i: int| 0 <= i < events.len() ==> (#[trigger] events[i]).client_id == id,
    ensures
        events_of(events, id) == events,
        forall|other: ClientID|
            other != id ==> #[trigger] events_of(events, other)
                == Seq::<ParsedTransactionView>::empty(),
    decreases events.len(),
{
    if events.len() == 0 {
        lemma_events_of_empty(id);
        assert(events =~= Seq::empty());
        assert forall|other: ClientID| other != id implies #[trigger] events_of(events, other)
            == Seq::<ParsedTransactionView>::empty() by {
            lemma_events_of_empty(other);
        }
    } else {
        let front = events.drop_last();
        assert forall|i: int| 0 <= i < front.len() implies (#[trigger] front[i]).client_id
            == id by {
            assert(front[i] == events[i]);
        }
        lemma_events_of_own_queue(front, id);
        lemma_events_of_last(events, id);
        assert(events.last() == events[events.len() - 1]);
        assert(front.push(events.last()) =~= events);
        assert forall|other: ClientID| other != id implies #[trigger] events_of(events, other)
            == Seq::<ParsedTransactionView>::empty() by {
            lemma_events_of_last(events, other);
        }
    }
}

/// A record that joins its queue advances the registry that there will be
/// by that record: it will be applied after all that wait already.
pub proof fn lemma_push_advances_eventual(
    db: DbView,
    queues: QueuesView,
    event: ParsedTransactionView,
)
    ensures
        eventual(db, queues_push(queues, event)) == db_push(eventual(db, queues), event),
{
    let id = event.client_id;
    let waiting = queue_of(queues, id);
    let pushed = queues_push(queues, event);
    let left = eventual(db, pushed);
    let right = db_push(eventual(db, queues), event);
    assert(waiting.push(event).drop_last() =~= waiting);
    assert(queue_of(pushed, id) == waiting.push(event));
    let start = client_of(db, id);
    assert(start.apply_all(waiting.push(event)) == start.apply_all(waiting).apply(
        event.tx_id,
        event.tx(),
    ));
    assert(client_of(eventual(db, queues), id) == start.apply_all(waiting));
    assert forall|other: ClientID| #[trigger]
        left.contains_key(other) <==> right.contains_key(other) by {
        assert(other != id ==> queue_of(pushed, other) == queue_of(queues, other));
    }
    assert forall|other: ClientID| #[trigger] left.contains_key(other) implies left[other]
        == right[other] by {
        assert(other != id ==> queue_of(pushed, other) == queue_of(queues, other));
    }
    assert(left.dom() =~= right.dom());
    assert(left =~= right);
}

/// Draining a queue does not change the registry that there will be: it
/// only brings the registry closer to it.
pub proof fn lemma_consume_keeps_eventual(db: DbView, queues: QueuesView, id: ClientID)
    requires
        queues_inv(queues),
    ensures
        eventual(db_run(db, queue_of(queues, id)), queues_drain(queues, id)) == eventual(
            db,
            queues,
        ),
{
    let waiting = queue_of(queues, id);
    let after = db_run(db, waiting);
    let left = eventual(after, queues_drain(queues, id));
    let right = eventual(db, queues);
    assert forall|i: int| 0 <= i < waiting.len() implies (#[trigger] waiting[i]).client_id
        == id by {
        assert(queues[id][i].client_id == id);
    }
    lemma_events_of_own_queue(waiting, id);
    let drained = queues_drain(queues, id);
    assert forall|other: ClientID|
        (#[trigger] left.contains_key(other) <==> right.contains_key(other)) && (
        left.contains_key(other) ==> left[other] == right[other]) by {
        lemma_db_run_by_account(db, waiting, other);
        if other != id {
            assert(events_of(waiting, other) == Seq::<ParsedTransactionView>::empty());
            assert(queue_of(drained, other) == queue_of(queues, other));
        } else {
            assert(queue_of(drained, id) =~= Seq::<ParsedTransactionView>::empty());
        }
    }
    assert(left.dom() =~= right.dom());
    assert(left =~= right);
}

/// Once nothing waits in any queue, the registry is the registry that there
/// will be.
pub proof fn lemma_drained_is_eventual(db: DbView, queues: QueuesView)
    requires
        all_drained(queues),
    ensures
        eventual(db, queues) == db,
{
    assert forall|id: ClientID| queue_of(queues, id).len() == 0 by {
        if queues.contains_key(id) {
        }
    }
    assert(eventual(db, queues) =~= db);
}

/// The queues after the records have joined them, one after another.
pub open spec fn queues_push_all(queues: QueuesView, events: Seq<ParsedTransactionView>) -> QueuesView
    decreases events.len(),
{
    if events.len() == 0 {
        queues
    } else {
        queues_push(queues_push_all(queues, events.drop_last()), events.last())
    }
}

/// The account that each record names.
pub open spec fn ids_of(events: Seq<ParsedTransactionView>) -> Seq<ClientID> {
    events.map_values(|event: ParsedTransactionView| event.client_id)
}

/// A record that joins its queue leaves every record in the queue of its
/// own account.
pub proof fn lemma_push_keeps_inv(queues: QueuesView, event: ParsedTransactionView)
    requires
        queues_inv(queues),
    ensures
        queues_inv(queues_push(queues, event)),
{
    let after = queues_push(queues, event);
    assert forall|id: ClientID, i: int|
        after.contains_key(id) && 0 <= i < after[id].len() implies (#[trigger] after[id][i]).client_id
        == id by {
        if id != event.client_id || i < queue_of(queues, id).len() {
            assert(queues[id][i].client_id == id);
        }
    }
}

/// Draining a queue leaves every record in the queue of its own account.
pub proof fn lemma_drain_keeps_inv(queues: QueuesView, id: ClientID)
    requires
        queues_inv(queues),
    ensures
        queues_inv(queues_drain(queues, id)),
{
    let after = queues_drain(queues, id);
    assert forall|other: ClientID, i: int|
        after.contains_key(other) && 0 <= i < after[other].len() implies (
    #[trigger] after[other][i]).client_id == other by {
        assert(queues[other][i].client_id == other);
    }
}

} // verus!
