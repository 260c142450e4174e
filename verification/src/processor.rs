//! The workers: each takes the id of an account from the ready signal and
//! drains the queue of that account into the registry, until the input is
//! over and the signal is empty.

use crate::client::db::{db_run, DbView};
use crate::client::manager::ClientsManager;
use crate::client::model::{ClientID, ClientView};
use crate::client::queue::{
    all_drained, consume, eventual, ids_of, lemma_consume_keeps_eventual, lemma_drain_keeps_inv,
    lemma_drained_is_eventual, lemma_push_advances_eventual, lemma_push_keeps_inv, queue_of,
    queues_drain, queues_inv, queues_push, queues_push_all, ClientQueues, QueuesView,
};
use crate::reader::{ReadingStatus, ReadingStatusTypes};
use crate::transaction::ParsedTransactionView;
use std::collections::VecDeque;
use vstd::prelude::*;

verus! {

/// What a worker does next.
#[derive(Debug, Clone, Copy, PartialEq, Eq, Structural)]
pub enum WorkerStep {
    /// Leave: the input is over and nothing is signalled.
    Stop,
    /// Take the next id from the ready signal, waiting for one if need be.
    Receive,
}

/// Whether the input driver has finished, in good order or not.
pub open spec fn reading_over(status: ReadingStatusTypes) -> bool {
    status == ReadingStatusTypes::Aborted || status == ReadingStatusTypes::Done
}

/// What a worker does next, given how far the input is and whether the
/// ready signal is empty.
pub open spec fn step_of(status: ReadingStatusTypes, notifier_empty: bool) -> WorkerStep {
    if reading_over(status) && notifier_empty {
        WorkerStep::Stop
    } else {
        WorkerStep::Receive
    }
}

/// Decides what a worker does next: it stops once the input is over and the
/// ready signal is empty, and goes on receiving in every other case.
pub fn next_step(status: ReadingStatusTypes, notifier_empty: bool) -> (r: WorkerStep)
    ensures
        r == step_of(status, notifier_empty),
{
    match status {
        ReadingStatusTypes::Aborted | ReadingStatusTypes::Done => {
            if notifier_empty {
                WorkerStep::Stop
            } else {
                WorkerStep::Receive
            }
        },
        _ => WorkerStep::Receive,
    }
}

/// The registry and the queues together.
pub struct EngineView {
    pub db: DbView,
    pub queues: QueuesView,
}

/// One move of the engine: the input driver submits a record, or a worker
/// drains the queue of an account.
pub enum EngineStep {
    Submit(ParsedTransactionView),
    Drain(ClientID),
}

impl EngineView {
    /// The engine before any record: no account, no queue.
    pub open spec fn empty() -> EngineView {
        EngineView { db: Map::empty(), queues: Map::empty() }
    }

    /// The engine after the record has joined the queue of its account.
    pub open spec fn submit(self, event: ParsedTransactionView) -> EngineView {
        EngineView { db: self.db, queues: queues_push(self.queues, event) }
    }

    /// The engine after a worker has drained the queue of the account `id`:
    /// the records that waited there are applied in their order.
    pub open spec fn drain(self, id: ClientID) -> EngineView {
        EngineView {
            db: db_run(self.db, queue_of(self.queues, id)),
            queues: queues_drain(self.queues, id),
        }
    }

    /// The engine after one move.
    pub open spec fn step(self, step: EngineStep) -> EngineView {
        match step {
            EngineStep::Submit(event) => self.submit(event),
            EngineStep::Drain(id) => self.drain(id),
        }
    }

    /// The engine after the moves, in their order.
    pub open spec fn run(self, steps: Seq<EngineStep>) -> EngineView
        decreases steps.len(),
    {
        if steps.len() == 0 {
            self
        } else {
            self.run(steps.drop_last()).step(steps.last())
        }
    }

    /// The engine after the records have been submitted, in their order.
    pub open spec fn submit_all(self, events: Seq<ParsedTransactionView>) -> EngineView {
        EngineView { db: self.db, queues: queues_push_all(self.queues, events) }
    }

    /// The engine after the queues of the accounts have been drained, one
    /// after another.
    pub open spec fn drain_all(self, ids: Seq<ClientID>) -> EngineView
        decreases ids.len(),
    {
        if ids.len() == 0 {
            self
        } else {
            self.drain_all(ids.drop_last()).drain(ids.last())
        }
    }

    /// The registry that there will be once every queue has been drained.
    pub open spec fn eventual(self) -> DbView {
        eventual(self.db, self.queues)
    }

    /// Whether every waiting record waits in the queue of its own account.
    pub open spec fn inv(self) -> bool {
        queues_inv(self.queues)
    }
}

/// The records that the moves submit, in their order.
pub open spec fn submitted(steps: Seq<EngineStep>) -> Seq<ParsedTransactionView>
    decreases steps.len(),
{
    if steps.len() == 0 {
        Seq::empty()
    } else {
        match steps.last() {
            EngineStep::Submit(event) => submitted(steps.drop_last()).push(event),
            EngineStep::Drain(_) => submitted(steps.drop_last()),
        }
    }
}

/// One worker: takes ids from the ready signal and drains the queue of each,
/// until the signal is empty. It then stops if the input is over, and would
/// wait for the next id if it is not.
pub fn run_worker(
    reading_status: &ReadingStatus,
    notification_receiver: &mut VecDeque<ClientID>,
    clients_manager: &mut ClientsManager,
    queues: &mut ClientQueues,
) -> (r: WorkerStep)
    requires
        old(queues).wf(),
        old(clients_manager).wf(),
    ensures
        final(queues).wf(),
        final(clients_manager).wf(),
        final(notification_receiver)@.len() == 0,
        (EngineView { db: final(clients_manager)@, queues: final(queues)@ }) == (EngineView {
            db: old(clients_manager)@,
            queues: old(queues)@,
        }).drain_all(old(notification_receiver)@),
        r == step_of(reading_status@, true),
{
    let ghost start = EngineView { db: clients_manager@, queues: queues@ };
    let ghost ids = notification_receiver@;
    let ghost mut done: int = 0;
    assert(ids.take(0) =~= Seq::empty());
    assert(ids.skip(0) =~= ids);
    loop
        invariant
            queues.wf(),
            clients_manager.wf(),
            0 <= done <= ids.len(),
            notification_receiver@ == ids.skip(done),
            (EngineView { db: clients_manager@, queues: queues@ }) == start.drain_all(
                ids.take(done),
            ),
        ensures
            queues.wf(),
            clients_manager.wf(),
            notification_receiver@.len() == 0,
            (EngineView { db: clients_manager@, queues: queues@ }) == start.drain_all(ids),
        decreases notification_receiver@.len(),
    {
        let client_id = match notification_receiver.pop_front() {
            Some(client_id) => client_id,
            None => {
                proof {
                    assert(ids.take(done) =~= ids);
                }
                break ;
            },
        };
        consume(queues, client_id, clients_manager);
        proof {
            assert(client_id == ids[done]);
            assert(ids.take(done + 1).drop_last() =~= ids.take(done));
            assert(ids.take(done + 1).last() == client_id);
            assert(notification_receiver@ =~= ids.skip(done + 1));
            done = done + 1;
        }
    }
    next_step(reading_status.get(), notification_receiver.len() == 0)
}

/// A pool of `max_processors` workers, run one after another: each drains
/// what is signalled until the ready signal is empty. The result tells of
/// each worker how it ended: it has stopped where the input is over, and is
/// waiting for the next signal where it is not. With no worker nothing is
/// drained.
pub fn start_processors(
    max_processors: u32,
    reading_status: &ReadingStatus,
    notification_receiver: &mut VecDeque<ClientID>,
    clients: &mut ClientsManager,
    queues: &mut ClientQueues,
) -> (r: Vec<WorkerStep>)
    requires
        old(queues).wf(),
        old(clients).wf(),
    ensures
        final(queues).wf(),
        final(clients).wf(),
        r@.len() == max_processors,
        forall|i: int| 0 <= i < r@.len() ==> r@[i] == step_of(reading_status@, true),
        max_processors == 0 ==> {
            &&& final(notification_receiver)@ == old(notification_receiver)@
            &&& final(clients)@ == old(clients)@
            &&& final(queues)@ == old(queues)@
        },
        max_processors > 0 ==> {
            &&& final(notification_receiver)@.len() == 0
            &&& (EngineView { db: final(clients)@, queues: final(queues)@ }) == (EngineView {
                db: old(clients)@,
                queues: old(queues)@,
            }).drain_all(old(notification_receiver)@)
        },
{
    let ghost start = EngineView { db: clients@, queues: queues@ };
    let ghost ids = notification_receiver@;
    let mut workers: Vec<WorkerStep> = Vec::new();
    let mut started: u32 = 0;
    while started < max_processors
        invariant
            queues.wf(),
            clients.wf(),
            started <= max_processors,
            workers@.len() == started,
            forall|i: int| 0 <= i < workers@.len() ==> workers@[i] == step_of(reading_status@, true),
            started == 0 ==> {
                &&& notification_receiver@ == ids
                &&& clients@ == start.db
                &&& queues@ == start.queues
            },
            started > 0 ==> {
                &&& notification_receiver@.len() == 0
                &&& (EngineView { db: clients@, queues: queues@ }) == start.drain_all(ids)
            },
        decreases max_processors - started,
    {
        let ended = run_worker(reading_status, notification_receiver, clients, queues);
        workers.push(ended);
        started = started + 1;
    }
    workers
}

/// No move takes a record out of the queue of its own account into another.
pub proof fn lemma_step_keeps_inv(engine: EngineView, step: EngineStep)
    requires
        engine.inv(),
    ensures
        engine.step(step).inv(),
{
    match step {
        EngineStep::Submit(event) => lemma_push_keeps_inv(engine.queues, event),
        EngineStep::Drain(id) => lemma_drain_keeps_inv(engine.queues, id),
    }
}

/// However submitting and draining are interleaved, and whichever queues the
/// workers drain, and how often: the registry that there will be is the one
/// that the submitted records give when applied in the order in which they
/// were submitted. So the records of each account are applied in the order
/// of their submission.
pub proof fn lemma_run_applies_in_order(engine: EngineView, steps: Seq<EngineStep>)
    requires
        engine.inv(),
    ensures
        engine.run(steps).inv(),
        engine.run(steps).eventual() == db_run(engine.eventual(), submitted(steps)),
    decreases steps.len(),
{
    if steps.len() > 0 {
        let before = engine.run(steps.drop_last());
        lemma_run_applies_in_order(engine, steps.drop_last());
        lemma_step_keeps_inv(before, steps.last());
        match steps.last() {
            EngineStep::Submit(event) => {
                lemma_push_advances_eventual(before.db, before.queues, event);
                assert(submitted(steps).drop_last() =~= submitted(steps.drop_last()));
            },
            EngineStep::Drain(id) => {
                lemma_consume_keeps_eventual(before.db, before.queues, id);
            },
        }
    }
}

/// Submitting records advances the registry that there will be by those
/// records.
pub proof fn lemma_submit_all_advances(engine: EngineView, events: Seq<ParsedTransactionView>)
    requires
        engine.inv(),
    ensures
        engine.submit_all(events).inv(),
        engine.submit_all(events).eventual() == db_run(engine.eventual(), events),
    decreases events.len(),
{
    if events.len() > 0 {
        let before = engine.submit_all(events.drop_last());
        lemma_submit_all_advances(engine, events.drop_last());
        lemma_push_keeps_inv(before.queues, events.last());
        lemma_push_advances_eventual(before.db, before.queues, events.last());
    }
}

/// Draining queues empties the queues of the accounts that are named, leaves
/// the other queues as they were, and does not change the registry that
/// there will be.
pub proof fn lemma_drain_all_drains(engine: EngineView, ids: Seq<ClientID>)
    requires
        engine.inv(),
    ensures
        engine.drain_all(ids).inv(),
        engine.drain_all(ids).eventual() == engine.eventual(),
        forall|id: ClientID|
            ids.contains(id) ==> (#[trigger] queue_of(engine.drain_all(ids).queues, id)).len()
                == 0,
        forall|id: ClientID|
            !ids.contains(id) ==> #[trigger] queue_of(engine.drain_all(ids).queues, id) == queue_of(
                engine.queues,
                id,
            ),
    decreases ids.len(),
{
    if ids.len() > 0 {
        let front = ids.drop_last();
        let before = engine.drain_all(front);
        lemma_drain_all_drains(engine, front);
        lemma_drain_keeps_inv(before.queues, ids.last());
        lemma_consume_keeps_eventual(before.db, before.queues, ids.last());
        let after = engine.drain_all(ids);
        assert forall|id: ClientID| ids.contains(id) implies (#[trigger] queue_of(
            after.queues,
            id,
        )).len() == 0 by {
            if id != ids.last() {
                let i = choose|i: int| 0 <= i < ids.len() && ids[i] == id;
                assert(front[i] == id);
                assert(front.contains(id));
                assert(queue_of(before.queues, id).len() == 0);
            }
        }
        assert forall|id: ClientID| !ids.contains(id) implies #[trigger] queue_of(
            after.queues,
            id,
        ) == queue_of(engine.queues, id) by {
            assert(ids[ids.len() - 1] == ids.last());
            if front.contains(id) {
                let i = choose|i: int| 0 <= i < front.len() && front[i] == id;
                assert(ids[i] == id);
            }
            assert(queue_of(before.queues, id) == queue_of(engine.queues, id));
        }
    }
}

/// Once a worker has drained after every signal, and every account for which
/// records wait has been signalled, the registry is the one that there was
/// to be.
pub proof fn lemma_signalled_queues_are_applied(engine: EngineView, ids: Seq<ClientID>)
    requires
        engine.inv(),
        forall|id: ClientID| (#[trigger] queue_of(engine.queues, id)).len() > 0 ==> ids.contains(id),
    ensures
        all_drained(engine.drain_all(ids).queues),
        engine.drain_all(ids).db == engine.eventual(),
{
    lemma_drain_all_drains(engine, ids);
    let after = engine.drain_all(ids);
    assert forall|id: ClientID| #[trigger] after.queues.contains_key(id) implies after.queues[id].len()
        == 0 by {
        if !ids.contains(id) {
            assert(queue_of(after.queues, id) == queue_of(engine.queues, id));
            assert(queue_of(engine.queues, id).len() == 0);
        } else {
            assert(queue_of(after.queues, id).len() == 0);
        }
    }
    lemma_drained_is_eventual(after.db, after.queues);
}

/// After records have been submitted, each account for which records wait
/// is among those that the records name.
pub proof fn lemma_waiting_accounts_are_named(
    queues: QueuesView,
    events: Seq<ParsedTransactionView>,
    id: ClientID,
)
    ensures
        queue_of(queues_push_all(queues, events), id).len() > 0 ==> queue_of(queues, id).len() > 0
            || ids_of(events).contains(id),
    decreases events.len(),
{
    if events.len() > 0 {
        lemma_waiting_accounts_are_named(queues, events.drop_last(), id);
        let front = events.drop_last();
        if ids_of(front).contains(id) {
            let i = choose|i: int| 0 <= i < ids_of(front).len() && ids_of(front)[i] == id;
            assert(ids_of(events)[i] == id);
        }
        if events.last().client_id == id {
            assert(ids_of(events)[events.len() - 1] == id);
        }
    }
}

/// The whole run, from nothing: the records of a log are submitted, a signal
/// is left for each, and a worker drains after every signal. The registry is
/// then what the records give when applied in the order of the log, and no
/// record waits any more.
pub proof fn lemma_log_is_applied_in_order(events: Seq<ParsedTransactionView>)
    ensures
        EngineView::empty().submit_all(events).drain_all(ids_of(events)).db == db_run(
            Map::empty(),
            events,
        ),
        all_drained(EngineView::empty().submit_all(events).drain_all(ids_of(events)).queues),
{
    let start = EngineView::empty();
    let filled = start.submit_all(events);
    lemma_submit_all_advances(start, events);
    assert(start.eventual() =~= Map::<ClientID, ClientView>::empty());
    assert forall|id: ClientID| (#[trigger] queue_of(filled.queues, id)).len() > 0 implies ids_of(
        events,
    ).contains(id) by {
        lemma_waiting_accounts_are_named(start.queues, events, id);
    }
    lemma_signalled_queues_are_applied(filled, ids_of(events));
}

} // verus!
