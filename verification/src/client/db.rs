//! The registry of accounts: every account that an event has named, by id.

use crate::client::account::{snapshot_of, Client, SerializableClient, SnapshotView};
use crate::client::model::{
    lemma_new_meets_inv, lemma_process_keeps_inv, ClientID, ClientView,
};
use crate::transaction::ParsedTransactionView;
use std::collections::HashMap;
use vstd::prelude::*;

verus! {

broadcast use vstd::std_specs::hash::group_hash_axioms;

/// The registry as mathematics: the state of each account, by id.
pub type DbView = Map<ClientID, ClientView>;

/// The account under `id`: the one in the registry, or a fresh one where the
/// registry has none.
pub open spec fn client_of(db: DbView, id: ClientID) -> ClientView {
    if db.contains_key(id) {
        db[id]
    } else {
        ClientView::new(id)
    }
}

/// The registry after one record: the account that the record names is
/// created if it is missing, and the event is applied to it.
pub open spec fn db_push(db: DbView, event: ParsedTransactionView) -> DbView {
    db.insert(event.client_id, client_of(db, event.client_id).apply(event.tx_id, event.tx()))
}

/// The registry after the records, taken in their order.
pub open spec fn db_run(db: DbView, events: Seq<ParsedTransactionView>) -> DbView
    decreases events.len(),
{
    if events.len() == 0 {
        db
    } else {
        db_push(db_run(db, events.drop_last()), events.last())
    }
}

/// Whether every account of the registry stands under its own id and meets
/// the invariant of accounts.
pub open spec fn db_inv(db: DbView) -> bool {
    forall|id: ClientID| #[trigger] db.contains_key(id) ==> db[id].id == id && db[id].inv()
}

/// The registry: every account that a record has named, under its id.
pub struct ClientsDB {
    clients: HashMap<ClientID, Client>,
}

impl View for ClientsDB {
    type V = DbView;

    closed spec fn view(&self) -> DbView {
        self.clients@.map_values(|c: Client| c@)
    }
}

/// An empty registry.
pub fn generate_client_db() -> (r: ClientsDB)
    ensures
        r@ == Map::<ClientID, ClientView>::empty(),
        r.wf(),
{
    let r = ClientsDB { clients: HashMap::new() };
    assert(r@ =~= Map::<ClientID, ClientView>::empty());
    r
}

impl ClientsDB {
    /// Whether the registry is one that records can have led to.
    pub open spec fn wf(&self) -> bool {
        db_inv(self@)
    }

    /// Whether the registry holds an account under `id`.
    pub fn contains_key(&self, id: ClientID) -> (r: bool)
        ensures
            r == self@.contains_key(id),
    {
        self.clients.contains_key(&id)
    }

    /// The account under `id`, if the registry holds one.
    pub fn get(&self, id: ClientID) -> (r: Option<&Client>)
        requires
            self.wf(),
        ensures
            match r {
                Some(client) => self@.contains_key(id) && client@ == self@[id] && client.wf(),
                None => !self@.contains_key(id),
            },
    {
        self.clients.get(&id)
    }

    /// Takes the account under `id` out of the registry.
    pub fn remove(&mut self, id: ClientID) -> (r: Option<Client>)
        requires
            old(self).wf(),
        ensures
            final(self).wf(),
            final(self)@ == old(self)@.remove(id),
            match r {
                Some(client) => old(self)@.contains_key(id) && client@ == old(self)@[id]
                    && client.wf(),
                None => !old(self)@.contains_key(id),
            },
    {
        let r = self.clients.remove(&id);
        assert(self@ =~= old(self)@.remove(id));
        assert(r is Some ==> old(self)@.contains_key(id));
        r
    }

    /// Puts the account into the registry under its own id, in place of the
    /// account that stood there, if any.
    pub fn insert(&mut self, client: Client)
        requires
            old(self).wf(),
            client.wf(),
        ensures
            final(self).wf(),
            final(self)@ == old(self)@.insert(client@.id, client@),
    {
        let id = client.id();
        self.clients.insert(id, client);
        assert(self@ =~= old(self)@.insert(id, client@));
    }

    /// The rows of the final snapshot: one for each account, in the order of
    /// the ids.
    pub fn snapshots(&self) -> (r: Vec<SerializableClient>)
        requires
            self.wf(),
        ensures
            snapshot_views(r@) == snapshot_rows(self@, 0x1_0000),
    {
        let mut rows: Vec<SerializableClient> = Vec::new();
        let mut next: u32 = 0;
        assert(snapshot_views(rows@) =~= snapshot_rows(self@, 0));
        while next < 0x1_0000
            invariant
                next <= 0x1_0000,
                self.wf(),
                snapshot_views(rows@) == snapshot_rows(self@, next as nat),
            decreases 0x1_0000 - next,
        {
            let id: ClientID = next as ClientID;
            let ghost before = rows@;
            match self.clients.get(&id) {
                Some(client) => {
                    assert(self@.contains_key(id));
                    rows.push(client.snapshot());
                    assert(snapshot_views(rows@) =~= snapshot_views(before).push(
                        snapshot_of(self@[id]),
                    ));
                },
                None => {},
            }
            next = next + 1;
        }
        rows
    }
}

/// The rows as mathematics.
pub open spec fn snapshot_views(rows: Seq<SerializableClient>) -> Seq<SnapshotView> {
    rows.map_values(|row: SerializableClient| row@)
}

/// The rows of the accounts whose id is below `n`, in the order of the ids.
pub open spec fn snapshot_rows(db: DbView, n: nat) -> Seq<SnapshotView>
    decreases n,
{
    if n == 0 {
        Seq::empty()
    } else {
        let id = (n - 1) as ClientID;
        let rows = snapshot_rows(db, (n - 1) as nat);
        if db.contains_key(id) {
            rows.push(snapshot_of(db[id]))
        } else {
            rows
        }
    }
}

/// The rows of the snapshot are the accounts: every row is the row of the
/// account whose id it carries, the rows come in the order of the ids, so
/// that no account has two, and every account below the bound has its row.
pub proof fn lemma_snapshot_rows_are_the_accounts(db: DbView, n: nat)
    requires
        db_inv(db),
        n <= 0x1_0000,
    ensures
        forall|i: int|
            0 <= i < snapshot_rows(db, n).len() ==> {
                let row = #[trigger] snapshot_rows(db, n)[i];
                &&& row.client < n
                &&& db.contains_key(row.client)
                &&& row == snapshot_of(db[row.client])
            },
        forall|i: int, j: int|
            0 <= i < j < snapshot_rows(db, n).len() ==> (#[trigger] snapshot_rows(db, n)[i]).client
                < (#[trigger] snapshot_rows(db, n)[j]).client,
        forall|id: ClientID|
            id < n && #[trigger] db.contains_key(id) ==> exists|i: int|
                0 <= i < snapshot_rows(db, n).len() && (#[trigger] snapshot_rows(db, n)[i]).client
                    == id,
    decreases n,
{
    if n > 0 {
        let id = (n - 1) as ClientID;
        let before = snapshot_rows(db, (n - 1) as nat);
        let rows = snapshot_rows(db, n);
        lemma_snapshot_rows_are_the_accounts(db, (n - 1) as nat);
        assert forall|i: int| 0 <= i < rows.len() implies {
            let row = #[trigger] rows[i];
            &&& row.client < n
            &&& db.contains_key(row.client)
            &&& row == snapshot_of(db[row.client])
        } by {
            if i < before.len() {
                assert(rows[i] == before[i]);
            }
        }
        assert forall|i: int, j: int| 0 <= i < j < rows.len() implies (#[trigger] rows[i]).client < (
        #[trigger] rows[j]).client by {
            assert(rows[i] == before[i]);
            if j < before.len() {
                assert(rows[j] == before[j]);
            }
        }
        assert forall|other: ClientID| other < n && #[trigger] db.contains_key(other) implies exists|
            i: int,
        |
            0 <= i < rows.len() && (#[trigger] rows[i]).client == other by {
            if other == id {
                assert(rows[rows.len() - 1].client == id);
            } else {
                let i = choose|i: int| 0 <= i < before.len() && (#[trigger] before[i]).client == other;
                assert(rows[i] == before[i]);
            }
        }
    }
}

/// The records that name the account `id`, in their order.
pub open spec fn events_of(events: Seq<ParsedTransactionView>, id: ClientID) -> Seq<
    ParsedTransactionView,
> {
    events.filter(|event: ParsedTransactionView| event.client_id == id)
}

/// The records of an account, taken from the back: the last record joins
/// those before it where it names the account.
pub proof fn lemma_events_of_last(events: Seq<ParsedTransactionView>, id: ClientID)
    requires
        events.len() > 0,
    ensures
        events_of(events, id) == if events.last().client_id == id {
            events_of(events.drop_last(), id).push(events.last())
        } else {
            events_of(events.drop_last(), id)
        },
{
    reveal(Seq::filter);
}

/// Among no records none names the account.
pub proof fn lemma_events_of_empty(id: ClientID)
    ensures
        events_of(Seq::empty(), id) == Seq::<ParsedTransactionView>::empty(),
{
    reveal(Seq::filter);
}

/// One record keeps the registry well formed.
pub proof fn lemma_db_push_keeps_inv(db: DbView, event: ParsedTransactionView)
    requires
        db_inv(db),
    ensures
        db_inv(db_push(db, event)),
{
    let id = event.client_id;
    lemma_new_meets_inv(id);
    assert(db.contains_key(id) ==> db[id].inv());
    lemma_process_keeps_inv(client_of(db, id), event.tx_id, event.tx());
    let after = db_push(db, event);
    assert forall|other: ClientID| #[trigger] after.contains_key(other) implies after[other].id
        == other && after[other].inv() by {
        if other != id {
            assert(db.contains_key(other));
        }
    }
}

/// Records keep the registry well formed.
pub proof fn lemma_db_run_keeps_inv(db: DbView, events: Seq<ParsedTransactionView>)
    requires
        db_inv(db),
    ensures
        db_inv(db_run(db, events)),
    decreases events.len(),
{
    if events.len() > 0 {
        lemma_db_run_keeps_inv(db, events.drop_last());
        lemma_db_push_keeps_inv(db_run(db, events.drop_last()), events.last());
    }
}

/// After a run of records, the registry holds the accounts that it held
/// before and those that a record names, and each account is what the
/// records that name it make of it, applied in their order: records of
/// other accounts have no part in it.
pub proof fn lemma_db_run_by_account(db: DbView, events: Seq<ParsedTransactionView>, id: ClientID)
    ensures
        db_run(db, events).contains_key(id) <==> db.contains_key(id) || events_of(events, id).len()
            > 0,
        client_of(db_run(db, events), id) == client_of(db, id).apply_all(events_of(events, id)),
    decreases events.len(),
{
    if events.len() == 0 {
        lemma_events_of_empty(id);
    } else {
        lemma_db_run_by_account(db, events.drop_last(), id);
        lemma_events_of_last(events, id);
        if events.last().client_id == id {
            let mine = events_of(events, id);
            assert(mine.drop_last() =~= events_of(events.drop_last(), id));
            assert(mine.last() == events.last());
        }
    }
}

/// A run of records that all name one account only touches that account: the
/// registry afterwards is the registry before with that account replaced by
/// what the records make of it.
pub proof fn lemma_db_run_one_account(db: DbView, events: Seq<ParsedTransactionView>, id: ClientID)
    requires
        events.len() > 0,
        forall|i: int| 0 <= i < events.len() ==> (#[trigger] events[i]).client_id == id,
    ensures
        db_run(db, events) == db.insert(id, client_of(db, id).apply_all(events)),
    decreases events.len(),
{
    let front = events.drop_last();
    assert(events.last() == events[events.len() - 1]);
    if front.len() == 0 {
        assert(db_run(db, front) == db);
        assert(client_of(db, id).apply_all(front) == client_of(db, id));
    } else {
        assert forall|i: int| 0 <= i < front.len() implies (#[trigger] front[i]).client_id
            == id by {
            assert(front[i] == events[i]);
        }
        lemma_db_run_one_account(db, front, id);
        let before = client_of(db, id).apply_all(front);
        assert(db.insert(id, before).insert(
            id,
            before.apply(events.last().tx_id, events.last().tx()),
        ) =~= db.insert(id, before.apply(events.last().tx_id, events.last().tx())));
    }
}

/// Records of different accounts commute: two runs of records in which the
/// records of every account come in the same order lead from one registry to
/// the same registry, however the accounts are interleaved.
pub proof fn lemma_accounts_commute(
    db: DbView,
    one: Seq<ParsedTransactionView>,
    other: Seq<ParsedTransactionView>,
)
    requires
        forall|id: ClientID| events_of(one, id) == events_of(other, id),
    ensures
        db_run(db, one) == db_run(db, other),
{
    let left = db_run(db, one);
    let right = db_run(db, other);
    assert forall|id: ClientID| #[trigger]
        left.contains_key(id) <==> right.contains_key(id) by {
        lemma_db_run_by_account(db, one, id);
        lemma_db_run_by_account(db, other, id);
        assert(events_of(one, id) == events_of(other, id));
    }
    assert forall|id: ClientID| #[trigger] left.contains_key(id) implies left[id] == right[id] by {
        lemma_db_run_by_account(db, one, id);
        lemma_db_run_by_account(db, other, id);
        assert(events_of(one, id) == events_of(other, id));
    }
    assert(left.dom() =~= right.dom());
    assert(left =~= right);
}

} // verus!
