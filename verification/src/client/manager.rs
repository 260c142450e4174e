//! Hands each record to the account that it names.

use crate::client::account::Client;
use crate::client::db::{db_push, db_run, lemma_db_run_one_account, ClientsDB, DbView};
use crate::client::model::{lemma_apply_all_keeps_id, ClientID};
use crate::error::Error;
use crate::transaction::{tx_views, ParsedTransaction};
use vstd::prelude::*;

verus! {

/// The way into the registry for the workers.
pub struct ClientsManager {
    map: ClientsDB,
}

impl View for ClientsManager {
    type V = DbView;

    closed spec fn view(&self) -> DbView {
        self.map@
    }
}

impl ClientsManager {
    /// Whether the registry behind the manager is well formed.
    pub closed spec fn wf(&self) -> bool {
        self.map.wf()
    }

    /// A manager of the given registry.
    pub fn new(db: ClientsDB) -> (r: ClientsManager)
        requires
            db.wf(),
        ensures
            r.wf(),
            r@ == db@,
    {
        ClientsManager { map: db }
    }

    /// The registry behind the manager.
    pub fn clients(&self) -> (r: &ClientsDB)
        requires
            self.wf(),
        ensures
            r.wf(),
            r@ == self@,
    {
        &self.map
    }

    /// Applies the record to the account that it names, which is created
    /// first where the registry does not hold it yet. Never fails: an event
    /// that the account refuses leaves the account as it was.
    pub fn push_tx(&mut self, tx: ParsedTransaction) -> (r: Result<(), Error>)
        requires
            old(self).wf(),
        ensures
            final(self).wf(),
            r is Ok,
            final(self)@ == db_push(old(self)@, tx@),
    {
        let tx_id = tx.tx_id;
        let client_id = tx.client_id;
        match self.map.remove(client_id) {
            Some(mut client) => {
                client.add_transaction(tx_id, tx.extract_tx());
                self.map.insert(client);
            },
            None => {
                let (tx_details, mut client) = tx.extract_tx_and_client();
                client.add_transaction(tx_id, tx_details);
                self.map.insert(client);
            },
        }
        assert(self@ =~= db_push(old(self)@, tx@));
        Ok(())
    }

    /// Applies a run of records that all name the account `client_id`, in
    /// their order. The account is created first where the registry does not
    /// hold it yet; with no record nothing is done, and no account is made.
    pub fn push_all(&mut self, client_id: ClientID, records: &Vec<ParsedTransaction>)
        requires
            old(self).wf(),
            forall|i: int| 0 <= i < records@.len() ==> (#[trigger] records@[i]).client_id == client_id,
        ensures
            final(self).wf(),
            final(self)@ == db_run(old(self)@, tx_views(records@)),
    {
        if records.len() == 0 {
            assert(tx_views(records@).len() == 0);
            return ;
        }
        let mut client = match self.map.remove(client_id) {
            Some(client) => client,
            None => Client::new(client_id),
        };
        client.add_transactions(records);
        self.map.insert(client);
        proof {
            let events = tx_views(records@);
            assert forall|i: int| 0 <= i < events.len() implies (#[trigger] events[i]).client_id
                == client_id by {
                assert(records@[i].client_id == client_id);
            }
            lemma_db_run_one_account(old(self)@, events, client_id);
            lemma_apply_all_keeps_id(
                crate::client::db::client_of(old(self)@, client_id),
                events,
            );
            assert(self@ =~= db_run(old(self)@, events));
        }
    }
}

} // verus!
