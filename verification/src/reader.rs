//! Progress of the input driver, as seen by the workers.

use crate::client::model::ClientID;
use crate::client::queue::{ids_of, push_tx, queues_push, queues_push_all, ClientQueues};
use crate::error::Error;
use crate::transaction::{ParsedTransaction, ParsedTransactionView};
use std::collections::VecDeque;
use vstd::prelude::*;

verus! {

/// How far the input driver has come with the event log.
#[derive(Debug, PartialEq, Eq, Structural, Clone, Copy)]
pub enum ReadingStatusTypes {
    NotStarted,
    InProgress,
    Aborted,
    Done,
}

/// The cell that the input driver writes and the workers read.
#[derive(Debug, Clone, Copy)]
pub struct ReadingStatus {
    status: ReadingStatusTypes,
}

impl View for ReadingStatus {
    type V = ReadingStatusTypes;

    closed spec fn view(&self) -> ReadingStatusTypes {
        self.status
    }
}

impl ReadingStatus {
    /// A fresh cell: reading has not started.
    pub fn new() -> (r: ReadingStatus)
        ensures
            r@ == ReadingStatusTypes::NotStarted,
    {
        ReadingStatus { status: ReadingStatusTypes::NotStarted }
    }

    /// Overwrites the status; every transition is allowed.
    pub fn change(&mut self, new_status: ReadingStatusTypes)
        ensures
            final(self)@ == new_status,
    {
        self.status = new_status;
    }

    /// Marks the end of reading: done where the input was read, aborted
    /// where reading failed.
    pub fn finish(&mut self, read: &Result<(), Error>)
        ensures
            final(self)@ == if read is Ok {
                ReadingStatusTypes::Done
            } else {
                ReadingStatusTypes::Aborted
            },
    {
        match read {
            Ok(_) => self.change(ReadingStatusTypes::Done),
            Err(_) => self.change(ReadingStatusTypes::Aborted),
        }
    }

    /// The status last written.
    pub fn get(&self) -> (r: ReadingStatusTypes)
        ensures
            r == self@,
    {
        self.status
    }
}

/// The records among the lines of the input: a line that could not be
/// decoded is passed over.
pub open spec fn decoded(lines: Seq<Option<ParsedTransaction>>) -> Seq<ParsedTransactionView>
    decreases lines.len(),
{
    if lines.len() == 0 {
        Seq::empty()
    } else {
        match lines.last() {
            Some(tx) => decoded(lines.drop_last()).push(tx@),
            None => decoded(lines.drop_last()),
        }
    }
}

/// Submits one record: it joins the queue of its account, and the id of the
/// account is put on the ready signal.
pub fn submit(
    tx: ParsedTransaction,
    notification_sender: &mut VecDeque<ClientID>,
    queues: &mut ClientQueues,
)
    requires
        old(queues).wf(),
    ensures
        final(queues).wf(),
        final(queues)@ == queues_push(old(queues)@, tx@),
        final(notification_sender)@ == old(notification_sender)@.push(tx.client_id),
{
    let client_id = tx.client_id;
    push_tx(queues, tx);
    notification_sender.push_back(client_id);
}

/// Reads the input. `file` is `None` where the input could not be opened:
/// that is `UnknownFile`, and nothing is touched. Otherwise reading is marked
/// as in progress and every line that decoded is submitted, in the order of
/// the lines.
pub fn read_file(
    file: Option<Vec<Option<ParsedTransaction>>>,
    status: &mut ReadingStatus,
    notification_sender: &mut VecDeque<ClientID>,
    queues: &mut ClientQueues,
) -> (r: Result<(), Error>)
    requires
        old(queues).wf(),
    ensures
        final(queues).wf(),
        match file {
            None => {
                &&& r == Err::<(), Error>(Error::UnknownFile)
                &&& final(status)@ == old(status)@
                &&& final(queues)@ == old(queues)@
                &&& final(notification_sender)@ == old(notification_sender)@
            },
            Some(lines) => {
                &&& r is Ok
                &&& final(status)@ == ReadingStatusTypes::InProgress
                &&& final(queues)@ == queues_push_all(old(queues)@, decoded(lines@))
                &&& final(notification_sender)@ == old(notification_sender)@ + ids_of(
                    decoded(lines@),
                )
            },
        },
{
    let lines = match file {
        Some(lines) => lines,
        None => {
            return Err(Error::UnknownFile);
        },
    };
    status.change(ReadingStatusTypes::InProgress);
    let mut next: usize = 0;
    assert(lines@.take(0) =~= Seq::empty());
    assert(old(notification_sender)@ + ids_of(decoded(lines@.take(0))) =~= old(
        notification_sender,
    )@);
    while next < lines.len()
        invariant
            queues.wf(),
            next <= lines.len(),
            status@ == ReadingStatusTypes::InProgress,
            queues@ == queues_push_all(old(queues)@, decoded(lines@.take(next as int))),
            notification_sender@ == old(notification_sender)@ + ids_of(
                decoded(lines@.take(next as int)),
            ),
        decreases lines.len() - next,
    {
        let ghost before = decoded(lines@.take(next as int));
        assert(lines@.take(next + 1).drop_last() =~= lines@.take(next as int));
        assert(lines@.take(next + 1).last() == lines@[next as int]);
        match lines[next] {
            Some(tx) => {
                submit(tx, notification_sender, queues);
                assert(decoded(lines@.take(next + 1)) == before.push(tx@));
                assert(before.push(tx@).drop_last() =~= before);
                assert(old(notification_sender)@ + ids_of(before.push(tx@)) =~= (old(
                    notification_sender,
                )@ + ids_of(before)).push(tx.client_id));
            },
            None => {},
        }
        next = next + 1;
    }
    assert(lines@.take(lines.len() as int) =~= lines@);
    Ok(())
}

/// Drives the input to its end: reads it, and marks reading as done where
/// the input could be read and as aborted where it could not be opened.
pub fn start_reader(
    file: Option<Vec<Option<ParsedTransaction>>>,
    status: &mut ReadingStatus,
    notification_sender: &mut VecDeque<ClientID>,
    queues: &mut ClientQueues,
)
    requires
        old(queues).wf(),
    ensures
        final(queues).wf(),
        match file {
            None => {
                &&& final(status)@ == ReadingStatusTypes::Aborted
                &&& final(queues)@ == old(queues)@
                &&& final(notification_sender)@ == old(notification_sender)@
            },
            Some(lines) => {
                &&& final(status)@ == ReadingStatusTypes::Done
                &&& final(queues)@ == queues_push_all(old(queues)@, decoded(lines@))
                &&& final(notification_sender)@ == old(notification_sender)@ + ids_of(
                    decoded(lines@),
                )
            },
        },
{
    let read = read_file(file, status, notification_sender, queues);
    status.finish(&read);
}

} // verus!
