use payments_engine::amount::Amount;
use payments_engine::client::db::generate_client_db;
use payments_engine::client::manager::ClientsManager;
use payments_engine::client::queue::generate_clients_queues;
use payments_engine::client::{ClientID, SerializableClient};
use payments_engine::processor::{start_processors, WorkerStep};
use payments_engine::reader::{start_reader, ReadingStatus, ReadingStatusTypes};
use payments_engine::transaction::{to_four_dp, ParsedTransaction, TransactionType};
use rust_decimal::Decimal;
use std::collections::VecDeque;

fn line(text: &str) -> Option<ParsedTransaction> {
    let fields: Vec<&str> = text.split(',').map(|f| f.trim()).collect();
    let tx_type = match fields[0] {
        "deposit" => TransactionType::Deposit,
        "withdrawal" => TransactionType::Withdrawal,
        "dispute" => TransactionType::Dispute,
        "resolve" => TransactionType::Resolve,
        "chargeback" => TransactionType::Chargeback,
        _ => return None,
    };
    Some(ParsedTransaction {
        tx_type,
        client_id: fields[1].parse().ok()?,
        tx_id: fields[2].parse().ok()?,
        amount: fields.get(3).and_then(|f| to_four_dp(f)),
    })
}

fn run(lines: &[&str], workers: u32) -> Vec<SerializableClient> {
    let mut status = ReadingStatus::new();
    let mut signal: VecDeque<ClientID> = VecDeque::new();
    let mut queues = generate_clients_queues();
    let mut manager = ClientsManager::new(generate_client_db());
    start_reader(
        Some(lines.iter().map(|l| line(l)).collect()),
        &mut status,
        &mut signal,
        &mut queues,
    );
    assert_eq!(status.get(), ReadingStatusTypes::Done);
    let ended = start_processors(workers, &status, &mut signal, &mut manager, &mut queues);
    assert_eq!(ended, vec![WorkerStep::Stop; workers as usize]);
    manager.clients().snapshots()
}

fn row(client: ClientID, available: &str, held: &str, total: &str, locked: bool) -> SerializableClient {
    SerializableClient {
        client,
        available: to_four_dp(available).unwrap(),
        held: to_four_dp(held).unwrap(),
        total: to_four_dp(total).unwrap(),
        locked,
    }
}

fn text_of(amount: &Amount) -> String {
    Decimal::from_i128_with_scale(amount.mantissa() as i128, amount.scale())
        .round_dp(4)
        .to_string()
}

#[test]
fn deposits_and_a_withdrawal() {
    let rows = run(
        &["deposit,1,1,100.0", "deposit,1,2,50.0", "withdrawal,1,3,30.0"],
        3,
    );
    assert_eq!(rows, vec![row(1, "120.0000", "0.0000", "120.0000", false)]);
    assert_eq!(rows[0].available.units(), 1_200_000);
    assert_eq!(rows[0].total.units(), 1_200_000);
    assert_eq!(text_of(&rows[0].available), "120.0");
}

#[test]
fn dispute_then_resolve() {
    let rows = run(
        &[
            "deposit,1,0,100",
            "deposit,1,1,100",
            "deposit,1,2,100",
            "dispute,1,1",
            "resolve,1,1",
        ],
        3,
    );
    assert_eq!(rows, vec![row(1, "300.0000", "0.0000", "300.0000", false)]);
}

#[test]
fn dispute_then_chargeback_locks() {
    let rows = run(
        &[
            "deposit,1,0,100",
            "deposit,1,1,100",
            "deposit,1,2,100",
            "dispute,1,1",
            "chargeback,1,1",
            "deposit,1,3,100.0",
        ],
        3,
    );
    assert_eq!(rows, vec![row(1, "200.0000", "0.0000", "200.0000", true)]);
}

#[test]
fn duplicate_deposit_id() {
    let rows = run(&["deposit,1,1,100.0", "deposit,1,1,50.0"], 3);
    assert_eq!(rows, vec![row(1, "100.0000", "0.0000", "100.0000", false)]);
}

#[test]
fn withdrawal_beyond_the_funds() {
    let rows = run(&["deposit,1,1,100.0", "withdrawal,1,2,200.0"], 3);
    assert_eq!(rows, vec![row(1, "100.0000", "0.0000", "100.0000", false)]);
}

#[test]
fn amounts_are_rounded_half_even_to_four_digits() {
    let rows = run(
        &[
            "deposit,1,1,2.12342",
            "deposit,2,1,2.00006",
            "deposit,2,2,1.0",
            "dispute,2,2",
            "chargeback,2,2",
        ],
        3,
    );
    assert_eq!(
        rows,
        vec![
            row(1, "2.1234", "0.0000", "2.1234", false),
            row(2, "2.0001", "0.0000", "2.0001", true),
        ]
    );
    assert_eq!(text_of(&rows[0].available), "2.1234");
    assert_eq!(text_of(&rows[1].available), "2.0001");
    assert_eq!(text_of(&rows[1].total), "2.0001");
}

#[test]
fn held_funds_show_in_the_row() {
    let rows = run(
        &[
            "deposit,1,1,2.1234220",
            "deposit,1,2,2.00006",
            "deposit,1,3,7",
            "dispute,1,2",
            "dispute,1,3",
            "chargeback,1,3",
        ],
        1,
    );
    assert_eq!(rows.len(), 1);
    assert_eq!(rows[0].client, 1);
    assert_eq!(text_of(&rows[0].available), "2.1234");
    assert_eq!(text_of(&rows[0].held), "2.0001");
    assert_eq!(text_of(&rows[0].total), "4.1235");
    assert!(rows[0].locked);
}

#[test]
fn a_deposit_of_nothing_is_accepted() {
    let rows = run(
        &["deposit,4,1,0", "deposit,4,1,5", "dispute,4,1", "chargeback,4,1"],
        2,
    );
    // The id was taken by the deposit of nothing, which could then be
    // disputed and charged back.
    assert_eq!(rows, vec![row(4, "0", "0", "0", true)]);
}

#[test]
fn a_withdrawal_cannot_be_disputed() {
    let rows = run(
        &[
            "deposit,1,1,100",
            "withdrawal,1,2,40",
            "dispute,1,2",
            "chargeback,1,2",
        ],
        3,
    );
    assert_eq!(rows, vec![row(1, "60", "0", "60", false)]);
}

#[test]
fn nothing_moves_after_a_chargeback() {
    let rows = run(
        &[
            "deposit,1,1,100",
            "deposit,1,2,10",
            "dispute,1,1",
            "chargeback,1,1",
            "dispute,1,1",
            "dispute,1,2",
            "withdrawal,1,3,5",
            "resolve,1,1",
        ],
        3,
    );
    assert_eq!(rows, vec![row(1, "10", "0", "10", true)]);
}

#[test]
fn events_before_their_deposit_are_ignored() {
    let rows = run(
        &["dispute,1,1", "resolve,1,1", "chargeback,1,1", "deposit,1,1,3.5"],
        3,
    );
    assert_eq!(rows, vec![row(1, "3.5", "0", "3.5", false)]);
}

#[test]
fn malformed_lines_are_passed_over() {
    let rows = run(
        &[
            "deposit,1,1,10",
            "deposdsidt,2,1,4",
            "withdrawal,adfa,3,1",
            "deposit,1,asd,0.4",
            "deposit,1,2,a.44",
            "withdrawal,1,3,2.5",
        ],
        3,
    );
    // The deposit without a readable amount is delivered and refused.
    assert_eq!(rows, vec![row(1, "7.5", "0", "7.5", false)]);
}

#[test]
fn accounts_do_not_disturb_each_other() {
    let interleaved = run(
        &[
            "deposit,1,1,10",
            "deposit,2,1,20",
            "withdrawal,1,2,4",
            "deposit,3,1,1.5",
            "dispute,2,1",
            "deposit,1,3,1",
            "chargeback,2,1",
            "dispute,3,1",
            "deposit,2,2,9",
            "resolve,3,1",
        ],
        3,
    );
    let segregated = run(
        &[
            "deposit,3,1,1.5",
            "dispute,3,1",
            "resolve,3,1",
            "deposit,2,1,20",
            "dispute,2,1",
            "chargeback,2,1",
            "deposit,2,2,9",
            "deposit,1,1,10",
            "withdrawal,1,2,4",
            "deposit,1,3,1",
        ],
        1,
    );
    assert_eq!(interleaved, segregated);
    assert_eq!(
        interleaved,
        vec![
            row(1, "7", "0", "7", false),
            row(2, "0", "0", "0", true),
            row(3, "1.5", "0", "1.5", false),
        ]
    );
}

#[test]
fn rows_come_in_the_order_of_the_ids() {
    let rows = run(
        &[
            "deposit,65535,1,1",
            "deposit,0,1,2",
            "deposit,300,1,3",
            "deposit,7,1,4",
        ],
        2,
    );
    let ids: Vec<ClientID> = rows.iter().map(|r| r.client).collect();
    assert_eq!(ids, vec![0, 7, 300, 65535]);
}

#[test]
fn many_accounts() {
    let mut lines: Vec<String> = Vec::new();
    for round in 0..5u32 {
        for client in 0..200u32 {
            lines.push(format!("deposit,{},{},{}.25", client, round, client + round));
        }
    }
    for client in 0..200u32 {
        lines.push(format!("withdrawal,{},9,{}", client, client));
    }
    let borrowed: Vec<&str> = lines.iter().map(|l| l.as_str()).collect();
    let rows = run(&borrowed, 4);
    assert_eq!(rows.len(), 200);
    for (client, r) in rows.iter().enumerate() {
        let client = client as u128;
        assert_eq!(r.client as u128, client);
        // five deposits of client + round + 0.25, less a withdrawal of client
        assert_eq!(r.available.units(), (4 * client + 10) * 10_000 + 12_500);
        assert_eq!(r.held.units(), 0);
        assert_eq!(r.total.units(), r.available.units());
        assert!(!r.locked);
    }
}
