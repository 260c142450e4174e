use payments_engine::amount::Amount;
use payments_engine::client::Client;
use payments_engine::transaction::{Transaction, TransactionID, TransactionType};

const DEPOSIT_AMOUNT: u32 = 100;
const INIT_DEPOSIT_COUNT: u32 = 3;

fn init() -> Client {
    let mut client = Client::new(1);

    for txid in 0..INIT_DEPOSIT_COUNT {
        client.add_transaction(
            txid,
            Transaction {
                tx_type: TransactionType::Deposit,
                amount: Some(Amount::from_u32(DEPOSIT_AMOUNT)),
            },
        );
    }

    assert_eq!(
        Amount::from_u32(DEPOSIT_AMOUNT * INIT_DEPOSIT_COUNT),
        client.available()
    );
    assert_eq!(Amount::from_u32(0), client.held());
    assert_eq!(false, client.locked());

    client
}

fn check_ignored(client: &mut Client, txid: TransactionID, tx: Transaction) {
    let prev_available = client.available();
    let prev_held = client.held();

    client.add_transaction(txid, tx);

    assert_eq!(prev_available, client.available());
    assert_eq!(prev_held, client.held());
}

fn check_success_dispute(client: &mut Client, txid: TransactionID, tx: Transaction) {
    let prev_available = client.available();
    let prev_held = client.held();

    client.add_transaction(txid, tx);

    assert_eq!(
        client.held(),
        prev_held
            .checked_add(&Amount::from_u32(DEPOSIT_AMOUNT))
            .unwrap()
    );
    assert_eq!(
        client.available(),
        prev_available
            .checked_sub(&Amount::from_u32(DEPOSIT_AMOUNT))
            .unwrap()
    );
}

fn check_success_resolve(client: &mut Client, txid: TransactionID, tx: Transaction) {
    let prev_available = client.available();
    let prev_held = client.held();

    client.add_transaction(txid, tx);

    assert_eq!(
        client.held(),
        prev_held
            .checked_sub(&Amount::from_u32(DEPOSIT_AMOUNT))
            .unwrap()
    );
    assert_eq!(
        client.available(),
        prev_available
            .checked_add(&Amount::from_u32(DEPOSIT_AMOUNT))
            .unwrap()
    );
}

#[test]
fn test_duplicate_id() {
    let mut client = init();

    let initial_amount = client.available();

    client.add_transaction(
        1,
        Transaction {
            tx_type: TransactionType::Deposit,
            amount: Some(Amount::from_u32(DEPOSIT_AMOUNT)),
        },
    );

    assert_eq!(initial_amount, client.available());

    client.add_transaction(
        1,
        Transaction {
            tx_type: TransactionType::Withdrawal,
            amount: Some(Amount::from_u32(DEPOSIT_AMOUNT)),
        },
    );
    assert_eq!(initial_amount, client.available());
}

#[test]
fn test_disputes_and_resolves() {
    let mut client = init();

    assert!(client.available().units() > 0);
    assert_eq!(client.held(), Amount::from_u32(0));

    let dispute_tx = Transaction {
        tx_type: TransactionType::Dispute,
        amount: None,
    };

    let resolve_tx = Transaction {
        tx_type: TransactionType::Resolve,
        amount: None,
    };

    let valid_dispute_id = 1;

    // A dispute that carries an amount: the amount is ignored.
    let mut dispute_with_amount = dispute_tx.clone();
    dispute_with_amount.amount = Some(Amount::from_u32(DEPOSIT_AMOUNT + 1000));
    check_success_dispute(&mut client, valid_dispute_id, dispute_with_amount);

    // A second dispute of the same deposit.
    check_ignored(&mut client, valid_dispute_id, dispute_tx.clone());

    // A dispute of an id that was never deposited.
    check_ignored(&mut client, 100, dispute_tx.clone());

    // A resolve without a dispute.
    check_ignored(&mut client, 101, resolve_tx.clone());

    // Withdrawing everything while part of it is held.
    let total = client.available().checked_add(&client.held()).unwrap();
    check_ignored(
        &mut client,
        INIT_DEPOSIT_COUNT + 1,
        Transaction {
            tx_type: TransactionType::Withdrawal,
            amount: Some(total),
        },
    );

    // The resolve.
    check_success_resolve(&mut client, valid_dispute_id, resolve_tx.clone());
    assert_eq!(client.held(), Amount::from_u32(0));

    // A second resolve.
    check_ignored(&mut client, valid_dispute_id, resolve_tx.clone());

    // A dispute of the same deposit after its resolve.
    check_success_dispute(&mut client, valid_dispute_id, dispute_tx);

    // Its resolve.
    check_success_resolve(&mut client, valid_dispute_id, resolve_tx.clone());
    assert_eq!(client.held(), Amount::from_u32(0));

    // Withdrawing everything once nothing is held.
    let prev_available = client.available();
    let prev_held = client.held();

    client.add_transaction(
        INIT_DEPOSIT_COUNT + 2,
        Transaction {
            tx_type: TransactionType::Withdrawal,
            amount: Some(prev_available.checked_add(&prev_held).unwrap()),
        },
    );
    assert_eq!(client.available(), Amount::from_u32(0));
    assert_eq!(client.held(), Amount::from_u32(0));
}

#[test]
fn test_chargeback() {
    let mut client = init();
    let dispute_tx = Transaction {
        tx_type: TransactionType::Dispute,
        amount: None,
    };
    let chargeback_tx = Transaction {
        tx_type: TransactionType::Chargeback,
        amount: None,
    };
    let dispute_id = 1;

    check_success_dispute(&mut client, dispute_id, dispute_tx);

    // A chargeback of an id that was never deposited.
    check_ignored(&mut client, 100, chargeback_tx.clone());

    // The chargeback.
    let prev_available = client.available();
    let prev_held = client.held();

    client.add_transaction(dispute_id, chargeback_tx.clone());

    assert_eq!(
        client.held(),
        prev_held
            .checked_sub(&Amount::from_u32(DEPOSIT_AMOUNT))
            .unwrap()
    );
    assert_eq!(client.available(), prev_available);

    // The same chargeback again: the account is locked.
    check_ignored(&mut client, dispute_id, chargeback_tx.clone());

    // Every other kind of event: the account is locked.
    check_ignored(
        &mut client,
        100,
        Transaction {
            tx_type: TransactionType::Deposit,
            amount: Some(Amount::from_u32(DEPOSIT_AMOUNT)),
        },
    );

    check_ignored(
        &mut client,
        101,
        Transaction {
            tx_type: TransactionType::Withdrawal,
            amount: Some(Amount::from_u32(DEPOSIT_AMOUNT)),
        },
    );

    check_ignored(
        &mut client,
        1,
        Transaction {
            tx_type: TransactionType::Dispute,
            amount: Some(Amount::from_u32(DEPOSIT_AMOUNT)),
        },
    );

    check_ignored(
        &mut client,
        1,
        Transaction {
            tx_type: TransactionType::Resolve,
            amount: Some(Amount::from_u32(DEPOSIT_AMOUNT)),
        },
    );
}
