use payments_engine::amount::{Amount, MAX_UNITS};
use payments_engine::client::Client;
use payments_engine::error::Error;
use payments_engine::transaction::{Transaction, TransactionType};

fn deposit(n: u32) -> Transaction {
    Transaction {
        tx_type: TransactionType::Deposit,
        amount: Some(Amount::from_u32(n)),
    }
}

fn withdrawal(n: u32) -> Transaction {
    Transaction {
        tx_type: TransactionType::Withdrawal,
        amount: Some(Amount::from_u32(n)),
    }
}

fn bare(tx_type: TransactionType) -> Transaction {
    Transaction {
        tx_type,
        amount: None,
    }
}

#[test]
fn accepted_events_report_no_error() {
    let mut client = Client::new(9);
    assert_eq!(client.process_transaction(1, deposit(10)), Ok(()));
    assert_eq!(client.process_transaction(2, withdrawal(4)), Ok(()));
    assert_eq!(
        client.process_transaction(1, bare(TransactionType::Dispute)),
        Err(Error::NoAvailableFunds)
    );
    assert_eq!(client.process_transaction(3, deposit(4)), Ok(()));
    assert_eq!(
        client.process_transaction(1, bare(TransactionType::Dispute)),
        Ok(())
    );
    assert_eq!(
        client.process_transaction(1, bare(TransactionType::Resolve)),
        Ok(())
    );
    assert_eq!(
        client.process_transaction(1, bare(TransactionType::Dispute)),
        Ok(())
    );
    assert_eq!(
        client.process_transaction(1, bare(TransactionType::Chargeback)),
        Ok(())
    );
    assert!(client.locked());
    assert_eq!(client.available(), Amount::from_u32(0));
    assert_eq!(client.held(), Amount::from_u32(0));
}

#[test]
fn invalid_amount() {
    let mut client = Client::new(1);
    assert_eq!(
        client.process_transaction(1, bare(TransactionType::Deposit)),
        Err(Error::InvalidAmount)
    );
    assert_eq!(
        client.process_transaction(1, bare(TransactionType::Withdrawal)),
        Err(Error::InvalidAmount)
    );
    assert_eq!(
        bare(TransactionType::Deposit).get_amount(),
        Err(Error::InvalidAmount)
    );
    assert_eq!(deposit(5).get_amount(), Ok(Amount::from_u32(5)));
    // The id of a refused event stays free.
    assert_eq!(client.process_transaction(1, deposit(5)), Ok(()));
}

#[test]
fn large_deposits_are_accepted() {
    let mut client = Client::new(1);
    // More than 64 bits of ten-thousandths in one deposit.
    let large = Amount::from_parts(1i128 << 64, 4).unwrap();
    assert_eq!(large.units(), 18_446_744_073_709_551_616);
    assert_eq!(
        client.process_transaction(
            1,
            Transaction {
                tx_type: TransactionType::Deposit,
                amount: Some(large),
            }
        ),
        Ok(())
    );
    assert_eq!(client.available(), large);
    let larger = Amount::from_parts(1i128 << 95, 4).unwrap();
    assert_eq!(
        client.process_transaction(
            2,
            Transaction {
                tx_type: TransactionType::Deposit,
                amount: Some(larger),
            }
        ),
        Ok(())
    );
    assert_eq!(client.available().units(), (1u128 << 95) + (1u128 << 64));
    assert_eq!(client.get_tx_amount(2), Ok(larger));
}

#[test]
fn a_deposit_that_the_account_cannot_hold_is_an_invalid_amount() {
    let mut client = Client::new(1);
    let top = Amount::from_parts(MAX_UNITS as i128, 4).unwrap();
    let smallest = Amount::from_parts(1, 4).unwrap();
    let deposit = |amount: Amount| Transaction {
        tx_type: TransactionType::Deposit,
        amount: Some(amount),
    };
    // The largest amount fits on an empty account.
    assert_eq!(client.process_transaction(1, deposit(top)), Ok(()));
    assert_eq!(client.available(), top);
    // Nothing more does, and the refused deposit changes nothing.
    assert_eq!(
        client.process_transaction(2, deposit(smallest)),
        Err(Error::InvalidAmount)
    );
    assert_eq!(
        client.process_transaction(2, deposit(top)),
        Err(Error::InvalidAmount)
    );
    assert_eq!(client.available(), top);
    assert_eq!(client.get_tx_amount(2), Err(Error::TransactionAccessError));
    // A deposit of nothing still fits, and the id of a refused one is free.
    assert_eq!(client.process_transaction(2, deposit(Amount::zero())), Ok(()));
    // Held funds count towards what the account holds.
    assert_eq!(
        client.process_transaction(1, bare(TransactionType::Dispute)),
        Ok(())
    );
    assert_eq!(client.available(), Amount::zero());
    assert_eq!(client.held(), top);
    assert_eq!(
        client.process_transaction(3, deposit(smallest)),
        Err(Error::InvalidAmount)
    );
    // Once room is made, the deposit is accepted.
    assert_eq!(
        client.process_transaction(1, bare(TransactionType::Resolve)),
        Ok(())
    );
    assert_eq!(
        client.process_transaction(
            4,
            Transaction {
                tx_type: TransactionType::Withdrawal,
                amount: Some(smallest),
            }
        ),
        Ok(())
    );
    assert_eq!(client.process_transaction(3, deposit(smallest)), Ok(()));
    assert_eq!(client.available(), top);
    assert_eq!(client.snapshot().total, top);
}

#[test]
fn duplicate_transaction() {
    let mut client = Client::new(1);
    assert_eq!(client.process_transaction(1, deposit(100)), Ok(()));
    assert_eq!(
        client.process_transaction(1, deposit(50)),
        Err(Error::DuplicateTransaction)
    );
    assert_eq!(
        client.process_transaction(1, withdrawal(50)),
        Err(Error::DuplicateTransaction)
    );
    // The duplicate check comes before the amount check.
    assert_eq!(
        client.process_transaction(1, bare(TransactionType::Deposit)),
        Err(Error::DuplicateTransaction)
    );
    assert_eq!(client.process_transaction(2, withdrawal(50)), Ok(()));
    assert_eq!(
        client.process_transaction(2, deposit(50)),
        Err(Error::DuplicateTransaction)
    );
    assert_eq!(client.available(), Amount::from_u32(50));
}

#[test]
fn transaction_not_found() {
    let mut client = Client::new(1);
    assert_eq!(client.process_transaction(1, deposit(100)), Ok(()));
    assert_eq!(client.process_transaction(2, withdrawal(10)), Ok(()));
    for kind in [
        TransactionType::Dispute,
        TransactionType::Resolve,
        TransactionType::Chargeback,
    ] {
        // An id that was never used, and the id of a withdrawal.
        assert_eq!(
            client.process_transaction(7, bare(kind)),
            Err(Error::TransactionNotFound)
        );
        assert_eq!(
            client.process_transaction(2, bare(kind)),
            Err(Error::TransactionNotFound)
        );
    }
    assert_eq!(client.available(), Amount::from_u32(90));
    assert_eq!(client.held(), Amount::zero());
    assert!(!client.locked());
}

#[test]
fn transaction_access_error() {
    let mut client = Client::new(1);
    assert_eq!(
        client.get_tx_amount(1),
        Err(Error::TransactionAccessError)
    );
    client.add_transaction(1, deposit(100));
    client.add_transaction(2, withdrawal(10));
    assert_eq!(client.get_tx_amount(1), Ok(Amount::from_u32(100)));
    assert_eq!(
        client.get_tx_amount(2),
        Err(Error::TransactionAccessError)
    );
}

#[test]
fn no_available_funds() {
    let mut client = Client::new(1);
    assert_eq!(client.process_transaction(1, deposit(100)), Ok(()));
    assert_eq!(
        client.process_transaction(2, withdrawal(200)),
        Err(Error::NoAvailableFunds)
    );
    assert_eq!(client.available(), Amount::from_u32(100));
    // A refused withdrawal changes nothing: its id is still free.
    assert_eq!(client.process_transaction(2, withdrawal(60)), Ok(()));
    // The deposit can no longer be held in full.
    assert_eq!(
        client.process_transaction(1, bare(TransactionType::Dispute)),
        Err(Error::NoAvailableFunds)
    );
    assert_eq!(client.available(), Amount::from_u32(40));
    assert_eq!(client.held(), Amount::zero());
}

#[test]
fn duplicate_dispute() {
    let mut client = Client::new(1);
    assert_eq!(client.process_transaction(1, deposit(100)), Ok(()));
    assert_eq!(
        client.process_transaction(1, bare(TransactionType::Dispute)),
        Ok(())
    );
    assert_eq!(
        client.process_transaction(1, bare(TransactionType::Dispute)),
        Err(Error::DuplicateDispute)
    );
    assert_eq!(client.available(), Amount::zero());
    assert_eq!(client.held(), Amount::from_u32(100));
}

#[test]
fn dispute_not_found() {
    let mut client = Client::new(1);
    assert_eq!(client.process_transaction(1, deposit(100)), Ok(()));
    assert_eq!(
        client.process_transaction(1, bare(TransactionType::Resolve)),
        Err(Error::DisputeNotFound)
    );
    assert_eq!(
        client.process_transaction(1, bare(TransactionType::Chargeback)),
        Err(Error::DisputeNotFound)
    );
    // A chargeback of a dispute that was resolved.
    assert_eq!(
        client.process_transaction(1, bare(TransactionType::Dispute)),
        Ok(())
    );
    assert_eq!(
        client.process_transaction(1, bare(TransactionType::Resolve)),
        Ok(())
    );
    assert_eq!(
        client.process_transaction(1, bare(TransactionType::Chargeback)),
        Err(Error::DisputeNotFound)
    );
    assert!(!client.locked());
    assert_eq!(client.available(), Amount::from_u32(100));
}

#[test]
fn messages_name_the_variant() {
    assert_eq!(Error::InvalidAmount.message(), "(Error: InvalidAmount)");
    assert_eq!(
        Error::TransactionNotFound.message(),
        "(Error: TransactionNotFound)"
    );
    assert_eq!(
        Error::DuplicateTransaction.message(),
        "(Error: DuplicateTransaction)"
    );
    assert_eq!(
        Error::TransactionAccessError.message(),
        "(Error: TransactionAccessError)"
    );
    assert_eq!(
        Error::NoAvailableFunds.message(),
        "(Error: NoAvailableFunds)"
    );
    assert_eq!(
        Error::DuplicateDispute.message(),
        "(Error: DuplicateDispute)"
    );
    assert_eq!(Error::DisputeNotFound.message(), "(Error: DisputeNotFound)");
    assert_eq!(
        Error::MissingHeldFunds.message(),
        "(Error: MissingHeldFunds)"
    );
    assert_eq!(
        Error::NotEnoughChargeback.message(),
        "(Error: NotEnoughChargeback)"
    );
    assert_eq!(Error::UnknownFile.message(), "(Error: UnknownFile)");
    assert_eq!(Error::FailedPushingTx.message(), "(Error: FailedPushingTx)");
    for e in [
        Error::InvalidAmount,
        Error::MissingHeldFunds,
        Error::FailedPushingTx,
    ] {
        assert_eq!(e.message(), format!("(Error: {:#?})", e));
    }
}
