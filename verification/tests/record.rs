use transaction_engine::record::{Transaction, TransactionType};
use transaction_engine::transaction_engine::{Transaction as Applied, TransactionEngine};

fn row(transaction_type: TransactionType, amount: Option<u64>) -> Transaction {
    Transaction { transaction_type, client: 7, tx: 9, amount }
}

fn convert(row: Transaction) -> Result<Applied, ()> {
    row.try_into()
}

#[test]
fn deposit_row_with_amount_converts() {
    assert_eq!(
        convert(row(TransactionType::Deposit, Some(15_000))),
        Ok(Applied::Deposit { client_id: 7, tx_id: 9, amount: 15_000 })
    );
}

#[test]
fn withdrawal_row_with_amount_converts() {
    assert_eq!(
        convert(row(TransactionType::Withdrawal, Some(0))),
        Ok(Applied::Withdrawal { client_id: 7, tx_id: 9, amount: 0 })
    );
}

#[test]
fn deposit_row_without_amount_is_rejected() {
    assert_eq!(convert(row(TransactionType::Deposit, None)), Err(()));
}

#[test]
fn withdrawal_row_without_amount_is_rejected() {
    assert_eq!(convert(row(TransactionType::Withdrawal, None)), Err(()));
}

#[test]
fn reference_rows_convert_without_amount() {
    assert_eq!(
        convert(row(TransactionType::Dispute, None)),
        Ok(Applied::Dispute { client_id: 7, tx_id: 9 })
    );
    assert_eq!(
        convert(row(TransactionType::Resolve, None)),
        Ok(Applied::Resolve { client_id: 7, tx_id: 9 })
    );
    assert_eq!(
        convert(row(TransactionType::Chargeback, None)),
        Ok(Applied::Chargeback { client_id: 7, tx_id: 9 })
    );
}

#[test]
fn reference_rows_drop_an_amount() {
    assert_eq!(
        convert(row(TransactionType::Dispute, Some(5))),
        Ok(Applied::Dispute { client_id: 7, tx_id: 9 })
    );
    assert_eq!(
        convert(row(TransactionType::Resolve, Some(5))),
        Ok(Applied::Resolve { client_id: 7, tx_id: 9 })
    );
    assert_eq!(
        convert(row(TransactionType::Chargeback, Some(5))),
        Ok(Applied::Chargeback { client_id: 7, tx_id: 9 })
    );
}

#[test]
fn converted_rows_replay() {
    let row = |transaction_type: TransactionType, tx: u32, amount: Option<u64>| Transaction {
        transaction_type,
        client: 1,
        tx,
        amount,
    };
    let rows = [
        row(TransactionType::Deposit, 1, Some(30)),
        row(TransactionType::Deposit, 2, None),
        row(TransactionType::Withdrawal, 3, Some(10)),
        row(TransactionType::Dispute, 1, None),
    ];
    let mut engine = TransactionEngine::new();
    for row in rows {
        if let Ok(transaction) = row.try_into() {
            engine.compute_transaction(transaction);
        }
    }
    let client = engine.get_client(1).unwrap();
    assert_eq!((client.available(), client.held(), client.total()), (-10, 30, 20));
    assert_eq!(engine.transaction_count(), 1);
}
