use transaction_engine::transaction_engine::{
    PersistedTransaction, Transaction, TransactionEngine, TransactionState,
};

/// An amount given in whole units of currency, in ten-thousandths.
fn amount(units: f64) -> u64 {
    (units * 10_000.0).round() as u64
}

/// A balance given in whole units of currency, in ten-thousandths.
fn balance(units: f64) -> i64 {
    (units * 10_000.0).round() as i64
}

/// Locks the account of `client_id` and leaves its balances as they are: a
/// chargeback of a disputed deposit of nothing.
fn lock(engine: &mut TransactionEngine, client_id: u16) {
    let tx_id = u32::MAX;
    engine.compute_transaction(Transaction::Deposit { client_id, tx_id, amount: 0 });
    engine.compute_transaction(Transaction::Dispute { client_id, tx_id });
    engine.compute_transaction(Transaction::Chargeback { client_id, tx_id });
    assert!(engine.get_client(client_id).unwrap().locked());
}

#[test]
fn when_deposit_should_increase_total_and_available() {
    let mut engine = TransactionEngine::new();

    engine.compute_transaction(Transaction::Deposit {
        client_id: 1,
        tx_id: 1,
        amount: amount(10.0),
    });
    let clients = engine.get_client_list();

    assert_eq!(clients.len(), 1);
    let client = clients.get(0).unwrap();
    assert_eq!(client.available(), balance(10.0));
    assert_eq!(client.total(), balance(10.0));
    assert_eq!(client.client(), 1);
}

#[test]
fn when_deposit_on_client_locked_should_do_nothing() {
    let mut engine = TransactionEngine::new();

    lock(&mut engine, 1);

    engine.compute_transaction(Transaction::Deposit {
        client_id: 1,
        tx_id: 1,
        amount: amount(10.0),
    });
    let clients = engine.get_client_list();

    assert_eq!(clients.len(), 1);
    let client = clients.get(0).unwrap();
    assert_eq!(client.available(), balance(0.0));
    assert_eq!(client.total(), balance(0.0));
    assert_eq!(client.client(), 1);
}

#[test]
fn when_withdrawal_and_fund_available_should_decrease_total_and_available() {
    let mut engine = TransactionEngine::new();

    engine.compute_transaction(Transaction::Deposit {
        client_id: 1,
        tx_id: 1,
        amount: amount(30.0),
    });

    lock(&mut engine, 1);

    engine.compute_transaction(Transaction::Withdrawal {
        client_id: 1,
        tx_id: 2,
        amount: amount(20.0),
    });
    let clients = engine.get_client_list();

    assert_eq!(clients.len(), 1);
    let client = clients.get(0).unwrap();
    assert_eq!(client.available(), balance(30.0));
    assert_eq!(client.total(), balance(30.0));
    assert_eq!(client.client(), 1);
}

#[test]
fn when_withdrawal_on_locked_client_should_do_nothing() {
    let mut engine = TransactionEngine::new();

    engine.compute_transaction(Transaction::Deposit {
        client_id: 1,
        tx_id: 1,
        amount: amount(30.0),
    });
    engine.compute_transaction(Transaction::Withdrawal {
        client_id: 1,
        tx_id: 2,
        amount: amount(20.0),
    });
    let clients = engine.get_client_list();

    assert_eq!(clients.len(), 1);
    let client = clients.get(0).unwrap();
    assert_eq!(client.available(), balance(10.0));
    assert_eq!(client.total(), balance(10.0));
    assert_eq!(client.client(), 1);
}

#[test]
fn when_withdrawal_and_fund_not_available_should_do_nothing() {
    let mut engine = TransactionEngine::new();

    engine.compute_transaction(Transaction::Deposit {
        client_id: 1,
        tx_id: 1,
        amount: amount(50.0),
    });
    engine.compute_transaction(Transaction::Withdrawal {
        client_id: 1,
        tx_id: 2,
        amount: amount(60.0),
    });
    let clients = engine.get_client_list();

    assert_eq!(clients.len(), 1);
    let client = clients.get(0).unwrap();
    assert_eq!(client.available(), balance(50.0));
    assert_eq!(client.total(), balance(50.0));
    assert_eq!(client.client(), 1);
}

#[test]
fn when_deposit_should_copy_it_with_state_none() {
    let mut engine = TransactionEngine::new();
    let transaction = Transaction::Deposit {
        client_id: 1,
        tx_id: 1,
        amount: amount(10.0),
    };

    engine.compute_transaction(transaction);

    assert_eq!(engine.transaction_count(), 1);
    let (tx, state) = engine.get_transaction(1).unwrap();

    let PersistedTransaction::Deposit { client_id, tx_id, amount: retained } = tx;
    assert!(matches!(state, TransactionState::Undisputed));
    assert_eq!(tx_id, 1);
    assert_eq!(client_id, 1);
    assert_eq!(retained, amount(10.0));
}

#[test]
fn when_dispute_on_deposit_should_decrease_available_increase_held() {
    let mut engine = TransactionEngine::new();

    engine.compute_transaction(Transaction::Deposit {
        client_id: 1,
        tx_id: 1,
        amount: amount(10.0),
    });
    engine.compute_transaction(Transaction::Dispute {
        client_id: 1,
        tx_id: 1,
    });

    let (_, state) = engine.get_transaction(1).unwrap();
    assert!(matches!(state, TransactionState::Disputed));

    let client = engine.get_client(1).unwrap();
    assert_eq!(client.held(), balance(10.0));
    assert_eq!(client.available(), balance(0.0));
    assert_eq!(client.total(), balance(10.0));
}

#[test]
fn when_dispute_on_already_disputed_should_do_nothing() {
    let mut engine = TransactionEngine::new();

    engine.compute_transaction(Transaction::Deposit {
        client_id: 1,
        tx_id: 1,
        amount: amount(10.0),
    });
    engine.compute_transaction(Transaction::Dispute {
        client_id: 1,
        tx_id: 1,
    });
    engine.compute_transaction(Transaction::Dispute {
        client_id: 1,
        tx_id: 1,
    });

    let (_, state) = engine.get_transaction(1).unwrap();
    assert!(matches!(state, TransactionState::Disputed));

    let client = engine.get_client(1).unwrap();
    assert_eq!(client.held(), balance(10.0));
    assert_eq!(client.available(), balance(0.0));
    assert_eq!(client.total(), balance(10.0));
}

#[test]
fn when_dispute_on_missing_tx_should_do_nothing() {
    let mut engine = TransactionEngine::new();

    engine.compute_transaction(Transaction::Dispute {
        client_id: 1,
        tx_id: 1,
    });

    assert_eq!(0, engine.transaction_count());
    assert_eq!(0, engine.get_client_list().len())
}

#[test]
fn when_resolve_on_missing_tx_should_do_nothing() {
    let mut engine = TransactionEngine::new();

    engine.compute_transaction(Transaction::Resolve {
        client_id: 1,
        tx_id: 1,
    });

    assert_eq!(0, engine.transaction_count());
    assert_eq!(0, engine.get_client_list().len())
}

#[test]
fn when_resolve_on_not_disputed_tx_should_do_nothing() {
    let mut engine = TransactionEngine::new();

    engine.compute_transaction(Transaction::Deposit {
        client_id: 1,
        tx_id: 1,
        amount: amount(10.0),
    });
    engine.compute_transaction(Transaction::Resolve {
        client_id: 1,
        tx_id: 1,
    });

    assert_eq!(1, engine.transaction_count());

    let (_, state) = engine.get_transaction(1).unwrap();
    assert!(matches!(state, TransactionState::Undisputed));

    let client = engine.get_client(1).unwrap();
    assert_eq!(client.total(), balance(10.0));
    assert_eq!(client.available(), balance(10.0));
    assert_eq!(client.held(), balance(0.0))
}

#[test]
fn when_resolve_should_revert_dispute() {
    let mut engine = TransactionEngine::new();

    engine.compute_transaction(Transaction::Deposit {
        client_id: 1,
        tx_id: 1,
        amount: amount(10.0),
    });
    engine.compute_transaction(Transaction::Dispute {
        client_id: 1,
        tx_id: 1,
    });
    engine.compute_transaction(Transaction::Resolve {
        client_id: 1,
        tx_id: 1,
    });

    assert_eq!(1, engine.transaction_count());

    let (_, state) = engine.get_transaction(1).unwrap();
    assert!(matches!(state, TransactionState::Undisputed));

    let client = engine.get_client(1).unwrap();
    assert_eq!(client.total(), balance(10.0));
    assert_eq!(client.available(), balance(10.0));
    assert_eq!(client.held(), balance(0.0))
}

#[test]
fn when_chargeback_on_missing_tx_should_do_nothing() {
    let mut engine = TransactionEngine::new();

    engine.compute_transaction(Transaction::Chargeback {
        client_id: 1,
        tx_id: 1,
    });

    assert_eq!(0, engine.transaction_count());
    assert_eq!(0, engine.get_client_list().len())
}

#[test]
fn when_chargeback_on_not_disputed_tx_should_do_nothing() {
    let mut engine = TransactionEngine::new();

    engine.compute_transaction(Transaction::Deposit {
        client_id: 1,
        tx_id: 1,
        amount: amount(10.0),
    });
    engine.compute_transaction(Transaction::Chargeback {
        client_id: 1,
        tx_id: 1,
    });

    assert_eq!(1, engine.transaction_count());

    let (_, state) = engine.get_transaction(1).unwrap();
    assert!(matches!(state, TransactionState::Undisputed));

    let client = engine.get_client(1).unwrap();
    assert_eq!(client.total(), balance(10.0));
    assert_eq!(client.available(), balance(10.0));
    assert_eq!(client.held(), balance(0.0))
}

#[test]
fn when_chargeback_should_freeze_and_withdraw() {
    let mut engine = TransactionEngine::new();

    engine.compute_transaction(Transaction::Deposit {
        client_id: 1,
        tx_id: 1,
        amount: amount(10.0),
    });
    engine.compute_transaction(Transaction::Dispute {
        client_id: 1,
        tx_id: 1,
    });
    engine.compute_transaction(Transaction::Chargeback {
        client_id: 1,
        tx_id: 1,
    });

    assert_eq!(1, engine.transaction_count());

    let (_, state) = engine.get_transaction(1).unwrap();
    assert!(matches!(state, TransactionState::Undisputed));

    let client = engine.get_client(1).unwrap();
    assert_eq!(client.total(), balance(0.0));
    assert_eq!(client.available(), balance(0.0));
    assert_eq!(client.held(), balance(0.0));
    assert_eq!(client.locked(), true);
}
