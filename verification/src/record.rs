//! One row of a transaction log as it is read, before it is known to be
//! well-shaped, and its conversion to a transaction of the engine.

use crate::transaction_engine;
use vstd::prelude::*;
use vstd::std_specs::convert::TryIntoSpecImpl;

verus! {

/// The kind of a row.
#[derive(Debug, Clone, Copy, PartialEq, Eq, Structural)]
pub enum TransactionType {
    Deposit,
    Withdrawal,
    Dispute,
    Resolve,
    Chargeback,
}

/// A row: its kind, the client and transaction it names, and its amount
/// where it carries one, in ten-thousandths of one unit of currency.
#[derive(Debug, Clone, Copy)]
pub struct Transaction {
    pub transaction_type: TransactionType,
    pub client: u16,
    pub tx: u32,
    pub amount: Option<u64>,
}

impl TryInto<transaction_engine::Transaction> for Transaction {
    type Error = ();

    fn try_into(self) -> (converted: Result<transaction_engine::Transaction, ()>) {
        match self.transaction_type {
            TransactionType::Deposit => {
                if let Some(amount) = self.amount {
                    Ok(
                        transaction_engine::Transaction::Deposit {
                            client_id: self.client,
                            tx_id: self.tx,
                            amount,
                        },
                    )
                } else {
                    Err(())
                }
            },
            TransactionType::Withdrawal => {
                if let Some(amount) = self.amount {
                    Ok(
                        transaction_engine::Transaction::Withdrawal {
                            client_id: self.client,
                            tx_id: self.tx,
                            amount,
                        },
                    )
                } else {
                    Err(())
                }
            },
            TransactionType::Dispute => {
                Ok(
                    transaction_engine::Transaction::Dispute {
                        client_id: self.client,
                        tx_id: self.tx,
                    },
                )
            },
            TransactionType::Resolve => {
                Ok(
                    transaction_engine::Transaction::Resolve {
                        client_id: self.client,
                        tx_id: self.tx,
                    },
                )
            },
            TransactionType::Chargeback => {
                Ok(
                    transaction_engine::Transaction::Chargeback {
                        client_id: self.client,
                        tx_id: self.tx,
                    },
                )
            },
        }
    }
}

impl TransactionType {
    /// Deposits and withdrawals move an amount; the other kinds name an
    /// earlier transaction.
    pub open spec fn carries_amount(self) -> bool {
        self is Deposit || self is Withdrawal
    }
}

impl Transaction {
    /// A row is well-shaped unless its kind moves an amount and it has none.
    pub open spec fn well_shaped(self) -> bool {
        self.transaction_type.carries_amount() ==> self.amount is Some
    }

    /// The transaction that a well-shaped row stands for. An amount on a row
    /// whose kind moves none is dropped.
    pub open spec fn as_transaction(self) -> transaction_engine::Transaction {
        match self.transaction_type {
            TransactionType::Deposit => transaction_engine::Transaction::Deposit {
                client_id: self.client,
                tx_id: self.tx,
                amount: self.amount->0,
            },
            TransactionType::Withdrawal => transaction_engine::Transaction::Withdrawal {
                client_id: self.client,
                tx_id: self.tx,
                amount: self.amount->0,
            },
            TransactionType::Dispute => transaction_engine::Transaction::Dispute {
                client_id: self.client,
                tx_id: self.tx,
            },
            TransactionType::Resolve => transaction_engine::Transaction::Resolve {
                client_id: self.client,
                tx_id: self.tx,
            },
            TransactionType::Chargeback => transaction_engine::Transaction::Chargeback {
                client_id: self.client,
                tx_id: self.tx,
            },
        }
    }
}

impl TryIntoSpecImpl<transaction_engine::Transaction> for Transaction {
    open spec fn obeys_try_into_spec() -> bool {
        true
    }

    /// A well-shaped row converts to the transaction it stands for; any
    /// other row is rejected.
    open spec fn try_into_spec(self) -> Result<transaction_engine::Transaction, ()> {
        if self.well_shaped() {
            Ok(self.as_transaction())
        } else {
            Err(())
        }
    }
}

} // verus!
