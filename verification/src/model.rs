//! The mathematical model of the replay: accounts with unbounded integer
//! balances, the ledger of retained deposits, and the transition that one
//! transaction makes.

use crate::transaction_engine::{PersistedTransaction, Transaction, TransactionState};
use vstd::prelude::*;

verus! {

/// Whether a balance can be stored. Balances are signed 64-bit counts of the
/// smallest unit; a transaction that would move a balance out of this range
/// is not applied.
pub open spec fn representable(value: int) -> bool {
    i64::MIN <= value <= i64::MAX
}

/// The balances of one client.
pub struct Account {
    pub client: u16,
    pub available: int,
    pub held: int,
    pub total: int,
    pub locked: bool,
}

impl Account {
    /// The account that a client has before anything was applied to it.
    pub open spec fn empty(client: u16) -> Account {
        Account { client, available: 0, held: 0, total: 0, locked: false }
    }

    /// The total is what is available together with what is held.
    pub open spec fn balanced(self) -> bool {
        self.total == self.available + self.held
    }

    /// All three balances can be stored.
    pub open spec fn storable(self) -> bool {
        &&& representable(self.available)
        &&& representable(self.held)
        &&& representable(self.total)
    }

    /// Funds arrive: available and total grow by `amount`.
    pub open spec fn credited(self, amount: int) -> Account {
        Account { available: self.available + amount, total: self.total + amount, ..self }
    }

    /// Funds leave: available and total shrink by `amount`.
    pub open spec fn debited(self, amount: int) -> Account {
        Account { available: self.available - amount, total: self.total - amount, ..self }
    }

    /// A dispute opens: `amount` moves from available to held.
    pub open spec fn with_hold(self, amount: int) -> Account {
        Account { available: self.available - amount, held: self.held + amount, ..self }
    }

    /// A dispute is resolved: `amount` moves back from held to available.
    pub open spec fn with_release(self, amount: int) -> Account {
        Account { available: self.available + amount, held: self.held - amount, ..self }
    }

    /// A dispute ends in a chargeback: the held `amount` leaves the account,
    /// which is locked from then on.
    pub open spec fn charged_back(self, amount: int) -> Account {
        Account { held: self.held - amount, total: self.total - amount, locked: true, ..self }
    }
}

/// A retained deposit together with its dispute state.
pub type LedgerEntry = (PersistedTransaction, TransactionState);

/// The number of transaction ids.
pub open spec fn tx_id_count() -> nat {
    0x1_0000_0000
}

/// What the retained deposit `tx_id` keeps held on the account of `client`:
/// its amount while it is disputed and `client` made it, nothing otherwise.
pub open spec fn held_by(ledger: Map<u32, LedgerEntry>, client: u16, tx_id: u32) -> nat {
    if ledger.contains_key(tx_id) && ledger[tx_id].1 == TransactionState::Disputed
        && ledger[tx_id].0->client_id == client {
        ledger[tx_id].0->amount as nat
    } else {
        0
    }
}

/// What the retained deposits with a transaction id below `bound` keep held
/// on the account of `client`.
pub open spec fn held_below(ledger: Map<u32, LedgerEntry>, client: u16, bound: nat) -> nat
    decreases bound,
{
    if bound == 0 {
        0
    } else {
        held_below(ledger, client, (bound - 1) as nat) + held_by(
            ledger,
            client,
            (bound - 1) as u32,
        )
    }
}

/// Everything the engine knows: the account of every client referenced so
/// far, and every deposit that can still be disputed.
pub struct EngineState {
    pub accounts: Map<u16, Account>,
    pub ledger: Map<u32, LedgerEntry>,
}

impl EngineState {
    /// The state before any transaction.
    pub open spec fn empty() -> EngineState {
        EngineState { accounts: Map::empty(), ledger: Map::empty() }
    }

    /// The account of `client`: the one on record, or an empty one.
    pub open spec fn account(self, client: u16) -> Account {
        if self.accounts.contains_key(client) {
            self.accounts[client]
        } else {
            Account::empty(client)
        }
    }

    /// Puts `account` on record for `client`.
    pub open spec fn with_account(self, client: u16, account: Account) -> EngineState {
        EngineState { accounts: self.accounts.insert(client, account), ..self }
    }

    /// Puts `entry` on record for `tx_id`.
    pub open spec fn with_entry(self, tx_id: u32, entry: LedgerEntry) -> EngineState {
        EngineState { ledger: self.ledger.insert(tx_id, entry), ..self }
    }

    /// The client is referenced: its account is on record afterwards, with
    /// the balances it had.
    pub open spec fn referenced(self, client: u16) -> EngineState {
        self.with_account(client, self.account(client))
    }

    /// Whether `client` has an account on record that is locked.
    pub open spec fn is_locked(self, client: u16) -> bool {
        self.accounts.contains_key(client) && self.accounts[client].locked
    }

    /// Whether `tx_id` names a retained deposit in dispute state `state`.
    pub open spec fn has_entry_in(self, tx_id: u32, state: TransactionState) -> bool {
        self.ledger.contains_key(tx_id) && self.ledger[tx_id].1 == state
    }

    /// What all the disputed deposits of `client` keep held on its account.
    pub open spec fn disputed_total(self, client: u16) -> nat {
        held_below(self.ledger, client, tx_id_count())
    }

    /// A deposit is applied when the account is not locked and the new
    /// balances can be stored.
    pub open spec fn accepts_deposit(self, client_id: u16, amount: u64) -> bool {
        let account = self.account(client_id);
        !account.locked && account.credited(amount as int).storable()
    }

    /// An applied deposit credits the account and is retained, undisputed,
    /// under its transaction id, in place of what was retained there. One
    /// that is not applied only references the client.
    pub open spec fn deposit(self, client_id: u16, tx_id: u32, amount: u64) -> EngineState {
        if self.accepts_deposit(client_id, amount) {
            let credited = self.account(client_id).credited(amount as int);
            self.with_account(client_id, credited).with_entry(
                tx_id,
                (
                    PersistedTransaction::Deposit { client_id, tx_id, amount },
                    TransactionState::Undisputed,
                ),
            )
        } else {
            self.referenced(client_id)
        }
    }

    /// A withdrawal is applied when the account is not locked and holds
    /// enough available funds.
    pub open spec fn accepts_withdrawal(self, client_id: u16, amount: u64) -> bool {
        let account = self.account(client_id);
        !account.locked && account.available >= amount
    }

    /// An applied withdrawal debits the account and leaves no ledger entry.
    /// One that is not applied only references the client.
    pub open spec fn withdrawal(self, client_id: u16, amount: u64) -> EngineState {
        if self.accepts_withdrawal(client_id, amount) {
            self.with_account(client_id, self.account(client_id).debited(amount as int))
        } else {
            self.referenced(client_id)
        }
    }

    /// The account that owns the retained deposit `tx_id`: the one of the
    /// client that made the deposit.
    pub open spec fn owner_account(self, tx_id: u32) -> Account {
        self.account(self.ledger[tx_id].0->client_id)
    }

    /// The state in which the account that owns the retained deposit `tx_id`
    /// is `account`, and the deposit's dispute state is `state`.
    pub open spec fn with_outcome(
        self,
        tx_id: u32,
        account: Account,
        state: TransactionState,
    ) -> EngineState {
        self.with_account(self.ledger[tx_id].0->client_id, account).with_entry(
            tx_id,
            (self.ledger[tx_id].0, state),
        )
    }

    /// A dispute is applied when it names an undisputed retained deposit
    /// and the new balances can be stored.
    pub open spec fn accepts_dispute(self, tx_id: u32) -> bool {
        &&& self.has_entry_in(tx_id, TransactionState::Undisputed)
        &&& self.owner_account(tx_id).with_hold(self.ledger[tx_id].0->amount as int).storable()
    }

    /// An applied dispute holds the deposit's amount on the account of the
    /// deposit's own client and marks the deposit disputed. One that is not
    /// applied changes nothing.
    pub open spec fn dispute(self, tx_id: u32) -> EngineState {
        if self.accepts_dispute(tx_id) {
            self.with_outcome(
                tx_id,
                self.owner_account(tx_id).with_hold(self.ledger[tx_id].0->amount as int),
                TransactionState::Disputed,
            )
        } else {
            self
        }
    }

    /// Resolving a disputed retained deposit releases its amount on the
    /// account of the deposit's own client and marks the deposit undisputed
    /// again. Where `tx_id` names no disputed deposit nothing changes.
    pub open spec fn resolve(self, tx_id: u32) -> EngineState {
        if self.has_entry_in(tx_id, TransactionState::Disputed) {
            self.with_outcome(
                tx_id,
                self.owner_account(tx_id).with_release(self.ledger[tx_id].0->amount as int),
                TransactionState::Undisputed,
            )
        } else {
            self
        }
    }

    /// A chargeback of a disputed retained deposit removes its held amount
    /// from the account of the deposit's own client, locks that account and
    /// marks the deposit undisputed. Where `tx_id` names no disputed deposit
    /// nothing changes.
    pub open spec fn chargeback(self, tx_id: u32) -> EngineState {
        if self.has_entry_in(tx_id, TransactionState::Disputed) {
            self.with_outcome(
                tx_id,
                self.owner_account(tx_id).charged_back(self.ledger[tx_id].0->amount as int),
                TransactionState::Undisputed,
            )
        } else {
            self
        }
    }

    /// The state after one transaction. The client id that a dispute, a
    /// resolve or a chargeback carries plays no part, nor does the
    /// transaction id of a withdrawal.
    pub open spec fn apply(self, transaction: Transaction) -> EngineState {
        match transaction {
            Transaction::Deposit { client_id, tx_id, amount } => self.deposit(
                client_id,
                tx_id,
                amount,
            ),
            Transaction::Withdrawal { client_id, tx_id, amount } => self.withdrawal(
                client_id,
                amount,
            ),
            Transaction::Dispute { client_id, tx_id } => self.dispute(tx_id),
            Transaction::Resolve { client_id, tx_id } => self.resolve(tx_id),
            Transaction::Chargeback { client_id, tx_id } => self.chargeback(tx_id),
        }
    }

    /// The state after a log of transactions, applied in order.
    pub open spec fn replay(self, log: Seq<Transaction>) -> EngineState
        decreases log.len(),
    {
        if log.len() == 0 {
            self
        } else {
            self.replay(log.drop_last()).apply(log.last())
        }
    }

    /// Whether `listed` is a snapshot of the accounts on record: every
    /// account once, in any order, and nothing else.
    pub open spec fn is_snapshot(self, listed: Seq<Account>) -> bool {
        &&& listed.no_duplicates()
        &&& listed.to_set() == self.accounts.values()
    }

    /// What holds of every state that a replay can reach. Each account is
    /// filed under its own client, is balanced and storable, and holds at
    /// least what the client's disputed deposits keep held. Each ledger entry
    /// is filed under its own transaction id, and its client has an account.
    pub open spec fn wf(self) -> bool {
        &&& forall|client: u16| #[trigger]
            self.accounts.contains_key(client) ==> {
                &&& self.accounts[client].client == client
                &&& self.accounts[client].balanced()
                &&& self.accounts[client].storable()
                &&& self.accounts[client].held >= self.disputed_total(client)
            }
        &&& forall|tx_id: u32| #[trigger]
            self.ledger.contains_key(tx_id) ==> {
                &&& self.ledger[tx_id].0->tx_id == tx_id
                &&& self.accounts.contains_key(self.ledger[tx_id].0->client_id)
            }
    }
}

} // verus!
