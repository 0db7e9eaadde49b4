//! The transaction engine: the account store, the ledger of retained
//! deposits, and the handlers that apply one transaction to them.

use crate::lemmas::{
    lemma_apply_preserves_wf, lemma_held_covers_dispute, lemma_withdrawal_is_storable,
};
use crate::model::{Account, EngineState};
use std::collections::HashMap;
use vstd::prelude::*;
use vstd::std_specs::hash::*;
use vstd::std_specs::iter::IteratorSpec;

verus! {

broadcast use vstd::std_specs::hash::group_hash_axioms;

/// One record of the transaction log. Amounts count ten-thousandths of one
/// unit of currency.
#[derive(Clone, Copy, Debug, PartialEq, Eq, Structural)]
pub enum Transaction {
    Deposit { client_id: u16, tx_id: u32, amount: u64 },
    Withdrawal { client_id: u16, tx_id: u32, amount: u64 },
    Dispute { client_id: u16, tx_id: u32 },
    Resolve { client_id: u16, tx_id: u32 },
    Chargeback { client_id: u16, tx_id: u32 },
}

impl Transaction {
    /// The client that the record names.
    pub open spec fn client_id(self) -> u16 {
        match self {
            Transaction::Deposit { client_id, .. } => client_id,
            Transaction::Withdrawal { client_id, .. } => client_id,
            Transaction::Dispute { client_id, .. } => client_id,
            Transaction::Resolve { client_id, .. } => client_id,
            Transaction::Chargeback { client_id, .. } => client_id,
        }
    }

    /// The transaction that the record names: its own for a deposit or a
    /// withdrawal, an earlier one for the other kinds.
    pub open spec fn tx_id(self) -> u32 {
        match self {
            Transaction::Deposit { tx_id, .. } => tx_id,
            Transaction::Withdrawal { tx_id, .. } => tx_id,
            Transaction::Dispute { tx_id, .. } => tx_id,
            Transaction::Resolve { tx_id, .. } => tx_id,
            Transaction::Chargeback { tx_id, .. } => tx_id,
        }
    }
}

/// What the ledger retains of a transaction. Only deposits are retained, so
/// only deposits can be disputed.
#[derive(Clone, Copy, Debug, PartialEq, Eq, Structural)]
pub enum PersistedTransaction {
    Deposit { client_id: u16, tx_id: u32, amount: u64 },
}

/// The dispute state of a retained deposit.
#[derive(Clone, Copy, Debug, PartialEq, Eq, Structural)]
pub enum TransactionState {
    Disputed,
    Undisputed,
}

/// The balances of one client, as the engine stores them and hands them out.
#[derive(Clone, Copy, Debug)]
pub struct Client {
    client: u16,
    available: i64,
    held: i64,
    total: i64,
    locked: bool,
}

impl View for Client {
    type V = Account;

    closed spec fn view(&self) -> Account {
        Account {
            client: self.client,
            available: self.available as int,
            held: self.held as int,
            total: self.total as int,
            locked: self.locked,
        }
    }
}

impl Client {
    /// The client that the account belongs to.
    pub fn client(&self) -> (client: u16)
        ensures
            client == self@.client,
    {
        self.client
    }

    /// The funds that the client can use now.
    pub fn available(&self) -> (available: i64)
        ensures
            available == self@.available,
    {
        self.available
    }

    /// The funds that open disputes hold back.
    pub fn held(&self) -> (held: i64)
        ensures
            held == self@.held,
    {
        self.held
    }

    /// All the funds of the account.
    pub fn total(&self) -> (total: i64)
        ensures
            total == self@.total,
    {
        self.total
    }

    /// Whether a chargeback has locked the account.
    pub fn locked(&self) -> (locked: bool)
        ensures
            locked == self@.locked,
    {
        self.locked
    }
}

/// The accounts that a map of stored clients stands for.
spec fn accounts_of(clients: Map<u16, Client>) -> Map<u16, Account> {
    Map::new(|id: u16| clients.contains_key(id), |id: u16| clients[id]@)
}

/// The accounts that a list of clients stands for, in the same order.
pub open spec fn listed_accounts(clients: Seq<Client>) -> Seq<Account> {
    clients.map_values(|client: Client| client@)
}

/// The account store: one account for each client referenced so far.
struct ClientList {
    clients: HashMap<u16, Client>,
}

impl View for ClientList {
    type V = Map<u16, Account>;

    closed spec fn view(&self) -> Map<u16, Account> {
        accounts_of(self.clients@)
    }
}

impl ClientList {
    fn new() -> (list: ClientList)
        ensures
            list@ == Map::<u16, Account>::empty(),
    {
        let list = ClientList { clients: HashMap::new() };
        assert(list@ =~= Map::<u16, Account>::empty());
        list
    }

    /// The account of `id`, created empty if the client was never
    /// referenced. What the caller leaves in it is what the store holds for
    /// `id` afterwards.
    fn get_mut(&mut self, id: u16) -> (client: &mut Client)
        ensures
            client@ == (if old(self)@.contains_key(id) {
                old(self)@[id]
            } else {
                Account::empty(id)
            }),
            client@.storable(),
            final(self)@ == old(self)@.insert(id, final(client)@),
    {
        proof {
            let stored = self.clients@;
            assert forall|c: Client| #[trigger]
                accounts_of(stored.insert(id, c)) == accounts_of(stored).insert(id, c@) by {
                assert(accounts_of(stored.insert(id, c)) =~= accounts_of(stored).insert(id, c@));
            }
        }
        self.clients.entry(id).or_insert(
            Client { client: id, held: 0, total: 0, available: 0, locked: false },
        )
    }

    /// A copy of the account of `id`, if the client was ever referenced.
    fn get(&self, id: u16) -> (found: Option<Client>)
        ensures
            found is Some == self@.contains_key(id),
            found matches Some(client) ==> client@ == self@[id],
    {
        match self.clients.get(&id) {
            Some(client) => Some(*client),
            None => None,
        }
    }

    /// A copy of every account, in no particular order.
    fn get_all(&self) -> (all: Vec<Client>)
        requires
            forall|id: u16| #[trigger] self@.contains_key(id) ==> self@[id].client == id,
        ensures
            all@.len() == self@.len(),
            listed_accounts(all@).no_duplicates(),
            listed_accounts(all@).to_set() == self@.values(),
    {
        let mut all: Vec<Client> = Vec::new();
        for entry in entries: self.clients.iter()
            invariant
                all@.len() == entries.index(),
                entries.seq() == spec_hash_map_iter(&self.clients).remaining(),
                forall|i: int| 0 <= i < all@.len() ==> all@[i] == *entries.seq()[i].1,
        {
            all.push(*entry.1);
        }
        proof {
            let stored = self.clients@;
            let visited = spec_hash_map_iter(&self.clients).remaining();
            let listed = listed_accounts(all@);
            assert(self@.dom() =~= stored.dom());
            assert forall|i: int, j: int|
                0 <= i < listed.len() && 0 <= j < listed.len() && i != j implies listed[i]
                != listed[j] by {
                assert(self@.contains_key(*visited[i].0));
                assert(self@.contains_key(*visited[j].0));
                assert(visited[i] != visited[j]);
            }
            assert forall|account: Account|
                listed.to_set().contains(account) <==> self@.values().contains(account) by {
                if listed.to_set().contains(account) {
                    let i = choose|i: int| 0 <= i < listed.len() && listed[i] == account;
                    assert(self@.contains_key(*visited[i].0));
                    assert(self@[*visited[i].0] == account);
                }
                if self@.values().contains(account) {
                    let id = choose|id: u16| self@.contains_key(id) && self@[id] == account;
                    assert(stored.contains_key(id));
                    assert(visited.contains((&id, &stored[id])));
                    let i = choose|i: int|
                        0 <= i < visited.len() && visited[i] == (&id, &stored[id]);
                    assert(listed[i] == account);
                }
            }
            assert(listed.to_set() =~= self@.values());
        }
        all
    }
}

/// The account store together with the ledger of retained deposits.
struct Books {
    client_list: ClientList,
    transactions: HashMap<u32, (PersistedTransaction, TransactionState)>,
}

impl View for Books {
    type V = EngineState;

    closed spec fn view(&self) -> EngineState {
        EngineState { accounts: self.client_list@, ledger: self.transactions@ }
    }
}

impl Books {
    fn new() -> (books: Books)
        ensures
            books@ == EngineState::empty(),
    {
        Books { client_list: ClientList::new(), transactions: HashMap::new() }
    }

    fn handle_deposit(&mut self, client_id: u16, tx_id: u32, amount: u64)
        ensures
            final(self)@ == old(self)@.deposit(client_id, tx_id, amount),
    {
        let client = self.client_list.get_mut(client_id);

        if client.locked {
            return ;
        }
        match (
            client.total.checked_add_unsigned(amount),
            client.available.checked_add_unsigned(amount),
        ) {
            (Some(total), Some(available)) => {
                client.total = total;
                client.available = available;
            },
            _ => return ,
        }

        self.transactions.insert(
            tx_id,
            (
                PersistedTransaction::Deposit { client_id, tx_id, amount },
                TransactionState::Undisputed,
            ),
        );
    }

    fn handle_withdrawal(&mut self, client_id: u16, _tx_id: u32, amount: u64)
        requires
            old(self)@.wf(),
        ensures
            final(self)@ == old(self)@.withdrawal(client_id, amount),
    {
        proof {
            if self@.accepts_withdrawal(client_id, amount) {
                lemma_withdrawal_is_storable(self@, client_id, amount);
            }
        }
        let client = self.client_list.get_mut(client_id);

        if client.locked {
            return ;
        }
        if client.available >= 0 && client.available as u64 >= amount {
            client.total -= amount as i64;
            client.available -= amount as i64;
        }
    }

    fn handle_dispute(&mut self, _client_id: u16, tx_id: u32)
        requires
            old(self)@.wf(),
        ensures
            final(self)@ == old(self)@.dispute(tx_id),
    {
        let (disputed, state) = match self.transactions.get(&tx_id) {
            Some(tx) => *tx,
            None => return ,
        };

        if !matches!(state, TransactionState::Undisputed) {
            return ;
        }
        match disputed {
            PersistedTransaction::Deposit { client_id, tx_id: _, amount } => {
                let client = self.client_list.get_mut(client_id);
                match (
                    client.available.checked_sub_unsigned(amount),
                    client.held.checked_add_unsigned(amount),
                ) {
                    (Some(available), Some(held)) => {
                        client.available = available;
                        client.held = held;
                    },
                    _ => {
                        assert(old(self)@.ledger.contains_key(tx_id));
                        assert(old(self)@.accounts.contains_key(client_id));
                        assert(self@.accounts =~= old(self)@.accounts);
                        return ;
                    },
                }
            },
        }

        self.transactions.insert(tx_id, (disputed, TransactionState::Disputed));
    }

    fn handle_resolve(&mut self, _client_id: u16, tx_id: u32)
        requires
            old(self)@.wf(),
        ensures
            final(self)@ == old(self)@.resolve(tx_id),
    {
        let (disputed, state) = match self.transactions.get(&tx_id) {
            Some(tx) => *tx,
            None => return ,
        };

        if !matches!(state, TransactionState::Disputed) {
            return ;
        }
        proof {
            lemma_held_covers_dispute(self@, tx_id);
        }
        match disputed {
            PersistedTransaction::Deposit { client_id, tx_id: _, amount } => {
                let client = self.client_list.get_mut(client_id);
                client.available += amount as i64;
                client.held -= amount as i64;
            },
        }

        self.transactions.insert(tx_id, (disputed, TransactionState::Undisputed));
    }

    fn handle_chargeback(&mut self, _client_id: u16, tx_id: u32)
        requires
            old(self)@.wf(),
        ensures
            final(self)@ == old(self)@.chargeback(tx_id),
    {
        let (disputed, state) = match self.transactions.get(&tx_id) {
            Some(tx) => *tx,
            None => return ,
        };

        if !matches!(state, TransactionState::Disputed) {
            return ;
        }
        proof {
            lemma_held_covers_dispute(self@, tx_id);
        }
        match disputed {
            PersistedTransaction::Deposit { client_id, tx_id: _, amount } => {
                let client = self.client_list.get_mut(client_id);
                client.total -= amount as i64;
                client.held -= amount as i64;
                client.locked = true;
            },
        }

        self.transactions.insert(tx_id, (disputed, TransactionState::Undisputed));
    }
}

/// Replays transactions, one at a time, into account balances.
pub struct TransactionEngine {
    books: Books,
}

impl View for TransactionEngine {
    type V = EngineState;

    closed spec fn view(&self) -> EngineState {
        self.books@
    }
}

impl TransactionEngine {
    /// Every engine stands for a well-formed state.
    #[verifier::type_invariant]
    spec fn wf(&self) -> bool {
        self.books@.wf()
    }

    /// An engine that has seen no transaction.
    pub fn new() -> (engine: TransactionEngine)
        ensures
            engine@ == EngineState::empty(),
    {
        TransactionEngine { books: Books::new() }
    }

    /// Applies one transaction. One that cannot be applied changes no
    /// balance and no ledger entry, and is not reported.
    pub fn compute_transaction(&mut self, transaction: Transaction)
        ensures
            final(self)@ == old(self)@.apply(transaction),
            final(self)@.wf(),
    {
        proof {
            use_type_invariant(&*self);
            lemma_apply_preserves_wf(self@, transaction);
        }
        let mut books = Books::new();
        std::mem::swap(&mut self.books, &mut books);
        match transaction {
            Transaction::Deposit { client_id, tx_id, amount } => books.handle_deposit(
                client_id,
                tx_id,
                amount,
            ),
            Transaction::Withdrawal { client_id, tx_id, amount } => books.handle_withdrawal(
                client_id,
                tx_id,
                amount,
            ),
            Transaction::Dispute { client_id, tx_id } => books.handle_dispute(client_id, tx_id),
            Transaction::Resolve { client_id, tx_id } => books.handle_resolve(client_id, tx_id),
            Transaction::Chargeback { client_id, tx_id } => books.handle_chargeback(
                client_id,
                tx_id,
            ),
        }
        self.books = books;
    }

    /// A snapshot of the accounts: every client referenced so far, once, in
    /// no particular order. Each total is the sum of what is available and
    /// what is held.
    pub fn get_client_list(&self) -> (clients: Vec<Client>)
        ensures
            self@.wf(),
            self@.is_snapshot(listed_accounts(clients@)),
            clients@.len() == self@.accounts.len(),
            forall|i: int| 0 <= i < clients@.len() ==> (#[trigger] clients@[i])@.balanced(),
    {
        proof {
            use_type_invariant(self);
            assert forall|id: u16| #[trigger]
                self.books.client_list@.contains_key(id) implies self.books.client_list@[id].client
                == id by {
                assert(self@.accounts.contains_key(id));
            }
        }
        let clients = self.books.client_list.get_all();
        proof {
            let listed = listed_accounts(clients@);
            assert forall|i: int| 0 <= i < clients@.len() implies (#[trigger] clients@[i])@
                .balanced() by {
                assert(listed[i] == clients@[i]@);
                assert(listed.to_set().contains(listed[i]));
                assert(self@.accounts.values().contains(listed[i]));
                let id = choose|id: u16|
                    self@.accounts.contains_key(id) && self@.accounts[id] == listed[i];
                assert(self@.accounts.contains_key(id));
            }
        }
        clients
    }

    /// A copy of the account of `client_id`, if the client was ever
    /// referenced. Looking does not reference the client.
    pub fn get_client(&self, client_id: u16) -> (found: Option<Client>)
        ensures
            self@.wf(),
            found is Some == self@.accounts.contains_key(client_id),
            found matches Some(client) ==> client@ == self@.accounts[client_id],
    {
        proof {
            use_type_invariant(self);
        }
        self.books.client_list.get(client_id)
    }

    /// The retained deposit with this transaction id and its dispute state,
    /// if there is one.
    pub fn get_transaction(&self, tx_id: u32) -> (found: Option<
        (PersistedTransaction, TransactionState),
    >)
        ensures
            self@.wf(),
            found == (if self@.ledger.contains_key(tx_id) {
                Some(self@.ledger[tx_id])
            } else {
                None
            }),
    {
        proof {
            use_type_invariant(self);
        }
        match self.books.transactions.get(&tx_id) {
            Some(entry) => Some(*entry),
            None => None,
        }
    }

    /// How many deposits the ledger retains.
    pub fn transaction_count(&self) -> (count: usize)
        ensures
            count == self@.ledger.len(),
    {
        self.books.transactions.len()
    }
}

} // verus!
