//! What holds of every replay, proved of the model.

use crate::model::{held_below, held_by, tx_id_count, Account, EngineState, LedgerEntry};
use crate::transaction_engine::{Transaction, TransactionState};
use vstd::prelude::*;

verus! {

/// Where two ledgers agree on every transaction but `tx_id`, what they keep
/// held on the account of `client` differs by what that one deposit keeps
/// held.
pub proof fn lemma_held_below_differs_at(
    before: Map<u32, LedgerEntry>,
    after: Map<u32, LedgerEntry>,
    client: u16,
    tx_id: u32,
    bound: nat,
)
    requires
        bound <= tx_id_count(),
        forall|other: u32|
            other != tx_id ==> held_by(before, client, other) == held_by(after, client, other),
    ensures
        held_below(after, client, bound) + (if tx_id < bound {
            held_by(before, client, tx_id)
        } else {
            0
        }) == held_below(before, client, bound) + (if tx_id < bound {
            held_by(after, client, tx_id)
        } else {
            0
        }),
    decreases bound,
{
    if bound > 0 {
        lemma_held_below_differs_at(before, after, client, tx_id, (bound - 1) as nat);
    }
}

/// One deposit keeps held no more than all of them together.
pub proof fn lemma_held_by_within_total(
    ledger: Map<u32, LedgerEntry>,
    client: u16,
    tx_id: u32,
    bound: nat,
)
    requires
        tx_id < bound <= tx_id_count(),
    ensures
        held_by(ledger, client, tx_id) <= held_below(ledger, client, bound),
    decreases bound,
{
    if tx_id < bound - 1 {
        lemma_held_by_within_total(ledger, client, tx_id, (bound - 1) as nat);
    }
}

/// Nothing is kept held on the account of a client that made no retained
/// deposit.
pub proof fn lemma_held_below_without_deposits(
    ledger: Map<u32, LedgerEntry>,
    client: u16,
    bound: nat,
)
    requires
        bound <= tx_id_count(),
        forall|tx_id: u32| #[trigger]
            ledger.contains_key(tx_id) ==> ledger[tx_id].0->client_id != client,
    ensures
        held_below(ledger, client, bound) == 0,
    decreases bound,
{
    if bound > 0 {
        lemma_held_below_without_deposits(ledger, client, (bound - 1) as nat);
    }
}

/// In a well-formed state the account that owns a disputed deposit holds at
/// least the deposit's amount. So resolving the dispute, or charging the
/// deposit back, leaves balances that can be stored.
pub proof fn lemma_held_covers_dispute(state: EngineState, tx_id: u32)
    requires
        state.wf(),
        state.has_entry_in(tx_id, TransactionState::Disputed),
    ensures
        state.owner_account(tx_id).held >= state.ledger[tx_id].0->amount,
        state.owner_account(tx_id).with_release(state.ledger[tx_id].0->amount as int).storable(),
        state.owner_account(tx_id).charged_back(state.ledger[tx_id].0->amount as int).storable(),
{
    let owner = state.ledger[tx_id].0->client_id;
    lemma_held_by_within_total(state.ledger, owner, tx_id, tx_id_count());
}

/// In a well-formed state a withdrawal that the available funds cover
/// leaves balances that can be stored.
pub proof fn lemma_withdrawal_is_storable(state: EngineState, client_id: u16, amount: u64)
    requires
        state.wf(),
        state.accepts_withdrawal(client_id, amount),
    ensures
        state.account(client_id).debited(amount as int).storable(),
{
}

/// The state before any transaction is well-formed.
pub proof fn lemma_empty_is_wf()
    ensures
        EngineState::empty().wf(),
{
}

/// A deposit keeps a well-formed state well-formed.
pub proof fn lemma_deposit_preserves_wf(
    state: EngineState,
    client_id: u16,
    tx_id: u32,
    amount: u64,
)
    requires
        state.wf(),
    ensures
        state.deposit(client_id, tx_id, amount).wf(),
{
    let after = state.deposit(client_id, tx_id, amount);
    assert forall|client: u16| #[trigger]
        after.accounts.contains_key(client) implies after.accounts[client].held
        >= after.disputed_total(client) by {
        if !state.accounts.contains_key(client) {
            lemma_held_below_without_deposits(state.ledger, client, tx_id_count());
        }
        lemma_held_below_differs_at(state.ledger, after.ledger, client, tx_id, tx_id_count());
    }
}

/// A withdrawal keeps a well-formed state well-formed.
pub proof fn lemma_withdrawal_preserves_wf(state: EngineState, client_id: u16, amount: u64)
    requires
        state.wf(),
    ensures
        state.withdrawal(client_id, amount).wf(),
{
    if !state.accounts.contains_key(client_id) {
        lemma_held_below_without_deposits(state.ledger, client_id, tx_id_count());
    }
}

/// A dispute keeps a well-formed state well-formed.
pub proof fn lemma_dispute_preserves_wf(state: EngineState, tx_id: u32)
    requires
        state.wf(),
    ensures
        state.dispute(tx_id).wf(),
{
    let after = state.dispute(tx_id);
    assert forall|client: u16| #[trigger]
        after.accounts.contains_key(client) implies after.accounts[client].held
        >= after.disputed_total(client) by {
        lemma_held_below_differs_at(state.ledger, after.ledger, client, tx_id, tx_id_count());
    }
}

/// A resolve keeps a well-formed state well-formed.
pub proof fn lemma_resolve_preserves_wf(state: EngineState, tx_id: u32)
    requires
        state.wf(),
    ensures
        state.resolve(tx_id).wf(),
{
    let after = state.resolve(tx_id);
    if state.has_entry_in(tx_id, TransactionState::Disputed) {
        lemma_held_covers_dispute(state, tx_id);
    }
    assert forall|client: u16| #[trigger]
        after.accounts.contains_key(client) implies after.accounts[client].held
        >= after.disputed_total(client) by {
        lemma_held_below_differs_at(state.ledger, after.ledger, client, tx_id, tx_id_count());
    }
}

/// A chargeback keeps a well-formed state well-formed.
pub proof fn lemma_chargeback_preserves_wf(state: EngineState, tx_id: u32)
    requires
        state.wf(),
    ensures
        state.chargeback(tx_id).wf(),
{
    let after = state.chargeback(tx_id);
    if state.has_entry_in(tx_id, TransactionState::Disputed) {
        lemma_held_covers_dispute(state, tx_id);
    }
    assert forall|client: u16| #[trigger]
        after.accounts.contains_key(client) implies after.accounts[client].held
        >= after.disputed_total(client) by {
        lemma_held_below_differs_at(state.ledger, after.ledger, client, tx_id, tx_id_count());
    }
}

/// Any transaction keeps a well-formed state well-formed.
pub proof fn lemma_apply_preserves_wf(state: EngineState, transaction: Transaction)
    requires
        state.wf(),
    ensures
        state.apply(transaction).wf(),
{
    match transaction {
        Transaction::Deposit { client_id, tx_id, amount } => lemma_deposit_preserves_wf(
            state,
            client_id,
            tx_id,
            amount,
        ),
        Transaction::Withdrawal { client_id, tx_id, amount } => lemma_withdrawal_preserves_wf(
            state,
            client_id,
            amount,
        ),
        Transaction::Dispute { client_id, tx_id } => lemma_dispute_preserves_wf(state, tx_id),
        Transaction::Resolve { client_id, tx_id } => lemma_resolve_preserves_wf(state, tx_id),
        Transaction::Chargeback { client_id, tx_id } => lemma_chargeback_preserves_wf(
            state,
            tx_id,
        ),
    }
}

/// Any log of transactions keeps a well-formed state well-formed.
pub proof fn lemma_replay_preserves_wf(state: EngineState, log: Seq<Transaction>)
    requires
        state.wf(),
    ensures
        state.replay(log).wf(),
    decreases log.len(),
{
    if log.len() > 0 {
        lemma_replay_preserves_wf(state, log.drop_last());
        lemma_apply_preserves_wf(state.replay(log.drop_last()), log.last());
    }
}

/// Every account of every snapshot taken after any log of transactions is
/// balanced: its total is what is available together with what is held.
pub proof fn lemma_snapshot_accounts_are_balanced(
    log: Seq<Transaction>,
    listed: Seq<Account>,
    i: int,
)
    requires
        EngineState::empty().replay(log).is_snapshot(listed),
        0 <= i < listed.len(),
    ensures
        listed[i].balanced(),
{
    let state = EngineState::empty().replay(log);
    lemma_replay_preserves_wf(EngineState::empty(), log);
    assert(listed.to_set().contains(listed[i]));
    assert(state.accounts.values().contains(listed[i]));
    let client = choose|client: u16|
        state.accounts.contains_key(client) && state.accounts[client] == listed[i];
    assert(state.accounts.contains_key(client));
}

/// No transaction deletes anything: every account and every ledger entry
/// on record stays on record.
pub proof fn lemma_apply_keeps_records(state: EngineState, transaction: Transaction)
    ensures
        state.accounts.dom().subset_of(state.apply(transaction).accounts.dom()),
        state.ledger.dom().subset_of(state.apply(transaction).ledger.dom()),
{
}

/// A locked account stays locked, whatever transaction is applied.
pub proof fn lemma_apply_keeps_locked(state: EngineState, transaction: Transaction, client: u16)
    requires
        state.is_locked(client),
    ensures
        state.apply(transaction).is_locked(client),
{
}

/// A locked account stays locked, whatever log of transactions is applied.
pub proof fn lemma_replay_keeps_locked(state: EngineState, log: Seq<Transaction>, client: u16)
    requires
        state.is_locked(client),
    ensures
        state.replay(log).is_locked(client),
    decreases log.len(),
{
    if log.len() > 0 {
        lemma_replay_keeps_locked(state, log.drop_last(), client);
        lemma_apply_keeps_locked(state.replay(log.drop_last()), log.last(), client);
    }
}

/// A deposit to a locked account and a withdrawal from one change nothing:
/// no balance, no ledger entry.
pub proof fn lemma_locked_account_ignores_funds(state: EngineState, transaction: Transaction)
    requires
        transaction is Deposit || transaction is Withdrawal,
        state.is_locked(transaction.client_id()),
    ensures
        state.apply(transaction) == state,
{
    assert(state.referenced(transaction.client_id()).accounts =~= state.accounts);
}

/// Once an account is locked, no deposit to it and no withdrawal from it
/// changes anything, however many transactions were applied in between.
pub proof fn lemma_locked_account_is_frozen(
    state: EngineState,
    log: Seq<Transaction>,
    transaction: Transaction,
)
    requires
        transaction is Deposit || transaction is Withdrawal,
        state.is_locked(transaction.client_id()),
    ensures
        state.replay(log).apply(transaction) == state.replay(log),
{
    lemma_replay_keeps_locked(state, log, transaction.client_id());
    lemma_locked_account_ignores_funds(state.replay(log), transaction);
}

/// A dispute of a deposit that is already disputed changes nothing.
pub proof fn lemma_dispute_of_disputed_changes_nothing(
    state: EngineState,
    transaction: Transaction,
)
    requires
        transaction is Dispute,
        state.has_entry_in(transaction.tx_id(), TransactionState::Disputed),
    ensures
        state.apply(transaction) == state,
{
}

/// Disputing is idempotent: a second dispute of the same transaction, right
/// after the first, changes nothing, whichever clients the two name.
pub proof fn lemma_dispute_is_idempotent(
    state: EngineState,
    first: Transaction,
    second: Transaction,
)
    requires
        first is Dispute,
        second is Dispute,
        first.tx_id() == second.tx_id(),
    ensures
        state.apply(first).apply(second) == state.apply(first),
{
}

/// Resolving a dispute undoes it: a dispute of an undisputed deposit
/// followed by a resolve of the same deposit leaves every balance and every
/// ledger entry as it was.
pub proof fn lemma_resolve_undoes_dispute(
    state: EngineState,
    dispute: Transaction,
    resolve: Transaction,
)
    requires
        state.wf(),
        dispute is Dispute,
        resolve is Resolve,
        dispute.tx_id() == resolve.tx_id(),
        state.has_entry_in(dispute.tx_id(), TransactionState::Undisputed),
    ensures
        state.apply(dispute).apply(resolve) == state,
{
    let tx_id = dispute.tx_id();
    let amount = state.ledger[tx_id].0->amount as int;
    let account = state.owner_account(tx_id);
    if state.accepts_dispute(tx_id) {
        assert(account.with_hold(amount).with_release(amount) == account);
        assert(state.dispute(tx_id).resolve(tx_id).accounts =~= state.accounts);
        assert(state.dispute(tx_id).resolve(tx_id).ledger =~= state.ledger);
    }
}

/// A deposit that is applied, then disputed, then resolved leaves every
/// balance and every ledger entry as the deposit left it.
pub proof fn lemma_applied_deposit_round_trip(
    state: EngineState,
    deposit: Transaction,
    dispute: Transaction,
    resolve: Transaction,
)
    requires
        state.wf(),
        deposit matches Transaction::Deposit { client_id, amount, .. } && state.accepts_deposit(
            client_id,
            amount,
        ),
        dispute is Dispute,
        resolve is Resolve,
        dispute.tx_id() == deposit.tx_id(),
        resolve.tx_id() == deposit.tx_id(),
    ensures
        state.apply(deposit).apply(dispute).apply(resolve) == state.apply(deposit),
{
    lemma_apply_preserves_wf(state, deposit);
    lemma_resolve_undoes_dispute(state.apply(deposit), dispute, resolve);
}

/// Whether a deposit is not applied while its transaction id names a
/// disputed deposit of the same client with a positive amount. A resolve
/// that follows then releases that older deposit.
pub open spec fn shadows_open_dispute(state: EngineState, deposit: Transaction) -> bool {
    &&& deposit matches Transaction::Deposit { client_id, tx_id, amount }
    &&& !state.accepts_deposit(client_id, amount)
    &&& state.has_entry_in(tx_id, TransactionState::Disputed)
    &&& state.ledger[tx_id].0->client_id == client_id
    &&& state.ledger[tx_id].0->amount > 0
}

/// A deposit followed by a dispute and a resolve of its transaction id
/// leaves the balances of the depositing client as the deposit left them,
/// unless the deposit shadows an open dispute.
pub proof fn lemma_deposit_dispute_resolve_round_trip(
    state: EngineState,
    deposit: Transaction,
    dispute: Transaction,
    resolve: Transaction,
)
    requires
        state.wf(),
        deposit is Deposit,
        dispute is Dispute,
        resolve is Resolve,
        dispute.tx_id() == deposit.tx_id(),
        resolve.tx_id() == deposit.tx_id(),
        !shadows_open_dispute(state, deposit),
    ensures
        state.apply(deposit).apply(dispute).apply(resolve).account(deposit.client_id())
            == state.apply(deposit).account(deposit.client_id()),
{
    let deposited = state.apply(deposit);
    let tx_id = deposit.tx_id();
    lemma_apply_preserves_wf(state, deposit);
    if deposited.has_entry_in(tx_id, TransactionState::Undisputed) {
        lemma_resolve_undoes_dispute(deposited, dispute, resolve);
    }
}

/// A dispute, a resolve or a chargeback that names a transaction with no
/// ledger entry changes nothing: no account and no ledger entry is created.
pub proof fn lemma_unknown_reference_changes_nothing(state: EngineState, transaction: Transaction)
    requires
        transaction is Dispute || transaction is Resolve || transaction is Chargeback,
        !state.ledger.contains_key(transaction.tx_id()),
    ensures
        state.apply(transaction) == state,
{
}

} // verus!
