//! One client's balance state and the dispute lifecycle.
//!
//! An account folds the transactions routed to it into an `available`
//! balance, a `held` balance frozen by open disputes, a `locked` flag set by
//! a successful chargeback, and a history of past deposits and withdrawals
//! kept so that later records can reference them. Every rule of the state
//! machine is captured by the mathematical transition function
//! [`apply_model`]; the executable [`Account::consume`] is proved to follow
//! it exactly.

use crate::transaction::Transaction;
use crate::transaction::TransactionType;
use crate::transaction::TxId;
use vstd::prelude::*;

verus! {

/// The record of a past deposit or withdrawal retained inside an account
/// for possible dispute.
#[derive(Clone, Copy, PartialEq, Eq, Structural, Debug)]
pub struct HeldTransaction {
    pub id: TxId,
    pub ty: TransactionType,
    pub amount_units: u64,
    pub disputed: bool,
}

/// The mathematical state of one account: exact integer balances in
/// ten-thousandths of a currency unit, the lock flag, and the retained
/// history in the order the records were first stored.
#[verifier::ext_equal]
pub ghost struct AccountView {
    pub available: int,
    pub held: int,
    pub locked: bool,
    pub history: Seq<HeldTransaction>,
}

/// The first retained transaction with the given id, if any.
pub open spec fn tx_lookup(h: Seq<HeldTransaction>, id: TxId) -> Option<HeldTransaction>
    decreases h.len(),
{
    if h.len() == 0 {
        None
    } else if h[0].id == id {
        Some(h[0])
    } else {
        tx_lookup(h.drop_first(), id)
    }
}

/// The position of the first retained transaction with the given id;
/// meaningful only when [`tx_lookup`] finds one.
pub open spec fn tx_idx(h: Seq<HeldTransaction>, id: TxId) -> int
    decreases h.len(),
{
    if h.len() == 0 {
        0
    } else if h[0].id == id {
        0
    } else {
        1 + tx_idx(h.drop_first(), id)
    }
}

/// Storing a record under its id: the first record with the same id is
/// overwritten, and a fresh id goes to the end.
pub open spec fn tx_store(h: Seq<HeldTransaction>, t: HeldTransaction) -> Seq<HeldTransaction> {
    if tx_lookup(h, t.id) is Some {
        h.update(tx_idx(h, t.id), t)
    } else {
        h.push(t)
    }
}

/// What a retained record contributes to the held balance: its amount while
/// it is under dispute, nothing otherwise.
pub open spec fn disputed_amt(t: HeldTransaction) -> int {
    if t.disputed {
        t.amount_units as int
    } else {
        0
    }
}

/// The sum of the amounts of all records currently under dispute.
pub open spec fn disputed_sum(h: Seq<HeldTransaction>) -> int
    decreases h.len(),
{
    if h.len() == 0 {
        0
    } else {
        disputed_amt(h[0]) + disputed_sum(h.drop_first())
    }
}

/// Validity of an account state: the held balance covers the open disputes
/// (so releasing any one of them cannot drive it below zero), and the total
/// `available + held` stays representable.
pub open spec fn account_inv(v: AccountView) -> bool {
    &&& i128::MIN <= v.available <= i128::MAX
    &&& disputed_sum(v.history) <= v.held <= i128::MAX
    &&& v.available + v.held <= i128::MAX
}

/// The transition function of the account state machine: the state after
/// one transaction is applied to `pre`.
///
/// A locked account ignores everything. A deposit or withdrawal needs its
/// amount present; a withdrawal also needs covering available funds. A
/// dispute needs a retained record with the referenced id that is not
/// already disputed and whose kind is deposit; a resolve or chargeback
/// needs a retained record that is currently disputed. Any record failing
/// its conditions leaves the state exactly as it was. The two range checks
/// on deposit and dispute guard the `i128` balances; no reachable stream of
/// realistic amounts fails them.
pub open spec fn apply_model(pre: AccountView, tx: Transaction) -> AccountView {
    if pre.locked {
        pre
    } else {
        match tx.ty {
            TransactionType::Deposit => match tx.amount {
                Some(a) => {
                    if pre.available + pre.held + a.units <= i128::MAX {
                        AccountView {
                            available: pre.available + a.units,
                            history: tx_store(
                                pre.history,
                                HeldTransaction {
                                    id: tx.id,
                                    ty: TransactionType::Deposit,
                                    amount_units: a.units,
                                    disputed: false,
                                },
                            ),
                            ..pre
                        }
                    } else {
                        pre
                    }
                },
                None => pre,
            },
            TransactionType::Withdrawal => match tx.amount {
                Some(a) => {
                    if pre.available >= a.units {
                        AccountView {
                            available: pre.available - a.units,
                            history: tx_store(
                                pre.history,
                                HeldTransaction {
                                    id: tx.id,
                                    ty: TransactionType::Withdrawal,
                                    amount_units: a.units,
                                    disputed: false,
                                },
                            ),
                            ..pre
                        }
                    } else {
                        pre
                    }
                },
                None => pre,
            },
            TransactionType::Dispute => match tx_lookup(pre.history, tx.id) {
                Some(t) => {
                    if !t.disputed && t.ty is Deposit && pre.available - t.amount_units
                        >= i128::MIN && pre.held + t.amount_units <= i128::MAX {
                        AccountView {
                            available: pre.available - t.amount_units,
                            held: pre.held + t.amount_units,
                            history: pre.history.update(
                                tx_idx(pre.history, tx.id),
                                HeldTransaction { disputed: true, ..t },
                            ),
                            ..pre
                        }
                    } else {
                        pre
                    }
                },
                None => pre,
            },
            TransactionType::Resolve => match tx_lookup(pre.history, tx.id) {
                Some(t) => {
                    if t.disputed {
                        AccountView {
                            available: pre.available + t.amount_units,
                            held: pre.held - t.amount_units,
                            history: pre.history.update(
                                tx_idx(pre.history, tx.id),
                                HeldTransaction { disputed: false, ..t },
                            ),
                            ..pre
                        }
                    } else {
                        pre
                    }
                },
                None => pre,
            },
            TransactionType::Chargeback => match tx_lookup(pre.history, tx.id) {
                Some(t) => {
                    if t.disputed {
                        AccountView {
                            held: pre.held - t.amount_units,
                            locked: true,
                            history: pre.history.remove(tx_idx(pre.history, tx.id)),
                            ..pre
                        }
                    } else {
                        pre
                    }
                },
                None => pre,
            },
        }
    }
}

/// Where [`tx_lookup`] finds a record, [`tx_idx`] points at the first
/// occurrence of its id, and the two agree.
pub proof fn lemma_tx_idx(h: Seq<HeldTransaction>, id: TxId)
    ensures
        tx_lookup(h, id) is Some ==> {
            &&& 0 <= tx_idx(h, id) < h.len()
            &&& h[tx_idx(h, id)].id == id
            &&& tx_lookup(h, id) == Some(h[tx_idx(h, id)])
            &&& forall|j: int| 0 <= j < tx_idx(h, id) ==> h[j].id != id
        },
        tx_lookup(h, id) is None ==> forall|j: int| 0 <= j < h.len() ==> h[j].id != id,
    decreases h.len(),
{
    if h.len() == 0 {
    } else if h[0].id == id {
    } else {
        lemma_tx_idx(h.drop_first(), id);
        assert forall|j: int| 0 <= j < h.len() && j >= 1 implies h[j]
            == h.drop_first()[j - 1] by {}
    }
}

/// No set of open disputes holds a negative sum.
pub proof fn lemma_disputed_sum_nonneg(h: Seq<HeldTransaction>)
    ensures
        disputed_sum(h) >= 0,
    decreases h.len(),
{
    if h.len() > 0 {
        lemma_disputed_sum_nonneg(h.drop_first());
    }
}

/// Each record's contribution is covered by the sum of all contributions.
pub proof fn lemma_disputed_sum_elem(h: Seq<HeldTransaction>, i: int)
    requires
        0 <= i < h.len(),
    ensures
        disputed_amt(h[i]) <= disputed_sum(h),
    decreases h.len(),
{
    if i == 0 {
        lemma_disputed_sum_nonneg(h.drop_first());
    } else {
        lemma_disputed_sum_elem(h.drop_first(), i - 1);
    }
}

/// How the sum of open disputes changes when one record is overwritten.
pub proof fn lemma_disputed_sum_update(h: Seq<HeldTransaction>, i: int, t: HeldTransaction)
    requires
        0 <= i < h.len(),
    ensures
        disputed_sum(h.update(i, t)) == disputed_sum(h) - disputed_amt(h[i]) + disputed_amt(t),
    decreases h.len(),
{
    if i == 0 {
        assert(h.update(0, t).drop_first() =~= h.drop_first());
    } else {
        assert(h.update(i, t).drop_first() =~= h.drop_first().update(i - 1, t));
        lemma_disputed_sum_update(h.drop_first(), i - 1, t);
    }
}

/// How the sum of open disputes changes when one record is removed.
pub proof fn lemma_disputed_sum_remove(h: Seq<HeldTransaction>, i: int)
    requires
        0 <= i < h.len(),
    ensures
        disputed_sum(h.remove(i)) == disputed_sum(h) - disputed_amt(h[i]),
    decreases h.len(),
{
    if i == 0 {
        assert(h.remove(0) =~= h.drop_first());
    } else {
        assert(h.remove(i).drop_first() =~= h.drop_first().remove(i - 1));
        lemma_disputed_sum_remove(h.drop_first(), i - 1);
    }
}

/// A record appended at the end adds exactly its own contribution.
pub proof fn lemma_disputed_sum_push(h: Seq<HeldTransaction>, t: HeldTransaction)
    ensures
        disputed_sum(h.push(t)) == disputed_sum(h) + disputed_amt(t),
    decreases h.len(),
{
    if h.len() == 0 {
        assert(h.push(t)[0] == t);
        assert(h.push(t).drop_first() =~= Seq::<HeldTransaction>::empty());
        assert(disputed_sum(h.push(t).drop_first()) == 0);
        assert(disputed_sum(h.push(t)) == disputed_amt(t));
    } else {
        assert(h.push(t)[0] == h[0]);
        assert(h.push(t).drop_first() =~= h.drop_first().push(t));
        lemma_disputed_sum_push(h.drop_first(), t);
        assert(disputed_sum(h.push(t)) == disputed_amt(h[0]) + disputed_sum(
            h.drop_first().push(t),
        ));
    }
}

/// A locked account accepts nothing: every transaction leaves it exactly
/// as it was, so in particular the lock never reverts.
pub proof fn lemma_locked_is_frozen(pre: AccountView, tx: Transaction)
    requires
        pre.locked,
    ensures
        apply_model(pre, tx) == pre,
{
}

/// Disputing an id that is not retained, or that is already under dispute,
/// or whose original kind is withdrawal, leaves the account unchanged.
pub proof fn lemma_dispute_noop(pre: AccountView, tx: Transaction)
    requires
        tx.ty is Dispute,
        tx_lookup(pre.history, tx.id) is None || tx_lookup(pre.history, tx.id).unwrap().disputed
            || tx_lookup(pre.history, tx.id).unwrap().ty is Withdrawal,
    ensures
        apply_model(pre, tx) == pre,
{
}

/// Resolving an id that is not currently under dispute is a no-op.
pub proof fn lemma_resolve_noop(pre: AccountView, tx: Transaction)
    requires
        tx.ty is Resolve,
        tx_lookup(pre.history, tx.id) is None || !tx_lookup(pre.history, tx.id).unwrap().disputed,
    ensures
        apply_model(pre, tx) == pre,
{
}

/// A chargeback on an id that is not currently under dispute is a no-op;
/// in particular it does not lock the account.
pub proof fn lemma_chargeback_noop(pre: AccountView, tx: Transaction)
    requires
        tx.ty is Chargeback,
        tx_lookup(pre.history, tx.id) is None || !tx_lookup(pre.history, tx.id).unwrap().disputed,
    ensures
        apply_model(pre, tx) == pre,
{
}

/// In a valid account the held balance is never negative: only deposits can
/// be disputed, and the held funds cover the open disputes.
pub proof fn lemma_held_nonneg(v: AccountView)
    requires
        account_inv(v),
    ensures
        v.held >= 0,
{
    lemma_disputed_sum_nonneg(v.history);
}

/// Every transition of the state machine preserves account validity.
pub proof fn lemma_apply_preserves_inv(pre: AccountView, tx: Transaction)
    requires
        account_inv(pre),
    ensures
        account_inv(apply_model(pre, tx)),
{
    lemma_tx_idx(pre.history, tx.id);
    lemma_disputed_sum_nonneg(pre.history);
    if !pre.locked {
        match tx.ty {
            TransactionType::Deposit => {
                if tx.amount is Some && pre.available + pre.held + tx.amount.unwrap().units
                    <= i128::MAX {
                    let t = HeldTransaction {
                        id: tx.id,
                        ty: TransactionType::Deposit,
                        amount_units: tx.amount.unwrap().units,
                        disputed: false,
                    };
                    if tx_lookup(pre.history, tx.id) is Some {
                        lemma_disputed_sum_update(pre.history, tx_idx(pre.history, tx.id), t);
                    } else {
                        lemma_disputed_sum_push(pre.history, t);
                    }
                }
            },
            TransactionType::Withdrawal => {
                if tx.amount is Some && pre.available >= tx.amount.unwrap().units {
                    let t = HeldTransaction {
                        id: tx.id,
                        ty: TransactionType::Withdrawal,
                        amount_units: tx.amount.unwrap().units,
                        disputed: false,
                    };
                    if tx_lookup(pre.history, tx.id) is Some {
                        lemma_disputed_sum_update(pre.history, tx_idx(pre.history, tx.id), t);
                    } else {
                        lemma_disputed_sum_push(pre.history, t);
                    }
                }
            },
            TransactionType::Dispute => {
                if tx_lookup(pre.history, tx.id) is Some {
                    let t = tx_lookup(pre.history, tx.id).unwrap();
                    if !t.disputed && t.ty is Deposit && pre.available - t.amount_units
                        >= i128::MIN && pre.held + t.amount_units <= i128::MAX {
                        lemma_disputed_sum_update(
                            pre.history,
                            tx_idx(pre.history, tx.id),
                            HeldTransaction { disputed: true, ..t },
                        );
                    }
                }
            },
            TransactionType::Resolve => {
                if tx_lookup(pre.history, tx.id) is Some {
                    let t = tx_lookup(pre.history, tx.id).unwrap();
                    if t.disputed {
                        lemma_disputed_sum_elem(pre.history, tx_idx(pre.history, tx.id));
                        lemma_disputed_sum_update(
                            pre.history,
                            tx_idx(pre.history, tx.id),
                            HeldTransaction { disputed: false, ..t },
                        );
                    }
                }
            },
            TransactionType::Chargeback => {
                if tx_lookup(pre.history, tx.id) is Some {
                    let t = tx_lookup(pre.history, tx.id).unwrap();
                    if t.disputed {
                        lemma_disputed_sum_elem(pre.history, tx_idx(pre.history, tx.id));
                        lemma_disputed_sum_remove(pre.history, tx_idx(pre.history, tx.id));
                    }
                }
            },
        }
    }
}

/// One client's balances, lock flag, and retained history.
pub struct Account {
    pub available: i128,
    pub held: i128,
    pub locked: bool,
    pub history: Vec<HeldTransaction>,
}

impl View for Account {
    type V = AccountView;

    open spec fn view(&self) -> AccountView {
        AccountView {
            available: self.available as int,
            held: self.held as int,
            locked: self.locked,
            history: self.history@,
        }
    }
}

/// Looks up the position of the first retained record with the given id.
fn find_tx(h: &Vec<HeldTransaction>, id: TxId) -> (r: Option<usize>)
    ensures
        match r {
            Some(i) => tx_lookup(h@, id) is Some && i == tx_idx(h@, id) && tx_lookup(h@, id)
                == Some(h@[i as int]),
            None => tx_lookup(h@, id) is None,
        },
{
    proof {
        lemma_tx_idx(h@, id);
    }
    let mut i: usize = 0;
    while i < h.len()
        invariant
            0 <= i <= h@.len(),
            forall|j: int| 0 <= j < i ==> h@[j].id != id,
            tx_lookup(h@, id) is Some ==> {
                &&& 0 <= tx_idx(h@, id) < h@.len()
                &&& h@[tx_idx(h@, id)].id == id
                &&& tx_lookup(h@, id) == Some(h@[tx_idx(h@, id)])
                &&& forall|j: int| 0 <= j < tx_idx(h@, id) ==> h@[j].id != id
            },
            tx_lookup(h@, id) is None ==> forall|j: int| 0 <= j < h@.len() ==> h@[j].id != id,
        decreases h@.len() - i,
    {
        if h[i].id == id {
            return Some(i);
        }
        i = i + 1;
    }
    None
}

impl Account {
    /// A fresh account: zero balances, unlocked, empty history.
    pub fn new() -> (r: Account)
        ensures
            r@.available == 0,
            r@.held == 0,
            !r@.locked,
            r@.history == Seq::<HeldTransaction>::empty(),
            account_inv(r@),
    {
        let r = Account { available: 0, held: 0, locked: false, history: Vec::new() };
        proof {
            assert(r@.history =~= Seq::<HeldTransaction>::empty());
        }
        r
    }

    /// The account's total funds: what is available plus what is held.
    pub fn total(&self) -> (r: i128)
        requires
            account_inv(self@),
        ensures
            r == self@.available + self@.held,
    {
        proof {
            lemma_disputed_sum_nonneg(self@.history);
        }
        self.available + self.held
    }

    /// Stores a record under its id, overwriting the first record that
    /// already carries the same id, or appending it otherwise.
    fn store(&mut self, t: HeldTransaction)
        ensures
            final(self)@ == (AccountView { history: tx_store(old(self)@.history, t), ..old(
                self,
            )@ }),
    {
        proof {
            lemma_tx_idx(self@.history, t.id);
        }
        match find_tx(&self.history, t.id) {
            Some(i) => {
                self.history[i] = t;
            },
            None => {
                self.history.push(t);
            },
        }
        proof {
            assert(self@ =~= (AccountView { history: tx_store(old(self)@.history, t), ..old(
                self,
            )@ }));
        }
    }

    /// A deposit credits its amount to the available funds and retains the
    /// record for possible dispute. A deposit without an amount, or one
    /// whose amount would push the total past the representable range, is
    /// ignored.
    fn deposit(&mut self, tx: Transaction)
        requires
            account_inv(old(self)@),
            !old(self).locked,
            tx.ty is Deposit,
        ensures
            final(self)@ == apply_model(old(self)@, tx),
    {
        proof {
            lemma_disputed_sum_nonneg(self@.history);
        }
        if let Some(a) = tx.amount {
            let amt = a.units as i128;
            if self.available + self.held <= i128::MAX - amt {
                self.available = self.available + amt;
                self.store(
                    HeldTransaction {
                        id: tx.id,
                        ty: TransactionType::Deposit,
                        amount_units: a.units,
                        disputed: false,
                    },
                );
            }
        }
        proof {
            assert(self@ =~= apply_model(old(self)@, tx));
        }
    }

    /// A withdrawal debits its amount when the available funds cover it and
    /// retains the record; with an absent amount or insufficient funds it
    /// is ignored.
    fn withdrawal(&mut self, tx: Transaction)
        requires
            account_inv(old(self)@),
            !old(self).locked,
            tx.ty is Withdrawal,
        ensures
            final(self)@ == apply_model(old(self)@, tx),
    {
        if let Some(a) = tx.amount {
            let amt = a.units as i128;
            if self.available >= amt {
                self.available = self.available - amt;
                self.store(
                    HeldTransaction {
                        id: tx.id,
                        ty: TransactionType::Withdrawal,
                        amount_units: a.units,
                        disputed: false,
                    },
                );
            }
        }
        proof {
            assert(self@ =~= apply_model(old(self)@, tx));
        }
    }

    /// A dispute freezes the funds of a retained deposit: its amount moves
    /// from available to held and the record is marked disputed. It is
    /// ignored when the id is unknown, already disputed, or names a
    /// withdrawal.
    fn dispute(&mut self, tx: Transaction)
        requires
            account_inv(old(self)@),
            !old(self).locked,
            tx.ty is Dispute,
        ensures
            final(self)@ == apply_model(old(self)@, tx),
    {
        proof {
            lemma_tx_idx(self@.history, tx.id);
        }
        if let Some(i) = find_tx(&self.history, tx.id) {
            let t = self.history[i];
            if !t.disputed && t.ty == TransactionType::Deposit {
                let amt = t.amount_units as i128;
                if self.available >= i128::MIN + amt && self.held <= i128::MAX - amt {
                    self.available = self.available - amt;
                    self.held = self.held + amt;
                    self.history[i] = HeldTransaction { disputed: true, ..t };
                }
            }
        }
        proof {
            assert(self@ =~= apply_model(old(self)@, tx));
        }
    }

    /// A resolve releases a disputed record: its amount moves back from
    /// held to available and the dispute mark is cleared. It is ignored
    /// when the id is unknown or not under dispute.
    fn resolve(&mut self, tx: Transaction)
        requires
            account_inv(old(self)@),
            !old(self).locked,
            tx.ty is Resolve,
        ensures
            final(self)@ == apply_model(old(self)@, tx),
    {
        proof {
            lemma_tx_idx(self@.history, tx.id);
        }
        if let Some(i) = find_tx(&self.history, tx.id) {
            let t = self.history[i];
            if t.disputed {
                proof {
                    lemma_disputed_sum_elem(self@.history, i as int);
                    lemma_disputed_sum_nonneg(self@.history);
                }
                let amt = t.amount_units as i128;
                self.available = self.available + amt;
                self.held = self.held - amt;
                self.history[i] = HeldTransaction { disputed: false, ..t };
            }
        }
        proof {
            assert(self@ =~= apply_model(old(self)@, tx));
        }
    }

    /// A chargeback settles a dispute against the account: the disputed
    /// funds leave the held balance, the record is dropped for good, and
    /// the account is locked. It is ignored when the id is unknown or not
    /// under dispute.
    fn chargeback(&mut self, tx: Transaction)
        requires
            account_inv(old(self)@),
            !old(self).locked,
            tx.ty is Chargeback,
        ensures
            final(self)@ == apply_model(old(self)@, tx),
    {
        proof {
            lemma_tx_idx(self@.history, tx.id);
        }
        if let Some(i) = find_tx(&self.history, tx.id) {
            let t = self.history[i];
            if t.disputed {
                proof {
                    lemma_disputed_sum_elem(self@.history, i as int);
                    lemma_disputed_sum_nonneg(self@.history);
                }
                let amt = t.amount_units as i128;
                self.held = self.held - amt;
                self.locked = true;
                self.history.remove(i);
            }
        }
        proof {
            assert(self@ =~= apply_model(old(self)@, tx));
        }
    }

    /// Applies one transaction to this account, exactly as the transition
    /// function [`apply_model`] says: a locked account ignores it, and each
    /// kind takes effect only when its conditions hold.
    pub fn consume(&mut self, tx: Transaction)
        requires
            account_inv(old(self)@),
        ensures
            final(self)@ == apply_model(old(self)@, tx),
            account_inv(final(self)@),
            old(self)@.locked ==> final(self)@ == old(self)@,
    {
        proof {
            lemma_apply_preserves_inv(self@, tx);
        }
        if self.locked {
            return ;
        }
        match tx.ty {
            TransactionType::Chargeback => self.chargeback(tx),
            TransactionType::Deposit => self.deposit(tx),
            TransactionType::Withdrawal => self.withdrawal(tx),
            TransactionType::Dispute => self.dispute(tx),
            TransactionType::Resolve => self.resolve(tx),
        }
    }
}

} // verus!
