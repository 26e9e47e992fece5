//! The ledger: a mapping from client identifier to account, grown lazily on
//! first reference, with routing of transactions and report export.
//!
//! Accounts are kept in the order the clients were first seen, each owned
//! exclusively by its entry, and the report lists one row per known client
//! in that order. Re-parsing the exported table is not a supported way to
//! rebuild a ledger: the report is a terminal rendering, not an input
//! format.

use crate::account::Account;
use crate::account::AccountView;
use crate::account::HeldTransaction;
use crate::account::account_inv;
use crate::account::apply_model;
use crate::account::lemma_apply_preserves_inv;
use crate::report::header_bytes;
use crate::report::push_header;
use crate::report::push_row;
use crate::report::row_str;
use crate::transaction::AccountId;
use crate::transaction::Amount;
use crate::transaction::Transaction;
use crate::transaction::TransactionType;
use crate::transaction::TxId;
use vstd::prelude::*;

verus! {

/// One ledger entry: a client identifier and the account it owns.
pub struct ClientEntry {
    pub client: AccountId,
    pub account: Account,
}

/// The ledger itself: one entry per known client, in order of first
/// reference.
pub struct Accounts {
    pub entries: Vec<ClientEntry>,
}

impl View for Accounts {
    type V = Seq<(AccountId, AccountView)>;

    open spec fn view(&self) -> Seq<(AccountId, AccountView)> {
        self.entries@.map_values(|e: ClientEntry| (e.client, e.account@))
    }
}

/// The state of a client that has never been referenced.
pub open spec fn empty_account() -> AccountView {
    AccountView { available: 0, held: 0, locked: false, history: Seq::<HeldTransaction>::empty() }
}

/// The first entry of the given client, if any.
pub open spec fn client_lookup(s: Seq<(AccountId, AccountView)>, c: AccountId) -> Option<
    AccountView,
>
    decreases s.len(),
{
    if s.len() == 0 {
        None
    } else if s[0].0 == c {
        Some(s[0].1)
    } else {
        client_lookup(s.drop_first(), c)
    }
}

/// The position of the first entry of the given client; meaningful only
/// when [`client_lookup`] finds one.
pub open spec fn client_idx(s: Seq<(AccountId, AccountView)>, c: AccountId) -> int
    decreases s.len(),
{
    if s.len() == 0 {
        0
    } else if s[0].0 == c {
        0
    } else {
        1 + client_idx(s.drop_first(), c)
    }
}

/// Validity of a ledger: every account is valid and no client appears
/// twice.
pub open spec fn ledger_inv(s: Seq<(AccountId, AccountView)>) -> bool {
    &&& forall|i: int| 0 <= i < s.len() ==> account_inv((#[trigger] s[i]).1)
    &&& forall|i: int, j: int| 0 <= i < j < s.len() ==> s[i].0 != s[j].0
}

/// What consuming one transaction does to the ledger: the transaction is
/// applied to its client's account, which is created fresh first if the
/// client was never seen.
pub open spec fn consume_model(s: Seq<(AccountId, AccountView)>, tx: Transaction) -> Seq<
    (AccountId, AccountView),
> {
    match client_lookup(s, tx.client) {
        Some(v) => s.update(client_idx(s, tx.client), (tx.client, apply_model(v, tx))),
        None => s.push((tx.client, apply_model(empty_account(), tx))),
    }
}

/// Where [`client_lookup`] finds an entry, [`client_idx`] points at the
/// first entry of that client, and the two agree.
pub proof fn lemma_client_idx(s: Seq<(AccountId, AccountView)>, c: AccountId)
    ensures
        client_lookup(s, c) is Some ==> {
            &&& 0 <= client_idx(s, c) < s.len()
            &&& s[client_idx(s, c)].0 == c
            &&& client_lookup(s, c) == Some(s[client_idx(s, c)].1)
            &&& forall|j: int| 0 <= j < client_idx(s, c) ==> s[j].0 != c
        },
        client_lookup(s, c) is None ==> forall|j: int| 0 <= j < s.len() ==> s[j].0 != c,
    decreases s.len(),
{
    if s.len() == 0 {
    } else if s[0].0 == c {
    } else {
        lemma_client_idx(s.drop_first(), c);
        assert forall|j: int| 0 <= j < s.len() && j >= 1 implies s[j] == s.drop_first()[j - 1] by {}
    }
}

/// The full report: the header line, then one row per known client, in the
/// order the clients were first seen.
pub open spec fn rows_str(s: Seq<(AccountId, AccountView)>) -> Seq<u8>
    decreases s.len(),
{
    if s.len() == 0 {
        Seq::<u8>::empty()
    } else {
        rows_str(s.drop_last()) + row_str(s.last().0, s.last().1)
    }
}

/// The bytes of the exported report for a ledger state.
pub open spec fn report_str(s: Seq<(AccountId, AccountView)>) -> Seq<u8> {
    header_bytes() + rows_str(s)
}

/// Extending the rendered prefix by one entry appends exactly that entry's
/// row.
proof fn lemma_rows_snoc(s: Seq<(AccountId, AccountView)>, i: int)
    requires
        0 <= i < s.len(),
    ensures
        rows_str(s.take(i + 1)) == rows_str(s.take(i)) + row_str(s[i].0, s[i].1),
{
    assert(s.take(i + 1).drop_last() =~= s.take(i));
    assert(s.take(i + 1).last() == s[i]);
}

impl Accounts {
    /// A fresh, empty ledger.
    pub fn new() -> (r: Accounts)
        ensures
            r@ == Seq::<(AccountId, AccountView)>::empty(),
            ledger_inv(r@),
    {
        let r = Accounts { entries: Vec::new() };
        proof {
            assert(r@ =~= Seq::<(AccountId, AccountView)>::empty());
        }
        r
    }

    /// Looks up the position of the entry of the given client.
    fn find_client(&self, c: AccountId) -> (r: Option<usize>)
        ensures
            match r {
                Some(i) => client_lookup(self@, c) is Some && i == client_idx(self@, c)
                    && client_lookup(self@, c) == Some(self@[i as int].1),
                None => client_lookup(self@, c) is None,
            },
    {
        proof {
            lemma_client_idx(self@, c);
        }
        let mut i: usize = 0;
        while i < self.entries.len()
            invariant
                0 <= i <= self@.len(),
                self@.len() == self.entries@.len(),
                forall|j: int| 0 <= j < self@.len() ==> (#[trigger] self@[j]) == (
                    self.entries@[j].client,
                    self.entries@[j].account@,
                ),
                forall|j: int| 0 <= j < i ==> (#[trigger] self@[j]).0 != c,
                client_lookup(self@, c) is Some ==> {
                    &&& 0 <= client_idx(self@, c) < self@.len()
                    &&& self@[client_idx(self@, c)].0 == c
                    &&& client_lookup(self@, c) == Some(self@[client_idx(self@, c)].1)
                    &&& forall|j: int| 0 <= j < client_idx(self@, c) ==> self@[j].0 != c
                },
                client_lookup(self@, c) is None ==> forall|j: int|
                    0 <= j < self@.len() ==> self@[j].0 != c,
            decreases self@.len() - i,
        {
            if self.entries[i].client == c {
                proof {
                    assert(self@[i as int].0 == c);
                    if client_lookup(self@, c) is None {
                        assert(self@[i as int].0 != c);
                    }
                    let idx = client_idx(self@, c);
                    if idx < i {
                        assert(self@[idx].0 != c);
                    }
                    if idx > i {
                        assert(self@[i as int].0 != c);
                    }
                }
                return Some(i);
            }
            i = i + 1;
        }
        None
    }

    /// Routes one transaction to its client's account, creating the
    /// account with zeroed balances on first reference, and applies it
    /// there. Malformed or inapplicable transactions are absorbed by the
    /// account's own rules; consuming never fails.
    pub fn consume(&mut self, tx: Transaction)
        requires
            ledger_inv(old(self)@),
        ensures
            final(self)@ == consume_model(old(self)@, tx),
            ledger_inv(final(self)@),
    {
        proof {
            lemma_client_idx(self@, tx.client);
        }
        match self.find_client(tx.client) {
            Some(i) => {
                self.entries[i].account.consume(tx);
                proof {
                    assert(self@ =~= consume_model(old(self)@, tx));
                    lemma_apply_preserves_inv(old(self)@[i as int].1, tx);
                    assert forall|a: int| 0 <= a < self@.len() implies account_inv(
                        (#[trigger] self@[a]).1,
                    ) by {
                        if a != i {
                            assert(self@[a] == old(self)@[a]);
                        }
                    }
                }
            },
            None => {
                let mut a = Account::new();
                a.consume(tx);
                self.entries.push(ClientEntry { client: tx.client, account: a });
                proof {
                    assert(self@ =~= consume_model(old(self)@, tx));
                }
            },
        }
    }

    /// Enumerates the accounts for reporting: one snapshot per known
    /// client, as client id, available funds, held funds, total funds and
    /// lock flag, in first-seen order. Nothing outside this order is
    /// promised of it; callers must not read meaning into the order across
    /// clients.
    pub fn accounts(&self) -> (r: Vec<(AccountId, i128, i128, i128, bool)>)
        requires
            ledger_inv(self@),
        ensures
            r@.len() == self@.len(),
            forall|i: int| 0 <= i < self@.len() ==> (#[trigger] r@[i]) == (
                self@[i].0,
                self@[i].1.available as i128,
                self@[i].1.held as i128,
                (self@[i].1.available + self@[i].1.held) as i128,
                self@[i].1.locked,
            ),
    {
        let mut r: Vec<(AccountId, i128, i128, i128, bool)> = Vec::new();
        let mut i: usize = 0;
        while i < self.entries.len()
            invariant
                0 <= i <= self@.len(),
                self@.len() == self.entries@.len(),
                ledger_inv(self@),
                forall|j: int| 0 <= j < self@.len() ==> (#[trigger] self@[j]) == (
                    self.entries@[j].client,
                    self.entries@[j].account@,
                ),
                r@.len() == i,
                forall|j: int| 0 <= j < i ==> (#[trigger] r@[j]) == (
                    self@[j].0,
                    self@[j].1.available as i128,
                    self@[j].1.held as i128,
                    (self@[j].1.available + self@[j].1.held) as i128,
                    self@[j].1.locked,
                ),
            decreases self@.len() - i,
        {
            proof {
                assert(self@[i as int].1 == self.entries@[i as int].account@);
                assert(account_inv(self.entries@[i as int].account@));
            }
            let e = &self.entries[i];
            let total = e.account.total();
            r.push((e.client, e.account.available, e.account.held, total, e.account.locked));
            i = i + 1;
        }
        r
    }

    /// Renders the report: the header line, then one row per known client
    /// in first-seen order, each with its available, held and total funds
    /// and its lock flag.
    pub fn export(&self) -> (out: Vec<u8>)
        requires
            ledger_inv(self@),
        ensures
            out@ == report_str(self@),
    {
        let mut out: Vec<u8> = Vec::new();
        push_header(&mut out);
        let mut i: usize = 0;
        while i < self.entries.len()
            invariant
                0 <= i <= self@.len(),
                self@.len() == self.entries@.len(),
                ledger_inv(self@),
                forall|j: int| 0 <= j < self@.len() ==> (#[trigger] self@[j]) == (
                    self.entries@[j].client,
                    self.entries@[j].account@,
                ),
                out@ == header_bytes() + rows_str(self@.take(i as int)),
            decreases self@.len() - i,
        {
            proof {
                assert(self@[i as int].1 == self.entries@[i as int].account@);
                assert(account_inv(self.entries@[i as int].account@));
            }
            push_row(self.entries[i].client, &self.entries[i].account, &mut out);
            proof {
                lemma_rows_snoc(self@, i as int);
                assert(out@ =~= header_bytes() + rows_str(self@.take(i as int + 1)));
            }
            i = i + 1;
        }
        proof {
            assert(self@.take(self@.len() as int) =~= self@);
        }
        out
    }
}

/// A convenience driver for exercising one client's account: it numbers
/// deposits and withdrawals itself and routes every record through the
/// ledger.
pub struct AccountTester {
    pub accounts: Accounts,
    pub client: AccountId,
    pub tx: TxId,
}

impl AccountTester {
    /// A tester over a fresh ledger, using client 0 and transaction ids
    /// counted from 1.
    pub fn new() -> (r: AccountTester)
        ensures
            r.accounts@ == Seq::<(AccountId, AccountView)>::empty(),
            ledger_inv(r.accounts@),
            r.client == 0,
            r.tx == 0,
    {
        AccountTester { accounts: Accounts::new(), client: 0, tx: 0 }
    }

    /// Deposits the amount under a fresh transaction id and returns the id.
    pub fn deposit(&mut self, amount: Amount) -> (r: TxId)
        requires
            ledger_inv(old(self).accounts@),
            old(self).tx < u32::MAX,
        ensures
            final(self).tx == old(self).tx + 1,
            r == final(self).tx,
            final(self).client == old(self).client,
            final(self).accounts@ == consume_model(
                old(self).accounts@,
                Transaction {
                    ty: TransactionType::Deposit,
                    client: old(self).client,
                    id: (old(self).tx + 1) as TxId,
                    amount: Some(amount),
                },
            ),
            ledger_inv(final(self).accounts@),
    {
        self.tx = self.tx + 1;
        self.accounts.consume(
            Transaction {
                ty: TransactionType::Deposit,
                client: self.client,
                id: self.tx,
                amount: Some(amount),
            },
        );
        self.tx
    }

    /// Withdraws the amount under a fresh transaction id and returns the
    /// id.
    pub fn withdrawal(&mut self, amount: Amount) -> (r: TxId)
        requires
            ledger_inv(old(self).accounts@),
            old(self).tx < u32::MAX,
        ensures
            final(self).tx == old(self).tx + 1,
            r == final(self).tx,
            final(self).client == old(self).client,
            final(self).accounts@ == consume_model(
                old(self).accounts@,
                Transaction {
                    ty: TransactionType::Withdrawal,
                    client: old(self).client,
                    id: (old(self).tx + 1) as TxId,
                    amount: Some(amount),
                },
            ),
            ledger_inv(final(self).accounts@),
    {
        self.tx = self.tx + 1;
        self.accounts.consume(
            Transaction {
                ty: TransactionType::Withdrawal,
                client: self.client,
                id: self.tx,
                amount: Some(amount),
            },
        );
        self.tx
    }

    /// Disputes the referenced transaction.
    pub fn dispute(&mut self, tx: TxId)
        requires
            ledger_inv(old(self).accounts@),
        ensures
            final(self).tx == old(self).tx,
            final(self).client == old(self).client,
            final(self).accounts@ == consume_model(
                old(self).accounts@,
                Transaction {
                    ty: TransactionType::Dispute,
                    client: old(self).client,
                    id: tx,
                    amount: None,
                },
            ),
            ledger_inv(final(self).accounts@),
    {
        self.accounts.consume(
            Transaction { ty: TransactionType::Dispute, client: self.client, id: tx, amount: None },
        );
    }

    /// Resolves the referenced transaction.
    pub fn resolve(&mut self, tx: TxId)
        requires
            ledger_inv(old(self).accounts@),
        ensures
            final(self).tx == old(self).tx,
            final(self).client == old(self).client,
            final(self).accounts@ == consume_model(
                old(self).accounts@,
                Transaction {
                    ty: TransactionType::Resolve,
                    client: old(self).client,
                    id: tx,
                    amount: None,
                },
            ),
            ledger_inv(final(self).accounts@),
    {
        self.accounts.consume(
            Transaction { ty: TransactionType::Resolve, client: self.client, id: tx, amount: None },
        );
    }

    /// Charges back the referenced transaction.
    pub fn chargeback(&mut self, tx: TxId)
        requires
            ledger_inv(old(self).accounts@),
        ensures
            final(self).tx == old(self).tx,
            final(self).client == old(self).client,
            final(self).accounts@ == consume_model(
                old(self).accounts@,
                Transaction {
                    ty: TransactionType::Chargeback,
                    client: old(self).client,
                    id: tx,
                    amount: None,
                },
            ),
            ledger_inv(final(self).accounts@),
    {
        self.accounts.consume(
            Transaction {
                ty: TransactionType::Chargeback,
                client: self.client,
                id: tx,
                amount: None,
            },
        );
    }

    /// The tester client's account; the client must have been referenced.
    fn account(&self) -> (r: &Account)
        requires
            client_lookup(self.accounts@, self.client) is Some,
        ensures
            r@ == client_lookup(self.accounts@, self.client).unwrap(),
    {
        proof {
            lemma_client_idx(self.accounts@, self.client);
        }
        let i = self.accounts.find_client(self.client).unwrap();
        proof {
            assert(self.accounts@[i as int] == (
                self.accounts.entries@[i as int].client,
                self.accounts.entries@[i as int].account@,
            ));
        }
        &self.accounts.entries[i].account
    }

    /// The client's available funds.
    pub fn available(&self) -> (r: i128)
        requires
            client_lookup(self.accounts@, self.client) is Some,
        ensures
            r == client_lookup(self.accounts@, self.client).unwrap().available,
    {
        self.account().available
    }

    /// The client's held funds.
    pub fn held(&self) -> (r: i128)
        requires
            client_lookup(self.accounts@, self.client) is Some,
        ensures
            r == client_lookup(self.accounts@, self.client).unwrap().held,
    {
        self.account().held
    }

    /// The client's total funds: available plus held.
    pub fn total(&self) -> (r: i128)
        requires
            ledger_inv(self.accounts@),
            client_lookup(self.accounts@, self.client) is Some,
        ensures
            r == client_lookup(self.accounts@, self.client).unwrap().available + client_lookup(
                self.accounts@,
                self.client,
            ).unwrap().held,
    {
        proof {
            lemma_client_idx(self.accounts@, self.client);
        }
        self.account().total()
    }

    /// Whether the client's account is locked.
    pub fn locked(&self) -> (r: bool)
        requires
            client_lookup(self.accounts@, self.client) is Some,
        ensures
            r == client_lookup(self.accounts@, self.client).unwrap().locked,
    {
        self.account().locked
    }
}

} // verus!
