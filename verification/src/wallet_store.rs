//! The process-wide wallet ledger: one wallet per user identifier,
//! created lazily on first access with the seeded welcome credit.
//!
//! Contracts speak of `wallet_model`, the wallet a user observes:
//! before first access that is already the seeded wallet, so lazy
//! creation never changes any user's model.

use crate::wallet::lemma_seeded_wallet_wf;
use crate::wallet::spec_seeded_wallet;
use crate::wallet::wallet_wf;
use crate::wallet::Transaction;
use crate::wallet::TxKind;
use crate::wallet::TxStatus;
use crate::wallet::TxView;
use crate::wallet::Wallet;
use crate::wallet::WalletError;
use crate::wallet::WalletView;
use vstd::prelude::*;

verus! {

pub struct WalletStore {
    pub entries: Vec<(String, Wallet)>,
}

impl WalletStore {
    pub open spec fn has_user(&self, user: Seq<char>) -> bool {
        exists|i: int| 0 <= i < self.entries@.len() && self.entries@[i].0@ == user
    }

    pub open spec fn index_of(&self, user: Seq<char>) -> int {
        choose|i: int| 0 <= i < self.entries@.len() && self.entries@[i].0@ == user
    }

    /// The wallet a user observes: the stored one, or, before first
    /// access, the seeded wallet that first access will create.
    pub open spec fn wallet_model(&self, user: Seq<char>) -> WalletView {
        if self.has_user(user) {
            self.entries@[self.index_of(user)].1@
        } else {
            spec_seeded_wallet()
        }
    }

    /// Store consistency: user identifiers are unique and every stored
    /// wallet satisfies the ledger invariant.
    pub open spec fn wf(&self) -> bool {
        &&& forall|i: int, j: int|
            0 <= i < j < self.entries@.len() ==> (#[trigger] self.entries@[i].0@)
                != (#[trigger] self.entries@[j].0@)
        &&& forall|i: int|
            0 <= i < self.entries@.len() ==> wallet_wf((#[trigger] self.entries@[i].1)@)
    }

    proof fn lemma_model_at_index(&self, i: int)
        requires
            self.wf(),
            0 <= i < self.entries@.len(),
        ensures
            self.has_user(self.entries@[i].0@),
            self.index_of(self.entries@[i].0@) == i,
            self.wallet_model(self.entries@[i].0@) == self.entries@[i].1@,
    {
        let u = self.entries@[i].0@;
        assert(0 <= i < self.entries@.len() && self.entries@[i].0@ == u);
        let j = self.index_of(u);
        assert(0 <= j < self.entries@.len() && self.entries@[j].0@ == u);
        if i != j {
            assert(false);
        }
    }

    /// Every wallet model is ledger-consistent in a consistent store.
    pub proof fn lemma_model_wf(&self, user: Seq<char>)
        requires
            self.wf(),
        ensures
            wallet_wf(self.wallet_model(user)),
    {
        if !self.has_user(user) {
            lemma_seeded_wallet_wf();
        }
    }

    fn position(&self, user: &String) -> (r: Option<usize>)
        ensures
            match r {
                Some(i) => 0 <= i < self.entries@.len() && self.entries@[i as int].0@ == user@,
                None => !self.has_user(user@),
            },
    {
        let n = self.entries.len();
        let mut k: usize = 0;
        while k < n
            invariant
                n == self.entries@.len(),
                k <= n,
                forall|j: int| 0 <= j < k ==> self.entries@[j].0@ != user@,
            decreases n - k,
        {
            if self.entries[k].0 == *user {
                return Some(k);
            }
            k += 1;
        }
        None
    }

    /// Makes the user's wallet exist in the store, seeding it on first
    /// access; no user's observable wallet changes.
    fn ensure_user(&mut self, user: &String) -> (i: usize)
        requires
            old(self).wf(),
        ensures
            final(self).wf(),
            0 <= i < final(self).entries@.len(),
            final(self).entries@[i as int].0@ == user@,
            forall|u: Seq<char>|
                #[trigger] final(self).wallet_model(u) == old(self).wallet_model(u),
    {
        match self.position(user) {
            Some(i) => {
                proof {
                    self.lemma_model_at_index(i as int);
                }
                i
            },
            None => {
                let ghost old_self = *self;
                let i = self.entries.len();
                self.entries.push((user.clone(), Wallet::seeded()));
                proof {
                    let n = old_self.entries@.len();
                    assert(self.entries@.len() == n + 1);
                    assert(forall|j: int| 0 <= j < n ==> self.entries@[j] == old_self.entries@[j]);
                    assert(self.entries@[n as int].0@ == user@);
                    lemma_seeded_wallet_wf();
                    assert(self.wf());
                    assert forall|u: Seq<char>|
                        #[trigger] self.wallet_model(u) == old_self.wallet_model(u) by {
                        if u == user@ {
                            self.lemma_model_at_index(n as int);
                            assert(!old_self.has_user(u));
                        } else {
                            if old_self.has_user(u) {
                                let j = old_self.index_of(u);
                                assert(self.entries@[j].0@ == u);
                                self.lemma_model_at_index(j);
                            } else {
                                assert forall|j: int|
                                    0 <= j < self.entries@.len() implies self.entries@[j].0@
                                    != u by {
                                    if j < n {
                                        assert(old_self.entries@[j].0@ != u);
                                    }
                                }
                                assert(!self.has_user(u));
                            }
                        }
                    }
                }
                i
            },
        }
    }

    /// The user's current balance. Creates the seeded wallet on first
    /// access; no user's observable wallet changes.
    pub fn balance_of(&mut self, user: &String) -> (b: u64)
        requires
            old(self).wf(),
        ensures
            final(self).wf(),
            forall|u: Seq<char>|
                #[trigger] final(self).wallet_model(u) == old(self).wallet_model(u),
            b == old(self).wallet_model(user@).balance,
    {
        let i = self.ensure_user(user);
        proof {
            self.lemma_model_at_index(i as int);
        }
        self.entries[i].1.balance
    }

    /// Read-only view of a user's wallet: the balance and the history
    /// in insertion order. Creates the seeded wallet on first access.
    pub fn snapshot(&mut self, user: &String) -> (r: (u64, Vec<Transaction>))
        requires
            old(self).wf(),
        ensures
            final(self).wf(),
            forall|u: Seq<char>|
                #[trigger] final(self).wallet_model(u) == old(self).wallet_model(u),
            r.0 == old(self).wallet_model(user@).balance,
            r.1.deep_view() == old(self).wallet_model(user@).transactions,
    {
        let i = self.ensure_user(user);
        proof {
            self.lemma_model_at_index(i as int);
        }
        let entry = &self.entries[i];
        let mut txs: Vec<Transaction> = Vec::new();
        let n = entry.1.transactions.len();
        let mut k: usize = 0;
        while k < n
            invariant
                n == entry.1.transactions@.len(),
                k <= n,
                txs@.len() == k,
                forall|j: int| 0 <= j < k ==> (#[trigger] txs@[j])@ == entry.1.transactions@[j]@,
            decreases n - k,
        {
            let t = entry.1.transactions[k].duplicate();
            txs.push(t);
            k += 1;
        }
        proof {
            assert(txs.deep_view() =~= entry.1@.transactions);
        }
        (entry.1.balance, txs)
    }

    /// Credits a user's wallet, creating it on first access. Fails with
    /// `InvalidAmount` exactly on a zero amount; otherwise the new
    /// balance is returned and the matching credit entry appended.
    /// Other users' wallets are untouched.
    pub fn credit(
        &mut self,
        user: &String,
        amount: u64,
        id: String,
        description: String,
        date: String,
    ) -> (r: Result<u64, WalletError>)
        requires
            old(self).wf(),
            old(self).wallet_model(user@).balance + amount <= u64::MAX,
        ensures
            final(self).wf(),
            forall|u: Seq<char>|
                u != user@ ==> #[trigger] final(self).wallet_model(u) == old(self).wallet_model(u),
            amount == 0 ==> {
                &&& r == Err::<u64, WalletError>(WalletError::InvalidAmount)
                &&& final(self).wallet_model(user@) == old(self).wallet_model(user@)
            },
            amount > 0 ==> {
                &&& r == Ok::<u64, WalletError>(
                    (old(self).wallet_model(user@).balance + amount) as u64,
                )
                &&& final(self).wallet_model(user@) == WalletView {
                    balance: (old(self).wallet_model(user@).balance + amount) as u64,
                    transactions: old(self).wallet_model(user@).transactions.push(
                        TxView {
                            id: id@,
                            kind: TxKind::Credit,
                            amount,
                            description: description@,
                            date: date@,
                            status: TxStatus::Completed,
                        },
                    ),
                }
            },
    {
        let i = self.ensure_user(user);
        let ghost mid_self = *self;
        proof {
            self.lemma_model_at_index(i as int);
        }
        let entry = &mut self.entries[i];
        let r = entry.1.credit(amount, id, description, date);
        proof {
            Self::lemma_update_frame(mid_self, *self, i as int);
        }
        r
    }

    /// Debits a user's wallet, creating it on first access. Fails with
    /// `InvalidAmount` exactly on a zero amount and with
    /// `InsufficientBalance` exactly when the amount exceeds the
    /// balance; either failure changes nothing. Other users' wallets
    /// are untouched.
    pub fn debit(
        &mut self,
        user: &String,
        amount: u64,
        id: String,
        description: String,
        date: String,
    ) -> (r: Result<u64, WalletError>)
        requires
            old(self).wf(),
        ensures
            final(self).wf(),
            forall|u: Seq<char>|
                u != user@ ==> #[trigger] final(self).wallet_model(u) == old(self).wallet_model(u),
            amount == 0 ==> {
                &&& r == Err::<u64, WalletError>(WalletError::InvalidAmount)
                &&& final(self).wallet_model(user@) == old(self).wallet_model(user@)
            },
            amount > old(self).wallet_model(user@).balance ==> {
                &&& r == Err::<u64, WalletError>(WalletError::InsufficientBalance)
                &&& final(self).wallet_model(user@) == old(self).wallet_model(user@)
            },
            0 < amount <= old(self).wallet_model(user@).balance ==> {
                &&& r == Ok::<u64, WalletError>(
                    (old(self).wallet_model(user@).balance - amount) as u64,
                )
                &&& final(self).wallet_model(user@) == WalletView {
                    balance: (old(self).wallet_model(user@).balance - amount) as u64,
                    transactions: old(self).wallet_model(user@).transactions.push(
                        TxView {
                            id: id@,
                            kind: TxKind::Debit,
                            amount,
                            description: description@,
                            date: date@,
                            status: TxStatus::Completed,
                        },
                    ),
                }
            },
    {
        let i = self.ensure_user(user);
        let ghost mid_self = *self;
        proof {
            self.lemma_model_at_index(i as int);
        }
        let entry = &mut self.entries[i];
        let r = entry.1.debit(amount, id, description, date);
        proof {
            Self::lemma_update_frame(mid_self, *self, i as int);
        }
        r
    }

    /// After an in-place update of entry `i` that keeps its key and the
    /// wallet invariant, the store is consistent, the updated user's
    /// model is the updated wallet, and every other model is unchanged.
    proof fn lemma_update_frame(pre: WalletStore, post: WalletStore, i: int)
        requires
            pre.wf(),
            0 <= i < pre.entries@.len(),
            post.entries@.len() == pre.entries@.len(),
            forall|j: int|
                0 <= j < pre.entries@.len() && j != i ==> post.entries@[j] == pre.entries@[j],
            post.entries@[i].0@ == pre.entries@[i].0@,
            wallet_wf(post.entries@[i].1@),
        ensures
            post.wf(),
            post.wallet_model(pre.entries@[i].0@) == post.entries@[i].1@,
            forall|u: Seq<char>|
                u != pre.entries@[i].0@ ==> #[trigger] post.wallet_model(u) == pre.wallet_model(u),
    {
        let n = pre.entries@.len();
        assert forall|p: int, q: int|
            0 <= p < q < n implies (#[trigger] post.entries@[p].0@)
            != (#[trigger] post.entries@[q].0@) by {
            assert(post.entries@[p].0@ == pre.entries@[p].0@);
            assert(post.entries@[q].0@ == pre.entries@[q].0@);
        }
        assert forall|j: int| 0 <= j < n implies wallet_wf((#[trigger] post.entries@[j].1)@) by {
            if j != i {
                assert(post.entries@[j] == pre.entries@[j]);
            }
        }
        post.lemma_model_at_index(i);
        assert forall|u: Seq<char>|
            u != pre.entries@[i].0@ implies #[trigger] post.wallet_model(u) == pre.wallet_model(
            u,
        ) by {
            if pre.has_user(u) {
                let j = pre.index_of(u);
                assert(pre.entries@[j].0@ == u);
                assert(j != i);
                assert(post.entries@[j].0@ == u);
                pre.lemma_model_at_index(j);
                post.lemma_model_at_index(j);
            } else {
                assert forall|j: int| 0 <= j < n implies post.entries@[j].0@ != u by {
                    assert(post.entries@[j].0@ == pre.entries@[j].0@);
                }
                assert(!post.has_user(u));
            }
        }
    }
}

} // verus!
