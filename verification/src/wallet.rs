//! The wallet ledger: a balance together with an append-only transaction
//! history. The balance always equals the signed sum of the history
//! (credits count positive, debits negative), and no prefix of the
//! history ever drives it below zero or above `u64::MAX`.

use vstd::prelude::*;

verus! {

/// The starting balance of a freshly created wallet, granted as a
/// welcome credit.
pub const STARTING_BALANCE: u64 = 1500;

/// Whether a transaction adds to or takes from the balance.
#[derive(Clone, Copy, PartialEq, Eq, Structural, Debug)]
pub enum TxKind {
    Credit,
    Debit,
}

/// The lifecycle state of a transaction; only the terminal state is
/// modelled here.
#[derive(Clone, Copy, PartialEq, Eq, Structural, Debug)]
pub enum TxStatus {
    Completed,
}

/// Why a ledger operation was refused.
#[derive(Clone, Copy, PartialEq, Eq, Structural, Debug)]
pub enum WalletError {
    /// A credit of a non-positive amount.
    InvalidAmount,
    /// A debit larger than the current balance.
    InsufficientBalance,
}

/// One immutable ledger entry. Amounts are whole currency units.
#[derive(Debug)]
pub struct Transaction {
    pub id: String,
    pub kind: TxKind,
    pub amount: u64,
    pub description: String,
    pub date: String,
    pub status: TxStatus,
}

/// The mathematical image of a `Transaction`.
#[verifier::ext_equal]
pub struct TxView {
    pub id: Seq<char>,
    pub kind: TxKind,
    pub amount: u64,
    pub description: Seq<char>,
    pub date: Seq<char>,
    pub status: TxStatus,
}

impl View for Transaction {
    type V = TxView;

    open spec fn view(&self) -> TxView {
        TxView {
            id: self.id@,
            kind: self.kind,
            amount: self.amount,
            description: self.description@,
            date: self.date@,
            status: self.status,
        }
    }
}

impl DeepView for Transaction {
    type V = TxView;

    open spec fn deep_view(&self) -> TxView {
        self.view()
    }
}

impl Transaction {
    /// A field-by-field copy with the same image.
    pub fn duplicate(&self) -> (r: Transaction)
        ensures
            r@ == self@,
    {
        Transaction {
            id: self.id.clone(),
            kind: self.kind,
            amount: self.amount,
            description: self.description.clone(),
            date: self.date.clone(),
            status: self.status,
        }
    }
}

/// How a transaction moves the balance: credits add, debits subtract.
pub open spec fn tx_delta(t: TxView) -> int {
    match t.kind {
        TxKind::Credit => t.amount as int,
        TxKind::Debit => -(t.amount as int),
    }
}

/// The signed sum of a transaction history.
pub open spec fn signed_sum(txs: Seq<TxView>) -> int
    decreases txs.len(),
{
    if txs.len() == 0 {
        0
    } else {
        signed_sum(txs.drop_last()) + tx_delta(txs.last())
    }
}

/// The sum of the credit amounts alone.
pub open spec fn credit_sum(txs: Seq<TxView>) -> int
    decreases txs.len(),
{
    if txs.len() == 0 {
        0
    } else {
        credit_sum(txs.drop_last()) + if txs.last().kind is Credit {
            txs.last().amount as int
        } else {
            0
        }
    }
}

/// The sum of the debit amounts alone.
pub open spec fn debit_sum(txs: Seq<TxView>) -> int
    decreases txs.len(),
{
    if txs.len() == 0 {
        0
    } else {
        debit_sum(txs.drop_last()) + if txs.last().kind is Debit {
            txs.last().amount as int
        } else {
            0
        }
    }
}

/// The balance equation: the signed sum of a history is exactly the
/// credits minus the debits. Together with `Wallet::wf` this says that
/// a wallet's balance always equals the seed amount (zero, the welcome
/// bonus being itself the first credit) plus all credits minus all
/// debits, and, the balance being unsigned, that it never goes
/// negative.
pub proof fn lemma_balance_equation(txs: Seq<TxView>)
    ensures
        signed_sum(txs) == credit_sum(txs) - debit_sum(txs),
    decreases txs.len(),
{
    if txs.len() > 0 {
        lemma_balance_equation(txs.drop_last());
    }
}

/// Every consistent wallet obeys the ledger law: however its history
/// was built up, the balance equals the sum of its credits minus the
/// sum of its debits, and at no point along the history did the
/// running balance go negative.
pub proof fn lemma_wallet_balance_invariant(w: WalletView)
    requires
        wallet_wf(w),
    ensures
        w.balance as int == credit_sum(w.transactions) - debit_sum(w.transactions),
        forall|i: int|
            0 <= i <= w.transactions.len() ==> #[trigger] signed_sum(w.transactions.take(i)) >= 0,
{
    lemma_balance_equation(w.transactions);
}

proof fn lemma_signed_sum_push(txs: Seq<TxView>, t: TxView)
    ensures
        signed_sum(txs.push(t)) == signed_sum(txs) + tx_delta(t),
{
    assert(txs.push(t).drop_last() =~= txs);
    assert(txs.push(t).last() == t);
}

proof fn lemma_signed_sum_take_push(txs: Seq<TxView>, t: TxView, i: int)
    requires
        0 <= i <= txs.len(),
    ensures
        txs.push(t).take(i) =~= txs.take(i),
{
}

/// A user's wallet: the authoritative balance and the ordered,
/// append-only history that explains it.
pub struct Wallet {
    pub balance: u64,
    pub transactions: Vec<Transaction>,
}

/// The mathematical image of a `Wallet`.
#[verifier::ext_equal]
pub struct WalletView {
    pub balance: u64,
    pub transactions: Seq<TxView>,
}

impl View for Wallet {
    type V = WalletView;

    open spec fn view(&self) -> WalletView {
        WalletView { balance: self.balance, transactions: self.transactions.deep_view() }
    }
}

/// Ledger consistency for a wallet image: the balance is the signed sum
/// of the history, and every prefix of the history keeps the running
/// balance within `0..=u64::MAX`.
pub open spec fn wallet_wf(w: WalletView) -> bool {
    &&& w.balance as int == signed_sum(w.transactions)
    &&& forall|i: int|
        0 <= i <= w.transactions.len() ==> 0 <= #[trigger] signed_sum(w.transactions.take(i))
            <= u64::MAX as int
}

/// The image of a freshly seeded wallet: the starting balance, explained
/// by a single welcome credit.
pub open spec fn spec_seeded_wallet() -> WalletView {
    WalletView {
        balance: STARTING_BALANCE,
        transactions: seq![
            TxView {
                id: "txn_initial"@,
                kind: TxKind::Credit,
                amount: STARTING_BALANCE,
                description: "Welcome bonus"@,
                date: "2024-01-15"@,
                status: TxStatus::Completed,
            },
        ],
    }
}

/// The seeded wallet is ledger-consistent.
pub proof fn lemma_seeded_wallet_wf()
    ensures
        wallet_wf(spec_seeded_wallet()),
{
    let w = spec_seeded_wallet();
    assert(signed_sum(Seq::<TxView>::empty()) == 0) by {
        reveal_with_fuel(signed_sum, 2);
    }
    assert(w.transactions.drop_last() =~= Seq::<TxView>::empty());
    assert(signed_sum(w.transactions) == tx_delta(w.transactions.last())) by {
        reveal_with_fuel(signed_sum, 2);
    }
    assert(w.transactions.take(1) =~= w.transactions);
    assert forall|i: int| 0 <= i <= w.transactions.len() implies 0 <= #[trigger] signed_sum(
        w.transactions.take(i),
    ) <= u64::MAX as int by {
        if i == 0 {
            assert(w.transactions.take(0) =~= Seq::<TxView>::empty());
        } else {
            assert(i == 1);
        }
    }
}

impl Wallet {
    pub open spec fn wf(&self) -> bool {
        wallet_wf(self@)
    }

    /// A new wallet with the fixed starting balance and its seed credit.
    pub fn seeded() -> (w: Wallet)
        ensures
            w.wf(),
            w@ == spec_seeded_wallet(),
    {
        let seed = Transaction {
            id: String::from_str("txn_initial"),
            kind: TxKind::Credit,
            amount: STARTING_BALANCE,
            description: String::from_str("Welcome bonus"),
            date: String::from_str("2024-01-15"),
            status: TxStatus::Completed,
        };
        let mut transactions: Vec<Transaction> = Vec::new();
        transactions.push(seed);
        let w = Wallet { balance: STARTING_BALANCE, transactions };
        proof {
            assert(w@.transactions =~= spec_seeded_wallet().transactions);
            assert(w@ =~= spec_seeded_wallet());
            lemma_seeded_wallet_wf();
        }
        w
    }

    /// The current balance.
    pub fn balance(&self) -> (b: u64)
        ensures
            b == self@.balance,
    {
        self.balance
    }

    /// The history, in insertion order.
    pub fn transactions(&self) -> (txs: &Vec<Transaction>)
        ensures
            txs.deep_view() == self@.transactions,
    {
        &self.transactions
    }

    /// Atomically raises the balance and appends the matching credit
    /// entry. Fails with `InvalidAmount` exactly on a zero amount, and
    /// then changes nothing.
    pub fn credit(&mut self, amount: u64, id: String, description: String, date: String) -> (r:
        Result<u64, WalletError>)
        requires
            old(self).wf(),
            old(self).balance + amount <= u64::MAX,
        ensures
            final(self).wf(),
            amount == 0 ==> r == Err::<u64, WalletError>(WalletError::InvalidAmount) && *final(self)
                == *old(self),
            amount > 0 ==> {
                &&& r == Ok::<u64, WalletError>((old(self).balance + amount) as u64)
                &&& final(self)@.balance == old(self).balance + amount
                &&& final(self)@.transactions == old(self)@.transactions.push(
                    TxView {
                        id: id@,
                        kind: TxKind::Credit,
                        amount,
                        description: description@,
                        date: date@,
                        status: TxStatus::Completed,
                    },
                )
            },
    {
        if amount == 0 {
            return Err(WalletError::InvalidAmount);
        }
        let tx = Transaction {
            id,
            kind: TxKind::Credit,
            amount,
            description,
            date,
            status: TxStatus::Completed,
        };
        let ghost t = tx@;
        let ghost old_txs = self@.transactions;
        self.balance = self.balance + amount;
        self.transactions.push(tx);
        proof {
            assert(self@.transactions =~= old_txs.push(t));
            lemma_signed_sum_push(old_txs, t);
            assert forall|i: int| 0 <= i <= self@.transactions.len() implies 0
                <= #[trigger] signed_sum(self@.transactions.take(i)) <= u64::MAX as int by {
                if i <= old_txs.len() {
                    lemma_signed_sum_take_push(old_txs, t, i);
                } else {
                    assert(self@.transactions.take(i) =~= self@.transactions);
                    lemma_signed_sum_push(old_txs, t);
                }
            }
        }
        Ok(self.balance)
    }

    /// Atomically lowers the balance and appends the matching debit
    /// entry. Fails with `InvalidAmount` exactly on a zero amount and
    /// with `InsufficientBalance` exactly when the amount exceeds the
    /// balance; either failure changes nothing, so every recorded
    /// amount is positive and the balance can never go negative.
    pub fn debit(&mut self, amount: u64, id: String, description: String, date: String) -> (r:
        Result<u64, WalletError>)
        requires
            old(self).wf(),
        ensures
            final(self).wf(),
            amount == 0 ==> r == Err::<u64, WalletError>(WalletError::InvalidAmount) && *final(self)
                == *old(self),
            amount > old(self).balance ==> r == Err::<u64, WalletError>(
                WalletError::InsufficientBalance,
            ) && *final(self) == *old(self),
            0 < amount <= old(self).balance ==> {
                &&& r == Ok::<u64, WalletError>((old(self).balance - amount) as u64)
                &&& final(self)@.balance == old(self).balance - amount
                &&& final(self)@.transactions == old(self)@.transactions.push(
                    TxView {
                        id: id@,
                        kind: TxKind::Debit,
                        amount,
                        description: description@,
                        date: date@,
                        status: TxStatus::Completed,
                    },
                )
            },
    {
        if amount == 0 {
            return Err(WalletError::InvalidAmount);
        }
        if amount > self.balance {
            return Err(WalletError::InsufficientBalance);
        }
        let tx = Transaction {
            id,
            kind: TxKind::Debit,
            amount,
            description,
            date,
            status: TxStatus::Completed,
        };
        let ghost t = tx@;
        let ghost old_txs = self@.transactions;
        self.balance = self.balance - amount;
        self.transactions.push(tx);
        proof {
            assert(self@.transactions =~= old_txs.push(t));
            lemma_signed_sum_push(old_txs, t);
            assert forall|i: int| 0 <= i <= self@.transactions.len() implies 0
                <= #[trigger] signed_sum(self@.transactions.take(i)) <= u64::MAX as int by {
                if i <= old_txs.len() {
                    lemma_signed_sum_take_push(old_txs, t, i);
                } else {
                    assert(self@.transactions.take(i) =~= self@.transactions);
                    lemma_signed_sum_push(old_txs, t);
                }
            }
        }
        Ok(self.balance)
    }
}

} // verus!

