//! The transaction orchestrator: composes the wallet ledger, the
//! registration store, the catalog and the payment verifier into the
//! registration, add-funds, checkout and payment-verification flows.
//! Each flow runs to completion on shared state handed in by reference;
//! callers serialize access to that state, and each compound operation
//! here is one atomic unit: a debit is appended exactly when the
//! registration it pays for is created.

use crate::catalog;
use crate::catalog::lemma_spec_price_positive;
use crate::catalog::positive_prices;
use crate::catalog::spec_event_name;
use crate::catalog::spec_price;
use crate::catalog::CatalogEntry;
use crate::ids::fresh_id;
use crate::payment;
use crate::payment::spec_verify;
use crate::registry::regs_registered;
use crate::registry::RegStatus;
use crate::registry::RegView;
use crate::registry::RegistrationStore;
use crate::wallet::TxKind;
use crate::wallet::TxStatus;
use crate::wallet::TxView;
use crate::wallet::WalletError;
use crate::wallet::WalletView;
use crate::wallet_store::WalletStore;
use vstd::prelude::*;
use vstd::string::StringExecFns;
use vstd::utf8::encode_utf8;

verus! {

/// The shared state of the service: the wallet ledger and the
/// registration store. Handlers hold it behind one lock, so every flow
/// below runs serialized on it.
pub struct AppState {
    pub wallets: WalletStore,
    pub registrations: RegistrationStore,
}

/// What a registration attempt decides, as a function of the state it
/// sees.
#[derive(Clone, Copy, PartialEq, Eq, Structural, Debug)]
pub enum RegisterDecision {
    AlreadyRegistered,
    InsufficientBalance,
    Registered,
}

/// The decision a registration attempt takes on a user's registrations
/// and wallet: a duplicate is refused first, then an unaffordable
/// price; otherwise the attempt succeeds.
pub open spec fn spec_register_decision(
    regs: Seq<RegView>,
    w: WalletView,
    event: Seq<char>,
    price: u64,
) -> RegisterDecision {
    if regs_registered(regs, event) {
        RegisterDecision::AlreadyRegistered
    } else if w.balance < price {
        RegisterDecision::InsufficientBalance
    } else {
        RegisterDecision::Registered
    }
}

/// A wallet after a credit: the amount added and the entry appended.
pub open spec fn spec_wallet_after_credit(w: WalletView, amount: u64, tx: TxView) -> WalletView {
    WalletView { balance: (w.balance + amount) as u64, transactions: w.transactions.push(tx) }
}

/// A wallet after a debit: the amount taken and the entry appended.
pub open spec fn spec_wallet_after_debit(w: WalletView, amount: u64, tx: TxView) -> WalletView {
    WalletView { balance: (w.balance - amount) as u64, transactions: w.transactions.push(tx) }
}

/// The debit a successful registration appends to the wallet.
pub open spec fn spec_register_debit_tx(
    event_name: Seq<char>,
    price: u64,
    tx_id: Seq<char>,
) -> TxView {
    TxView {
        id: tx_id,
        kind: TxKind::Debit,
        amount: price,
        description: "Event registration: "@ + event_name,
        date: "2024-12-17"@,
        status: TxStatus::Completed,
    }
}

/// The credit an add-funds top-up appends to the wallet.
pub open spec fn spec_topup_credit_tx(amount: u64, tx_id: Seq<char>) -> TxView {
    TxView {
        id: tx_id,
        kind: TxKind::Credit,
        amount,
        description: "Added funds via wallet top-up"@,
        date: "2024-12-17"@,
        status: TxStatus::Completed,
    }
}

/// The debit a checkout appends to the wallet.
pub open spec fn spec_purchase_debit_tx(
    total: u64,
    items_description: Seq<char>,
    tx_id: Seq<char>,
) -> TxView {
    TxView {
        id: tx_id,
        kind: TxKind::Debit,
        amount: total,
        description: "Purchase: "@ + items_description,
        date: "2024-12-17"@,
        status: TxStatus::Completed,
    }
}

/// The credit a verified gateway payment appends to the wallet.
pub open spec fn spec_deposit_credit_tx(
    amount: u64,
    payment_id: Seq<char>,
    tx_id: Seq<char>,
) -> TxView {
    TxView {
        id: tx_id,
        kind: TxKind::Credit,
        amount,
        description: "Payment gateway deposit ("@ + payment_id + ")"@,
        date: "2024-12-17"@,
        status: TxStatus::Completed,
    }
}

/// The wallet after a successful registration: the price debited and
/// the matching entry appended.
pub open spec fn spec_wallet_after_register(
    w: WalletView,
    event_name: Seq<char>,
    price: u64,
    tx_id: Seq<char>,
) -> WalletView {
    spec_wallet_after_debit(w, price, spec_register_debit_tx(event_name, price, tx_id))
}

/// The record a successful registration appends.
pub open spec fn spec_registration_record(
    event: Seq<char>,
    event_name: Seq<char>,
    price: u64,
) -> RegView {
    RegView {
        event_id: event,
        event_name: event_name,
        registration_date: "2024-12-17"@,
        status: RegStatus::Registered,
        payment_amount: Some(price),
    }
}

/// The registration list after a successful registration.
pub open spec fn spec_regs_after_register(
    regs: Seq<RegView>,
    event: Seq<char>,
    event_name: Seq<char>,
    price: u64,
) -> Seq<RegView> {
    regs.push(spec_registration_record(event, event_name, price))
}

/// The outcome of a registration attempt.
#[derive(Debug)]
pub enum RegisterOutcome {
    /// The user already held a registration for this event; nothing
    /// changed.
    AlreadyRegistered,
    /// The event's price exceeds the user's balance; nothing changed.
    InsufficientBalance { balance: u64, price: u64 },
    /// The wallet was debited and the registration created, as one
    /// unit.
    Registered { registration_id: String, event_name: String, price: u64 },
}

/// The outcome of a checkout.
#[derive(Debug)]
pub enum CheckoutOutcome {
    /// The basket total is zero, no valid monetary amount; nothing
    /// changed.
    InvalidAmount,
    /// The basket total exceeds the balance; nothing changed.
    InsufficientBalance { balance: u64 },
    /// The total was debited and the purchase recorded.
    Completed { order_id: String, new_balance: u64 },
}

/// The outcome of a payment verification.
#[derive(Debug)]
pub enum PaymentOutcome {
    /// The signature is not the one the gateway would have produced;
    /// nothing changed.
    SignatureMismatch,
    /// The signature matched, but a zero amount cannot be credited;
    /// nothing changed.
    InvalidAmount,
    /// The signature matched and the wallet was credited.
    Credited { new_balance: u64 },
}

impl AppState {
    pub open spec fn wf(&self) -> bool {
        &&& self.wallets.wf()
        &&& self.registrations.wf()
    }

    /// Fresh state: every user still observes the seeded wallet and an
    /// empty registration list.
    pub fn new() -> (s: AppState)
        ensures
            s.wf(),
            forall|u: Seq<char>|
                #[trigger] s.wallets.wallet_model(u) == crate::wallet::spec_seeded_wallet(),
            forall|u: Seq<char>| #[trigger] s.registrations.regs_model(u) == Seq::<RegView>::empty(),
            forall|e: Seq<char>| #[trigger] s.registrations.total_count(e) == 0,
    {
        let wallets = WalletStore { entries: Vec::new() };
        let registrations = RegistrationStore { entries: Vec::new() };
        let s = AppState { wallets, registrations };
        proof {
            assert(forall|u: Seq<char>| !(#[trigger] s.wallets.has_user(u)));
            assert(forall|u: Seq<char>| !(#[trigger] s.registrations.has_user(u)));
        }
        s
    }

    /// Registers the user for the event: a duplicate attempt is
    /// refused, then the price (from the catalog, with the fixed
    /// fallback for unknown events) is checked against the balance,
    /// and only then are the debit and the registration applied — as
    /// one unit, so a debit is recorded exactly when a registration is
    /// created. `tx_id` and `registration_id` name the fresh
    /// identifiers the records carry. Catalog prices are positive, as
    /// the data model fixes for every monetary amount.
    pub fn register_for_event_with_ids(
        &mut self,
        user: &String,
        event_id: &String,
        catalog: &Vec<CatalogEntry>,
        tx_id: String,
        registration_id: String,
    ) -> (r: RegisterOutcome)
        requires
            old(self).wf(),
            positive_prices(catalog.deep_view()),
        ensures
            final(self).wf(),
            ({
                let regs0 = old(self).registrations.regs_model(user@);
                let w0 = old(self).wallets.wallet_model(user@);
                let price = spec_price(catalog.deep_view(), event_id@);
                let name = spec_event_name(catalog.deep_view(), event_id@);
                match spec_register_decision(regs0, w0, event_id@, price) {
                    RegisterDecision::AlreadyRegistered => {
                        &&& r is AlreadyRegistered
                        &&& *final(self) == *old(self)
                    },
                    RegisterDecision::InsufficientBalance => {
                        &&& r matches RegisterOutcome::InsufficientBalance {
                            balance: b,
                            price: p,
                        } && b == w0.balance && p == price
                        &&& forall|u: Seq<char>|
                            #[trigger] final(self).wallets.wallet_model(u) == old(
                                self,
                            ).wallets.wallet_model(u)
                        &&& final(self).registrations == old(self).registrations
                    },
                    RegisterDecision::Registered => {
                        &&& r matches RegisterOutcome::Registered {
                            registration_id: rid,
                            event_name: en,
                            price: p,
                        } && rid@ == registration_id@ && en@ == name && p == price
                        &&& final(self).wallets.wallet_model(user@) == spec_wallet_after_register(
                            w0,
                            name,
                            price,
                            tx_id@,
                        )
                        &&& final(self).registrations.regs_model(user@) == spec_regs_after_register(
                            regs0,
                            event_id@,
                            name,
                            price,
                        )
                        &&& forall|u: Seq<char>|
                            u != user@ ==> #[trigger] final(self).wallets.wallet_model(u) == old(
                                self,
                            ).wallets.wallet_model(u)
                        &&& forall|u: Seq<char>|
                            u != user@ ==> #[trigger] final(self).registrations.regs_model(u)
                                == old(self).registrations.regs_model(u)
                        &&& final(self).registrations.total_count(event_id@) == old(
                            self,
                        ).registrations.total_count(event_id@) + 1
                        &&& forall|e: Seq<char>|
                            e != event_id@ ==> #[trigger] final(self).registrations.total_count(e)
                                == old(self).registrations.total_count(e)
                    },
                }
            }),
    {
        proof {
            lemma_spec_price_positive(catalog.deep_view(), event_id@);
        }
        if self.registrations.is_registered(user, event_id) {
            return RegisterOutcome::AlreadyRegistered;
        }
        let (event_name, price) = catalog::lookup(catalog, event_id);
        let description = String::from_str("Event registration: ").concat(event_name.as_str());
        let date = String::from_str("2024-12-17");
        match self.wallets.debit(user, price, tx_id, description, date) {
            Err(_) => {
                let balance = self.wallets.balance_of(user);
                RegisterOutcome::InsufficientBalance { balance, price }
            },
            Ok(_new_balance) => {
                let reg_date = String::from_str("2024-12-17");
                match self.registrations.register(
                    user,
                    event_id,
                    &event_name,
                    Some(price),
                    reg_date,
                ) {
                    Ok(_reg) => RegisterOutcome::Registered { registration_id, event_name, price },
                    Err(_) => {
                        // Unreachable: the duplicate check above ruled a
                        // registration out, and the debit left the
                        // registration store untouched, so this insert
                        // cannot be refused — the debit is never left
                        // without its registration.
                        proof {
                            assert(false);
                        }
                        RegisterOutcome::AlreadyRegistered
                    },
                }
            },
        }
    }

    /// The registration flow as the handler runs it: fresh identifiers
    /// are drawn for the debit entry and the registration.
    pub fn register_for_event(
        &mut self,
        user: &String,
        event_id: &String,
        catalog: &Vec<CatalogEntry>,
    ) -> (r: RegisterOutcome)
        requires
            old(self).wf(),
            positive_prices(catalog.deep_view()),
        ensures
            final(self).wf(),
            ({
                let regs0 = old(self).registrations.regs_model(user@);
                let w0 = old(self).wallets.wallet_model(user@);
                let price = spec_price(catalog.deep_view(), event_id@);
                let name = spec_event_name(catalog.deep_view(), event_id@);
                match spec_register_decision(regs0, w0, event_id@, price) {
                    RegisterDecision::AlreadyRegistered => {
                        &&& r is AlreadyRegistered
                        &&& *final(self) == *old(self)
                    },
                    RegisterDecision::InsufficientBalance => {
                        &&& r matches RegisterOutcome::InsufficientBalance {
                            balance: b,
                            price: p,
                        } && b == w0.balance && p == price
                        &&& forall|u: Seq<char>|
                            #[trigger] final(self).wallets.wallet_model(u) == old(
                                self,
                            ).wallets.wallet_model(u)
                        &&& final(self).registrations == old(self).registrations
                    },
                    RegisterDecision::Registered => {
                        &&& r matches RegisterOutcome::Registered {
                            registration_id: rid,
                            event_name: en,
                            price: p,
                        } && rid@.len() == 36 && en@ == name && p == price
                        &&& exists|tid: Seq<char>|
                            #![auto]
                            final(self).wallets.wallet_model(user@) == spec_wallet_after_register(
                                w0,
                                name,
                                price,
                                tid,
                            )
                        &&& final(self).registrations.regs_model(user@) == spec_regs_after_register(
                            regs0,
                            event_id@,
                            name,
                            price,
                        )
                        &&& forall|u: Seq<char>|
                            u != user@ ==> #[trigger] final(self).wallets.wallet_model(u) == old(
                                self,
                            ).wallets.wallet_model(u)
                        &&& forall|u: Seq<char>|
                            u != user@ ==> #[trigger] final(self).registrations.regs_model(u)
                                == old(self).registrations.regs_model(u)
                        &&& final(self).registrations.total_count(event_id@) == old(
                            self,
                        ).registrations.total_count(event_id@) + 1
                        &&& forall|e: Seq<char>|
                            e != event_id@ ==> #[trigger] final(self).registrations.total_count(e)
                                == old(self).registrations.total_count(e)
                    },
                }
            }),
    {
        let tx_id = fresh_id();
        let ghost tid = tx_id@;
        let registration_id = fresh_id();
        let r = self.register_for_event_with_ids(user, event_id, catalog, tx_id, registration_id);
        proof {
            let w0 = old(self).wallets.wallet_model(user@);
            let price = spec_price(catalog.deep_view(), event_id@);
            let name = spec_event_name(catalog.deep_view(), event_id@);
            if spec_register_decision(
                old(self).registrations.regs_model(user@),
                w0,
                event_id@,
                price,
            ) is Registered {
                assert(self.wallets.wallet_model(user@) == spec_wallet_after_register(
                    w0,
                    name,
                    price,
                    tid,
                ));
            }
        }
        r
    }

    /// Adds funds to the user's wallet: fails with `InvalidAmount`
    /// exactly on a zero amount, otherwise credits the amount, appends
    /// the matching entry and returns the new balance. The registration
    /// store and other users' wallets are untouched.
    pub fn add_funds_with_id(&mut self, user: &String, amount: u64, tx_id: String) -> (r: Result<
        u64,
        WalletError,
    >)
        requires
            old(self).wf(),
            old(self).wallets.wallet_model(user@).balance + amount <= u64::MAX,
        ensures
            final(self).wf(),
            final(self).registrations == old(self).registrations,
            forall|u: Seq<char>|
                u != user@ ==> #[trigger] final(self).wallets.wallet_model(u) == old(
                    self,
                ).wallets.wallet_model(u),
            amount == 0 ==> {
                &&& r == Err::<u64, WalletError>(WalletError::InvalidAmount)
                &&& final(self).wallets.wallet_model(user@) == old(self).wallets.wallet_model(
                    user@,
                )
            },
            amount > 0 ==> {
                let w0 = old(self).wallets.wallet_model(user@);
                &&& r == Ok::<u64, WalletError>((w0.balance + amount) as u64)
                &&& final(self).wallets.wallet_model(user@) == spec_wallet_after_credit(
                    w0,
                    amount,
                    spec_topup_credit_tx(amount, tx_id@),
                )
            },
    {
        let description = String::from_str("Added funds via wallet top-up");
        let date = String::from_str("2024-12-17");
        self.wallets.credit(user, amount, tx_id, description, date)
    }

    /// The add-funds flow as the handler runs it: a fresh identifier is
    /// drawn for the credit entry.
    pub fn add_funds_to_wallet(&mut self, user: &String, amount: u64) -> (r: Result<
        u64,
        WalletError,
    >)
        requires
            old(self).wf(),
            old(self).wallets.wallet_model(user@).balance + amount <= u64::MAX,
        ensures
            final(self).wf(),
            final(self).registrations == old(self).registrations,
            forall|u: Seq<char>|
                u != user@ ==> #[trigger] final(self).wallets.wallet_model(u) == old(
                    self,
                ).wallets.wallet_model(u),
            amount == 0 ==> {
                &&& r == Err::<u64, WalletError>(WalletError::InvalidAmount)
                &&& final(self).wallets.wallet_model(user@) == old(self).wallets.wallet_model(
                    user@,
                )
            },
            amount > 0 ==> {
                let w0 = old(self).wallets.wallet_model(user@);
                &&& r == Ok::<u64, WalletError>((w0.balance + amount) as u64)
                &&& exists|tid: Seq<char>|
                    #![auto]
                    final(self).wallets.wallet_model(user@) == spec_wallet_after_credit(
                        w0,
                        amount,
                        spec_topup_credit_tx(amount, tid),
                    )
            },
    {
        let tx_id = fresh_id();
        let ghost tid = tx_id@;
        let r = self.add_funds_with_id(user, amount, tx_id);
        proof {
            let w0 = old(self).wallets.wallet_model(user@);
            if amount > 0 {
                assert(self.wallets.wallet_model(user@) == spec_wallet_after_credit(
                    w0,
                    amount,
                    spec_topup_credit_tx(amount, tid),
                ));
            }
        }
        r
    }

    /// Checkout against the wallet: a zero total is no valid monetary
    /// amount and is refused, a total above the balance is refused
    /// with the current balance — either refusal changes nothing;
    /// otherwise the total is debited and one entry describing the
    /// purchase is appended, and the order identifier is returned with
    /// the new balance. The registration store and other users'
    /// wallets are untouched.
    pub fn checkout_with_ids(
        &mut self,
        user: &String,
        total: u64,
        items_description: String,
        order_id: String,
        tx_id: String,
    ) -> (r: CheckoutOutcome)
        requires
            old(self).wf(),
        ensures
            final(self).wf(),
            final(self).registrations == old(self).registrations,
            forall|u: Seq<char>|
                u != user@ ==> #[trigger] final(self).wallets.wallet_model(u) == old(
                    self,
                ).wallets.wallet_model(u),
            ({
                let w0 = old(self).wallets.wallet_model(user@);
                &&& total == 0 ==> {
                    &&& r is InvalidAmount
                    &&& final(self).wallets.wallet_model(user@) == w0
                }
                &&& total > w0.balance ==> {
                    &&& r matches CheckoutOutcome::InsufficientBalance { balance } && balance
                        == w0.balance
                    &&& final(self).wallets.wallet_model(user@) == w0
                }
                &&& 0 < total <= w0.balance ==> {
                    &&& r matches CheckoutOutcome::Completed { order_id: oid, new_balance } && oid@
                        == order_id@ && new_balance == (w0.balance - total) as u64
                    &&& final(self).wallets.wallet_model(user@) == spec_wallet_after_debit(
                        w0,
                        total,
                        spec_purchase_debit_tx(total, items_description@, tx_id@),
                    )
                }
            }),
    {
        let description = String::from_str("Purchase: ").concat(items_description.as_str());
        let date = String::from_str("2024-12-17");
        match self.wallets.debit(user, total, tx_id, description, date) {
            Err(WalletError::InvalidAmount) => CheckoutOutcome::InvalidAmount,
            Err(WalletError::InsufficientBalance) => {
                let balance = self.wallets.balance_of(user);
                CheckoutOutcome::InsufficientBalance { balance }
            },
            Ok(new_balance) => CheckoutOutcome::Completed { order_id, new_balance },
        }
    }

    /// The checkout flow as the handler runs it: fresh identifiers are
    /// drawn for the order and the debit entry.
    pub fn checkout_with_wallet(&mut self, user: &String, total: u64, items_description: String) -> (r:
        CheckoutOutcome)
        requires
            old(self).wf(),
        ensures
            final(self).wf(),
            final(self).registrations == old(self).registrations,
            forall|u: Seq<char>|
                u != user@ ==> #[trigger] final(self).wallets.wallet_model(u) == old(
                    self,
                ).wallets.wallet_model(u),
            ({
                let w0 = old(self).wallets.wallet_model(user@);
                &&& total == 0 ==> {
                    &&& r is InvalidAmount
                    &&& final(self).wallets.wallet_model(user@) == w0
                }
                &&& total > w0.balance ==> {
                    &&& r matches CheckoutOutcome::InsufficientBalance { balance } && balance
                        == w0.balance
                    &&& final(self).wallets.wallet_model(user@) == w0
                }
                &&& 0 < total <= w0.balance ==> {
                    &&& r matches CheckoutOutcome::Completed { order_id: oid, new_balance }
                        && oid@.len() == 36 && new_balance == (w0.balance - total) as u64
                    &&& exists|tid: Seq<char>|
                        #![auto]
                        final(self).wallets.wallet_model(user@) == spec_wallet_after_debit(
                            w0,
                            total,
                            spec_purchase_debit_tx(total, items_description@, tid),
                        )
                }
            }),
    {
        let order_id = fresh_id();
        let tx_id = fresh_id();
        let ghost tid = tx_id@;
        let ghost items = items_description@;
        let r = self.checkout_with_ids(user, total, items_description, order_id, tx_id);
        proof {
            let w0 = old(self).wallets.wallet_model(user@);
            if 0 < total <= w0.balance {
                assert(self.wallets.wallet_model(user@) == spec_wallet_after_debit(
                    w0,
                    total,
                    spec_purchase_debit_tx(total, items, tid),
                ));
            }
        }
        r
    }

    /// Verifies a gateway payment callback and credits the wallet: a
    /// bad signature changes nothing; with a good signature the stated
    /// amount is credited (a zero amount is refused as invalid, and
    /// changes nothing) and the new balance returned. The registration
    /// store and other users' wallets are untouched.
    pub fn verify_payment_with_id(
        &mut self,
        user: &String,
        order_id: &String,
        payment_id: &String,
        signature: &String,
        secret: &String,
        amount: u64,
        tx_id: String,
    ) -> (r: PaymentOutcome)
        requires
            old(self).wf(),
            old(self).wallets.wallet_model(user@).balance + amount <= u64::MAX,
        ensures
            final(self).wf(),
            final(self).registrations == old(self).registrations,
            forall|u: Seq<char>|
                u != user@ ==> #[trigger] final(self).wallets.wallet_model(u) == old(
                    self,
                ).wallets.wallet_model(u),
            ({
                let ok = spec_verify(
                    encode_utf8(order_id@),
                    encode_utf8(payment_id@),
                    encode_utf8(signature@),
                    encode_utf8(secret@),
                );
                let w0 = old(self).wallets.wallet_model(user@);
                &&& !ok ==> r is SignatureMismatch && final(self).wallets.wallet_model(user@) == w0
                &&& (ok && amount == 0) ==> {
                    &&& r is InvalidAmount
                    &&& final(self).wallets.wallet_model(user@) == w0
                }
                &&& (ok && amount > 0) ==> {
                    &&& r matches PaymentOutcome::Credited { new_balance } && new_balance == (
                    w0.balance + amount) as u64
                    &&& final(self).wallets.wallet_model(user@) == spec_wallet_after_credit(
                        w0,
                        amount,
                        spec_deposit_credit_tx(amount, payment_id@, tx_id@),
                    )
                }
            }),
    {
        let ok = payment::verify(
            order_id.as_str(),
            payment_id.as_str(),
            signature.as_str(),
            secret.as_str(),
        );
        if !ok {
            return PaymentOutcome::SignatureMismatch;
        }
        let description = String::from_str("Payment gateway deposit (").concat(
            payment_id.as_str(),
        ).concat(")");
        let date = String::from_str("2024-12-17");
        match self.wallets.credit(user, amount, tx_id, description, date) {
            Err(_) => PaymentOutcome::InvalidAmount,
            Ok(new_balance) => PaymentOutcome::Credited { new_balance },
        }
    }

    /// The payment-verification flow as the handler runs it: a fresh
    /// identifier is drawn for the credit entry.
    pub fn verify_payment(
        &mut self,
        user: &String,
        order_id: &String,
        payment_id: &String,
        signature: &String,
        secret: &String,
        amount: u64,
    ) -> (r: PaymentOutcome)
        requires
            old(self).wf(),
            old(self).wallets.wallet_model(user@).balance + amount <= u64::MAX,
        ensures
            final(self).wf(),
            final(self).registrations == old(self).registrations,
            forall|u: Seq<char>|
                u != user@ ==> #[trigger] final(self).wallets.wallet_model(u) == old(
                    self,
                ).wallets.wallet_model(u),
            ({
                let ok = spec_verify(
                    encode_utf8(order_id@),
                    encode_utf8(payment_id@),
                    encode_utf8(signature@),
                    encode_utf8(secret@),
                );
                let w0 = old(self).wallets.wallet_model(user@);
                &&& !ok ==> r is SignatureMismatch && final(self).wallets.wallet_model(user@) == w0
                &&& (ok && amount == 0) ==> {
                    &&& r is InvalidAmount
                    &&& final(self).wallets.wallet_model(user@) == w0
                }
                &&& (ok && amount > 0) ==> {
                    &&& r matches PaymentOutcome::Credited { new_balance } && new_balance == (
                    w0.balance + amount) as u64
                    &&& exists|tid: Seq<char>|
                        #![auto]
                        final(self).wallets.wallet_model(user@) == spec_wallet_after_credit(
                            w0,
                            amount,
                            spec_deposit_credit_tx(amount, payment_id@, tid),
                        )
                }
            }),
    {
        let tx_id = fresh_id();
        let ghost tid = tx_id@;
        let r = self.verify_payment_with_id(
            user,
            order_id,
            payment_id,
            signature,
            secret,
            amount,
            tx_id,
        );
        proof {
            let ok = spec_verify(
                encode_utf8(order_id@),
                encode_utf8(payment_id@),
                encode_utf8(signature@),
                encode_utf8(secret@),
            );
            let w0 = old(self).wallets.wallet_model(user@);
            if ok && amount > 0 {
                assert(self.wallets.wallet_model(user@) == spec_wallet_after_credit(
                    w0,
                    amount,
                    spec_deposit_credit_tx(amount, payment_id@, tid),
                ));
            }
        }
        r
    }
}

/// Registering twice for one event: after a successful registration,
/// any later attempt for the same user and event — whatever wallet
/// entry identifier the success drew — decides `AlreadyRegistered`,
/// and an attempt that decides `AlreadyRegistered` changes nothing, so
/// the wallet is debited exactly once.
pub proof fn lemma_register_twice(
    regs: Seq<RegView>,
    w: WalletView,
    event: Seq<char>,
    name: Seq<char>,
    price: u64,
    tx_id: Seq<char>,
)
    requires
        spec_register_decision(regs, w, event, price) is Registered,
    ensures
        spec_register_decision(
            spec_regs_after_register(regs, event, name, price),
            spec_wallet_after_register(w, name, price, tx_id),
            event,
            price,
        ) is AlreadyRegistered,
{
    let regs1 = spec_regs_after_register(regs, event, name, price);
    assert(regs1[regs.len() as int].event_id == event);
}

/// Serialized registration attempts for one user and event, each
/// drawing its own wallet entry identifier from the given list.
pub open spec fn spec_apply_attempts(
    regs: Seq<RegView>,
    w: WalletView,
    event: Seq<char>,
    name: Seq<char>,
    price: u64,
    tx_ids: Seq<Seq<char>>,
) -> (Seq<RegView>, WalletView)
    decreases tx_ids.len(),
{
    if tx_ids.len() == 0 {
        (regs, w)
    } else if spec_register_decision(regs, w, event, price) is Registered {
        spec_apply_attempts(
            spec_regs_after_register(regs, event, name, price),
            spec_wallet_after_register(w, name, price, tx_ids.first()),
            event,
            name,
            price,
            tx_ids.drop_first(),
        )
    } else {
        spec_apply_attempts(regs, w, event, name, price, tx_ids.drop_first())
    }
}

/// How many of those serialized attempts succeed.
pub open spec fn spec_attempt_successes(
    regs: Seq<RegView>,
    w: WalletView,
    event: Seq<char>,
    name: Seq<char>,
    price: u64,
    tx_ids: Seq<Seq<char>>,
) -> nat
    decreases tx_ids.len(),
{
    if tx_ids.len() == 0 {
        0
    } else if spec_register_decision(regs, w, event, price) is Registered {
        1 + spec_attempt_successes(
            spec_regs_after_register(regs, event, name, price),
            spec_wallet_after_register(w, name, price, tx_ids.first()),
            event,
            name,
            price,
            tx_ids.drop_first(),
        )
    } else {
        spec_attempt_successes(regs, w, event, name, price, tx_ids.drop_first())
    }
}

/// Once the user is registered, further attempts neither succeed nor
/// change anything.
proof fn lemma_attempts_after_registered(
    regs: Seq<RegView>,
    w: WalletView,
    event: Seq<char>,
    name: Seq<char>,
    price: u64,
    tx_ids: Seq<Seq<char>>,
)
    requires
        regs_registered(regs, event),
    ensures
        spec_apply_attempts(regs, w, event, name, price, tx_ids) == (regs, w),
        spec_attempt_successes(regs, w, event, name, price, tx_ids) == 0,
    decreases tx_ids.len(),
{
    if tx_ids.len() > 0 {
        lemma_attempts_after_registered(regs, w, event, name, price, tx_ids.drop_first());
    }
}

/// Any number of serialized registration attempts for one user and
/// event, starting from a state in which the first succeeds: exactly
/// one attempt succeeds, and the final state is the first attempt's —
/// one registration appended and one debit recorded.
pub proof fn lemma_register_exactly_once(
    regs: Seq<RegView>,
    w: WalletView,
    event: Seq<char>,
    name: Seq<char>,
    price: u64,
    tx_ids: Seq<Seq<char>>,
)
    requires
        spec_register_decision(regs, w, event, price) is Registered,
        tx_ids.len() >= 1,
    ensures
        spec_attempt_successes(regs, w, event, name, price, tx_ids) == 1,
        spec_apply_attempts(regs, w, event, name, price, tx_ids) == (
            spec_regs_after_register(regs, event, name, price),
            spec_wallet_after_register(w, name, price, tx_ids.first()),
        ),
{
    let regs1 = spec_regs_after_register(regs, event, name, price);
    let w1 = spec_wallet_after_register(w, name, price, tx_ids.first());
    assert(regs1[regs.len() as int].event_id == event);
    assert(regs_registered(regs1, event));
    lemma_attempts_after_registered(regs1, w1, event, name, price, tx_ids.drop_first());
}

} // verus!
