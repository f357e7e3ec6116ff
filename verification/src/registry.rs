//! The registration store: per user, the ordered list of events they
//! have registered for. At most one registration may exist per
//! (user, event) pair.

use vstd::prelude::*;

verus! {

/// The lifecycle state of a registration; only the created state is
/// modelled here.
#[derive(Clone, Copy, PartialEq, Eq, Structural, Debug)]
pub enum RegStatus {
    Registered,
}

/// Why a registration was refused.
#[derive(Clone, Copy, PartialEq, Eq, Structural, Debug)]
pub enum RegError {
    /// The user already holds a registration for this event.
    AlreadyRegistered,
}

/// A record binding a user to an event they have paid to attend.
#[derive(Debug)]
pub struct Registration {
    pub event_id: String,
    pub event_name: String,
    pub registration_date: String,
    pub status: RegStatus,
    pub payment_amount: Option<u64>,
}

/// The mathematical image of a `Registration`.
#[verifier::ext_equal]
pub struct RegView {
    pub event_id: Seq<char>,
    pub event_name: Seq<char>,
    pub registration_date: Seq<char>,
    pub status: RegStatus,
    pub payment_amount: Option<u64>,
}

impl View for Registration {
    type V = RegView;

    open spec fn view(&self) -> RegView {
        RegView {
            event_id: self.event_id@,
            event_name: self.event_name@,
            registration_date: self.registration_date@,
            status: self.status,
            payment_amount: self.payment_amount,
        }
    }
}

impl DeepView for Registration {
    type V = RegView;

    open spec fn deep_view(&self) -> RegView {
        self.view()
    }
}

impl Registration {
    /// A field-by-field copy with the same image.
    pub fn duplicate(&self) -> (r: Registration)
        ensures
            r@ == self@,
    {
        Registration {
            event_id: self.event_id.clone(),
            event_name: self.event_name.clone(),
            registration_date: self.registration_date.clone(),
            status: self.status,
            payment_amount: self.payment_amount,
        }
    }
}

/// Whether a registration list holds the given event.
pub open spec fn regs_registered(regs: Seq<RegView>, event: Seq<char>) -> bool {
    exists|i: int| 0 <= i < regs.len() && regs[i].event_id == event
}

/// No event occurs twice in one user's registration list.
pub open spec fn distinct_events(regs: Seq<RegView>) -> bool {
    forall|p: int, q: int|
        0 <= p < q < regs.len() ==> (#[trigger] regs[p].event_id) != (#[trigger] regs[q].event_id)
}

/// How many registrations in one list are for the given event.
pub open spec fn count_in(regs: Seq<RegView>, event: Seq<char>) -> nat
    decreases regs.len(),
{
    if regs.len() == 0 {
        0
    } else {
        count_in(regs.drop_last(), event) + if regs.last().event_id == event {
            1nat
        } else {
            0nat
        }
    }
}

/// With no duplicate events, a list holds the event zero or one times.
pub proof fn lemma_count_unique(regs: Seq<RegView>, event: Seq<char>)
    requires
        distinct_events(regs),
    ensures
        count_in(regs, event) == if regs_registered(regs, event) {
            1nat
        } else {
            0nat
        },
    decreases regs.len(),
{
    if regs.len() > 0 {
        let rest = regs.drop_last();
        let n = regs.len() - 1;
        assert(forall|j: int| 0 <= j < n ==> rest[j] == regs[j]);
        lemma_count_unique(rest, event);
        if regs.last().event_id == event {
            assert(regs[n].event_id == event);
            if regs_registered(rest, event) {
                let j = choose|j: int| 0 <= j < rest.len() && rest[j].event_id == event;
                assert(regs[j].event_id == event);
                assert(false);
            }
        } else {
            if regs_registered(rest, event) {
                let j = choose|j: int| 0 <= j < rest.len() && rest[j].event_id == event;
                assert(regs[j].event_id == event);
            }
            if regs_registered(regs, event) {
                let j = choose|j: int| 0 <= j < regs.len() && regs[j].event_id == event;
                assert(j < n);
                assert(rest[j].event_id == event);
            }
        }
    }
}

/// The total number of registrations for one event, across all users.
pub open spec fn total_count_entries(
    entries: Seq<(String, Vec<Registration>)>,
    event: Seq<char>,
) -> nat
    decreases entries.len(),
{
    if entries.len() == 0 {
        0
    } else {
        total_count_entries(entries.drop_last(), event) + count_in(
            entries.last().1.deep_view(),
            event,
        )
    }
}

pub struct RegistrationStore {
    pub entries: Vec<(String, Vec<Registration>)>,
}

impl RegistrationStore {
    pub open spec fn has_user(&self, user: Seq<char>) -> bool {
        exists|i: int| 0 <= i < self.entries@.len() && self.entries@[i].0@ == user
    }

    pub open spec fn index_of(&self, user: Seq<char>) -> int {
        choose|i: int| 0 <= i < self.entries@.len() && self.entries@[i].0@ == user
    }

    /// The registrations a user observes, in insertion order; empty
    /// before the first registration attempt.
    pub open spec fn regs_model(&self, user: Seq<char>) -> Seq<RegView> {
        if self.has_user(user) {
            self.entries@[self.index_of(user)].1.deep_view()
        } else {
            Seq::empty()
        }
    }

    /// Store consistency: user identifiers are unique and no user holds
    /// two registrations for one event.
    pub open spec fn wf(&self) -> bool {
        &&& forall|i: int, j: int|
            0 <= i < j < self.entries@.len() ==> (#[trigger] self.entries@[i].0@)
                != (#[trigger] self.entries@[j].0@)
        &&& forall|i: int|
            0 <= i < self.entries@.len() ==> distinct_events(
                (#[trigger] self.entries@[i].1).deep_view(),
            )
    }

    /// The total number of registrations for one event, across all
    /// users.
    pub open spec fn total_count(&self, event: Seq<char>) -> nat {
        total_count_entries(self.entries@, event)
    }

    proof fn lemma_model_at_index(&self, i: int)
        requires
            self.wf(),
            0 <= i < self.entries@.len(),
        ensures
            self.has_user(self.entries@[i].0@),
            self.index_of(self.entries@[i].0@) == i,
            self.regs_model(self.entries@[i].0@) == self.entries@[i].1.deep_view(),
    {
        let u = self.entries@[i].0@;
        assert(0 <= i < self.entries@.len() && self.entries@[i].0@ == u);
        let j = self.index_of(u);
        assert(0 <= j < self.entries@.len() && self.entries@[j].0@ == u);
        if i != j {
            assert(false);
        }
    }

    fn position(&self, user: &String) -> (r: Option<usize>)
        ensures
            match r {
                Some(i) => 0 <= i < self.entries@.len() && self.entries@[i as int].0@ == user@,
                None => !self.has_user(user@),
            },
    {
        let n = self.entries.len();
        let mut k: usize = 0;
        while k < n
            invariant
                n == self.entries@.len(),
                k <= n,
                forall|j: int| 0 <= j < k ==> self.entries@[j].0@ != user@,
            decreases n - k,
        {
            if self.entries[k].0 == *user {
                return Some(k);
            }
            k += 1;
        }
        None
    }

    /// Whether the user already holds a registration for the event.
    pub fn is_registered(&self, user: &String, event_id: &String) -> (r: bool)
        requires
            self.wf(),
        ensures
            r == regs_registered(self.regs_model(user@), event_id@),
    {
        match self.position(user) {
            None => {
                proof {
                    assert(!regs_registered(Seq::<RegView>::empty(), event_id@));
                }
                false
            },
            Some(i) => {
                proof {
                    self.lemma_model_at_index(i as int);
                }
                contains_event(&self.entries[i].1, event_id)
            },
        }
    }

    /// The user's registrations, in insertion order.
    pub fn list_by_user(&self, user: &String) -> (r: Vec<Registration>)
        requires
            self.wf(),
        ensures
            r.deep_view() == self.regs_model(user@),
    {
        match self.position(user) {
            None => {
                let r: Vec<Registration> = Vec::new();
                proof {
                    assert(r.deep_view() =~= self.regs_model(user@));
                }
                r
            },
            Some(i) => {
                proof {
                    self.lemma_model_at_index(i as int);
                }
                let regs = &self.entries[i].1;
                let mut r: Vec<Registration> = Vec::new();
                let n = regs.len();
                let mut k: usize = 0;
                while k < n
                    invariant
                        n == regs@.len(),
                        k <= n,
                        r@.len() == k,
                        forall|j: int| 0 <= j < k ==> (#[trigger] r@[j])@ == regs@[j]@,
                    decreases n - k,
                {
                    let t = regs[k].duplicate();
                    r.push(t);
                    k += 1;
                }
                proof {
                    assert(r.deep_view() =~= regs.deep_view());
                }
                r
            },
        }
    }

    /// How many users hold a registration for the event.
    pub fn count_for_event(&self, event_id: &String) -> (c: usize)
        requires
            self.wf(),
        ensures
            c as nat == self.total_count(event_id@),
    {
        let n = self.entries.len();
        let mut c: usize = 0;
        let mut k: usize = 0;
        proof {
            assert(self.entries@.take(0) =~= Seq::<(String, Vec<Registration>)>::empty());
        }
        while k < n
            invariant
                self.wf(),
                n == self.entries@.len(),
                k <= n,
                c <= k,
                c as nat == total_count_entries(self.entries@.take(k as int), event_id@),
            decreases n - k,
        {
            let more = contains_event(&self.entries[k].1, event_id);
            proof {
                let taken = self.entries@.take(k as int + 1);
                assert(taken.drop_last() =~= self.entries@.take(k as int));
                assert(taken.last() == self.entries@[k as int]);
                lemma_count_unique(self.entries@[k as int].1.deep_view(), event_id@);
            }
            if more {
                c = c + 1;
            }
            k += 1;
        }
        proof {
            assert(self.entries@.take(n as int) =~= self.entries@);
        }
        c
    }

    /// Makes the user's entry exist; no user's observable registration
    /// list changes.
    fn ensure_user(&mut self, user: &String) -> (i: usize)
        requires
            old(self).wf(),
        ensures
            final(self).wf(),
            0 <= i < final(self).entries@.len(),
            final(self).entries@[i as int].0@ == user@,
            forall|u: Seq<char>| #[trigger] final(self).regs_model(u) == old(self).regs_model(u),
            final(self).total_count_all_eq(*old(self)),
    {
        match self.position(user) {
            Some(i) => {
                proof {
                    self.lemma_model_at_index(i as int);
                }
                i
            },
            None => {
                let ghost old_self = *self;
                let i = self.entries.len();
                let empty: Vec<Registration> = Vec::new();
                self.entries.push((user.clone(), empty));
                proof {
                    let n = old_self.entries@.len();
                    assert(forall|j: int| 0 <= j < n ==> self.entries@[j] == old_self.entries@[j]);
                    assert(self.entries@[n as int].0@ == user@);
                    assert(self.entries@[n as int].1.deep_view() =~= Seq::<RegView>::empty());
                    assert(self.wf());
                    assert forall|u: Seq<char>| #[trigger]
                        self.regs_model(u) == old_self.regs_model(u) by {
                        if u == user@ {
                            self.lemma_model_at_index(n as int);
                            assert(!old_self.has_user(u));
                        } else {
                            if old_self.has_user(u) {
                                let j = old_self.index_of(u);
                                assert(self.entries@[j].0@ == u);
                                self.lemma_model_at_index(j);
                            } else {
                                assert forall|j: int|
                                    0 <= j < self.entries@.len() implies self.entries@[j].0@
                                    != u by {
                                    if j < n {
                                        assert(old_self.entries@[j].0@ != u);
                                    }
                                }
                                assert(!self.has_user(u));
                            }
                        }
                    }
                    assert forall|e: Seq<char>| #[trigger]
                        self.total_count(e) == old_self.total_count(e) by {
                        assert(self.entries@.drop_last() =~= old_self.entries@);
                        assert(count_in(Seq::<RegView>::empty(), e) == 0);
                    }
                }
                i
            },
        }
    }

    /// Whether every event's total count agrees with another store's.
    pub open spec fn total_count_all_eq(&self, other: RegistrationStore) -> bool {
        forall|e: Seq<char>| #[trigger] self.total_count(e) == other.total_count(e)
    }

    /// Creates the one registration a (user, event) pair may hold.
    /// Fails with `AlreadyRegistered` exactly when one exists, and then
    /// changes nothing. On success the new record is appended to the
    /// user's list and returned; other users' lists are untouched, and
    /// the event's total count rises by one.
    pub fn register(
        &mut self,
        user: &String,
        event_id: &String,
        event_name: &String,
        payment_amount: Option<u64>,
        date: String,
    ) -> (r: Result<Registration, RegError>)
        requires
            old(self).wf(),
        ensures
            final(self).wf(),
            regs_registered(old(self).regs_model(user@), event_id@) ==> {
                &&& r == Err::<Registration, RegError>(RegError::AlreadyRegistered)
                &&& *final(self) == *old(self)
            },
            !regs_registered(old(self).regs_model(user@), event_id@) ==> {
                &&& r matches Ok(reg) && reg@ == (RegView {
                    event_id: event_id@,
                    event_name: event_name@,
                    registration_date: date@,
                    status: RegStatus::Registered,
                    payment_amount,
                })
                &&& final(self).regs_model(user@) == old(self).regs_model(user@).push(
                    RegView {
                        event_id: event_id@,
                        event_name: event_name@,
                        registration_date: date@,
                        status: RegStatus::Registered,
                        payment_amount,
                    },
                )
                &&& forall|u: Seq<char>|
                    u != user@ ==> #[trigger] final(self).regs_model(u) == old(self).regs_model(u)
                &&& final(self).total_count(event_id@) == old(self).total_count(event_id@) + 1
                &&& forall|e: Seq<char>|
                    e != event_id@ ==> #[trigger] final(self).total_count(e) == old(
                        self,
                    ).total_count(e)
            },
    {
        if self.is_registered(user, event_id) {
            return Err(RegError::AlreadyRegistered);
        }
        let i = self.ensure_user(user);
        proof {
            self.lemma_model_at_index(i as int);
        }
        let reg = Registration {
            event_id: event_id.clone(),
            event_name: event_name.clone(),
            registration_date: date,
            status: RegStatus::Registered,
            payment_amount,
        };
        let dup = reg.duplicate();
        let ghost mid = *self;
        let entry = &mut self.entries[i];
        entry.1.push(dup);
        proof {
            let n = mid.entries@.len();
            assert(self.entries@.len() == n);
            assert(forall|j: int|
                0 <= j < n && j != i as int ==> self.entries@[j] == mid.entries@[j]);
            assert(self.entries@[i as int].0@ == user@);
            assert(self.entries@[i as int].1.deep_view() =~= mid.entries@[i as int].1.deep_view().push(
                reg@,
            ));
            Self::lemma_register_frame(mid, *self, i as int, reg@);
        }
        Ok(reg)
    }

    /// After appending a not-yet-present event to entry `i`, the store
    /// is consistent, that user's list gained exactly that record, every
    /// other list is unchanged, and only that event's total count rose,
    /// by one.
    proof fn lemma_register_frame(pre: RegistrationStore, post: RegistrationStore, i: int, rv: RegView)
        requires
            pre.wf(),
            0 <= i < pre.entries@.len(),
            post.entries@.len() == pre.entries@.len(),
            forall|j: int|
                0 <= j < pre.entries@.len() && j != i ==> post.entries@[j] == pre.entries@[j],
            post.entries@[i].0@ == pre.entries@[i].0@,
            post.entries@[i].1.deep_view() == pre.entries@[i].1.deep_view().push(rv),
            !regs_registered(pre.entries@[i].1.deep_view(), rv.event_id),
        ensures
            post.wf(),
            post.regs_model(pre.entries@[i].0@) == pre.entries@[i].1.deep_view().push(rv),
            forall|u: Seq<char>|
                u != pre.entries@[i].0@ ==> #[trigger] post.regs_model(u) == pre.regs_model(u),
            post.total_count(rv.event_id) == pre.total_count(rv.event_id) + 1,
            forall|e: Seq<char>|
                e != rv.event_id ==> #[trigger] post.total_count(e) == pre.total_count(e),
    {
        let n = pre.entries@.len();
        let old_regs = pre.entries@[i].1.deep_view();
        let new_regs = post.entries@[i].1.deep_view();
        assert forall|p: int, q: int|
            0 <= p < q < n implies (#[trigger] post.entries@[p].0@)
            != (#[trigger] post.entries@[q].0@) by {
            assert(post.entries@[p].0@ == pre.entries@[p].0@);
            assert(post.entries@[q].0@ == pre.entries@[q].0@);
        }
        assert forall|j: int| 0 <= j < n implies distinct_events(
            (#[trigger] post.entries@[j].1).deep_view(),
        ) by {
            if j != i {
                assert(post.entries@[j] == pre.entries@[j]);
            } else {
                assert(distinct_events(old_regs));
                assert forall|p: int, q: int|
                    0 <= p < q < new_regs.len() implies (#[trigger] new_regs[p].event_id)
                    != (#[trigger] new_regs[q].event_id) by {
                    if q < new_regs.len() - 1 {
                        assert(new_regs[p] == old_regs[p]);
                        assert(new_regs[q] == old_regs[q]);
                    } else {
                        assert(new_regs[q] == rv);
                        assert(new_regs[p] == old_regs[p]);
                        if old_regs[p].event_id == rv.event_id {
                            assert(regs_registered(old_regs, rv.event_id));
                        }
                    }
                }
            }
        }
        post.lemma_model_at_index(i);
        assert forall|u: Seq<char>|
            u != pre.entries@[i].0@ implies #[trigger] post.regs_model(u) == pre.regs_model(u) by {
            if pre.has_user(u) {
                let j = pre.index_of(u);
                assert(pre.entries@[j].0@ == u);
                assert(j != i);
                assert(post.entries@[j].0@ == u);
                pre.lemma_model_at_index(j);
                post.lemma_model_at_index(j);
            } else {
                assert forall|j: int| 0 <= j < n implies post.entries@[j].0@ != u by {
                    assert(post.entries@[j].0@ == pre.entries@[j].0@);
                }
                assert(!post.has_user(u));
            }
        }
        Self::lemma_total_count_update(pre.entries@, post.entries@, i, rv);
    }

    /// Appending one record to entry `i` raises that event's total
    /// count by one and leaves every other event's count unchanged.
    proof fn lemma_total_count_update(
        pre: Seq<(String, Vec<Registration>)>,
        post: Seq<(String, Vec<Registration>)>,
        i: int,
        rv: RegView,
    )
        requires
            0 <= i < pre.len(),
            post.len() == pre.len(),
            forall|j: int| 0 <= j < pre.len() && j != i ==> post[j] == pre[j],
            post[i].1.deep_view() == pre[i].1.deep_view().push(rv),
        ensures
            total_count_entries(post, rv.event_id) == total_count_entries(pre, rv.event_id) + 1,
            forall|e: Seq<char>|
                e != rv.event_id ==> #[trigger] total_count_entries(post, e)
                    == total_count_entries(pre, e),
        decreases pre.len(),
    {
        let n = pre.len() - 1;
        assert forall|e: Seq<char>| #[trigger] count_in(post[i].1.deep_view(), e) == count_in(
            pre[i].1.deep_view(),
            e,
        ) + (if e == rv.event_id {
            1int
        } else {
            0int
        }) by {
            lemma_count_in_push(pre[i].1.deep_view(), rv, e);
        }
        if i == n {
            assert(pre.drop_last() =~= post.drop_last());
            assert forall|e: Seq<char>| #[trigger] total_count_entries(post, e)
                == total_count_entries(pre, e) + (if e == rv.event_id {
                1int
            } else {
                0int
            }) by {
                assert(post.last() == post[i]);
                assert(pre.last() == pre[i]);
            }
        } else {
            assert(post.last() == pre.last());
            Self::lemma_total_count_update(pre.drop_last(), post.drop_last(), i, rv);
            assert forall|e: Seq<char>| #[trigger] total_count_entries(post, e)
                == total_count_entries(pre, e) + (if e == rv.event_id {
                1int
            } else {
                0int
            }) by {
                assert(total_count_entries(post, e) == total_count_entries(post.drop_last(), e)
                    + count_in(post.last().1.deep_view(), e));
                assert(total_count_entries(pre, e) == total_count_entries(pre.drop_last(), e)
                    + count_in(pre.last().1.deep_view(), e));
            }
        }
    }
}

/// Pushing one record moves only its own event's in-list count, by one.
proof fn lemma_count_in_push(regs: Seq<RegView>, rv: RegView, event: Seq<char>)
    ensures
        count_in(regs.push(rv), event) == count_in(regs, event) + (if event == rv.event_id {
            1int
        } else {
            0int
        }),
{
    assert(regs.push(rv).drop_last() =~= regs);
    assert(regs.push(rv).last() == rv);
}

/// Whether a registration list holds the given event, executably.
fn contains_event(regs: &Vec<Registration>, event_id: &String) -> (r: bool)
    ensures
        r == regs_registered(regs.deep_view(), event_id@),
{
    let n = regs.len();
    let mut k: usize = 0;
    while k < n
        invariant
            n == regs@.len(),
            k <= n,
            forall|j: int| 0 <= j < k ==> regs@[j]@.event_id != event_id@,
        decreases n - k,
    {
        if regs[k].event_id == *event_id {
            proof {
                assert(regs.deep_view()[k as int].event_id == event_id@);
            }
            return true;
        }
        k += 1;
    }
    proof {
        if regs_registered(regs.deep_view(), event_id@) {
            let j = choose|j: int|
                0 <= j < regs.deep_view().len() && regs.deep_view()[j].event_id == event_id@;
            assert(regs@[j]@.event_id == event_id@);
        }
    }
    false
}

} // verus!
