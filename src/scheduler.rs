use vstd::prelude::*;
use crate::verify_state::{info_consistent, UserVerifyState, VerifyInfo, VerifyModel, VerifyOutcome};

verus! {

/// One unit of work handed to a worker: a paper to verify for a user.
#[derive(Debug, Clone, Copy, PartialEq, Eq)]
pub struct WorkUnit {
    pub user_id: i64,
    pub paper_id: i64,
}

/// Dispatch order: the older last dispatch first, then the smaller user id.
pub open spec fn key_lt(la: nat, ia: i64, lb: nat, ib: i64) -> bool {
    la < lb || (la == lb && ia < ib)
}

/// Position of user `u` in `users` (the last one that holds it), or -1.
pub open spec fn index_of(users: Seq<UserVerifyState>, u: i64) -> int
    decreases users.len(),
{
    if users.len() == 0 {
        -1
    } else if users.last().user() == u {
        users.len() - 1
    } else {
        index_of(users.drop_last(), u)
    }
}

pub open spec fn unique_users(users: Seq<UserVerifyState>) -> bool {
    forall|i: int, j: int|
        0 <= i < users.len() && 0 <= j < users.len() && i != j ==> #[trigger] users[i].user()
            != #[trigger] users[j].user()
}

pub proof fn lemma_index_of(users: Seq<UserVerifyState>, u: i64)
    ensures
        -1 <= index_of(users, u) < users.len(),
        index_of(users, u) >= 0 ==> users[index_of(users, u)].user() == u,
        index_of(users, u) == -1 ==> forall|i: int| 0 <= i < users.len() ==> #[trigger] users[i].user() != u,
        unique_users(users) ==> forall|i: int|
            0 <= i < users.len() && #[trigger] users[i].user() == u ==> index_of(users, u) == i,
    decreases users.len(),
{
    if users.len() > 0 {
        let t = users.drop_last();
        lemma_index_of(t, u);
        if users.last().user() != u {
            assert forall|i: int| 0 <= i < t.len() implies t[i] == users[i] by {}
        }
    }
}

/// The users known to the scheduler, each with its verification state,
/// and a logical clock that stamps dispatches.
pub struct VerifyRegistry {
    users: Vec<UserVerifyState>,
    clock: u64,
}

impl VerifyRegistry {
    pub closed spec fn slots(&self) -> Seq<UserVerifyState> {
        self.users@
    }

    pub closed spec fn now(&self) -> u64 {
        self.clock
    }

    pub open spec fn wf(&self) -> bool {
        &&& self.now() > 0
        &&& unique_users(self.slots())
        &&& forall|i: int| 0 <= i < self.slots().len() ==> (#[trigger] self.slots()[i]).wf()
        &&& forall|i: int|
            0 <= i < self.slots().len() ==> (#[trigger] self.slots()[i]).dispatched_at() < self.now()
    }

    /// State of user `u`, if the registry knows it.
    pub open spec fn model(&self, u: i64) -> Option<VerifyModel> {
        let i = index_of(self.slots(), u);
        if i >= 0 {
            Some(self.slots()[i]@)
        } else {
            None
        }
    }

    /// Clock value of the last dispatch to user `u` (0 for an unknown user).
    pub open spec fn last_dispatch_of(&self, u: i64) -> nat {
        let i = index_of(self.slots(), u);
        if i >= 0 {
            self.slots()[i].dispatched_at() as nat
        } else {
            0
        }
    }

    /// The ids of the active users.
    pub open spec fn active_set(&self) -> Set<i64> {
        Set::new(|u: i64| self.model(u) is Some && self.model(u).unwrap().active)
    }

    /// Only user `u` may have changed.
    pub open spec fn others_unchanged(&self, other: &VerifyRegistry, u: i64) -> bool {
        forall|v: i64| v != u ==> #[trigger] self.model(v) == other.model(v)
    }

    pub open spec fn or_empty(m: Option<VerifyModel>) -> VerifyModel {
        match m {
            Some(x) => x,
            None => VerifyModel::empty(),
        }
    }

    pub fn new() -> (r: VerifyRegistry)
        ensures
            r.wf(),
            r.now() == 1,
            forall|u: i64| #[trigger] r.model(u) is None,
    {
        let r = VerifyRegistry { users: Vec::new(), clock: 1 };
        proof {
            assert forall|u: i64| #[trigger] r.model(u) is None by {
                lemma_index_of(r.slots(), u);
            }
        }
        r
    }

    /// Current value of the dispatch clock.
    pub fn clock(&self) -> (r: u64)
        ensures
            r == self.now(),
    {
        self.clock
    }

    fn find(&self, u: i64) -> (r: Option<usize>)
        requires
            self.wf(),
        ensures
            r is Some <==> index_of(self.slots(), u) >= 0,
            r is Some ==> r.unwrap() as int == index_of(self.slots(), u),
    {
        proof {
            lemma_index_of(self.slots(), u);
        }
        let mut i: usize = 0;
        while i < self.users.len()
            invariant
                0 <= i <= self.users.len(),
                self.wf(),
                forall|k: int| 0 <= k < i ==> #[trigger] self.users@[k].user() != u,
                index_of(self.slots(), u) == -1 ==> forall|k: int|
                    0 <= k < self.slots().len() ==> #[trigger] self.slots()[k].user() != u,
                unique_users(self.slots()) ==> forall|k: int|
                    0 <= k < self.slots().len() && #[trigger] self.slots()[k].user() == u
                        ==> index_of(self.slots(), u) == k,
                -1 <= index_of(self.slots(), u) < self.slots().len(),
                index_of(self.slots(), u) >= 0 ==> self.slots()[index_of(self.slots(), u)].user() == u,
            decreases self.users.len() - i,
        {
            if self.users[i].user_id() == u {
                return Some(i);
            }
            i = i + 1;
        }
        None
    }

    /// Facts on `model` after slot `i` was replaced by a state of the same user.
    proof fn lemma_replace(old_slots: Seq<UserVerifyState>, i: int, s: UserVerifyState)
        requires
            unique_users(old_slots),
            0 <= i < old_slots.len(),
            s.user() == old_slots[i].user(),
        ensures
            unique_users(old_slots.update(i, s)),
            forall|v: i64| #[trigger] index_of(old_slots.update(i, s), v) == index_of(old_slots, v),
    {
        let n = old_slots.update(i, s);
        assert(unique_users(n)) by {
            assert forall|a: int, b: int|
                0 <= a < n.len() && 0 <= b < n.len() && a != b implies #[trigger] n[a].user()
                    != #[trigger] n[b].user() by {
                assert(n[a].user() == old_slots[a].user());
                assert(n[b].user() == old_slots[b].user());
            }
        }
        assert forall|v: i64| #[trigger] index_of(n, v) == index_of(old_slots, v) by {
            lemma_index_of(n, v);
            lemma_index_of(old_slots, v);
            if index_of(old_slots, v) >= 0 {
                let k = index_of(old_slots, v);
                assert(n[k].user() == v);
            } else if index_of(n, v) >= 0 {
                let k = index_of(n, v);
                assert(old_slots[k].user() == n[k].user());
            }
        }
    }

    /// Slot of user `u`, created empty when the user is new.
    fn slot_for(&mut self, u: i64) -> (r: usize)
        requires
            old(self).wf(),
        ensures
            final(self).wf(),
            r < final(self).slots().len(),
            index_of(final(self).slots(), u) == r as int,
            final(self).slots()[r as int]@ == Self::or_empty(old(self).model(u)),
            old(self).model(u) is Some ==> final(self).slots()[r as int].dispatched_at()
                == old(self).last_dispatch_of(u),
            final(self).others_unchanged(old(self), u),
            final(self).now() == old(self).now(),
    {
        match self.find(u) {
            Some(i) => {
                proof {
                    lemma_index_of(self.slots(), u);
                }
                i
            },
            None => {
                let ghost before = self.slots();
                proof {
                    lemma_index_of(before, u);
                }
                let fresh = UserVerifyState::new(u);
                self.users.push(fresh);
                let n = self.users.len() - 1;
                proof {
                    let after = self.slots();
                    assert(after =~= before.push(fresh));
                    assert(unique_users(after)) by {
                        assert forall|a: int, b: int|
                            0 <= a < after.len() && 0 <= b < after.len() && a != b implies #[trigger] after[a].user()
                                != #[trigger] after[b].user() by {
                            if a < before.len() {
                                assert(after[a] == before[a]);
                            }
                            if b < before.len() {
                                assert(after[b] == before[b]);
                            }
                        }
                    }
                    assert(forall|k: int| 0 <= k < before.len() ==> after[k] == before[k]);
                    lemma_index_of(after, u);
                    assert(after[n as int].user() == u);
                    assert forall|v: i64| v != u implies #[trigger] self.model(v) == old(self).model(v) by {
                        lemma_index_of(after, v);
                        lemma_index_of(before, v);
                        if index_of(before, v) >= 0 {
                            assert(after[index_of(before, v)].user() == v);
                        } else if index_of(after, v) >= 0 {
                            let k = index_of(after, v);
                            assert(k != n as int);
                            assert(before[k].user() == v);
                        }
                    }
                }
                n
            },
        }
    }

    /// Facts after slot `i` of `before` was replaced in place.
    proof fn lemma_slot_replaced(before: &VerifyRegistry, after: &VerifyRegistry, i: int)
        requires
            before.wf(),
            0 <= i < before.slots().len(),
            after.slots() == before.slots().update(i, after.slots()[i]),
            after.slots()[i].user() == before.slots()[i].user(),
            after.slots()[i].wf(),
            after.slots()[i].dispatched_at() < after.now(),
            after.now() >= before.now(),
        ensures
            after.wf(),
            index_of(after.slots(), before.slots()[i].user()) == i,
            after.model(before.slots()[i].user()) == Some(after.slots()[i]@),
            after.others_unchanged(before, before.slots()[i].user()),
            forall|v: i64| v != before.slots()[i].user() ==> #[trigger] after.last_dispatch_of(v) == before.last_dispatch_of(v),
    {
        let u = before.slots()[i].user();
        Self::lemma_replace(before.slots(), i, after.slots()[i]);
        lemma_index_of(before.slots(), u);
        assert forall|k: int| 0 <= k < after.slots().len() implies (#[trigger] after.slots()[k]).wf() by {
            if k != i {
                assert(after.slots()[k] == before.slots()[k]);
            }
        }
        assert forall|k: int| 0 <= k < after.slots().len() implies (#[trigger] after.slots()[k]).dispatched_at() < after.now() by {
            if k != i {
                assert(after.slots()[k] == before.slots()[k]);
            }
        }
        assert forall|v: i64| v != u implies #[trigger] after.model(v) == before.model(v) by {
            lemma_index_of(before.slots(), v);
            if index_of(before.slots(), v) >= 0 {
                assert(index_of(before.slots(), v) != i);
            }
        }
        assert forall|v: i64| v != u implies #[trigger] after.last_dispatch_of(v) == before.last_dispatch_of(v) by {
            lemma_index_of(before.slots(), v);
            if index_of(before.slots(), v) >= 0 {
                assert(index_of(before.slots(), v) != i);
            }
        }
    }

    /// Seeds user `u` (created when new) with `papers`, its unverified
    /// papers, and the match quota `max_match`; see `UserVerifyState::seed`.
    pub fn verify(&mut self, u: i64, papers: &Vec<i64>, max_match: u64) -> (r: VerifyInfo)
        requires
            old(self).wf(),
        ensures
            final(self).wf(),
            final(self).model(u) == Some(Self::or_empty(old(self).model(u)).seed(papers@, max_match as nat)),
            final(self).others_unchanged(old(self), u),
            r == final(self).model(u).unwrap().info(),
            info_consistent(r),
    {
        let i = self.slot_for(u);
        let ghost mid = *self;
        proof {
            lemma_index_of(mid.slots(), u);
        }
        let r = self.users[i].seed(papers, max_match);
        proof {
            assert(self.slots() =~= mid.slots().update(i as int, self.slots()[i as int]));
            Self::lemma_slot_replaced(&mid, self, i as int);
        }
        r
    }

    /// The dispatchable user with the oldest last dispatch (ties go to the
    /// smaller user id).
    fn pick(&self) -> (r: Option<usize>)
        requires
            self.wf(),
        ensures
            r is None ==> forall|j: int| 0 <= j < self.slots().len() ==> !(#[trigger] self.slots()[j])@.dispatchable(),
            r is Some ==> {
                let c = r.unwrap() as int;
                &&& c < self.slots().len()
                &&& self.slots()[c]@.dispatchable()
                &&& forall|j: int|
                    0 <= j < self.slots().len() && j != c && (#[trigger] self.slots()[j])@.dispatchable()
                        ==> key_lt(
                        self.slots()[c].dispatched_at() as nat,
                        self.slots()[c].user(),
                        self.slots()[j].dispatched_at() as nat,
                        self.slots()[j].user(),
                    )
            },
    {
        let mut best: Option<usize> = None;
        let mut i: usize = 0;
        while i < self.users.len()
            invariant
                0 <= i <= self.users.len(),
                self.wf(),
                best is None ==> forall|j: int| 0 <= j < i ==> !(#[trigger] self.slots()[j])@.dispatchable(),
                best is Some ==> {
                    let c = best.unwrap() as int;
                    &&& c < i
                    &&& self.slots()[c]@.dispatchable()
                    &&& forall|j: int|
                        0 <= j < i && j != c && (#[trigger] self.slots()[j])@.dispatchable() ==> key_lt(
                            self.slots()[c].dispatched_at() as nat,
                            self.slots()[c].user(),
                            self.slots()[j].dispatched_at() as nat,
                            self.slots()[j].user(),
                        )
                },
            decreases self.users.len() - i,
        {
            if self.users[i].is_dispatchable() {
                match best {
                    None => {
                        best = Some(i);
                    },
                    Some(b) => {
                        let lb = self.users[b].last_dispatch();
                        let li = self.users[i].last_dispatch();
                        let ib = self.users[b].user_id();
                        let ii = self.users[i].user_id();
                        if li < lb || (li == lb && ii < ib) {
                            best = Some(i);
                        }
                        proof {
                            assert(self.slots()[b as int].user() != self.slots()[i as int].user());
                        }
                    },
                }
            }
            i = i + 1;
        }
        best
    }

    /// Hands out the next unit of work: among the users that may take a
    /// paper now (see `VerifyModel::dispatchable`) the one dispatched longest ago,
    /// ties broken by the smaller user id; its first pending paper goes in
    /// flight and its last dispatch becomes the current clock. `None` when
    /// no user can take a paper.
    pub fn dispatch(&mut self) -> (r: Option<WorkUnit>)
        requires
            old(self).wf(),
            old(self).now() < u64::MAX,
        ensures
            final(self).wf(),
            r is None <==> forall|v: i64| #[trigger] old(self).model(v) is Some ==> !old(self).model(v).unwrap().dispatchable(),
            r is None ==> forall|v: i64| #[trigger] final(self).model(v) == old(self).model(v),
            r is Some ==> {
                let w = r.unwrap();
                let m = old(self).model(w.user_id);
                &&& m is Some
                &&& m.unwrap().dispatchable()
                &&& forall|v: i64|
                    v != w.user_id && #[trigger] old(self).model(v) is Some && old(self).model(v).unwrap().dispatchable()
                        ==> key_lt(old(self).last_dispatch_of(w.user_id), w.user_id, old(self).last_dispatch_of(v), v)
                &&& m.unwrap().take_one() == (final(self).model(w.user_id).unwrap(), Some(w.paper_id))
                &&& final(self).last_dispatch_of(w.user_id) == old(self).now()
                &&& final(self).others_unchanged(old(self), w.user_id)
                &&& forall|v: i64| v != w.user_id ==> #[trigger] final(self).last_dispatch_of(v) == old(self).last_dispatch_of(v)
            },
            r is Some ==> final(self).now() == old(self).now() + 1,
            r is None ==> final(self).now() == old(self).now(),
    {
        match self.pick() {
            None => {
                proof {
                    assert forall|v: i64| #[trigger] self.model(v) is Some implies !self.model(v).unwrap().dispatchable() by {
                        lemma_index_of(self.slots(), v);
                    }
                }
                None
            },
            Some(c) => {
                let ghost before = *self;
                let u = self.users[c].user_id();
                proof {
                    lemma_index_of(self.slots(), u);
                    assert(index_of(self.slots(), u) == c as int);
                    assert forall|v: i64|
                        v != u && #[trigger] before.model(v) is Some && before.model(v).unwrap().dispatchable()
                            implies key_lt(before.last_dispatch_of(u), u, before.last_dispatch_of(v), v) by {
                        lemma_index_of(before.slots(), v);
                    }
                }
                let tick = self.clock;
                let p = self.users[c].take_one();
                self.users[c].set_last_dispatch(tick);
                self.clock = self.clock + 1;
                proof {
                    assert(self.slots() =~= before.slots().update(c as int, self.slots()[c as int]));
                    Self::lemma_slot_replaced(&before, self, c as int);
                }
                match p {
                    Some(paper) => Some(WorkUnit { user_id: u, paper_id: paper }),
                    None => None,
                }
            },
        }
    }

    /// Whether user `u`'s next outcome fits its counters.
    pub open spec fn has_room(&self, u: i64, outcome: VerifyOutcome) -> bool {
        self.model(u) is Some ==> {
            let m = self.model(u).unwrap();
            &&& m.tokens + outcome.tokens_spec() <= u64::MAX
            &&& outcome.is_yes() ==> m.total_matched < u64::MAX
        }
    }

    /// Records the outcome of user `u`'s in-flight `paper`; see
    /// `UserVerifyState::complete`. Returns whether it was in flight.
    pub fn complete(&mut self, u: i64, paper: i64, outcome: VerifyOutcome) -> (r: bool)
        requires
            old(self).wf(),
            old(self).has_room(u, outcome),
        ensures
            final(self).wf(),
            old(self).model(u) is Some ==> final(self).model(u) == Some(old(self).model(u).unwrap().complete(paper, outcome)),
            old(self).model(u) is None ==> final(self).model(u) is None,
            final(self).others_unchanged(old(self), u),
            r == (old(self).model(u) is Some && old(self).model(u).unwrap().processing.contains(paper)),
    {
        match self.find(u) {
            None => false,
            Some(i) => {
                let ghost mid = *self;
                proof {
                    lemma_index_of(mid.slots(), u);
                }
                let r = self.users[i].complete(paper, outcome);
                proof {
                    assert(self.slots() =~= mid.slots().update(i as int, self.slots()[i as int]));
                    Self::lemma_slot_replaced(&mid, self, i as int);
                }
                r
            },
        }
    }

    /// Puts user `u`'s in-flight `paper` back at the head of its pending
    /// papers for another attempt. Returns whether it was in flight.
    pub fn requeue(&mut self, u: i64, paper: i64) -> (r: bool)
        requires
            old(self).wf(),
        ensures
            final(self).wf(),
            old(self).model(u) is Some ==> final(self).model(u) == Some(old(self).model(u).unwrap().requeue(paper)),
            old(self).model(u) is None ==> final(self).model(u) is None,
            final(self).others_unchanged(old(self), u),
            r == (old(self).model(u) is Some && old(self).model(u).unwrap().processing.contains(paper)),
    {
        match self.find(u) {
            None => false,
            Some(i) => {
                let ghost mid = *self;
                proof {
                    lemma_index_of(mid.slots(), u);
                }
                let r = self.users[i].requeue(paper);
                proof {
                    assert(self.slots() =~= mid.slots().update(i as int, self.slots()[i as int]));
                    Self::lemma_slot_replaced(&mid, self, i as int);
                }
                r
            },
        }
    }

    /// Starts a new run for user `u` over the papers it still holds; see
    /// `UserVerifyState::reset_for_new_run`. Returns whether `u` is known.
    pub fn reset_for_new_run(&mut self, u: i64, max_match: u64) -> (r: bool)
        requires
            old(self).wf(),
        ensures
            final(self).wf(),
            old(self).model(u) is Some ==> final(self).model(u) == Some(old(self).model(u).unwrap().reset_for_new_run(max_match as nat)),
            old(self).model(u) is None ==> final(self).model(u) is None,
            final(self).others_unchanged(old(self), u),
            r == old(self).model(u) is Some,
    {
        match self.find(u) {
            None => false,
            Some(i) => {
                let ghost mid = *self;
                proof {
                    lemma_index_of(mid.slots(), u);
                }
                self.users[i].reset_for_new_run(max_match);
                proof {
                    assert(self.slots() =~= mid.slots().update(i as int, self.slots()[i as int]));
                    Self::lemma_slot_replaced(&mid, self, i as int);
                }
                true
            },
        }
    }

    /// Ends user `u`'s run. A hard finish forgets the user entirely; a soft
    /// one keeps its counters and only takes it out of the active set.
    /// Returns whether `u` was known.
    pub fn finish(&mut self, u: i64, hard: bool) -> (r: bool)
        requires
            old(self).wf(),
        ensures
            final(self).wf(),
            hard ==> final(self).model(u) is None,
            !hard ==> old(self).model(u) is Some ==> final(self).model(u) == Some(old(self).model(u).unwrap().finish()),
            old(self).model(u) is None ==> final(self).model(u) is None,
            final(self).others_unchanged(old(self), u),
            r == old(self).model(u) is Some,
    {
        match self.find(u) {
            None => {
                proof {
                    assert forall|v: i64| v != u implies #[trigger] self.model(v) == old(self).model(v) by {}
                }
                false
            },
            Some(i) => {
                let ghost mid = *self;
                proof {
                    lemma_index_of(mid.slots(), u);
                }
                if hard {
                    self.users.remove(i);
                    proof {
                        let b = mid.slots();
                        let a = self.slots();
                        assert(a =~= b.remove(i as int));
                        assert forall|k: int| 0 <= k < a.len() implies #[trigger] a[k] == b[if k < i { k } else { k + 1 }] by {}
                        assert(unique_users(a)) by {
                            assert forall|x: int, y: int|
                                0 <= x < a.len() && 0 <= y < a.len() && x != y implies #[trigger] a[x].user()
                                    != #[trigger] a[y].user() by {
                                assert(a[x] == b[if x < i { x } else { x + 1 }]);
                                assert(a[y] == b[if y < i { y } else { y + 1 }]);
                            }
                        }
                        assert forall|k: int| 0 <= k < a.len() implies (#[trigger] a[k]).wf() by {
                            assert(a[k] == b[if k < i { k } else { k + 1 }]);
                        }
                        assert forall|k: int| 0 <= k < a.len() implies (#[trigger] a[k]).dispatched_at() < self.now() by {
                            assert(a[k] == b[if k < i { k } else { k + 1 }]);
                        }
                        lemma_index_of(a, u);
                        if index_of(a, u) >= 0 {
                            let k = index_of(a, u);
                            assert(a[k] == b[if k < i { k } else { k + 1 }]);
                        }
                        assert forall|v: i64| v != u implies #[trigger] self.model(v) == old(self).model(v) by {
                            lemma_index_of(a, v);
                            lemma_index_of(b, v);
                            if index_of(b, v) >= 0 {
                                let k = index_of(b, v);
                                assert(k != i);
                                let k2 = if k < i { k } else { k - 1 };
                                assert(a[k2] == b[k]);
                            } else if index_of(a, v) >= 0 {
                                let k = index_of(a, v);
                                assert(a[k] == b[if k < i { k } else { k + 1 }]);
                            }
                        }
                    }
                } else {
                    self.users[i].finish();
                    proof {
                        assert(self.slots() =~= mid.slots().update(i as int, self.slots()[i as int]));
                        Self::lemma_slot_replaced(&mid, self, i as int);
                    }
                }
                true
            },
        }
    }

    /// Counters of user `u`, if known.
    pub fn snapshot(&self, u: i64) -> (r: Option<VerifyInfo>)
        requires
            self.wf(),
        ensures
            r == match self.model(u) {
                Some(m) => Some(m.info()),
                None => None,
            },
            r matches Some(i) ==> info_consistent(i),
    {
        match self.find(u) {
            None => None,
            Some(i) => {
                proof {
                    lemma_index_of(self.slots(), u);
                }
                Some(self.users[i].snapshot())
            },
        }
    }

    /// The ids of the active users, each once, in registration order.
    pub fn active_users(&self) -> (r: Vec<i64>)
        requires
            self.wf(),
        ensures
            r@.to_set() == self.active_set(),
            r@.no_duplicates(),
    {
        let mut out: Vec<i64> = Vec::new();
        let mut i: usize = 0;
        while i < self.users.len()
            invariant
                0 <= i <= self.users.len(),
                self.wf(),
                out@.no_duplicates(),
                forall|v: i64| #[trigger] out@.contains(v) <==> exists|k: int|
                    0 <= k < i && #[trigger] self.slots()[k].user() == v && self.slots()[k]@.active,
            decreases self.users.len() - i,
        {
            if self.users[i].is_active() {
                let v = self.users[i].user_id();
                proof {
                    assert(!out@.contains(v)) by {
                        if out@.contains(v) {
                            let k = choose|k: int|
                                0 <= k < i && #[trigger] self.slots()[k].user() == v && self.slots()[k]@.active;
                            assert(self.slots()[k].user() != self.slots()[i as int].user());
                        }
                    }
                }
                let ghost prev = out@;
                out.push(v);
                proof {
                    assert forall|w: i64| #[trigger] out@.contains(w) <==> (prev.contains(w) || w == v) by {
                        if out@.contains(w) {
                            let j = choose|j: int| 0 <= j < out@.len() && out@[j] == w;
                            if j < prev.len() {
                                assert(prev[j] == w);
                            }
                        }
                        if prev.contains(w) {
                            let j = choose|j: int| 0 <= j < prev.len() && prev[j] == w;
                            assert(out@[j] == w);
                        }
                        if w == v {
                            assert(out@[out@.len() - 1] == w);
                        }
                    }
                    assert forall|w: i64| #[trigger] out@.contains(w) <==> exists|k: int|
                        0 <= k < i + 1 && #[trigger] self.slots()[k].user() == w && self.slots()[k]@.active by {
                        if w == v {
                            assert(self.slots()[i as int].user() == w);
                        }
                    }
                }
            } else {
                proof {
                    assert forall|w: i64| #[trigger] out@.contains(w) <==> exists|k: int|
                        0 <= k < i + 1 && #[trigger] self.slots()[k].user() == w && self.slots()[k]@.active by {
                        if exists|k: int| 0 <= k < i + 1 && #[trigger] self.slots()[k].user() == w && self.slots()[k]@.active {
                            let k = choose|k: int| 0 <= k < i + 1 && #[trigger] self.slots()[k].user() == w && self.slots()[k]@.active;
                            assert(k != i);
                        }
                    }
                }
            }
            i = i + 1;
        }
        proof {
            assert forall|v: i64| #[trigger] out@.to_set().contains(v) <==> self.active_set().contains(v) by {
                lemma_index_of(self.slots(), v);
                if out@.contains(v) {
                    let k = choose|k: int|
                        0 <= k < self.slots().len() && #[trigger] self.slots()[k].user() == v && self.slots()[k]@.active;
                }
            }
            assert(out@.to_set() =~= self.active_set());
        }
        out
    }
}

/// In a well-formed registry (every operation keeps it so) each user's
/// pending + processing + success + fail equals its total, and with a
/// quota set its matched count never exceeds the quota.
pub proof fn lemma_registry_counters(reg: &VerifyRegistry, u: i64)
    requires
        reg.wf(),
        reg.model(u) is Some,
    ensures
        reg.model(u).unwrap().wf(),
        reg.model(u).unwrap().bounded(),
        reg.model(u).unwrap().balanced(),
        reg.model(u).unwrap().max_match != 0 ==> reg.model(u).unwrap().matched <= reg.model(u).unwrap().max_match,
        info_consistent(reg.model(u).unwrap().info()),
{
    lemma_index_of(reg.slots(), u);
    assert(reg.slots()[index_of(reg.slots(), u)].wf());
    reg.model(u).unwrap().lemma_info_consistent();
}

/// `c` is the user that dispatch picks when user `k` was last dispatched
/// at `lasts[k]` and has id `ids[k]`, all of them able to take a paper.
pub open spec fn is_fair_pick(lasts: Seq<nat>, ids: Seq<i64>, c: int) -> bool {
    &&& 0 <= c < lasts.len()
    &&& forall|j: int| 0 <= j < lasts.len() && j != c ==> key_lt(lasts[c], ids[c], #[trigger] lasts[j], ids[j])
}

/// Last-dispatch stamps after the first `n` picks of `picks`, the `t`-th
/// pick being stamped `tick + t`.
pub open spec fn lasts_after(lasts: Seq<nat>, picks: Seq<int>, tick: nat, n: nat) -> Seq<nat>
    decreases n,
{
    if n == 0 {
        lasts
    } else {
        lasts_after(lasts, picks, tick, (n - 1) as nat).update(picks[n - 1], (tick + n - 1) as nat)
    }
}

/// How many of the first `n` picks went to user `k`.
pub open spec fn picks_count(picks: Seq<int>, k: int, n: nat) -> nat
    decreases n,
{
    if n == 0 {
        0
    } else {
        picks_count(picks, k, (n - 1) as nat) + if picks[n - 1] == k { 1nat } else { 0nat }
    }
}

pub open spec fn fair_window_inv(lasts: Seq<nat>, picks: Seq<int>, tick: nat, n: nat) -> bool {
    let l = lasts_after(lasts, picks, tick, n);
    &&& l.len() == lasts.len()
    &&& forall|i: int| 0 <= i < l.len() ==> #[trigger] l[i] < tick + n
    &&& forall|i: int, j: int|
        0 <= i < l.len() && 0 <= j < l.len() ==> #[trigger] picks_count(picks, i, n) <= #[trigger] picks_count(picks, j, n) + 1
    &&& forall|i: int, j: int|
        0 <= i < l.len() && 0 <= j < l.len() && #[trigger] picks_count(picks, i, n) > #[trigger] picks_count(picks, j, n) ==> l[i] > l[j]
}

proof fn lemma_fair_step(lasts: Seq<nat>, ids: Seq<i64>, picks: Seq<int>, tick: nat, n: nat)
    requires
        n < picks.len(),
        fair_window_inv(lasts, picks, tick, n),
        is_fair_pick(lasts_after(lasts, picks, tick, n), ids, picks[n as int]),
    ensures
        fair_window_inv(lasts, picks, tick, n + 1),
{
    let l = lasts_after(lasts, picks, tick, n);
    let c = picks[n as int];
    let l2 = lasts_after(lasts, picks, tick, n + 1);
    assert(l2 == l.update(c, (tick + n) as nat));
    assert forall|j: int| 0 <= j < l.len() implies picks_count(picks, c, n) <= #[trigger] picks_count(picks, j, n) by {
        if j != c && picks_count(picks, c, n) > picks_count(picks, j, n) {
            assert(l[c] > l[j]);
            assert(key_lt(l[c], ids[c], l[j], ids[j]));
        }
    }
    assert forall|i: int| 0 <= i < l.len() implies #[trigger] picks_count(picks, i, n + 1) == picks_count(picks, i, n)
        + if i == c { 1nat } else { 0nat } by {}
    assert forall|i: int, j: int|
        0 <= i < l2.len() && 0 <= j < l2.len() implies #[trigger] picks_count(picks, i, n + 1) <= #[trigger] picks_count(picks, j, n + 1) + 1 by {
        assert(picks_count(picks, i, n + 1) == picks_count(picks, i, n) + if i == c { 1nat } else { 0nat });
        assert(picks_count(picks, j, n + 1) == picks_count(picks, j, n) + if j == c { 1nat } else { 0nat });
        assert(picks_count(picks, c, n) <= picks_count(picks, j, n));
        assert(picks_count(picks, i, n) <= picks_count(picks, j, n) + 1);
    }
    assert forall|i: int, j: int|
        0 <= i < l2.len() && 0 <= j < l2.len() && #[trigger] picks_count(picks, i, n + 1) > #[trigger] picks_count(picks, j, n + 1) implies l2[i] > l2[j] by {
        assert(picks_count(picks, i, n + 1) == picks_count(picks, i, n) + if i == c { 1nat } else { 0nat });
        assert(picks_count(picks, j, n + 1) == picks_count(picks, j, n) + if j == c { 1nat } else { 0nat });
        assert(picks_count(picks, c, n) <= picks_count(picks, i, n));
        assert(picks_count(picks, i, n) <= picks_count(picks, c, n) + 1);
        assert(l[j] < tick + n);
    }
}

proof fn lemma_fair_prefix(lasts: Seq<nat>, ids: Seq<i64>, picks: Seq<int>, tick: nat, n: nat)
    requires
        n <= picks.len(),
        forall|i: int| 0 <= i < lasts.len() ==> #[trigger] lasts[i] < tick,
        forall|t: int| 0 <= t < picks.len() ==> is_fair_pick(lasts_after(lasts, picks, tick, t as nat), ids, #[trigger] picks[t]),
    ensures
        fair_window_inv(lasts, picks, tick, n),
    decreases n,
{
    if n > 0 {
        lemma_fair_prefix(lasts, ids, picks, tick, (n - 1) as nat);
        assert(is_fair_pick(lasts_after(lasts, picks, tick, (n - 1) as nat), ids, picks[n - 1]));
        lemma_fair_step(lasts, ids, picks, tick, (n - 1) as nat);
    }
}

/// Fairness of dispatch: over any window in which the same users can all
/// take a paper at every dispatch, each pick going to the user dispatched
/// longest ago (ties to the smaller id) and being stamped with the next
/// clock value, the numbers of dispatches of any two users differ by at
/// most one.
pub proof fn lemma_fair_window(lasts: Seq<nat>, ids: Seq<i64>, picks: Seq<int>, tick: nat)
    requires
        ids.len() == lasts.len(),
        forall|i: int| 0 <= i < lasts.len() ==> #[trigger] lasts[i] < tick,
        forall|t: int| 0 <= t < picks.len() ==> is_fair_pick(lasts_after(lasts, picks, tick, t as nat), ids, #[trigger] picks[t]),
    ensures
        forall|i: int, j: int|
            0 <= i < lasts.len() && 0 <= j < lasts.len() ==> #[trigger] picks_count(picks, i, picks.len() as nat)
                <= #[trigger] picks_count(picks, j, picks.len() as nat) + 1,
{
    lemma_fair_prefix(lasts, ids, picks, tick, picks.len() as nat);
}

} // verus!
