use vstd::prelude::*;

verus! {

/// Result of verifying one paper for one user.
#[derive(Debug, Clone, Copy, PartialEq, Eq)]
pub enum VerifyOutcome {
    /// The verifier answered; `has_yes` tells whether at least one interest
    /// matched with `Yes`.
    Verified { has_yes: bool, tokens: u64 },
    /// The verification failed for good.
    Failed { tokens: u64 },
}

impl VerifyOutcome {
    pub open spec fn tokens_spec(self) -> nat {
        match self {
            VerifyOutcome::Verified { tokens, .. } => tokens as nat,
            VerifyOutcome::Failed { tokens } => tokens as nat,
        }
    }

    pub open spec fn is_yes(self) -> bool {
        match self {
            VerifyOutcome::Verified { has_yes, .. } => has_yes,
            VerifyOutcome::Failed { .. } => false,
        }
    }

    pub open spec fn is_success(self) -> bool {
        self is Verified
    }
}

/// Read-only snapshot of one user's counters.
#[derive(Debug, Clone, Copy, PartialEq, Eq)]
pub struct VerifyInfo {
    pub pending_unverify_count: u64,
    pub processing_count: u64,
    pub success_count: u64,
    pub fail_count: u64,
    pub total: u64,
    pub token_usage: u64,
    pub matched_count: u64,
    pub max_match_limit: u64,
    pub total_matched_count: u64,
}

/// Mathematical model of one user's verification state.
pub struct VerifyModel {
    pub pending: Seq<i64>,
    pub processing: Seq<i64>,
    pub success: nat,
    pub fail: nat,
    pub total: nat,
    pub matched: nat,
    pub max_match: nat,
    pub total_matched: nat,
    pub tokens: nat,
    pub active: bool,
    pub halted: bool,
}

/// Index of the first `x` in `s` from `i` on (`s.len()` when none).
pub open spec fn pos_from(s: Seq<i64>, x: i64, i: int) -> int
    decreases s.len() - i,
{
    if i < 0 || i >= s.len() {
        s.len() as int
    } else if s[i] == x {
        i
    } else {
        pos_from(s, x, i + 1)
    }
}

pub open spec fn pos_of(s: Seq<i64>, x: i64) -> int {
    pos_from(s, x, 0)
}

pub proof fn lemma_pos_from(s: Seq<i64>, x: i64, i: int)
    requires
        0 <= i <= s.len(),
    ensures
        i <= pos_from(s, x, i) <= s.len(),
        pos_from(s, x, i) < s.len() ==> s[pos_from(s, x, i)] == x,
        forall|k: int| i <= k < pos_from(s, x, i) ==> s[k] != x,
    decreases s.len() - i,
{
    if i < s.len() && s[i] != x {
        lemma_pos_from(s, x, i + 1);
    }
}

/// Papers of `s` in order, each kept at its first occurrence.
pub open spec fn dedup(s: Seq<i64>) -> Seq<i64>
    decreases s.len(),
{
    if s.len() == 0 {
        s
    } else {
        let d = dedup(s.drop_last());
        if d.contains(s.last()) {
            d
        } else {
            d.push(s.last())
        }
    }
}

impl VerifyModel {
    pub open spec fn has_work(self) -> bool {
        self.pending.len() + self.processing.len() > 0
    }

    pub open spec fn under_quota(self) -> bool {
        self.max_match == 0 || self.matched < self.max_match
    }

    pub open spec fn limit_reached(self) -> bool {
        self.max_match != 0 && self.matched >= self.max_match
    }

    /// Whether the user belongs to the active set.
    pub open spec fn eligible(self) -> bool {
        !self.halted && self.has_work() && self.under_quota()
    }

    /// Whether the next paper may be handed out: active, a paper pending,
    /// and room under the quota for one more paper in flight.
    pub open spec fn dispatchable(self) -> bool {
        &&& self.active
        &&& self.pending.len() > 0
        &&& self.max_match == 0 || self.matched + self.processing.len() < self.max_match
    }

    pub open spec fn balanced(self) -> bool {
        self.pending.len() + self.processing.len() + self.success + self.fail == self.total
    }

    pub open spec fn wf(self) -> bool {
        &&& self.balanced()
        &&& self.active == self.eligible()
        &&& self.max_match != 0 ==> self.matched + self.processing.len() <= self.max_match
        &&& self.matched <= self.success
        &&& (self.pending + self.processing).no_duplicates()
    }

    /// The state of a freshly seeded run over `papers`.
    pub open spec fn fresh(self, papers: Seq<i64>, max_match: nat) -> VerifyModel {
        let work = dedup(papers);
        VerifyModel {
            pending: work,
            processing: Seq::empty(),
            success: 0,
            fail: 0,
            total: work.len(),
            matched: 0,
            max_match,
            total_matched: self.total_matched,
            tokens: 0,
            active: work.len() > 0,
            halted: false,
        }
    }

    /// Seeding leaves a run alone when it is under way with the same quota,
    /// has not reached it, and already holds every paper.
    pub open spec fn covers(self, papers: Seq<i64>, max_match: nat) -> bool {
        &&& self.total > 0
        &&& !self.limit_reached()
        &&& self.max_match == max_match
        &&& forall|i: int|
            0 <= i < papers.len() ==> #[trigger] (self.pending + self.processing).contains(papers[i])
    }

    pub open spec fn seed(self, papers: Seq<i64>, max_match: nat) -> VerifyModel {
        if self.covers(papers, max_match) {
            self
        } else {
            self.fresh(papers, max_match)
        }
    }

    pub open spec fn take_one(self) -> (VerifyModel, Option<i64>) {
        if self.dispatchable() {
            (
                VerifyModel {
                    pending: self.pending.drop_first(),
                    processing: self.processing.push(self.pending[0]),
                    ..self
                },
                Some(self.pending[0]),
            )
        } else {
            (self, None)
        }
    }

    /// The state of a user that was never seeded.
    pub open spec fn empty() -> VerifyModel {
        VerifyModel {
            pending: Seq::empty(),
            processing: Seq::empty(),
            success: 0,
            fail: 0,
            total: 0,
            matched: 0,
            max_match: 0,
            total_matched: 0,
            tokens: 0,
            active: false,
            halted: false,
        }
    }

    pub open spec fn settle(self) -> VerifyModel {
        VerifyModel { active: self.eligible(), ..self }
    }

    pub open spec fn complete(self, paper: i64, outcome: VerifyOutcome) -> VerifyModel {
        if !self.processing.contains(paper) {
            self
        } else {
            VerifyModel {
                processing: self.processing.remove(pos_of(self.processing, paper)),
                success: if outcome.is_success() { self.success + 1 } else { self.success },
                fail: if outcome.is_success() { self.fail } else { self.fail + 1 },
                tokens: self.tokens + outcome.tokens_spec(),
                matched: if outcome.is_yes() { self.matched + 1 } else { self.matched },
                total_matched: if outcome.is_yes() {
                    self.total_matched + 1
                } else {
                    self.total_matched
                },
                ..self
            }.settle()
        }
    }

    pub open spec fn requeue(self, paper: i64) -> VerifyModel {
        if !self.processing.contains(paper) {
            self
        } else {
            VerifyModel {
                pending: seq![paper] + self.pending,
                processing: self.processing.remove(pos_of(self.processing, paper)),
                ..self
            }
        }
    }

    pub open spec fn reset_for_new_run(self, max_match: nat) -> VerifyModel {
        VerifyModel {
            pending: self.processing + self.pending,
            processing: Seq::empty(),
            success: 0,
            fail: 0,
            matched: 0,
            tokens: 0,
            total: self.pending.len() + self.processing.len(),
            max_match,
            halted: false,
            ..self
        }.settle()
    }

    pub open spec fn finish(self) -> VerifyModel {
        VerifyModel { halted: true, active: false, ..self }
    }

    pub open spec fn info(self) -> VerifyInfo {
        VerifyInfo {
            pending_unverify_count: self.pending.len() as u64,
            processing_count: self.processing.len() as u64,
            success_count: self.success as u64,
            fail_count: self.fail as u64,
            total: self.total as u64,
            token_usage: self.tokens as u64,
            matched_count: self.matched as u64,
            max_match_limit: self.max_match as u64,
            total_matched_count: self.total_matched as u64,
        }
    }
}

pub proof fn lemma_dedup(s: Seq<i64>)
    ensures
        dedup(s).no_duplicates(),
        dedup(s).len() <= s.len(),
        forall|x: i64| dedup(s).contains(x) <==> s.contains(x),
    decreases s.len(),
{
    if s.len() > 0 {
        let t = s.drop_last();
        lemma_dedup(t);
        assert forall|x: i64| s.contains(x) <==> (t.contains(x) || x == s.last()) by {
            if s.contains(x) {
                let i = choose|i: int| 0 <= i < s.len() && s[i] == x;
                if i < s.len() - 1 {
                    assert(t[i] == x);
                }
            }
            if t.contains(x) {
                let i = choose|i: int| 0 <= i < t.len() && t[i] == x;
                assert(s[i] == x);
            }
            if x == s.last() {
                assert(s[s.len() - 1] == x);
            }
        }
        let d = dedup(t);
        if !d.contains(s.last()) {
            let e = d.push(s.last());
            assert forall|x: i64| e.contains(x) <==> (d.contains(x) || x == s.last()) by {
                if e.contains(x) {
                    let i = choose|i: int| 0 <= i < e.len() && e[i] == x;
                    if i < d.len() {
                        assert(d[i] == x);
                    }
                }
                if d.contains(x) {
                    let i = choose|i: int| 0 <= i < d.len() && d[i] == x;
                    assert(e[i] == x);
                }
                if x == s.last() {
                    assert(e[e.len() - 1] == x);
                }
            }
        }
    }
}

/// Distinctness of a concatenation carries over to its left part.
proof fn lemma_prefix_distinct(a: Seq<i64>, b: Seq<i64>)
    requires
        (a + b).no_duplicates(),
    ensures
        a.no_duplicates(),
        forall|i: int, j: int| 0 <= i < a.len() && 0 <= j < b.len() ==> a[i] != b[j],
{
    assert forall|i: int, j: int| 0 <= i < a.len() && 0 <= j < a.len() && i != j implies a[i]
        != a[j] by {
        assert((a + b)[i] == a[i]);
        assert((a + b)[j] == a[j]);
    }
    assert forall|i: int, j: int| 0 <= i < a.len() && 0 <= j < b.len() implies a[i] != b[j] by {
        assert((a + b)[i] == a[i]);
        assert((a + b)[a.len() + j] == b[j]);
    }
}

impl VerifyModel {
    /// Every transition of a user's state keeps it well formed; in
    /// particular pending + processing + success + fail stays equal to
    /// total after each of them.
    pub proof fn lemma_transitions_wf(self, papers: Seq<i64>, max_match: nat, paper: i64, outcome: VerifyOutcome)
        requires
            self.wf(),
        ensures
            self.seed(papers, max_match).wf(),
            self.take_one().0.wf(),
            self.complete(paper, outcome).wf(),
            self.requeue(paper).wf(),
            self.reset_for_new_run(max_match).wf(),
            self.finish().wf(),
            self.seed(papers, max_match).balanced(),
            self.take_one().0.balanced(),
            self.complete(paper, outcome).balanced(),
            self.requeue(paper).balanced(),
            self.reset_for_new_run(max_match).balanced(),
            self.finish().balanced(),
    {
        lemma_dedup(papers);
        assert(dedup(papers) + Seq::<i64>::empty() =~= dedup(papers));
        let a = self.pending;
        let b = self.processing;
        let c = a + b;
        assert forall|i: int| 0 <= i < c.len() implies #[trigger] c[i] == if i < a.len() { a[i] } else { b[i - a.len()] } by {}
        if self.dispatchable() {
            let t = self.take_one().0;
            let q = t.pending + t.processing;
            assert forall|i: int, j: int| 0 <= i < q.len() && 0 <= j < q.len() && i != j implies q[i] != q[j] by {
                let fi = if i < a.len() - 1 { i + 1 } else if i < c.len() - 1 { i + 1 } else { 0 };
                let fj = if j < a.len() - 1 { j + 1 } else if j < c.len() - 1 { j + 1 } else { 0 };
                assert(q[i] == c[fi]);
                assert(q[j] == c[fj]);
            }
        }
        if self.processing.contains(paper) {
            lemma_pos_from(b, paper, 0);
            let k = pos_of(b, paper);
            let br = b.remove(k);
            assert forall|i: int| 0 <= i < br.len() implies #[trigger] br[i] == b[if i < k { i } else { i + 1 }] by {}
            let cm = self.complete(paper, outcome);
            let q = cm.pending + cm.processing;
            assert(q =~= a + br);
            assert forall|i: int, j: int| 0 <= i < q.len() && 0 <= j < q.len() && i != j implies q[i] != q[j] by {
                let fi = if i < a.len() + k { i } else { i + 1 };
                let fj = if j < a.len() + k { j } else { j + 1 };
                assert(q[i] == c[fi]);
                assert(q[j] == c[fj]);
            }
            let r = self.requeue(paper);
            let q2 = r.pending + r.processing;
            assert(q2 =~= seq![paper] + a + br);
            assert forall|i: int, j: int| 0 <= i < q2.len() && 0 <= j < q2.len() && i != j implies q2[i] != q2[j] by {
                let fi = if i == 0 { a.len() + k } else if i - 1 < a.len() + k { i - 1 } else { i };
                let fj = if j == 0 { a.len() + k } else if j - 1 < a.len() + k { j - 1 } else { j };
                assert(q2[i] == c[fi]);
                assert(q2[j] == c[fj]);
            }
        }
        let rs = self.reset_for_new_run(max_match);
        let q3 = rs.pending + rs.processing;
        assert(q3 =~= b + a);
        assert forall|i: int, j: int| 0 <= i < q3.len() && 0 <= j < q3.len() && i != j implies q3[i] != q3[j] by {
            let fi = if i < b.len() { a.len() + i } else { i - b.len() };
            let fj = if j < b.len() { a.len() + j } else { j - b.len() };
            assert(q3[i] == c[fi]);
            assert(q3[j] == c[fj]);
        }
    }
}

/// No counter that only grows within a run has gone down from `a` to `b`.
pub open spec fn counters_le(a: VerifyModel, b: VerifyModel) -> bool {
    &&& a.success <= b.success
    &&& a.fail <= b.fail
    &&& a.tokens <= b.tokens
    &&& a.matched <= b.matched
    &&& a.total_matched <= b.total_matched
}

/// One transition that happens inside a run: handing out a paper,
/// recording its outcome, or putting it back for a retry.
pub open spec fn run_step(a: VerifyModel, b: VerifyModel) -> bool {
    ||| b == a.take_one().0
    ||| exists|p: i64, o: VerifyOutcome| b == #[trigger] a.complete(p, o)
    ||| exists|p: i64| b == #[trigger] a.requeue(p)
}

impl VerifyModel {
    pub proof fn lemma_run_step_monotone(self, b: VerifyModel)
        requires
            run_step(self, b),
        ensures
            counters_le(self, b),
    {
        if exists|p: i64, o: VerifyOutcome| b == #[trigger] self.complete(p, o) {
            let (p, o) = choose|p: i64, o: VerifyOutcome| b == #[trigger] self.complete(p, o);
            assert(b == self.complete(p, o));
        }
    }

    /// Seeding twice with the same papers, with nothing in between, gives
    /// the state of the first seeding; in particular the total is unchanged.
    pub proof fn lemma_seed_idempotent(self, papers: Seq<i64>, max_match: nat)
        ensures
            self.seed(papers, max_match).seed(papers, max_match) == self.seed(papers, max_match),
            self.seed(papers, max_match).seed(papers, max_match).total == self.seed(
                papers,
                max_match,
            ).total,
    {
        lemma_dedup(papers);
        let f = self.fresh(papers, max_match);
        if !self.covers(papers, max_match) {
            if dedup(papers).len() > 0 {
                assert(f.pending + f.processing =~= dedup(papers));
                assert forall|i: int| 0 <= i < papers.len() implies #[trigger] (f.pending
                    + f.processing).contains(papers[i]) by {
                    assert(papers.contains(papers[i]));
                }
                assert(f.covers(papers, max_match));
            } else {
                assert(f.fresh(papers, max_match) == f);
            }
        }
    }

    /// With a quota set, a well-formed state never has more matches than
    /// the quota; once the quota is reached no paper is in flight, none is
    /// handed out, and the user is out of the active set.
    pub proof fn lemma_match_cap(self)
        requires
            self.wf(),
        ensures
            self.max_match != 0 ==> self.matched <= self.max_match,
            self.limit_reached() ==> self.take_one().1 is None && !self.active,
            self.limit_reached() ==> self.processing.len() == 0,
    {
    }
}

/// Across a sequence of in-run transitions (the states that successive
/// result messages report), success, fail, tokens and matched never go
/// down; only an explicit reset for a new run lowers them.
pub proof fn lemma_run_monotone(states: Seq<VerifyModel>, i: int, j: int)
    requires
        forall|k: int| 0 <= k < states.len() - 1 ==> run_step(#[trigger] states[k], states[k + 1]),
        0 <= i <= j < states.len(),
    ensures
        counters_le(states[i], states[j]),
    decreases j - i,
{
    if i < j {
        lemma_run_monotone(states, i, j - 1);
        states[j - 1].lemma_run_step_monotone(states[j]);
    }
}

/// The counters of a snapshot agree: pending + processing + success +
/// fail equals total, matched stays within total, and within the quota
/// when one is set.
pub open spec fn info_consistent(i: VerifyInfo) -> bool {
    &&& i.pending_unverify_count + i.processing_count + i.success_count + i.fail_count == i.total
    &&& i.matched_count <= i.total
    &&& i.max_match_limit != 0 ==> i.matched_count <= i.max_match_limit
}

/// No counter that only grows within a run is lower in `b` than in `a`.
pub open spec fn info_le(a: VerifyInfo, b: VerifyInfo) -> bool {
    &&& a.success_count <= b.success_count
    &&& a.fail_count <= b.fail_count
    &&& a.token_usage <= b.token_usage
    &&& a.matched_count <= b.matched_count
    &&& a.total_matched_count <= b.total_matched_count
}

impl VerifyModel {
    /// Counters that fit in 64 bits.
    pub open spec fn bounded(self) -> bool {
        &&& self.total <= u64::MAX
        &&& self.max_match <= u64::MAX
        &&& self.tokens <= u64::MAX
        &&& self.total_matched <= u64::MAX
    }

    /// Counter balance and the match cap, read off a snapshot.
    pub proof fn lemma_info_consistent(self)
        requires
            self.wf(),
            self.bounded(),
        ensures
            info_consistent(self.info()),
    {
    }

    /// An in-run step never lowers a snapshot's growing counters.
    pub proof fn lemma_info_monotone(self, b: VerifyModel)
        requires
            self.wf(),
            self.bounded(),
            b.wf(),
            b.bounded(),
            counters_le(self, b),
        ensures
            info_le(self.info(), b.info()),
    {
    }
}

/// Whether `x` occurs in `v`.
pub fn vec_contains(v: &Vec<i64>, x: i64) -> (r: bool)
    ensures
        r == v@.contains(x),
{
    let mut i: usize = 0;
    while i < v.len()
        invariant
            0 <= i <= v.len(),
            forall|k: int| 0 <= k < i ==> v@[k] != x,
        decreases v.len() - i,
    {
        if v[i] == x {
            return true;
        }
        i = i + 1;
    }
    false
}

/// Position of the first `x` in `v`, if any.
pub fn index_in(v: &Vec<i64>, x: i64) -> (r: Option<usize>)
    ensures
        r is None <==> !v@.contains(x),
        r matches Some(k) ==> k as int == pos_of(v@, x) && k < v@.len() && v@[k as int] == x,
{
    proof {
        lemma_pos_from(v@, x, 0);
    }
    let mut i: usize = 0;
    while i < v.len()
        invariant
            0 <= i <= v@.len(),
            pos_from(v@, x, 0) == pos_from(v@, x, i as int),
            forall|k: int| 0 <= k < i ==> v@[k] != x,
        decreases v@.len() - i,
    {
        if v[i] == x {
            return Some(i);
        }
        i = i + 1;
    }
    None
}

/// The papers of `papers` in order, each kept at its first occurrence.
pub fn dedup_papers(papers: &Vec<i64>) -> (r: Vec<i64>)
    ensures
        r@ == dedup(papers@),
{
    let mut out: Vec<i64> = Vec::new();
    let mut i: usize = 0;
    while i < papers.len()
        invariant
            0 <= i <= papers.len(),
            out@ == dedup(papers@.take(i as int)),
        decreases papers.len() - i,
    {
        assert(papers@.take(i as int + 1).drop_last() =~= papers@.take(i as int));
        let x = papers[i];
        if !vec_contains(&out, x) {
            out.push(x);
        }
        i = i + 1;
    }
    assert(papers@.take(papers.len() as int) =~= papers@);
    out
}

/// One user's verification state: the papers waiting and in flight, and
/// the counters of the current run.
pub struct UserVerifyState {
    user_id: i64,
    last_dispatch: u64,
    pending: Vec<i64>,
    processing: Vec<i64>,
    success: u64,
    fail: u64,
    total: u64,
    matched: u64,
    max_match: u64,
    total_matched: u64,
    tokens: u64,
    active: bool,
    halted: bool,
}

impl View for UserVerifyState {
    type V = VerifyModel;

    closed spec fn view(&self) -> VerifyModel {
        VerifyModel {
            pending: self.pending@,
            processing: self.processing@,
            success: self.success as nat,
            fail: self.fail as nat,
            total: self.total as nat,
            matched: self.matched as nat,
            max_match: self.max_match as nat,
            total_matched: self.total_matched as nat,
            tokens: self.tokens as nat,
            active: self.active,
            halted: self.halted,
        }
    }
}

impl UserVerifyState {
    pub closed spec fn user(&self) -> i64 {
        self.user_id
    }

    pub closed spec fn dispatched_at(&self) -> u64 {
        self.last_dispatch
    }

    pub open spec fn wf(&self) -> bool {
        &&& self@.wf()
        &&& self@.bounded()
    }

    /// Counters that can still grow by one paper's outcome without
    /// leaving 64 bits.
    pub open spec fn has_room(&self, outcome: VerifyOutcome) -> bool {
        &&& self@.tokens + outcome.tokens_spec() <= u64::MAX
        &&& outcome.is_yes() ==> self@.total_matched < u64::MAX
    }

    pub fn new(user_id: i64) -> (r: UserVerifyState)
        ensures
            r.wf(),
            r.user() == user_id,
            r.dispatched_at() == 0,
            r@ == VerifyModel::empty(),
    {
        let r = UserVerifyState {
            user_id,
            last_dispatch: 0,
            pending: Vec::new(),
            processing: Vec::new(),
            success: 0,
            fail: 0,
            total: 0,
            matched: 0,
            max_match: 0,
            total_matched: 0,
            tokens: 0,
            active: false,
            halted: false,
        };
        proof {
            assert(r@.pending =~= Seq::<i64>::empty());
            assert(r@.processing =~= Seq::<i64>::empty());
        }
        r
    }

    pub fn user_id(&self) -> (r: i64)
        ensures
            r == self.user(),
    {
        self.user_id
    }

    pub fn last_dispatch(&self) -> (r: u64)
        ensures
            r == self.dispatched_at(),
    {
        self.last_dispatch
    }

    pub(crate) fn set_last_dispatch(&mut self, tick: u64)
        ensures
            final(self)@ == old(self)@,
            final(self).user() == old(self).user(),
            final(self).dispatched_at() == tick,
    {
        self.last_dispatch = tick;
    }

    pub fn is_active(&self) -> (r: bool)
        ensures
            r == self@.active,
    {
        self.active
    }

    /// Whether a paper may be handed out now: active, a paper pending, and
    /// room under the quota for one more in flight.
    pub fn is_dispatchable(&self) -> (r: bool)
        requires
            self.wf(),
        ensures
            r == self@.dispatchable(),
    {
        if !self.active || self.pending.len() == 0 {
            return false;
        }
        self.max_match == 0 || (self.processing.len() as u64) < self.max_match - self.matched
    }

    pub fn snapshot(&self) -> (r: VerifyInfo)
        requires
            self.wf(),
        ensures
            r == self@.info(),
            info_consistent(r),
    {
        VerifyInfo {
            pending_unverify_count: self.pending.len() as u64,
            processing_count: self.processing.len() as u64,
            success_count: self.success,
            fail_count: self.fail,
            total: self.total,
            token_usage: self.tokens,
            matched_count: self.matched,
            max_match_limit: self.max_match,
            total_matched_count: self.total_matched,
        }
    }

    fn covers(&self, papers: &Vec<i64>, max_match: u64) -> (r: bool)
        requires
            self.wf(),
        ensures
            r == self@.covers(papers@, max_match as nat),
    {
        if self.total == 0 || self.max_match != max_match {
            return false;
        }
        if self.max_match != 0 && self.matched >= self.max_match {
            return false;
        }
        let mut i: usize = 0;
        while i < papers.len()
            invariant
                0 <= i <= papers.len(),
                self.total > 0,
                self@.max_match == max_match as nat,
                !self@.limit_reached(),
                forall|k: int|
                    0 <= k < i ==> #[trigger] (self.pending@ + self.processing@).contains(papers@[k]),
            decreases papers.len() - i,
        {
            let x = papers[i];
            let inp = vec_contains(&self.pending, x);
            let inq = vec_contains(&self.processing, x);
            assert((self.pending@ + self.processing@).contains(x) <==> (self.pending@.contains(x)
                || self.processing@.contains(x))) by {
                let c = self.pending@ + self.processing@;
                if c.contains(x) {
                    let j = choose|j: int| 0 <= j < c.len() && c[j] == x;
                    if j < self.pending@.len() {
                        assert(self.pending@[j] == x);
                    } else {
                        assert(self.processing@[j - self.pending@.len()] == x);
                    }
                }
                if self.pending@.contains(x) {
                    let j = choose|j: int| 0 <= j < self.pending@.len() && self.pending@[j] == x;
                    assert(c[j] == x);
                }
                if self.processing@.contains(x) {
                    let j = choose|j: int|
                        0 <= j < self.processing@.len() && self.processing@[j] == x;
                    assert(c[self.pending@.len() + j] == x);
                }
            }
            if !inp && !inq {
                assert(!(self@.pending + self@.processing).contains(papers@[i as int]));
                assert(!self@.covers(papers@, max_match as nat));
                return false;
            }
            i = i + 1;
        }
        true
    }

    /// Starts a run over `papers` (the user's unverified papers) with the
    /// match quota `max_match` (0: no quota). Papers are deduplicated in
    /// order; the run's total is their number. When the current run is
    /// under way with the same quota, has not reached it, and already
    /// holds every paper, nothing changes.
    pub fn seed(&mut self, papers: &Vec<i64>, max_match: u64) -> (r: VerifyInfo)
        requires
            old(self).wf(),
        ensures
            final(self).wf(),
            final(self)@ == old(self)@.seed(papers@, max_match as nat),
            final(self).user() == old(self).user(),
            final(self).dispatched_at() == old(self).dispatched_at(),
            r == final(self)@.info(),
            info_consistent(r),
    {
        proof {
            self@.lemma_transitions_wf(papers@, max_match as nat, 0, VerifyOutcome::Failed { tokens: 0 });
            lemma_dedup(papers@);
        }
        if !self.covers(papers, max_match) {
            let work = dedup_papers(papers);
            self.total = work.len() as u64;
            self.active = work.len() > 0;
            self.pending = work;
            self.processing = Vec::new();
            self.success = 0;
            self.fail = 0;
            self.matched = 0;
            self.tokens = 0;
            self.max_match = max_match;
            self.halted = false;
        }
        self.snapshot()
    }

    /// Moves the first pending paper to in-flight and returns it, in the
    /// order of seeding. Gives `None` when there is nothing to hand out: no
    /// pending paper, the run finished or its quota reached, or as many
    /// papers in flight as matches still allowed by the quota.
    pub fn take_one(&mut self) -> (r: Option<i64>)
        requires
            old(self).wf(),
        ensures
            final(self).wf(),
            (final(self)@, r) == old(self)@.take_one(),
            final(self).user() == old(self).user(),
            final(self).dispatched_at() == old(self).dispatched_at(),
            r is Some <==> old(self)@.dispatchable(),
    {
        proof {
            self@.lemma_transitions_wf(Seq::empty(), 0, 0, VerifyOutcome::Failed { tokens: 0 });
        }
        if !self.is_dispatchable() {
            return None;
        }
        let p = self.pending.remove(0);
        self.processing.push(p);
        proof {
            assert(self@.pending =~= old(self)@.pending.drop_first());
        }
        Some(p)
    }

    /// Records the outcome of the in-flight `paper`. Returns whether it was
    /// in flight; when it was not (already recorded, or dropped by a new
    /// seeding) nothing changes, so an outcome is never counted twice.
    pub fn complete(&mut self, paper: i64, outcome: VerifyOutcome) -> (r: bool)
        requires
            old(self).wf(),
            old(self).has_room(outcome),
        ensures
            final(self).wf(),
            final(self)@ == old(self)@.complete(paper, outcome),
            final(self).user() == old(self).user(),
            final(self).dispatched_at() == old(self).dispatched_at(),
            r == old(self)@.processing.contains(paper),
    {
        proof {
            self@.lemma_transitions_wf(Seq::empty(), 0, paper, outcome);
        }
        let k = match index_in(&self.processing, paper) {
            Some(k) => k,
            None => {
                return false;
            },
        };
        self.processing.remove(k);
        match outcome {
            VerifyOutcome::Verified { has_yes, tokens } => {
                self.success = self.success + 1;
                self.tokens = self.tokens + tokens;
                if has_yes {
                    self.matched = self.matched + 1;
                    self.total_matched = self.total_matched + 1;
                }
            },
            VerifyOutcome::Failed { tokens } => {
                self.fail = self.fail + 1;
                self.tokens = self.tokens + tokens;
            },
        }
        self.active = !self.halted && (self.pending.len() > 0 || self.processing.len() > 0) && (
        self.max_match == 0 || self.matched < self.max_match);
        true
    }

    /// Puts the in-flight `paper` back at the head of the pending papers,
    /// for another attempt. Returns whether it was in flight.
    pub fn requeue(&mut self, paper: i64) -> (r: bool)
        requires
            old(self).wf(),
        ensures
            final(self).wf(),
            final(self)@ == old(self)@.requeue(paper),
            final(self).user() == old(self).user(),
            final(self).dispatched_at() == old(self).dispatched_at(),
            r == old(self)@.processing.contains(paper),
    {
        proof {
            self@.lemma_transitions_wf(Seq::empty(), 0, paper, VerifyOutcome::Failed { tokens: 0 });
        }
        let k = match index_in(&self.processing, paper) {
            Some(k) => k,
            None => {
                return false;
            },
        };
        self.processing.remove(k);
        self.pending.insert(0, paper);
        proof {
            assert(self@.pending =~= seq![paper] + old(self)@.pending);
        }
        true
    }

    /// Starts a new run over the papers still held: clears matched,
    /// success, fail and tokens, keeps the lifetime match count, sets the
    /// quota, and makes the total the number of papers held. Papers in
    /// flight go back to the head of the pending papers: their outcome
    /// belonged to the old run and is no longer counted.
    pub fn reset_for_new_run(&mut self, max_match: u64)
        requires
            old(self).wf(),
        ensures
            final(self).wf(),
            final(self)@ == old(self)@.reset_for_new_run(max_match as nat),
            final(self).user() == old(self).user(),
            final(self).dispatched_at() == old(self).dispatched_at(),
    {
        proof {
            self@.lemma_transitions_wf(Seq::empty(), max_match as nat, 0, VerifyOutcome::Failed { tokens: 0 });
        }
        self.success = 0;
        self.fail = 0;
        self.matched = 0;
        self.tokens = 0;
        let mut back: Vec<i64> = Vec::new();
        std::mem::swap(&mut back, &mut self.processing);
        let mut rest: Vec<i64> = Vec::new();
        std::mem::swap(&mut rest, &mut self.pending);
        back.append(&mut rest);
        self.pending = back;
        self.total = self.pending.len() as u64;
        self.max_match = max_match;
        self.halted = false;
        self.active = self.pending.len() > 0;
        proof {
            assert(self@.pending =~= old(self)@.processing + old(self)@.pending);
            assert(self@.processing =~= Seq::<i64>::empty());
        }
    }

    /// Ends the run without dropping its counters: the user leaves the
    /// active set until it is seeded again.
    pub fn finish(&mut self)
        requires
            old(self).wf(),
        ensures
            final(self).wf(),
            final(self)@ == old(self)@.finish(),
            final(self).user() == old(self).user(),
            final(self).dispatched_at() == old(self).dispatched_at(),
    {
        proof {
            self@.lemma_transitions_wf(Seq::empty(), 0, 0, VerifyOutcome::Failed { tokens: 0 });
        }
        self.halted = true;
        self.active = false;
    }
}

} // verus!
