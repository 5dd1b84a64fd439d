use vstd::prelude::*;
use crate::error::{CoreError, ErrorKind};
use crate::ids::random_id;

verus! {

/// Kind of a debounced update.
#[derive(Debug, Clone, Copy, PartialEq, Eq, Structural)]
pub enum TaskType {
    UserInterests,
    UserSubscriptions,
}

/// What a debounced update asks for.
#[derive(Debug, Clone)]
pub enum UpdateTaskData {
    /// The user's whole interest list, and the model version of the
    /// embeddings of interests that get created.
    UserInterests { interests: Vec<String>, version: String },
    /// The user's whole list of subscribed sources.
    UserSubscriptions { source_ids: Vec<i32> },
}

/// The one stored update of a (task type, user) pair.
#[derive(Debug, Clone)]
pub struct PendingRequest {
    pub task_type: TaskType,
    pub user_id: i64,
    pub request_id: String,
    pub data: UpdateTaskData,
    pub earliest_run_at: u64,
}

/// A one-shot job to run at `run_at` for the update `request_id`.
#[derive(Debug, Clone)]
pub struct ScheduledJob {
    pub task_type: TaskType,
    pub user_id: i64,
    pub request_id: String,
    pub run_at: u64,
}

/// What a fired job does.
#[derive(Debug, Clone)]
pub enum FireDecision {
    /// Apply this update now; the stored record is gone.
    Run(UpdateTaskData),
    /// A newer submission replaced this one (or it ran already): exit
    /// without side effects.
    Superseded,
    /// Fired before its time: run again at the given time.
    NotYet(u64),
}

/// Model of a stored update.
pub struct PendingModel {
    pub request_id: Seq<char>,
    pub data: UpdateTaskData,
    pub earliest_run_at: nat,
}

pub open spec fn key_of(r: PendingRequest) -> (TaskType, i64) {
    (r.task_type, r.user_id)
}

pub open spec fn model_of(r: PendingRequest) -> PendingModel {
    PendingModel { request_id: r.request_id@, data: r.data, earliest_run_at: r.earliest_run_at as nat }
}

pub open spec fn to_map(recs: Seq<PendingRequest>) -> Map<(TaskType, i64), PendingModel>
    decreases recs.len(),
{
    if recs.len() == 0 {
        Map::empty()
    } else {
        to_map(recs.drop_last()).insert(key_of(recs.last()), model_of(recs.last()))
    }
}

pub open spec fn unique_keys(recs: Seq<PendingRequest>) -> bool {
    forall|i: int, j: int|
        0 <= i < recs.len() && 0 <= j < recs.len() && i != j ==> key_of(#[trigger] recs[i]) != key_of(
            #[trigger] recs[j],
        )
}

proof fn lemma_to_map(recs: Seq<PendingRequest>)
    requires
        unique_keys(recs),
    ensures
        forall|k: (TaskType, i64)| #[trigger] to_map(recs).contains_key(k) <==> exists|i: int|
            0 <= i < recs.len() && key_of(#[trigger] recs[i]) == k,
        forall|i: int| 0 <= i < recs.len() ==> #[trigger] to_map(recs)[key_of(recs[i])] == model_of(recs[i]),
    decreases recs.len(),
{
    if recs.len() > 0 {
        let t = recs.drop_last();
        assert(unique_keys(t)) by {
            assert forall|i: int, j: int|
                0 <= i < t.len() && 0 <= j < t.len() && i != j implies key_of(#[trigger] t[i]) != key_of(
                    #[trigger] t[j],
                ) by {
                assert(t[i] == recs[i]);
                assert(t[j] == recs[j]);
            }
        }
        lemma_to_map(t);
        assert forall|k: (TaskType, i64)| #[trigger] to_map(recs).contains_key(k) <==> exists|i: int|
            0 <= i < recs.len() && key_of(#[trigger] recs[i]) == k by {
            if to_map(t).contains_key(k) {
                let i = choose|i: int| 0 <= i < t.len() && key_of(#[trigger] t[i]) == k;
                assert(recs[i] == t[i]);
            }
            if k == key_of(recs.last()) {
                assert(key_of(recs[recs.len() - 1]) == k);
            }
            if exists|i: int| 0 <= i < recs.len() && key_of(#[trigger] recs[i]) == k {
                let i = choose|i: int| 0 <= i < recs.len() && key_of(#[trigger] recs[i]) == k;
                if i < recs.len() - 1 {
                    assert(t[i] == recs[i]);
                }
            }
        }
        assert forall|i: int| 0 <= i < recs.len() implies #[trigger] to_map(recs)[key_of(recs[i])] == model_of(recs[i]) by {
            if i < recs.len() - 1 {
                assert(t[i] == recs[i]);
                assert(key_of(recs[i]) != key_of(recs[recs.len() - 1]));
            }
        }
    }
}

proof fn lemma_to_map_remove(recs: Seq<PendingRequest>, i: int)
    requires
        unique_keys(recs),
        0 <= i < recs.len(),
    ensures
        unique_keys(recs.remove(i)),
        to_map(recs.remove(i)) == to_map(recs).remove(key_of(recs[i])),
    decreases recs.len(),
{
    let r = recs.remove(i);
    assert forall|k: int| 0 <= k < r.len() implies #[trigger] r[k] == recs[if k < i { k } else { k + 1 }] by {}
    assert(unique_keys(r)) by {
        assert forall|a: int, b: int|
            0 <= a < r.len() && 0 <= b < r.len() && a != b implies key_of(#[trigger] r[a]) != key_of(#[trigger] r[b]) by {
            assert(r[a] == recs[if a < i { a } else { a + 1 }]);
            assert(r[b] == recs[if b < i { b } else { b + 1 }]);
        }
    }
    lemma_to_map(recs);
    lemma_to_map(r);
    let k0 = key_of(recs[i]);
    assert forall|k: (TaskType, i64)| #[trigger] to_map(r).contains_key(k) <==> to_map(recs).remove(k0).contains_key(k) by {
        if to_map(r).contains_key(k) {
            let a = choose|a: int| 0 <= a < r.len() && key_of(#[trigger] r[a]) == k;
            assert(r[a] == recs[if a < i { a } else { a + 1 }]);
        }
        if to_map(recs).contains_key(k) && k != k0 {
            let a = choose|a: int| 0 <= a < recs.len() && key_of(#[trigger] recs[a]) == k;
            assert(a != i);
            let b = if a < i { a } else { a - 1 };
            assert(r[b] == recs[a]);
        }
    }
    assert forall|k: (TaskType, i64)| #[trigger] to_map(r).contains_key(k) implies to_map(r)[k] == to_map(recs)[k] by {
        let a = choose|a: int| 0 <= a < r.len() && key_of(#[trigger] r[a]) == k;
        assert(r[a] == recs[if a < i { a } else { a + 1 }]);
    }
    assert(to_map(r) =~= to_map(recs).remove(k0));
}

/// Debounces updates: per (task type, user) at most one stored update,
/// which each new submission replaces.
pub struct UpdateTaskManager {
    debounce_ms: u64,
    pending: Vec<PendingRequest>,
}

/// Model of the stored updates, keyed by (task type, user).
pub struct MergeModel {
    pub debounce_ms: nat,
    pub pending: Map<(TaskType, i64), PendingModel>,
}

impl MergeModel {
    pub open spec fn submit(self, t: TaskType, u: i64, data: UpdateTaskData, request_id: Seq<char>, now: nat) -> MergeModel {
        MergeModel {
            pending: self.pending.insert(
                (t, u),
                PendingModel { request_id, data, earliest_run_at: now + self.debounce_ms },
            ),
            ..self
        }
    }

    /// Whether the job of `request_id` for (t, u) runs when fired at `now`.
    pub open spec fn fires(self, t: TaskType, u: i64, request_id: Seq<char>, now: nat) -> bool {
        &&& self.pending.contains_key((t, u))
        &&& self.pending[(t, u)].request_id == request_id
        &&& now >= self.pending[(t, u)].earliest_run_at
    }

    /// Whether the job of `request_id` for (t, u) is still the current one.
    pub open spec fn current(self, t: TaskType, u: i64, request_id: Seq<char>) -> bool {
        self.pending.contains_key((t, u)) && self.pending[(t, u)].request_id == request_id
    }

    pub open spec fn fire(self, t: TaskType, u: i64, request_id: Seq<char>, now: nat) -> MergeModel {
        if self.fires(t, u, request_id, now) {
            MergeModel { pending: self.pending.remove((t, u)), ..self }
        } else {
            self
        }
    }
}

/// The state after submitting, for the same (t, u), the updates
/// `datas[k]` with request ids `ids[k]` at times `times[k]`, in order.
pub open spec fn submit_all(m: MergeModel, t: TaskType, u: i64, datas: Seq<UpdateTaskData>, ids: Seq<Seq<char>>, times: Seq<nat>) -> MergeModel
    decreases datas.len(),
{
    if datas.len() == 0 {
        m
    } else {
        let n = (datas.len() - 1) as int;
        submit_all(m, t, u, datas.take(n), ids.take(n), times.take(n)).submit(t, u, datas[n], ids[n], times[n])
    }
}

proof fn lemma_submit_all(m: MergeModel, t: TaskType, u: i64, datas: Seq<UpdateTaskData>, ids: Seq<Seq<char>>, times: Seq<nat>)
    requires
        datas.len() > 0,
        ids.len() == datas.len(),
        times.len() == datas.len(),
    ensures
        ({
            let r = submit_all(m, t, u, datas, ids, times);
            let n = datas.len() - 1;
            &&& r.debounce_ms == m.debounce_ms
            &&& r.pending.contains_key((t, u))
            &&& r.pending[(t, u)] == PendingModel { request_id: ids[n], data: datas[n], earliest_run_at: times[n] + m.debounce_ms }
            &&& forall|k: (TaskType, i64)| k != (t, u) ==> (#[trigger] r.pending.contains_key(k) <==> m.pending.contains_key(k))
            &&& forall|k: (TaskType, i64)| k != (t, u) && m.pending.contains_key(k) ==> #[trigger] r.pending[k] == m.pending[k]
        }),
    decreases datas.len(),
{
    let n = (datas.len() - 1) as int;
    let prev = submit_all(m, t, u, datas.take(n), ids.take(n), times.take(n));
    if n > 0 {
        lemma_submit_all(m, t, u, datas.take(n), ids.take(n), times.take(n));
    } else {
        assert(prev == m);
    }
    let r = submit_all(m, t, u, datas, ids, times);
    assert(r == prev.submit(t, u, datas[n], ids[n], times[n]));
    assert(r.pending == prev.pending.insert((t, u), PendingModel { request_id: ids[n], data: datas[n], earliest_run_at: times[n] + prev.debounce_ms }));
}

/// Debounce merge: after a burst of submissions for the same (task type,
/// user), with distinct request ids, exactly one job runs, the last one,
/// with the last submitted update; every earlier job finds itself
/// superseded, and once the last one has run no job of the burst runs
/// again.
pub proof fn lemma_last_submission_wins(m: MergeModel, t: TaskType, u: i64, datas: Seq<UpdateTaskData>, ids: Seq<Seq<char>>, times: Seq<nat>, now: nat)
    requires
        datas.len() > 0,
        ids.len() == datas.len(),
        times.len() == datas.len(),
        forall|a: int, b: int| 0 <= a < ids.len() && 0 <= b < ids.len() && a != b ==> ids[a] != ids[b],
    ensures
        ({
            let r = submit_all(m, t, u, datas, ids, times);
            let n = datas.len() - 1;
            &&& forall|k: int| 0 <= k < n ==> !r.current(t, u, #[trigger] ids[k])
            &&& r.current(t, u, ids[n])
            &&& r.pending[(t, u)].data == datas[n]
            &&& now >= times[n] + m.debounce_ms ==> r.fires(t, u, ids[n], now)
            &&& now >= times[n] + m.debounce_ms ==> forall|k: int, later: nat|
                0 <= k <= n ==> !#[trigger] r.fire(t, u, ids[n], now).fires(t, u, ids[k], later)
        }),
{
    lemma_submit_all(m, t, u, datas, ids, times);
}

impl View for UpdateTaskManager {
    type V = MergeModel;

    closed spec fn view(&self) -> MergeModel {
        MergeModel { debounce_ms: self.debounce_ms as nat, pending: to_map(self.pending@) }
    }
}

impl UpdateTaskManager {
    pub closed spec fn wf(&self) -> bool {
        unique_keys(self.pending@)
    }

    /// A manager with no stored update and the given debounce window.
    pub fn new(debounce_ms: u64) -> (r: UpdateTaskManager)
        ensures
            r.wf(),
            r@.debounce_ms == debounce_ms,
            r@.pending == Map::<(TaskType, i64), PendingModel>::empty(),
    {
        UpdateTaskManager { debounce_ms, pending: Vec::new() }
    }

    pub fn debounce_ms(&self) -> (r: u64)
        ensures
            r == self@.debounce_ms,
    {
        self.debounce_ms
    }

    fn find(&self, t: TaskType, u: i64) -> (r: Option<usize>)
        requires
            self.wf(),
        ensures
            r is Some ==> r.unwrap() < self.pending@.len() && key_of(self.pending@[r.unwrap() as int]) == (t, u),
            r is None ==> forall|i: int| 0 <= i < self.pending@.len() ==> key_of(#[trigger] self.pending@[i]) != (t, u),
    {
        let mut i: usize = 0;
        while i < self.pending.len()
            invariant
                0 <= i <= self.pending.len(),
                forall|k: int| 0 <= k < i ==> key_of(#[trigger] self.pending@[k]) != (t, u),
            decreases self.pending.len() - i,
        {
            if self.pending[i].task_type == t && self.pending[i].user_id == u {
                return Some(i);
            }
            i = i + 1;
        }
        None
    }

    /// Stores `data` as the update of (t, u) under `request_id`, replacing
    /// any earlier one, and returns the job to schedule at `now` plus the
    /// debounce window.
    pub fn submit_with_id(&mut self, t: TaskType, u: i64, data: UpdateTaskData, request_id: String, now: u64) -> (job: ScheduledJob)
        requires
            old(self).wf(),
            now + old(self)@.debounce_ms <= u64::MAX,
        ensures
            final(self).wf(),
            final(self)@ == old(self)@.submit(t, u, data, request_id@, now as nat),
            job.task_type == t,
            job.user_id == u,
            job.request_id@ == request_id@,
            job.run_at == now + old(self)@.debounce_ms,
    {
        proof {
            lemma_to_map(self.pending@);
        }
        let ghost before = self.pending@;
        match self.find(t, u) {
            Some(i) => {
                proof {
                    lemma_to_map_remove(self.pending@, i as int);
                }
                self.pending.remove(i);
            },
            None => {
                proof {
                    assert(!to_map(self.pending@).contains_key((t, u)));
                    assert(to_map(self.pending@).remove((t, u)) =~= to_map(self.pending@));
                }
            },
        }
        let ghost mid = self.pending@;
        proof {
            lemma_to_map(mid);
            assert(!to_map(mid).contains_key((t, u)));
        }
        let run_at = now + self.debounce_ms;
        let job = ScheduledJob { task_type: t, user_id: u, request_id: request_id.clone(), run_at };
        let rec = PendingRequest { task_type: t, user_id: u, request_id, data, earliest_run_at: run_at };
        self.pending.push(rec);
        proof {
            let after = self.pending@;
            assert(after.drop_last() =~= mid);
            assert forall|a: int, b: int|
                0 <= a < after.len() && 0 <= b < after.len() && a != b implies key_of(#[trigger] after[a]) != key_of(#[trigger] after[b]) by {
                if a < mid.len() {
                    assert(after[a] == mid[a]);
                }
                if b < mid.len() {
                    assert(after[b] == mid[b]);
                }
            }
            assert(to_map(after) =~= to_map(before).insert((t, u), model_of(rec)));
        }
        job
    }

    /// Stores `data` as the update of (t, u) under a fresh random request
    /// id; see `submit_with_id`.
    pub fn submit(&mut self, t: TaskType, u: i64, data: UpdateTaskData, now: u64) -> (job: ScheduledJob)
        requires
            old(self).wf(),
            now + old(self)@.debounce_ms <= u64::MAX,
        ensures
            final(self).wf(),
            final(self)@ == old(self)@.submit(t, u, data, job.request_id@, now as nat),
            job.task_type == t,
            job.user_id == u,
            job.request_id@.len() == 36,
            job.run_at == now + old(self)@.debounce_ms,
    {
        let id = random_id();
        self.submit_with_id(t, u, data, id, now)
    }

    /// Decides what the job of `job.request_id` does when it fires at
    /// `now`: run the stored update (taking it out) if it is still the
    /// current one and its time has come, wait if it fired early, exit if a
    /// newer submission replaced it.
    pub fn fire(&mut self, job: &ScheduledJob, now: u64) -> (r: FireDecision)
        requires
            old(self).wf(),
        ensures
            final(self).wf(),
            final(self)@ == old(self)@.fire(job.task_type, job.user_id, job.request_id@, now as nat),
            r is Run <==> old(self)@.fires(job.task_type, job.user_id, job.request_id@, now as nat),
            r is Superseded <==> !old(self)@.current(job.task_type, job.user_id, job.request_id@),
            r matches FireDecision::Run(d) ==> d == old(self)@.pending[(job.task_type, job.user_id)].data,
            r matches FireDecision::NotYet(at) ==> at == old(self)@.pending[(job.task_type, job.user_id)].earliest_run_at
                && now < at,
    {
        let t = job.task_type;
        let u = job.user_id;
        proof {
            lemma_to_map(self.pending@);
        }
        match self.find(t, u) {
            None => {
                proof {
                    assert(!to_map(self.pending@).contains_key((t, u)));
                }
                FireDecision::Superseded
            },
            Some(i) => {
                if self.pending[i].request_id != job.request_id {
                    return FireDecision::Superseded;
                }
                if now < self.pending[i].earliest_run_at {
                    return FireDecision::NotYet(self.pending[i].earliest_run_at);
                }
                proof {
                    lemma_to_map_remove(self.pending@, i as int);
                }
                let rec = self.pending.remove(i);
                FireDecision::Run(rec.data)
            },
        }
    }
}

/// Queues a replacement of user `user_id`'s interests by `interests`
/// (embeddings made with model `version`), debounced. Fails with a
/// validation error, before anything is stored, when the list is longer
/// than `max_prompt_number`.
pub fn set_interests(
    manager: &mut UpdateTaskManager,
    user_id: i64,
    interests: Vec<String>,
    version: String,
    max_prompt_number: usize,
    now: u64,
) -> (r: Result<ScheduledJob, CoreError>)
    requires
        old(manager).wf(),
        now + old(manager)@.debounce_ms <= u64::MAX,
    ensures
        final(manager).wf(),
        r is Err <==> interests@.len() > max_prompt_number,
        r matches Err(e) ==> e.kind == ErrorKind::Validation && final(manager)@ == old(manager)@,
        r matches Ok(job) ==> {
            &&& job.task_type == TaskType::UserInterests
            &&& job.user_id == user_id
            &&& job.request_id@.len() == 36
            &&& job.run_at == now + old(manager)@.debounce_ms
            &&& final(manager)@ == old(manager)@.submit(
                TaskType::UserInterests,
                user_id,
                UpdateTaskData::UserInterests { interests, version },
                job.request_id@,
                now as nat,
            )
        },
{
    if interests.len() > max_prompt_number {
        return Err(CoreError { kind: ErrorKind::Validation, stage: "check-interests-limit".to_string() });
    }
    let data = UpdateTaskData::UserInterests { interests, version };
    Ok(manager.submit(TaskType::UserInterests, user_id, data, now))
}

/// Queues a replacement of user `user_id`'s subscriptions by the sources
/// `source_ids` (empty: drop them all), debounced.
pub fn batch_subscriptions(manager: &mut UpdateTaskManager, user_id: i64, source_ids: Vec<i32>, now: u64) -> (job: ScheduledJob)
    requires
        old(manager).wf(),
        now + old(manager)@.debounce_ms <= u64::MAX,
    ensures
        final(manager).wf(),
        job.task_type == TaskType::UserSubscriptions,
        job.user_id == user_id,
        job.request_id@.len() == 36,
        job.run_at == now + old(manager)@.debounce_ms,
        final(manager)@ == old(manager)@.submit(
            TaskType::UserSubscriptions,
            user_id,
            UpdateTaskData::UserSubscriptions { source_ids },
            job.request_id@,
            now as nat,
        ),
{
    manager.submit(TaskType::UserSubscriptions, user_id, UpdateTaskData::UserSubscriptions { source_ids }, now)
}

} // verus!
