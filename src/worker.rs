use vstd::prelude::*;
use crate::error::{failure_action, failure_action_spec, ErrorKind, FailureAction};
use crate::scheduler::{lemma_registry_counters, VerifyRegistry, WorkUnit};
use crate::listing::{effective_max_match, effective_max_match_spec};
use crate::stream::{has_yes, has_yes_match, StreamState, VerificationItem, VerifyResultMessage};
use crate::verification::{insert_all, unverified_among, VerificationTable};
use crate::verify_state::{info_consistent, info_le, run_step, VerifyInfo, VerifyModel, VerifyOutcome};

verus! {

/// Persists the verdicts of a verified unit (skipping rows another worker
/// already wrote), records the outcome in the user's counters, and
/// returns the message to publish: the verdicts with the user's counters
/// after the update. `None` when the paper was no longer in flight (its
/// outcome was recorded already, or the user was reseeded): nothing is
/// counted twice and nothing is published.
pub fn record_result(
    registry: &mut VerifyRegistry,
    table: &mut VerificationTable,
    unit: WorkUnit,
    verdicts: Vec<VerificationItem>,
    tokens: u64,
) -> (r: Option<VerifyResultMessage>)
    requires
        old(registry).wf(),
        old(table).wf(),
        old(registry).has_room(unit.user_id, VerifyOutcome::Verified { has_yes: has_yes(verdicts@), tokens }),
    ensures
        final(registry).wf(),
        final(table).wf(),
        final(table)@ == insert_all(old(table)@, verdicts@, verdicts@.len() as nat),
        ({
            let outcome = VerifyOutcome::Verified { has_yes: has_yes(verdicts@), tokens };
            let m = old(registry).model(unit.user_id);
            &&& m is Some ==> final(registry).model(unit.user_id) == Some(m.unwrap().complete(unit.paper_id, outcome))
            &&& m is None ==> final(registry).model(unit.user_id) is None
            &&& r is Some <==> (m is Some && m.unwrap().processing.contains(unit.paper_id))
            &&& r matches Some(msg) ==> msg.user_id == unit.user_id && msg.paper_id == unit.paper_id
                && msg.verifications@ == verdicts@
                && msg.verify_info == final(registry).model(unit.user_id).unwrap().info()
                && info_consistent(msg.verify_info)
                && info_le(m.unwrap().info(), msg.verify_info)
        }),
        final(registry).others_unchanged(old(registry), unit.user_id),
{
    table.insert_ignoring_conflicts(&verdicts);
    let yes = has_yes_match(&verdicts);
    let outcome = VerifyOutcome::Verified { has_yes: yes, tokens };
    let ghost before = *registry;
    let applied = registry.complete(unit.user_id, unit.paper_id, outcome);
    if !applied {
        return None;
    }
    proof {
        lemma_registry_counters(&before, unit.user_id);
        lemma_registry_counters(registry, unit.user_id);
        let m = before.model(unit.user_id).unwrap();
        let n = registry.model(unit.user_id).unwrap();
        assert(run_step(m, n)) by {
            assert(n == m.complete(unit.paper_id, outcome));
        }
        m.lemma_run_step_monotone(n);
        m.lemma_info_monotone(n);
    }
    match registry.snapshot(unit.user_id) {
        Some(info) => Some(
            VerifyResultMessage {
                user_id: unit.user_id,
                paper_id: unit.paper_id,
                verifications: verdicts,
                verify_info: info,
            },
        ),
        None => None,
    }
}

/// Handles a unit whose verification failed for the `attempts`-th time:
/// puts the paper back, counts it as failed, or drops the user, as
/// `failure_action` decides. Returns the action taken.
pub fn handle_failure(
    registry: &mut VerifyRegistry,
    unit: WorkUnit,
    kind: ErrorKind,
    attempts: u32,
    max_attempts: u32,
) -> (r: FailureAction)
    requires
        old(registry).wf(),
    ensures
        final(registry).wf(),
        r == failure_action_spec(kind, attempts, max_attempts),
        ({
            let m = old(registry).model(unit.user_id);
            let u = unit.user_id;
            &&& r == FailureAction::HardFinish ==> final(registry).model(u) is None
            &&& r == FailureAction::Requeue && m is Some ==> final(registry).model(u) == Some(m.unwrap().requeue(unit.paper_id))
            &&& r == FailureAction::MarkFailed && m is Some ==> final(registry).model(u) == Some(
                m.unwrap().complete(unit.paper_id, VerifyOutcome::Failed { tokens: 0 }),
            )
            &&& r != FailureAction::HardFinish && m is None ==> final(registry).model(u) is None
        }),
        final(registry).others_unchanged(old(registry), unit.user_id),
{
    let action = failure_action(kind, attempts, max_attempts);
    match action {
        FailureAction::Requeue => {
            registry.requeue(unit.user_id, unit.paper_id);
        },
        FailureAction::MarkFailed => {
            proof {
                crate::scheduler::lemma_index_of(registry.slots(), unit.user_id);
            }
            registry.complete(unit.user_id, unit.paper_id, VerifyOutcome::Failed { tokens: 0 });
        },
        FailureAction::HardFinish => {
            registry.finish(unit.user_id, true);
        },
    }
    action
}

/// After a user's interests or subscriptions changed: starts a new run
/// (matched count back to 0, quota `max_match`) and seeds it with
/// `papers`, the user's unverified papers under the new settings.
pub fn reseed_after_update(registry: &mut VerifyRegistry, user_id: i64, papers: &Vec<i64>, max_match: u64) -> (r: VerifyInfo)
    requires
        old(registry).wf(),
    ensures
        final(registry).wf(),
        ({
            let m = old(registry).model(user_id);
            let base = if m is Some { m.unwrap().reset_for_new_run(max_match as nat) } else { VerifyModel::empty() };
            final(registry).model(user_id) == Some(base.seed(papers@, max_match as nat))
        }),
        r == final(registry).model(user_id).unwrap().info(),
        final(registry).others_unchanged(old(registry), user_id),
{
    registry.reset_for_new_run(user_id, max_match);
    registry.verify(user_id, papers, max_match)
}

/// Seeds user `u` for verification: the candidate papers that still
/// lack a verdict against one of its active interests, at most
/// `max_rss_paper` of them, with the match quota `max_match`; see
/// `VerifyRegistry::verify`.
pub fn verify(
    registry: &mut VerifyRegistry,
    table: &VerificationTable,
    user_id: i64,
    candidates: &Vec<i64>,
    interests: &Vec<i64>,
    max_rss_paper: usize,
    max_match: u64,
) -> (r: VerifyInfo)
    requires
        old(registry).wf(),
    ensures
        final(registry).wf(),
        ({
            let all = unverified_among(table@, user_id, candidates@, interests@, candidates@.len() as nat);
            let work = if all.len() <= max_rss_paper { all } else { all.take(max_rss_paper as int) };
            final(registry).model(user_id) == Some(VerifyRegistry::or_empty(old(registry).model(user_id)).seed(work, max_match as nat))
        }),
        r == final(registry).model(user_id).unwrap().info(),
        final(registry).others_unchanged(old(registry), user_id),
{
    let papers = table.unverified_paper_ids(user_id, candidates, interests, max_rss_paper);
    registry.verify(user_id, &papers, max_match)
}

/// Opens a verification stream for user `u`: seeds the user as `verify`
/// does, with the requested match quota (a non-positive one meaning no
/// quota) or else `default_quota`, and returns the new stream with the
/// counters after seeding.
pub fn stream_verify(
    registry: &mut VerifyRegistry,
    table: &VerificationTable,
    user_id: i64,
    candidates: &Vec<i64>,
    interests: &Vec<i64>,
    max_rss_paper: usize,
    requested_quota: Option<i32>,
    default_quota: u64,
) -> (r: (StreamState, VerifyInfo))
    requires
        old(registry).wf(),
    ensures
        final(registry).wf(),
        r.0 == (StreamState { user_id, ended: false }),
        ({
            let quota = effective_max_match_spec(requested_quota, default_quota);
            let all = unverified_among(table@, user_id, candidates@, interests@, candidates@.len() as nat);
            let work = if all.len() <= max_rss_paper { all } else { all.take(max_rss_paper as int) };
            final(registry).model(user_id) == Some(VerifyRegistry::or_empty(old(registry).model(user_id)).seed(work, quota as nat))
        }),
        r.1 == final(registry).model(user_id).unwrap().info(),
        final(registry).others_unchanged(old(registry), user_id),
{
    let quota = effective_max_match(requested_quota, default_quota);
    let info = verify(registry, table, user_id, candidates, interests, max_rss_paper, quota);
    (StreamState::new(user_id), info)
}

} // verus!
