use feed_engine::scheduler::VerifyRegistry;
use feed_engine::stream::{StreamEvent, StreamInput, StreamState, VerificationItem, VerificationMatch};
use feed_engine::verification::VerificationTable;
use feed_engine::verify_state::VerifyOutcome;
use feed_engine::worker::{handle_failure, record_result, reseed_after_update, stream_verify, verify};
use feed_engine::error::{ErrorKind, FailureAction};
use feed_engine::scheduler::WorkUnit;

fn verdict(user: i64, paper: i64, interest: i64, m: VerificationMatch) -> VerificationItem {
    VerificationItem { user_id: user, paper_id: paper, interest_id: interest, match_: m }
}

#[test]
fn match_limit_stops_dispatch_after_fifth_yes() {
    let mut reg = VerifyRegistry::new();
    let mut table = VerificationTable::new();
    let papers: Vec<i64> = (1..=20).collect();
    reg.verify(7, &papers, 5);
    let yes = [1, 2, 4, 7, 9];
    let mut stream = StreamState::new(7);
    let mut limit_events = 0;
    let mut paper_events = 0;
    while let Some(unit) = reg.dispatch() {
        let m = if yes.contains(&unit.paper_id) { VerificationMatch::Yes } else { VerificationMatch::No };
        let msg = record_result(&mut reg, &mut table, unit, vec![verdict(7, unit.paper_id, 1, m)], 3).unwrap();
        for e in stream.on_input(StreamInput::Message { message: msg, now: 0 }) {
            match e {
                StreamEvent::MatchLimitReached { matched, max_limit, .. } => {
                    assert_eq!((matched, max_limit), (5, 5));
                    limit_events += 1;
                }
                StreamEvent::PaperVerified { .. } => paper_events += 1,
                _ => {}
            }
        }
    }
    let info = reg.snapshot(7).unwrap();
    assert_eq!(info.matched_count, 5);
    assert_eq!(info.pending_unverify_count, 11);
    assert_eq!(info.processing_count, 0);
    assert_eq!(info.success_count, 9);
    assert_eq!(limit_events, 1);
    assert_eq!(paper_events, 5);
    assert!(reg.active_users().is_empty());
    assert!(stream.on_input(StreamInput::Tick { info, now: 1 }).is_empty());
}

#[test]
fn repeated_verify_is_idempotent() {
    let mut reg = VerifyRegistry::new();
    let first = reg.verify(7, &vec![1, 2, 3], 0);
    let second = reg.verify(7, &vec![1, 2, 3], 0);
    assert_eq!(first, second);
    let unit = reg.dispatch().unwrap();
    let during = reg.verify(7, &vec![2, 3, 1], 0);
    assert_eq!(during.total, 3);
    assert_eq!(during.processing_count, 1);
    assert_eq!(unit.paper_id, 1);
}

#[test]
fn verify_with_duplicates_counts_each_paper_once() {
    let mut reg = VerifyRegistry::new();
    let info = reg.verify(3, &vec![4, 4, 5, 4], 2);
    assert_eq!(info.total, 2);
    assert_eq!(info.pending_unverify_count, 2);
    assert_eq!(info.max_match_limit, 2);
}

#[test]
fn empty_seed_is_not_active() {
    let mut reg = VerifyRegistry::new();
    let info = reg.verify(9, &vec![], 0);
    assert_eq!(info.total, 0);
    assert!(reg.active_users().is_empty());
    assert!(reg.dispatch().is_none());
    let again = reg.verify(9, &vec![], 0);
    assert_eq!(again.total, 0);
}

#[test]
fn fair_dispatch_round_robins_users() {
    let mut reg = VerifyRegistry::new();
    for u in [30i64, 10, 20] {
        let papers: Vec<i64> = (0..30).map(|p| u * 100 + p).collect();
        reg.verify(u, &papers, 0);
    }
    let mut counts = std::collections::HashMap::new();
    let mut order = Vec::new();
    for _ in 0..30 {
        let unit = reg.dispatch().unwrap();
        *counts.entry(unit.user_id).or_insert(0) += 1;
        order.push(unit.user_id);
        assert!(reg.complete(unit.user_id, unit.paper_id, VerifyOutcome::Verified { has_yes: false, tokens: 1 }));
        let max = counts.values().max().unwrap();
        let min = if counts.len() < 3 { &0 } else { counts.values().min().unwrap() };
        assert!(max - min <= 1);
    }
    assert_eq!(&order[0..3], &[10, 20, 30]);
    assert_eq!(counts[&10], 10);
    assert_eq!(counts[&20], 10);
    assert_eq!(counts[&30], 10);
}

#[test]
fn worker_pool_converges_with_quotas() {
    let mut reg = VerifyRegistry::new();
    let mut table = VerificationTable::new();
    for u in 1..=5i64 {
        let papers: Vec<i64> = (0..50).map(|p| u * 1000 + p).collect();
        reg.verify(u, &papers, 10);
    }
    let workers = 8;
    let mut in_flight: Vec<WorkUnit> = Vec::new();
    let mut dispatched = std::collections::HashMap::new();
    loop {
        while in_flight.len() < workers {
            match reg.dispatch() {
                Some(u) => {
                    *dispatched.entry(u.user_id).or_insert(0u64) += 1;
                    in_flight.push(u);
                }
                None => break,
            }
        }
        if in_flight.is_empty() {
            break;
        }
        let unit = in_flight.remove(0);
        let v = vec![verdict(unit.user_id, unit.paper_id, 1, VerificationMatch::Yes)];
        record_result(&mut reg, &mut table, unit, v, 1);
    }
    for u in 1..=5i64 {
        let info = reg.snapshot(u).unwrap();
        assert_eq!(info.matched_count, 10);
        assert_eq!(info.processing_count, 0);
        assert_eq!(info.pending_unverify_count, 40);
    }
    let max = *dispatched.values().max().unwrap() as f64;
    let min = *dispatched.values().min().unwrap() as f64;
    assert!(max <= min * 1.2);
    assert!(reg.active_users().is_empty());
}

#[test]
fn counters_never_decrease_within_a_run() {
    let mut reg = VerifyRegistry::new();
    let mut table = VerificationTable::new();
    reg.verify(4, &(1..=12).collect(), 0);
    let mut prev = reg.snapshot(4).unwrap();
    let mut n = 0;
    while let Some(unit) = reg.dispatch() {
        n += 1;
        let m = if n % 3 == 0 { VerificationMatch::Yes } else { VerificationMatch::Partial };
        let msg = record_result(&mut reg, &mut table, unit, vec![verdict(4, unit.paper_id, 2, m)], n).unwrap();
        let i = msg.verify_info;
        assert_eq!(i.success_count, prev.success_count + 1);
        assert!(i.fail_count >= prev.fail_count);
        assert!(i.token_usage >= prev.token_usage);
        assert!(i.matched_count >= prev.matched_count);
        assert_eq!(i.pending_unverify_count + i.processing_count + i.success_count + i.fail_count, i.total);
        prev = i;
    }
    assert_eq!(prev.matched_count, 4);
    assert_eq!(prev.token_usage, 78);
}

#[test]
fn stale_result_is_not_counted_twice() {
    let mut reg = VerifyRegistry::new();
    let mut table = VerificationTable::new();
    reg.verify(1, &vec![10, 11], 0);
    let unit = reg.dispatch().unwrap();
    let v = vec![verdict(1, 10, 5, VerificationMatch::Yes)];
    assert!(record_result(&mut reg, &mut table, unit, v.clone(), 2).is_some());
    assert!(record_result(&mut reg, &mut table, unit, v, 2).is_none());
    let info = reg.snapshot(1).unwrap();
    assert_eq!(info.success_count, 1);
    assert_eq!(info.matched_count, 1);
    assert_eq!(table.rows().len(), 1);
}

#[test]
fn failures_requeue_then_count() {
    let mut reg = VerifyRegistry::new();
    reg.verify(2, &vec![1, 2], 0);
    let unit = reg.dispatch().unwrap();
    assert_eq!(handle_failure(&mut reg, unit, ErrorKind::External, 1, 3), FailureAction::Requeue);
    let info = reg.snapshot(2).unwrap();
    assert_eq!((info.pending_unverify_count, info.processing_count, info.fail_count), (2, 0, 0));
    let again = reg.dispatch().unwrap();
    assert_eq!(again.paper_id, 1);
    assert_eq!(handle_failure(&mut reg, again, ErrorKind::External, 3, 3), FailureAction::MarkFailed);
    let info = reg.snapshot(2).unwrap();
    assert_eq!((info.pending_unverify_count, info.fail_count, info.total), (1, 1, 2));
    let third = reg.dispatch().unwrap();
    assert_eq!(handle_failure(&mut reg, third, ErrorKind::Internal, 1, 3), FailureAction::HardFinish);
    assert!(reg.snapshot(2).is_none());
}

#[test]
fn validation_failure_is_counted_as_failed() {
    let mut reg = VerifyRegistry::new();
    reg.verify(2, &vec![1], 0);
    let unit = reg.dispatch().unwrap();
    assert_eq!(handle_failure(&mut reg, unit, ErrorKind::Validation, 0, 3), FailureAction::MarkFailed);
    let info = reg.snapshot(2).unwrap();
    assert_eq!((info.fail_count, info.pending_unverify_count), (1, 0));
    assert!(reg.active_users().is_empty());
}

#[test]
fn reset_for_new_run_keeps_lifetime_matches() {
    let mut reg = VerifyRegistry::new();
    let mut table = VerificationTable::new();
    reg.verify(5, &vec![1, 2, 3], 0);
    let unit = reg.dispatch().unwrap();
    record_result(&mut reg, &mut table, unit, vec![verdict(5, 1, 1, VerificationMatch::Yes)], 9);
    assert!(reg.reset_for_new_run(5, 4));
    let info = reg.snapshot(5).unwrap();
    assert_eq!(info.matched_count, 0);
    assert_eq!(info.success_count, 0);
    assert_eq!(info.token_usage, 0);
    assert_eq!(info.total_matched_count, 1);
    assert_eq!(info.total, 2);
    assert_eq!(info.max_match_limit, 4);
    assert!(!reg.reset_for_new_run(99, 1));
}

#[test]
fn reseed_after_interest_change_resets_matches() {
    let mut reg = VerifyRegistry::new();
    let mut table = VerificationTable::new();
    reg.verify(7, &vec![1, 2], 0);
    let unit = reg.dispatch().unwrap();
    record_result(&mut reg, &mut table, unit, vec![verdict(7, 1, 1, VerificationMatch::Yes)], 1);
    let info = reseed_after_update(&mut reg, 7, &vec![2, 3, 4], 0);
    assert_eq!(info.matched_count, 0);
    assert_eq!(info.pending_unverify_count, 3);
    assert_eq!(info.total, 3);
    assert_eq!(info.total_matched_count, 1);
}

#[test]
fn finish_soft_keeps_counters_hard_forgets() {
    let mut reg = VerifyRegistry::new();
    reg.verify(1, &vec![1, 2], 0);
    reg.verify(2, &vec![3], 0);
    assert!(reg.finish(1, false));
    assert_eq!(reg.active_users(), vec![2]);
    assert_eq!(reg.snapshot(1).unwrap().pending_unverify_count, 2);
    assert_eq!(reg.dispatch().unwrap().user_id, 2);
    assert!(reg.finish(2, true));
    assert!(reg.snapshot(2).is_none());
    assert!(!reg.finish(3, true));
    let info = reg.verify(1, &vec![1, 2], 0);
    assert_eq!(info.total, 2);
    assert!(reg.active_users().is_empty());
    let restarted = reseed_after_update(&mut reg, 1, &vec![1, 2], 0);
    assert_eq!(restarted.pending_unverify_count, 2);
    assert_eq!(reg.active_users(), vec![1]);
}

#[test]
fn seeding_picks_unverified_papers_up_to_limit() {
    let mut reg = VerifyRegistry::new();
    let mut table = VerificationTable::new();
    table.insert_ignoring_conflicts(&vec![
        verdict(7, 101, 1, VerificationMatch::No),
        verdict(7, 101, 2, VerificationMatch::No),
        verdict(7, 102, 1, VerificationMatch::Yes),
        verdict(8, 103, 1, VerificationMatch::Yes),
    ]);
    let candidates = vec![101, 102, 103, 104, 105];
    let interests = vec![1, 2];
    let info = verify(&mut reg, &table, 7, &candidates, &interests, 3, 0);
    assert_eq!(info.total, 3);
    assert_eq!(table.unverified_paper_ids(7, &candidates, &interests, 10), vec![102, 103, 104, 105]);
    assert_eq!(table.unverified_paper_ids(7, &candidates, &interests, 3), vec![102, 103, 104]);
    let again = verify(&mut reg, &table, 7, &candidates, &interests, 3, 0);
    assert_eq!(info, again);
    assert_eq!(reg.dispatch().unwrap().paper_id, 102);
}

#[test]
fn concurrent_identical_verify_seeds_once() {
    let mut reg = VerifyRegistry::new();
    let mut table = VerificationTable::new();
    let candidates = vec![1, 2, 3];
    let interests = vec![9];
    let first = verify(&mut reg, &table, 7, &candidates, &interests, 100, 0);
    let second = verify(&mut reg, &table, 7, &candidates, &interests, 100, 0);
    assert_eq!(first, second);
    while let Some(unit) = reg.dispatch() {
        let v = vec![verdict(7, unit.paper_id, 9, VerificationMatch::No)];
        record_result(&mut reg, &mut table, unit, v.clone(), 1);
        table.insert_ignoring_conflicts(&v);
    }
    assert_eq!(table.rows().len(), 3);
    assert!(table.unverified_paper_ids(7, &candidates, &interests, 100).is_empty());
}

#[test]
fn stream_verify_seeds_with_requested_quota() {
    let mut reg = VerifyRegistry::new();
    let table = VerificationTable::new();
    let (stream, info) = stream_verify(&mut reg, &table, 5, &vec![1, 2, 3], &vec![1], 2, Some(4), 30);
    assert_eq!(stream.user_id, 5);
    assert!(!stream.ended);
    assert_eq!((info.total, info.max_match_limit), (2, 4));
    let (_, other) = stream_verify(&mut reg, &table, 6, &vec![9], &vec![1], 2, None, 30);
    assert_eq!(other.max_match_limit, 30);
}

#[test]
fn reconnected_stream_resumes_live_events() {
    let mut reg = VerifyRegistry::new();
    let mut table = VerificationTable::new();
    reg.verify(7, &vec![1, 2, 3], 0);
    let mut first = StreamState::new(7);
    let unit = reg.dispatch().unwrap();
    let msg = record_result(&mut reg, &mut table, unit, vec![verdict(7, 1, 1, VerificationMatch::Yes)], 1).unwrap();
    assert_eq!(first.on_input(StreamInput::Message { message: msg, now: 1 }).len(), 1);
    drop(first);
    let unit = reg.dispatch().unwrap();
    record_result(&mut reg, &mut table, unit, vec![verdict(7, 2, 1, VerificationMatch::Yes)], 1).unwrap();
    let mut second = StreamState::new(7);
    let unit = reg.dispatch().unwrap();
    assert_eq!(unit.paper_id, 3);
    let msg = record_result(&mut reg, &mut table, unit, vec![verdict(7, 3, 1, VerificationMatch::Yes)], 1).unwrap();
    let events = second.on_input(StreamInput::Message { message: msg, now: 2 });
    assert_eq!(events.len(), 2);
    match &events[0] {
        StreamEvent::PaperVerified { result, user_verify_info, .. } => {
            assert_eq!(result.paper_id, 3);
            assert_eq!(user_verify_info.success_count, 3);
        }
        _ => panic!("expected the paper event first"),
    }
    assert!(matches!(events[1], StreamEvent::Completed { timestamp: 2 }));
}

#[test]
fn stream_after_quota_restarts_with_new_quota() {
    let mut reg = VerifyRegistry::new();
    let mut table = VerificationTable::new();
    let candidates: Vec<i64> = (1..=6).collect();
    let interests = vec![1];
    stream_verify(&mut reg, &table, 7, &candidates, &interests, 100, Some(2), 0);
    while let Some(unit) = reg.dispatch() {
        record_result(&mut reg, &mut table, unit, vec![verdict(7, unit.paper_id, 1, VerificationMatch::Yes)], 1);
    }
    let stopped = reg.snapshot(7).unwrap();
    assert_eq!((stopped.matched_count, stopped.pending_unverify_count), (2, 4));
    let (_, info) = stream_verify(&mut reg, &table, 7, &candidates, &interests, 100, Some(5), 0);
    assert_eq!(info.matched_count, 0);
    assert_eq!(info.max_match_limit, 5);
    assert_eq!(info.total, 4);
    assert_eq!(info.total_matched_count, 2);
    assert_eq!(reg.active_users(), vec![7]);
}

#[test]
fn clock_advances_by_one_per_dispatch() {
    let mut reg = VerifyRegistry::new();
    assert_eq!(reg.clock(), 1);
    reg.verify(1, &vec![1, 2], 0);
    reg.dispatch().unwrap();
    assert_eq!(reg.clock(), 2);
    reg.dispatch().unwrap();
    assert_eq!(reg.clock(), 3);
    assert!(reg.dispatch().is_none());
    assert_eq!(reg.clock(), 3);
}
