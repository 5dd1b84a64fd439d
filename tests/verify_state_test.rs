use feed_engine::scheduler::VerifyRegistry;
use feed_engine::verify_state::{UserVerifyState, VerifyInfo, VerifyOutcome};

fn info(pending: u64, processing: u64, success: u64, fail: u64, total: u64, matched: u64, max_match: u64) -> (u64, u64, u64, u64, u64, u64, u64) {
    (pending, processing, success, fail, total, matched, max_match)
}

fn parts(i: &VerifyInfo) -> (u64, u64, u64, u64, u64, u64, u64) {
    (
        i.pending_unverify_count,
        i.processing_count,
        i.success_count,
        i.fail_count,
        i.total,
        i.matched_count,
        i.max_match_limit,
    )
}

#[test]
fn seed_take_complete_fifo_run() {
    let mut reg = VerifyRegistry::new();
    let seeded = reg.verify(7, &vec![101, 102, 103], 0);
    assert_eq!(parts(&seeded), info(3, 0, 0, 0, 3, 0, 0));
    assert_eq!(reg.active_users(), vec![7]);
    let outcomes = [
        VerifyOutcome::Verified { has_yes: false, tokens: 10 },
        VerifyOutcome::Verified { has_yes: false, tokens: 20 },
        VerifyOutcome::Failed { tokens: 0 },
    ];
    let mut order = Vec::new();
    for o in outcomes.iter() {
        let unit = reg.dispatch().expect("work available");
        assert_eq!(unit.user_id, 7);
        order.push(unit.paper_id);
        assert!(reg.complete(7, unit.paper_id, *o));
    }
    assert_eq!(order, vec![101, 102, 103]);
    let last = reg.snapshot(7).unwrap();
    assert_eq!(parts(&last), info(0, 0, 2, 1, 3, 0, 0));
    assert_eq!(last.token_usage, 30);
    assert!(reg.active_users().is_empty());
    assert!(reg.dispatch().is_none());
}

#[test]
fn take_three_then_complete_three() {
    let mut s = UserVerifyState::new(7);
    s.seed(&vec![101, 102, 103], 0);
    assert_eq!(s.take_one(), Some(101));
    assert_eq!(s.take_one(), Some(102));
    assert_eq!(s.take_one(), Some(103));
    assert_eq!(s.take_one(), None);
    assert_eq!(s.snapshot().processing_count, 3);
    assert!(s.complete(102, VerifyOutcome::Verified { has_yes: false, tokens: 1 }));
    assert!(s.complete(101, VerifyOutcome::Verified { has_yes: false, tokens: 1 }));
    assert!(!s.complete(101, VerifyOutcome::Verified { has_yes: false, tokens: 1 }));
    assert!(s.complete(103, VerifyOutcome::Failed { tokens: 0 }));
    assert_eq!(parts(&s.snapshot()), info(0, 0, 2, 1, 3, 0, 0));
    assert!(!s.is_active());
}

#[test]
fn quota_bounds_papers_in_flight() {
    let mut s = UserVerifyState::new(1);
    s.seed(&vec![5, 6, 7, 8], 2);
    assert_eq!(s.take_one(), Some(5));
    assert_eq!(s.take_one(), Some(6));
    assert_eq!(s.take_one(), None);
    assert!(s.complete(5, VerifyOutcome::Verified { has_yes: false, tokens: 1 }));
    assert_eq!(s.take_one(), Some(7));
    assert!(s.complete(6, VerifyOutcome::Verified { has_yes: true, tokens: 1 }));
    assert!(s.complete(7, VerifyOutcome::Verified { has_yes: true, tokens: 1 }));
    assert_eq!(s.snapshot().matched_count, 2);
    assert_eq!(s.take_one(), None);
    assert!(!s.is_active());
}

#[test]
fn reseed_after_quota_starts_a_new_run() {
    let mut s = UserVerifyState::new(1);
    s.seed(&vec![1, 2, 3, 4], 1);
    let p = s.take_one().unwrap();
    assert!(s.complete(p, VerifyOutcome::Verified { has_yes: true, tokens: 1 }));
    assert!(!s.is_active());
    let again = s.seed(&vec![2, 3, 4], 5);
    assert_eq!(again.matched_count, 0);
    assert_eq!(again.max_match_limit, 5);
    assert_eq!(again.total, 3);
    assert_eq!(again.total_matched_count, 1);
    assert!(s.is_active());
    let same = s.seed(&vec![2, 3, 4], 5);
    assert_eq!(same, again);
    let other_quota = s.seed(&vec![2, 3, 4], 6);
    assert_eq!(other_quota.max_match_limit, 6);
}

#[test]
fn reset_returns_papers_in_flight() {
    let mut s = UserVerifyState::new(1);
    s.seed(&vec![1, 2, 3], 0);
    s.take_one();
    s.take_one();
    s.reset_for_new_run(1);
    let i = s.snapshot();
    assert_eq!((i.pending_unverify_count, i.processing_count, i.total, i.max_match_limit), (3, 0, 3, 1));
    assert_eq!(s.take_one(), Some(1));
    assert_eq!(s.take_one(), None);
    assert!(!s.complete(2, VerifyOutcome::Verified { has_yes: true, tokens: 1 }));
}
