use feed_engine::error::{failure_action, ErrorKind, FailureAction};
use feed_engine::listing::{collect_ids, effective_max_match, parse_interest_ids, unique_source_ids};
use feed_engine::lock::UserLock;
use feed_engine::page::{default_page_no, default_page_size, loose_window, Page, Pagination};
use feed_engine::scheduler::VerifyRegistry;
use feed_engine::stream::{has_yes_match, StreamEvent, StreamInput, StreamState, VerificationItem, VerificationMatch, VerifyResultMessage};
use feed_engine::user::{all_users_verify_info, UserInfo};
use feed_engine::verification::VerificationTable;
use feed_engine::verify_state::VerifyInfo;

fn vi(user: i64, paper: i64, interest: i64, m: VerificationMatch) -> VerificationItem {
    VerificationItem { user_id: user, paper_id: paper, interest_id: interest, match_: m }
}

fn counters(pending: u64, processing: u64, matched: u64, max: u64) -> VerifyInfo {
    VerifyInfo {
        pending_unverify_count: pending,
        processing_count: processing,
        success_count: 0,
        fail_count: 0,
        total: pending + processing,
        token_usage: 0,
        matched_count: matched,
        max_match_limit: max,
        total_matched_count: matched,
    }
}

#[test]
fn page_defaults_and_offset() {
    assert_eq!(default_page_no(), 1);
    assert_eq!(default_page_size(), 20);
    let p = Page::new(3, 10);
    assert_eq!((p.page(), p.page_size(), p.offset()), (3, 10, 20));
    let q = Page::new(0, -5);
    assert_eq!((q.page(), q.page_size(), q.offset()), (1, 20, 0));
    let f = Page::first();
    assert_eq!(f.offset(), 0);
    assert_eq!(p.window(None), Some((20, 10)));
    assert_eq!(p.window(Some(false)), Some((20, 10)));
    assert_eq!(p.window(Some(true)), None);
}

#[test]
fn pagination_shapes() {
    let p = Page::new(2, 20);
    assert_eq!(Pagination::paged(&p, 156), Pagination { page: 2, page_size: 20, total: 156, total_pages: 7 });
    assert_eq!(Pagination::unpaged(156), Pagination { page: 1, page_size: 156, total: 156, total_pages: 1 });
    assert_eq!(Pagination::loose(None, None, 9), Pagination::unpaged(9));
    assert_eq!(Pagination::loose(Some(2), None, 45), Pagination { page: 2, page_size: 20, total: 45, total_pages: 2 });
    assert_eq!(Pagination::loose(None, Some(0), 45), Pagination { page: 1, page_size: 0, total: 45, total_pages: 0 });
    assert_eq!(loose_window(None, None), None);
    assert_eq!(loose_window(Some(3), None), Some((40, 20)));
    assert_eq!(loose_window(Some(-4), Some(5)), Some((0, 5)));
}

#[test]
fn lock_single_holder_until_expiry() {
    let mut lock = UserLock::new(1001);
    let a = lock.acquire(0, 30).expect("free lease");
    assert_eq!(a.len(), 36);
    assert!(lock.is_held(10));
    assert!(lock.acquire(10, 30).is_none());
    assert!(!lock.release(&"someone-else".to_string()));
    assert!(lock.is_held(10));
    assert!(lock.refresh(&a, 20, 30));
    assert!(lock.is_held(45));
    assert!(!lock.is_held(50));
    let b = lock.acquire(50, 30).expect("expired lease is free");
    assert_ne!(a, b);
    assert!(!lock.refresh(&a, 51, 30));
    assert!(lock.release(&b));
    assert!(!lock.is_held(51));
    assert_eq!(lock.user_id(), 1001);
}

#[test]
fn lock_competition_has_one_winner() {
    let mut lock = UserLock::new(1002);
    let winners = (0..10).filter(|k| lock.try_acquire(&format!("t{k}"), 5, 50)).count();
    assert_eq!(winners, 1);
    let mut others: Vec<UserLock> = (2001..2006).map(UserLock::new).collect();
    assert!(others.iter_mut().all(|l| l.acquire(0, 30).is_some()));
}

#[test]
fn stream_filters_and_terminates() {
    let mut s = StreamState::new(7);
    let tick = s.on_input(StreamInput::Tick { info: counters(3, 0, 0, 2), now: 5 });
    assert!(matches!(tick[..], [StreamEvent::Heartbeat { user_id: 7, timestamp: 5, .. }]));
    let no = VerifyResultMessage { user_id: 7, paper_id: 1, verifications: vec![vi(7, 1, 1, VerificationMatch::No), vi(7, 1, 2, VerificationMatch::Partial)], verify_info: counters(2, 0, 0, 2) };
    assert!(s.on_input(StreamInput::Message { message: no, now: 6 }).is_empty());
    let other = VerifyResultMessage { user_id: 8, paper_id: 1, verifications: vec![vi(8, 1, 1, VerificationMatch::Yes)], verify_info: counters(2, 0, 0, 0) };
    assert!(s.on_input(StreamInput::Message { message: other, now: 6 }).is_empty());
    let yes = VerifyResultMessage { user_id: 7, paper_id: 2, verifications: vec![vi(7, 2, 1, VerificationMatch::No), vi(7, 2, 2, VerificationMatch::Yes)], verify_info: counters(1, 0, 1, 2) };
    let evs = s.on_input(StreamInput::Message { message: yes, now: 7 });
    assert!(matches!(evs[..], [StreamEvent::PaperVerified { .. }]));
    let done = s.on_input(StreamInput::Tick { info: counters(0, 0, 1, 2), now: 8 });
    assert!(matches!(done[..], [StreamEvent::Completed { timestamp: 8 }]));
    assert!(s.ended);
    assert!(s.on_input(StreamInput::Tick { info: counters(0, 0, 1, 2), now: 9 }).is_empty());
}

#[test]
fn limit_reached_on_tick_is_terminal() {
    let mut s = StreamState::new(3);
    let evs = s.on_input(StreamInput::Tick { info: counters(4, 0, 2, 2), now: 1 });
    assert!(matches!(evs[..], [StreamEvent::MatchLimitReached { user_id: 3, matched: 2, max_limit: 2, timestamp: 1 }]));
    let yes = VerifyResultMessage { user_id: 3, paper_id: 2, verifications: vec![vi(3, 2, 1, VerificationMatch::Yes)], verify_info: counters(3, 0, 3, 2) };
    assert!(s.on_input(StreamInput::Message { message: yes, now: 2 }).is_empty());
}

#[test]
fn yes_match_detection() {
    assert!(!has_yes_match(&vec![]));
    assert!(!has_yes_match(&vec![vi(1, 1, 1, VerificationMatch::Partial)]));
    assert!(has_yes_match(&vec![vi(1, 1, 1, VerificationMatch::No), vi(1, 1, 2, VerificationMatch::Yes)]));
}

#[test]
fn verification_rows_are_unique() {
    let mut t = VerificationTable::new();
    let batch = vec![vi(1, 2, 3, VerificationMatch::Yes), vi(1, 2, 4, VerificationMatch::No), vi(1, 2, 3, VerificationMatch::No)];
    assert_eq!(t.insert_ignoring_conflicts(&batch), 2);
    assert_eq!(t.insert_ignoring_conflicts(&batch), 0);
    assert_eq!(t.rows().len(), 2);
    assert_eq!(t.rows()[0].match_, VerificationMatch::Yes);
    assert!(t.exists_by_user_paper_interest(1, 2, 3));
    assert!(!t.exists_by_user_paper_interest(1, 2, 5));
}

#[test]
fn source_ids_sorted_and_unique() {
    assert_eq!(unique_source_ids(vec![3, 1, 3, 2, 1]), vec![1, 2, 3]);
    assert_eq!(unique_source_ids(vec![]), Vec::<i32>::new());
    assert_eq!(unique_source_ids(vec![-5, 9]), vec![-5, 9]);
}

#[test]
fn stream_quota_selection() {
    assert_eq!(effective_max_match(None, 30), 30);
    assert_eq!(effective_max_match(Some(5), 30), 5);
    assert_eq!(effective_max_match(Some(0), 30), 0);
    assert_eq!(effective_max_match(Some(-3), 30), 0);
}

#[test]
fn error_classes() {
    assert_eq!(ErrorKind::Auth.http_status(), 401);
    assert_eq!(ErrorKind::Durable.http_status(), 500);
    assert!(ErrorKind::Coordination.is_retriable());
    assert!(!ErrorKind::Validation.is_retriable());
    assert_eq!(failure_action(ErrorKind::Concurrency, 0, 2), FailureAction::Requeue);
    assert_eq!(failure_action(ErrorKind::Durable, 2, 2), FailureAction::MarkFailed);
    assert_eq!(failure_action(ErrorKind::Auth, 0, 2), FailureAction::MarkFailed);
    assert_eq!(failure_action(ErrorKind::Internal, 0, 2), FailureAction::HardFinish);
}

#[test]
fn verify_info_listing_marks_current_user() {
    let mut reg = VerifyRegistry::new();
    reg.verify(1, &vec![1, 2], 3);
    reg.verify(2, &vec![5], 0);
    reg.verify(3, &vec![], 0);
    let items = all_users_verify_info(&reg, UserInfo::with_id(2, "open-2".to_string()));
    assert_eq!(items.len(), 2);
    let one = items.iter().find(|i| i.user_id == 1).unwrap();
    assert!(one.user_info.is_none());
    assert_eq!((one.pending_unverify_count, one.total, one.max_match_limit), (2, 2, 3));
    let two = items.iter().find(|i| i.user_id == 2).unwrap();
    assert_eq!(two.user_info.as_ref().unwrap().open_id, "open-2");
}

#[test]
fn interest_id_filter_parsing() {
    assert_eq!(parse_interest_ids("1,2,3,4"), Some(vec![1, 2, 3, 4]));
    assert_eq!(parse_interest_ids(" 7 , ,8,"), Some(vec![7, 8]));
    assert_eq!(parse_interest_ids("   "), None);
    assert_eq!(parse_interest_ids(""), None);
    assert_eq!(parse_interest_ids("1,x"), None);
    assert_eq!(parse_interest_ids("-3"), Some(vec![-3]));
    assert_eq!(collect_ids(&vec![Some(4), Some(5)]), Some(vec![4, 5]));
    assert_eq!(collect_ids(&vec![Some(4), None]), None);
    assert_eq!(collect_ids(&vec![]), Some(vec![]));
}

#[test]
fn page_offset_at_the_largest_size() {
    let p = Page::new(2, i32::MAX);
    assert_eq!(p.offset(), i32::MAX);
    assert_eq!(p.window(None), Some((i32::MAX, i32::MAX)));
    assert_eq!(Pagination::paged(&Page::new(1, 7), u64::MAX).total_pages, u64::MAX / 7);
}

#[test]
fn interest_id_filter_whitespace_and_signs() {
    assert_eq!(parse_interest_ids("\u{3000}5\t,\n+6 "), Some(vec![5, 6]));
    assert_eq!(parse_interest_ids("+"), None);
    assert_eq!(parse_interest_ids("1,-"), None);
    assert_eq!(parse_interest_ids("9223372036854775807"), Some(vec![i64::MAX]));
    assert_eq!(parse_interest_ids("9223372036854775808"), None);
    assert_eq!(parse_interest_ids("-9223372036854775808"), Some(vec![i64::MIN]));
}
