use feed_engine::diff::{plan_interest_diff, plan_subscription_diff, update_interest_rows, update_subscription_rows, InterestRow, SubscriptionRow};
use feed_engine::error::ErrorKind;
use feed_engine::update_merge::{
    batch_subscriptions, set_interests, FireDecision, TaskType, UpdateTaskData, UpdateTaskManager,
};

fn strings(v: &[&str]) -> Vec<String> {
    v.iter().map(|s| s.to_string()).collect()
}

fn row(id: i64, text: &str, deleted: bool) -> InterestRow {
    InterestRow { id, interest: text.to_string(), deleted }
}

#[test]
fn last_submission_in_window_wins() {
    let mut m = UpdateTaskManager::new(500);
    let first = set_interests(&mut m, 7, strings(&["A", "B", "C"]), "v1".to_string(), 10, 0).unwrap();
    let second = set_interests(&mut m, 7, strings(&["A", "B", "D"]), "v1".to_string(), 10, 200).unwrap();
    assert_eq!(first.run_at, 500);
    assert_eq!(second.run_at, 700);
    assert_eq!(first.request_id.len(), 36);
    assert_ne!(first.request_id, second.request_id);
    assert!(matches!(m.fire(&first, 500), FireDecision::Superseded));
    assert!(matches!(m.fire(&second, 650), FireDecision::NotYet(700)));
    match m.fire(&second, 700) {
        FireDecision::Run(UpdateTaskData::UserInterests { interests, version }) => {
            assert_eq!(interests, strings(&["A", "B", "D"]));
            assert_eq!(version, "v1");
        }
        _ => panic!("the last submission should run"),
    }
    assert!(matches!(m.fire(&second, 800), FireDecision::Superseded));
}

#[test]
fn burst_of_submissions_runs_once() {
    let mut m = UpdateTaskManager::new(500);
    let mut jobs = Vec::new();
    for k in 0..6u64 {
        let data = UpdateTaskData::UserSubscriptions { source_ids: vec![k as i32] };
        jobs.push(m.submit_with_id(TaskType::UserSubscriptions, 3, data, format!("req-{k}"), k * 50));
    }
    let mut runs = Vec::new();
    for job in jobs.iter() {
        if let FireDecision::Run(UpdateTaskData::UserSubscriptions { source_ids }) = m.fire(job, 10_000) {
            runs.push(source_ids);
        }
    }
    assert_eq!(runs, vec![vec![5]]);
}

#[test]
fn different_users_and_kinds_do_not_merge() {
    let mut m = UpdateTaskManager::new(100);
    let a = batch_subscriptions(&mut m, 1, vec![1, 2], 0);
    let b = batch_subscriptions(&mut m, 2, vec![3], 0);
    let c = set_interests(&mut m, 1, strings(&["x"]), "v".to_string(), 5, 0).unwrap();
    assert!(matches!(m.fire(&a, 100), FireDecision::Run(_)));
    assert!(matches!(m.fire(&b, 100), FireDecision::Run(_)));
    assert!(matches!(m.fire(&c, 100), FireDecision::Run(_)));
}

#[test]
fn too_many_interests_is_rejected_before_queueing() {
    let mut m = UpdateTaskManager::new(500);
    let err = set_interests(&mut m, 7, strings(&["a", "b", "c"]), "v".to_string(), 2, 0).unwrap_err();
    assert_eq!(err.kind, ErrorKind::Validation);
    assert_eq!(err.kind.http_status(), 400);
    assert!(set_interests(&mut m, 7, strings(&["a", "b"]), "v".to_string(), 2, 0).is_ok());
    assert!(set_interests(&mut m, 7, vec![], "v".to_string(), 0, 0).is_ok());
}

#[test]
fn interest_diff_keeps_removes_and_adds() {
    let rows = vec![row(1, "A", false), row(2, "B", false), row(3, "C", false)];
    let plan = plan_interest_diff(&rows, &strings(&["A", "B", "D"]));
    assert_eq!(plan.keep, vec![1, 2]);
    assert_eq!(plan.remove, vec![3]);
    assert_eq!(plan.add, strings(&["D"]));
    assert!(plan.restore.is_empty());
}

#[test]
fn soft_deleted_interest_is_restored_not_recreated() {
    let rows = vec![row(1, "A", false), row(4, "C", true), row(9, "C", true)];
    let plan = plan_interest_diff(&rows, &strings(&["A", "C", "C"]));
    assert_eq!(plan.restore, vec![4]);
    assert!(plan.add.is_empty());
    assert_eq!(plan.keep, vec![1]);
    assert!(plan.remove.is_empty());
}

#[test]
fn deleted_row_beside_active_one_stays_deleted() {
    let rows = vec![row(1, "A", true), row(2, "A", false)];
    let plan = plan_interest_diff(&rows, &strings(&["A"]));
    assert_eq!(plan.keep, vec![2]);
    assert!(plan.restore.is_empty());
    assert!(plan.add.is_empty());
}

#[test]
fn empty_wanted_list_removes_everything() {
    let rows = vec![row(1, "A", false), row(2, "B", true)];
    let plan = plan_interest_diff(&rows, &vec![]);
    assert_eq!(plan.remove, vec![1]);
    assert!(plan.keep.is_empty() && plan.restore.is_empty() && plan.add.is_empty());
}

#[test]
fn duplicate_wanted_interest_is_added_once() {
    let plan = plan_interest_diff(&vec![], &strings(&["x", "y", "x"]));
    assert_eq!(plan.add, strings(&["x", "y"]));
}

#[test]
fn subscription_diff_restores_by_source() {
    let rows = vec![
        SubscriptionRow { id: 10, source_id: 1, deleted: false },
        SubscriptionRow { id: 11, source_id: 2, deleted: true },
        SubscriptionRow { id: 12, source_id: 3, deleted: false },
    ];
    let plan = plan_subscription_diff(&rows, &vec![2, 3, 4, 4]);
    assert_eq!(plan.keep, vec![12]);
    assert_eq!(plan.restore, vec![11]);
    assert_eq!(plan.remove, vec![10]);
    assert_eq!(plan.add, vec![4]);
}

#[test]
fn interest_rows_after_update_match_wanted_list() {
    let rows = vec![row(1, "A", false), row(2, "B", false), row(3, "C", false)];
    let updated = update_interest_rows(&rows, &strings(&["A", "B", "D"]), 10);
    assert_eq!(updated.len(), 4);
    assert_eq!((updated[0].id, updated[0].interest.as_str(), updated[0].deleted), (1, "A", false));
    assert_eq!((updated[1].id, updated[1].interest.as_str(), updated[1].deleted), (2, "B", false));
    assert_eq!((updated[2].id, updated[2].interest.as_str(), updated[2].deleted), (3, "C", true));
    assert_eq!((updated[3].id, updated[3].interest.as_str(), updated[3].deleted), (10, "D", false));
}

#[test]
fn restored_interest_keeps_its_row() {
    let rows = vec![row(1, "A", false), row(4, "C", true)];
    let updated = update_interest_rows(&rows, &strings(&["C"]), 50);
    assert_eq!(updated.len(), 2);
    assert!(updated[0].deleted);
    assert_eq!((updated[1].id, updated[1].deleted), (4, false));
}

#[test]
fn repeated_identical_updates_keep_one_row_per_interest() {
    let want = strings(&["interest_1", "interest_2", "interest_3"]);
    let mut rows: Vec<InterestRow> = vec![];
    let mut next = 1;
    for _ in 0..3 {
        let updated = update_interest_rows(&rows, &want, next);
        next += (updated.len() - rows.len()) as i64;
        rows = updated;
    }
    let active: Vec<&InterestRow> = rows.iter().filter(|r| !r.deleted).collect();
    assert_eq!(active.len(), 3);
    assert_eq!(rows.len(), 3);
    assert_eq!(next, 4);
}

#[test]
fn subscription_rows_after_update() {
    let rows = vec![
        SubscriptionRow { id: 10, source_id: 1, deleted: false },
        SubscriptionRow { id: 11, source_id: 2, deleted: true },
    ];
    let updated = update_subscription_rows(&rows, &vec![2, 3, 3], 20);
    assert_eq!(updated.len(), 3);
    assert!(updated[0].deleted);
    assert!(!updated[1].deleted);
    assert_eq!((updated[2].id, updated[2].source_id, updated[2].deleted), (20, 3, false));
    let cleared = update_subscription_rows(&updated, &vec![], 30);
    assert!(cleared.iter().all(|r| r.deleted));
    assert_eq!(cleared.len(), 3);
}
