use free_disk_space::cleaner::{
    action_label, action_mutates, age_in_days, decide_cleanup, plan_cleanup, ArtifactEntry,
    CleanupAction, CleanupDecision, SECONDS_PER_DAY,
};

fn entry(components: &[&str], modified_secs: Option<u64>) -> ArtifactEntry {
    ArtifactEntry { path: components.iter().map(|c| c.to_string()).collect(), modified_secs }
}

#[test]
fn age_is_truncated_to_whole_days() {
    assert_eq!(age_in_days(0, 2 * SECONDS_PER_DAY + 5), 2);
    assert_eq!(age_in_days(0, SECONDS_PER_DAY - 1), 0);
    assert_eq!(age_in_days(10, 10), 0);
}

#[test]
fn age_of_a_future_modification_time_is_zero() {
    assert_eq!(age_in_days(5 * SECONDS_PER_DAY, 0), 0);
}

#[test]
fn age_at_the_threshold_is_deleted() {
    assert_eq!(decide_cleanup(60, 60), CleanupDecision::Delete);
    assert_eq!(decide_cleanup(61, 60), CleanupDecision::Delete);
    assert_eq!(decide_cleanup(59, 60), CleanupDecision::Keep);
}

#[test]
fn old_artifact_directory_is_deleted() {
    let now = 100 * SECONDS_PER_DAY;
    let entries = vec![entry(&["home", "crate", "target"], Some(now - 61 * SECONDS_PER_DAY))];

    let plan = plan_cleanup(&entries, now, 60, false);

    assert_eq!(plan.len(), 1);
    assert_eq!(plan[0].action, CleanupAction::Delete);
    assert!(action_mutates(&plan[0].action));
    assert_eq!(action_label(&plan[0].action), "deleted");
}

#[test]
fn young_artifact_directory_is_kept() {
    let now = 100 * SECONDS_PER_DAY;
    let entries = vec![entry(&["home", "crate", "target"], Some(now - 10 * SECONDS_PER_DAY))];

    let plan = plan_cleanup(&entries, now, 60, false);

    assert_eq!(plan.len(), 1);
    assert_eq!(plan[0].action, CleanupAction::Keep);
    assert!(!action_mutates(&plan[0].action));
    assert_eq!(action_label(&plan[0].action), "kept");
}

#[test]
fn dry_run_reports_deletion_without_mutating() {
    let now = 100 * SECONDS_PER_DAY;
    let entries = vec![entry(&["home", "crate", "target"], Some(now - 61 * SECONDS_PER_DAY))];

    let plan = plan_cleanup(&entries, now, 60, true);

    assert_eq!(plan.len(), 1);
    assert_eq!(plan[0].action, CleanupAction::WouldDelete);
    assert!(!action_mutates(&plan[0].action));
    assert_eq!(action_label(&plan[0].action), "would delete");
}

#[test]
fn unreadable_entry_is_skipped_and_the_batch_proceeds() {
    let now = 100 * SECONDS_PER_DAY;
    let entries = vec![
        entry(&["home", "a", "build"], None),
        entry(&["home", "b", "target"], Some(now - 61 * SECONDS_PER_DAY)),
    ];

    let plan = plan_cleanup(&entries, now, 60, false);

    assert_eq!(plan.len(), 2);
    assert_eq!(plan[0].action, CleanupAction::Skip);
    assert_eq!(action_label(&plan[0].action), "skipped");
    assert_eq!(plan[1].action, CleanupAction::Delete);
}

#[test]
fn plan_keeps_paths_and_order() {
    let now = 100 * SECONDS_PER_DAY;
    let entries = vec![
        entry(&["home", "old", "build"], Some(now - 90 * SECONDS_PER_DAY)),
        entry(&["home", "new", "target"], Some(now)),
    ];

    let plan = plan_cleanup(&entries, now, 60, false);

    assert_eq!(plan.len(), 2);
    assert_eq!(plan[0].path, vec!["home".to_string(), "old".to_string(), "build".to_string()]);
    assert_eq!(plan[1].path, vec!["home".to_string(), "new".to_string(), "target".to_string()]);
    assert_eq!(plan[0].action, CleanupAction::Delete);
    assert_eq!(plan[1].action, CleanupAction::Keep);
}
