use tasklog::codec::{decode_completion_date, decode_status, Status};
use tasklog::date::Date;
use tasklog::ops::{add_task, cancel_task, complete_tasks, display_line, TaskError};
use tasklog::resolver::{display_numbering, TaskFilter};

#[test]
fn add_to_empty_store() {
    let mut lines: Vec<String> = Vec::new();
    let today = Date { year: 2025, month: 6, day: 1 };
    let r = add_task(&mut lines, &today, &today, "Buy milk");
    assert_eq!(r, Ok(()));
    assert_eq!(lines, vec!["- [ ] 📅 2025-06-01 📋 2025-06-01 Buy milk".to_string()]);
}

#[test]
fn add_appends_at_the_end() {
    let mut lines = vec!["- [ ] 📅 2025-06-01 📋 2025-06-01 first".to_string()];
    let today = Date { year: 2025, month: 6, day: 2 };
    let due = Date { year: 2025, month: 6, day: 9 };
    assert_eq!(add_task(&mut lines, &due, &today, "second"), Ok(()));
    assert_eq!(lines.len(), 2);
    assert_eq!(lines[1], "- [ ] 📅 2025-06-09 📋 2025-06-02 second");
}

#[test]
fn add_refuses_empty_body() {
    let mut lines = vec!["- [ ] 📅 2025-06-01 📋 2025-06-01 kept".to_string()];
    let today = Date { year: 2025, month: 6, day: 1 };
    assert_eq!(add_task(&mut lines, &today, &today, ""), Err(TaskError::EmptyBody));
    assert_eq!(lines, vec!["- [ ] 📅 2025-06-01 📋 2025-06-01 kept".to_string()]);
}

#[test]
fn pending_listing_then_done_one() {
    let mut lines = vec![
        "- [ ] 📅 2025-06-03 📋 2025-06-01 A".to_string(),
        "- [ ] 📅 2025-06-04 📋 2025-06-01 B".to_string(),
    ];
    let entries = display_numbering(&lines, &TaskFilter::ByStatus(Status::Pending), true);
    assert_eq!(entries, vec![(1, 1), (2, 0)]);
    let today = Date { year: 2025, month: 6, day: 2 };
    let outcomes = complete_tasks(&mut lines, &vec![1], &today);
    assert_eq!(outcomes, vec![Ok(1)]);
    assert_eq!(lines[1], "- [x] ✅ 2025-06-02 📅 2025-06-04 📋 2025-06-01 B");
    assert_eq!(decode_status(&lines[0]), Some(Status::Pending));
    assert_eq!(lines[0], "- [ ] 📅 2025-06-03 📋 2025-06-01 A");
}

#[test]
fn done_batch_resolves_against_one_view() {
    let mut lines = vec![
        "- [ ] 📅 2025-06-03 📋 2025-06-01 A".to_string(),
        "- [ ] 📅 2025-06-04 📋 2025-06-01 B".to_string(),
    ];
    let today = Date { year: 2025, month: 6, day: 2 };
    let outcomes = complete_tasks(&mut lines, &vec![1, 2], &today);
    assert_eq!(outcomes, vec![Ok(1), Ok(0)]);
    assert_eq!(decode_status(&lines[0]), Some(Status::Done));
    assert_eq!(decode_status(&lines[1]), Some(Status::Done));
}

#[test]
fn done_batch_reports_out_of_range_and_goes_on() {
    let mut lines = vec![
        "- [ ] 📅 2025-06-03 📋 2025-06-01 A".to_string(),
        "- [ ] 📅 2025-06-04 📋 2025-06-01 B".to_string(),
    ];
    let today = Date { year: 2025, month: 6, day: 2 };
    let outcomes = complete_tasks(&mut lines, &vec![0, 5, 2], &today);
    assert_eq!(
        outcomes,
        vec![Err(TaskError::OutOfRange), Err(TaskError::OutOfRange), Ok(0)]
    );
    assert_eq!(decode_status(&lines[0]), Some(Status::Done));
    assert_eq!(decode_status(&lines[1]), Some(Status::Pending));
}

#[test]
fn done_twice_in_one_batch_is_applied_once() {
    let mut lines = vec!["- [ ] 📅 2025-06-03 📋 2025-06-01 A".to_string()];
    let today = Date { year: 2025, month: 6, day: 2 };
    let outcomes = complete_tasks(&mut lines, &vec![1, 1], &today);
    assert_eq!(outcomes, vec![Ok(0), Ok(0)]);
    assert_eq!(lines[0], "- [x] ✅ 2025-06-02 📅 2025-06-03 📋 2025-06-01 A");
    assert_eq!(decode_completion_date(&lines[0]), Some(Date { year: 2025, month: 6, day: 2 }));
}

#[test]
fn cancel_single_pending_line() {
    let mut lines = vec!["- [ ] 📅 2025-06-10 📋 2025-06-01 Old task".to_string()];
    let when = Date { year: 2025, month: 6, day: 2 };
    assert_eq!(cancel_task(&mut lines, 1, &when), Ok(0));
    assert_eq!(lines[0], "- [-] ❌ 2025-06-02 📅 2025-06-10 📋 2025-06-01 ~~Old task~~");
    assert_eq!(decode_status(&lines[0]), Some(Status::Cancelled));
}

#[test]
fn cancel_out_of_range_changes_nothing() {
    let mut lines = vec!["- [ ] 📅 2025-06-10 📋 2025-06-01 Old task".to_string()];
    let when = Date { year: 2025, month: 6, day: 2 };
    assert_eq!(cancel_task(&mut lines, 2, &when), Err(TaskError::OutOfRange));
    assert_eq!(cancel_task(&mut lines, 0, &when), Err(TaskError::OutOfRange));
    assert_eq!(lines, vec!["- [ ] 📅 2025-06-10 📋 2025-06-01 Old task".to_string()]);
}

#[test]
fn cancel_targets_newest_pending() {
    let mut lines = vec![
        "- [ ] 📅 2025-06-03 📋 2025-06-01 A".to_string(),
        "- [x] ✅ 2025-06-01 📅 2025-06-04 📋 2025-06-01 B".to_string(),
        "- [ ] 📅 2025-06-05 📋 2025-06-01 C".to_string(),
    ];
    let when = Date { year: 2025, month: 6, day: 2 };
    assert_eq!(cancel_task(&mut lines, 1, &when), Ok(2));
    assert_eq!(decode_status(&lines[2]), Some(Status::Cancelled));
    assert_eq!(decode_status(&lines[0]), Some(Status::Pending));
}

#[test]
fn numbering_recomputed_after_completion() {
    let mut lines = vec![
        "- [ ] 📅 2025-06-03 📋 2025-06-01 A".to_string(),
        "- [ ] 📅 2025-06-04 📋 2025-06-01 B".to_string(),
        "- [ ] 📅 2025-06-05 📋 2025-06-01 C".to_string(),
    ];
    let pending = TaskFilter::ByStatus(Status::Pending);
    let before = display_numbering(&lines, &pending, true);
    assert_eq!(before, vec![(1, 2), (2, 1), (3, 0)]);
    let today = Date { year: 2025, month: 6, day: 2 };
    assert_eq!(complete_tasks(&mut lines, &vec![1], &today), vec![Ok(2)]);
    let after = display_numbering(&lines, &pending, true);
    assert_eq!(after, vec![(1, 1), (2, 0)]);
}

#[test]
fn display_line_strips_leading_dash() {
    assert_eq!(display_line("- [ ] 📅 2025-06-01 📋 2025-06-01 a"), "[ ] 📅 2025-06-01 📋 2025-06-01 a");
    assert_eq!(display_line("no dash"), "no dash");
    assert_eq!(display_line("-x"), "-x");
}

#[test]
fn unrelated_view_keeps_its_numbering() {
    let mut lines = vec![
        "- [-] ❌ 2025-06-01 📅 2025-06-02 📋 2025-05-01 ~~dropped~~".to_string(),
        "- [ ] 📅 2025-06-03 📋 2025-06-01 A".to_string(),
        "- [ ] 📅 2025-06-04 📋 2025-06-01 B".to_string(),
    ];
    let cancelled = TaskFilter::ByStatus(Status::Cancelled);
    let before = display_numbering(&lines, &cancelled, false);
    let today = Date { year: 2025, month: 6, day: 2 };
    assert_eq!(complete_tasks(&mut lines, &vec![1], &today), vec![Ok(2)]);
    let after = display_numbering(&lines, &cancelled, false);
    assert_eq!(before, after);
    assert_eq!(after, vec![(1, 0)]);
}
