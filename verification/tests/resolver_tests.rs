use tasklog::codec::Status;
use tasklog::date::Date;
use tasklog::ops::TaskError;
use tasklog::resolver::{display_numbering, filtered_indices, matches_line, resolve, TaskFilter};

fn store() -> Vec<String> {
    vec![
        "- [ ] 📅 2025-06-10 📋 2025-06-01 A".to_string(),
        "- [x] ✅ 2025-06-02 📅 2025-06-03 📋 2025-06-01 B".to_string(),
        "stray note".to_string(),
        "- [ ] 📅 2025-06-08 📋 2025-06-01 C".to_string(),
        "- [-] ❌ 2025-06-02 📅 2025-06-04 📋 2025-06-01 ~~D~~".to_string(),
    ]
}

#[test]
fn filtered_indices_by_status() {
    let lines = store();
    let pending = filtered_indices(&lines, &TaskFilter::ByStatus(Status::Pending));
    assert_eq!(pending, vec![0, 3]);
    let done = filtered_indices(&lines, &TaskFilter::ByStatus(Status::Done));
    assert_eq!(done, vec![1]);
    let cancelled = filtered_indices(&lines, &TaskFilter::ByStatus(Status::Cancelled));
    assert_eq!(cancelled, vec![4]);
    let all = filtered_indices(&lines, &TaskFilter::Any);
    assert_eq!(all, vec![0, 1, 2, 3, 4]);
}

#[test]
fn numbering_newest_first() {
    let lines = store();
    let entries = display_numbering(&lines, &TaskFilter::ByStatus(Status::Pending), true);
    assert_eq!(entries, vec![(1, 3), (2, 0)]);
}

#[test]
fn numbering_file_order() {
    let lines = store();
    let entries = display_numbering(&lines, &TaskFilter::ByStatus(Status::Pending), false);
    assert_eq!(entries, vec![(1, 0), (2, 3)]);
}

#[test]
fn resolve_newest_first_positions() {
    let lines = store();
    let pending = TaskFilter::ByStatus(Status::Pending);
    assert_eq!(resolve(&lines, &pending, true, 1), Ok(3));
    assert_eq!(resolve(&lines, &pending, true, 2), Ok(0));
    assert_eq!(resolve(&lines, &pending, false, 1), Ok(0));
    assert_eq!(resolve(&lines, &pending, false, 2), Ok(3));
}

#[test]
fn resolve_out_of_range() {
    let lines = store();
    let pending = TaskFilter::ByStatus(Status::Pending);
    assert_eq!(resolve(&lines, &pending, true, 0), Err(TaskError::OutOfRange));
    assert_eq!(resolve(&lines, &pending, true, 3), Err(TaskError::OutOfRange));
    let empty: Vec<String> = Vec::new();
    assert_eq!(resolve(&empty, &pending, true, 1), Err(TaskError::OutOfRange));
}

#[test]
fn week_filter_inclusive_boundary() {
    let today = Date { year: 2025, month: 6, day: 1 };
    let week = TaskFilter::DueWithin { from: today, days: 7 };
    let inside = "- [ ] 📅 2025-06-08 📋 2025-06-01 seven days out";
    let outside = "- [ ] 📅 2025-06-09 📋 2025-06-01 eight days out";
    let past = "- [ ] 📅 2025-05-31 📋 2025-05-01 yesterday";
    assert!(matches_line(inside, &week));
    assert!(!matches_line(outside, &week));
    assert!(!matches_line(past, &week));
    assert!(matches_line("- [ ] 📅 2025-06-01 📋 2025-06-01 today", &week));
}

#[test]
fn week_filter_wants_pending_status() {
    let today = Date { year: 2025, month: 6, day: 1 };
    let week = TaskFilter::DueWithin { from: today, days: 7 };
    assert!(!matches_line("- [x] ✅ 2025-06-01 📅 2025-06-03 📋 2025-06-01 done", &week));
    assert!(!matches_line("- [ ] 📅 2025-13-03 📋 2025-06-01 bad date", &week));
    assert!(!matches_line("no token 📅 2025-06-03", &week));
}

#[test]
fn today_filter_is_zero_width_window() {
    let today = Date { year: 2025, month: 6, day: 1 };
    let due_today = TaskFilter::DueWithin { from: today, days: 0 };
    assert!(matches_line("- [ ] 📅 2025-06-01 📋 2025-06-01 now", &due_today));
    assert!(!matches_line("- [ ] 📅 2025-06-02 📋 2025-06-01 tomorrow", &due_today));
}

#[test]
fn lastweek_filter_inclusive_boundary() {
    let today = Date { year: 2025, month: 6, day: 8 };
    let last_week = TaskFilter::CompletedWithin { until: today, days: 7 };
    assert!(matches_line(
        "- [x] ✅ 2025-06-01 📅 2025-05-30 📋 2025-05-01 week-old",
        &last_week
    ));
    assert!(!matches_line(
        "- [x] ✅ 2025-05-31 📅 2025-05-30 📋 2025-05-01 older",
        &last_week
    ));
    assert!(matches_line(
        "- [x] ✅ 2025-06-08 📅 2025-06-08 📋 2025-06-01 today",
        &last_week
    ));
    assert!(!matches_line(
        "- [x] ✅ 2025-06-09 📅 2025-06-08 📋 2025-06-01 future",
        &last_week
    ));
}

#[test]
fn lastweek_filter_spans_year_boundary() {
    let today = Date { year: 2025, month: 1, day: 3 };
    let last_week = TaskFilter::CompletedWithin { until: today, days: 7 };
    assert!(matches_line(
        "- [x] ✅ 2024-12-28 📅 2024-12-20 📋 2024-12-01 crossing",
        &last_week
    ));
    assert!(!matches_line(
        "- [x] ✅ 2024-12-26 📅 2024-12-20 📋 2024-12-01 too old",
        &last_week
    ));
}
