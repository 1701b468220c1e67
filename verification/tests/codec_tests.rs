use tasklog::codec::{
    apply_cancellation, apply_completion, decode_body, decode_completion_date,
    decode_created_date, decode_date_prefix, decode_due_date, decode_status, encode_new, Status,
};
use tasklog::date::Date;

#[test]
fn encode_buy_milk_exact() {
    let today = Date { year: 2025, month: 6, day: 1 };
    let line = encode_new(&today, &today, "Buy milk");
    assert_eq!(line, "- [ ] 📅 2025-06-01 📋 2025-06-01 Buy milk");
}

#[test]
fn encode_decodes_back() {
    let due = Date { year: 2026, month: 12, day: 31 };
    let created = Date { year: 2025, month: 1, day: 2 };
    let line = encode_new(&due, &created, "write the report");
    assert_eq!(decode_status(&line), Some(Status::Pending));
    assert_eq!(decode_due_date(&line), Some(due));
    assert_eq!(decode_created_date(&line), Some(created));
    assert_eq!(decode_body(&line), "write the report");
    assert_eq!(
        decode_date_prefix(&line),
        Some("📅 2026-12-31 📋 2025-01-02".to_string())
    );
}

#[test]
fn status_tokens() {
    assert_eq!(decode_status("- [ ] 📅 2025-06-01 📋 2025-06-01 a"), Some(Status::Pending));
    assert_eq!(
        decode_status("- [x] ✅ 2025-06-02 📅 2025-06-01 📋 2025-06-01 a"),
        Some(Status::Done)
    );
    assert_eq!(
        decode_status("- [-] ❌ 2025-06-02 📅 2025-06-01 📋 2025-06-01 ~~a~~"),
        Some(Status::Cancelled)
    );
    assert_eq!(decode_status("some stray text"), None);
    assert_eq!(decode_status("* [ ] not a task"), None);
    assert_eq!(decode_status("prefix - [ ] not at the start"), None);
    assert_eq!(decode_status(""), None);
}

#[test]
fn due_date_malformed_days() {
    assert_eq!(decode_due_date("- [ ] 📅 2025-02-30 📋 2025-06-01 x"), None);
    assert_eq!(decode_due_date("- [ ] 📅 2025-13-01 📋 2025-06-01 x"), None);
    assert_eq!(decode_due_date("- [ ] 📅 2025-06-00 📋 2025-06-01 x"), None);
    assert_eq!(
        decode_due_date("- [ ] 📅 2024-02-29 📋 2025-06-01 x"),
        Some(Date { year: 2024, month: 2, day: 29 })
    );
    assert_eq!(decode_due_date("- [ ] 📅 2023-02-29 📋 2025-06-01 x"), None);
}

#[test]
fn due_date_malformed_pattern() {
    assert_eq!(decode_due_date("- [ ] 📅2025-06-01 📋 2025-06-01 x"), None);
    assert_eq!(decode_due_date("- [ ] 📅 25-06-01 📋 2025-06-01 x"), None);
    assert_eq!(decode_due_date("- [ ] no glyph at all"), None);
    assert_eq!(decode_due_date(""), None);
}

#[test]
fn due_date_wide_whitespace() {
    assert_eq!(
        decode_due_date("- [ ] 📅   2025-06-01 📋 2025-06-01 x"),
        Some(Date { year: 2025, month: 6, day: 1 })
    );
    assert_eq!(
        decode_due_date("- [ ] 📅\t2025-06-01 📋 2025-06-01 x"),
        Some(Date { year: 2025, month: 6, day: 1 })
    );
}

#[test]
fn due_date_takes_leftmost_match() {
    let line = "- [ ] 📅 bad 📅 2025-06-03 📋 2025-06-01 x";
    assert_eq!(decode_due_date(line), Some(Date { year: 2025, month: 6, day: 3 }));
}

#[test]
fn completion_date_decoding() {
    let line = "- [x] ✅ 2025-06-02 📅 2025-06-10 📋 2025-06-01 Old task";
    assert_eq!(decode_completion_date(line), Some(Date { year: 2025, month: 6, day: 2 }));
    assert_eq!(decode_due_date(line), Some(Date { year: 2025, month: 6, day: 10 }));
    assert_eq!(
        decode_completion_date("- [ ] 📅 2025-06-10 📋 2025-06-01 no completion"),
        None
    );
}

#[test]
fn apply_completion_exact() {
    let line = "- [ ] 📅 2025-06-10 📋 2025-06-01 Old task";
    let done = apply_completion(line, &Date { year: 2025, month: 6, day: 2 });
    assert_eq!(done, "- [x] ✅ 2025-06-02 📅 2025-06-10 📋 2025-06-01 Old task");
    assert_eq!(decode_status(&done), Some(Status::Done));
    assert_eq!(decode_completion_date(&done), Some(Date { year: 2025, month: 6, day: 2 }));
    assert_eq!(decode_due_date(&done), Some(Date { year: 2025, month: 6, day: 10 }));
    assert_eq!(decode_created_date(&done), Some(Date { year: 2025, month: 6, day: 1 }));
    assert_eq!(decode_body(&done), "Old task");
}

#[test]
fn date_prefix_span_text() {
    let line = "- [ ] 📅 2025-06-10 📋 2025-06-01 Old task";
    assert_eq!(decode_date_prefix(line), Some("📅 2025-06-10 📋 2025-06-01".to_string()));
    assert_eq!(decode_date_prefix("- [ ] 📅 2025-06-10 no creation glyph"), None);
    assert_eq!(decode_date_prefix("- [ ] nothing tagged"), None);
}

#[test]
fn body_extraction() {
    assert_eq!(decode_body("- [ ] 📅 2025-06-10 📋 2025-06-01 Old task"), "Old task");
    assert_eq!(decode_body("- [ ] 📅 2025-06-10 📋 2025-06-01    padded   "), "padded");
    assert_eq!(decode_body("- [ ] 📅 2025-06-10 📋 2025-06-01"), "");
    assert_eq!(decode_body("   free text   "), "free text");
}

#[test]
fn apply_cancellation_exact() {
    let line = "- [ ] 📅 2025-06-10 📋 2025-06-01 Old task";
    let gone = apply_cancellation(line, &Date { year: 2025, month: 6, day: 2 });
    assert_eq!(gone, "- [-] ❌ 2025-06-02 📅 2025-06-10 📋 2025-06-01 ~~Old task~~");
    assert_eq!(decode_status(&gone), Some(Status::Cancelled));
    assert_eq!(decode_due_date(&gone), Some(Date { year: 2025, month: 6, day: 10 }));
    assert_eq!(decode_created_date(&gone), Some(Date { year: 2025, month: 6, day: 1 }));
}

#[test]
fn cancellation_without_span_wraps_whole_line() {
    let gone = apply_cancellation("plain note", &Date { year: 2025, month: 6, day: 2 });
    assert_eq!(gone, "- [-] ❌ 2025-06-02  ~~plain note~~");
}
