use caliber::dates::Date;
use caliber::document::{
    cycle_entry_type, delete_entry, extract_day_content, toggle_entry_complete,
    update_day_content, update_entry_content,
};
use caliber::entries::{parse_lines, serialize_lines, EntryType};
use caliber::filter::{parse_filter_query, FilterType};
use caliber::resolver::{normalize_natural_dates, parse_natural_date};

fn d(y: u32, m: u32, day: u32) -> Date {
    Date::from_ymd(y, m, day).unwrap()
}

#[test]
fn test_round_trip_parsing() {
    let original = "- [ ] Task one\n- [x] Task done\n- A note\n* An event\nRaw line";
    let lines = parse_lines(original);
    let serialized = serialize_lines(&lines);
    assert_eq!(serialized, original);
}

#[test]
fn test_round_trip_with_blank_lines() {
    let original = "- [ ] Task\n\n- Note after blank";
    let lines = parse_lines(original);
    let serialized = serialize_lines(&lines);
    assert_eq!(serialized, original);
}

#[test]
fn test_extract_day_content_multiple_days() {
    let journal = "# 2024/01/15\n- Task 1\n\n# 2024/01/16\n- Task 2\n";

    assert_eq!(extract_day_content(journal, d(2024, 1, 15)), "- Task 1");
    assert_eq!(extract_day_content(journal, d(2024, 1, 16)), "- Task 2");
}

#[test]
fn test_update_day_content_preserves_other_days() {
    let journal = "# 2024/01/14\n- Day 14\n\n# 2024/01/15\n- Old task\n\n# 2024/01/16\n- Day 16\n";
    let updated = update_day_content(journal, d(2024, 1, 15), "- Updated task");

    assert!(updated.contains("# 2024/01/14\n- Day 14"));
    assert!(updated.contains("# 2024/01/15\n- Updated task"));
    assert!(updated.contains("# 2024/01/16\n- Day 16"));
}

#[test]
fn test_parse_natural_date_all_formats() {
    let today = d(2026, 1, 5); // Monday

    assert_eq!(parse_natural_date("tomorrow", today), Date::from_ymd(2026, 1, 6));
    assert_eq!(parse_natural_date("yesterday", today), Date::from_ymd(2026, 1, 4));

    assert_eq!(parse_natural_date("3d", today), Date::from_ymd(2026, 1, 8));
    assert_eq!(parse_natural_date("-3d", today), Date::from_ymd(2026, 1, 2));

    assert_eq!(parse_natural_date("next-monday", today), Date::from_ymd(2026, 1, 12));
    assert_eq!(parse_natural_date("last-friday", today), Date::from_ymd(2026, 1, 2));

    assert_eq!(parse_natural_date("1/15", today), Date::from_ymd(2026, 1, 15));
}

#[test]
fn test_normalize_natural_dates() {
    let today = d(2026, 1, 5);

    assert_eq!(normalize_natural_dates("Call dentist @tomorrow", today), "Call dentist @01/06");
    assert_eq!(normalize_natural_dates("Review @3d and @-3d", today), "Review @01/08 and @01/02");
    assert_eq!(normalize_natural_dates("Meeting @next-monday", today), "Meeting @01/12");
}

#[test]
fn test_filter_combined() {
    let today = d(2026, 1, 5);
    let filter = parse_filter_query("!tasks #work @after:1/1 @before:1/31", today);
    assert_eq!(filter.entry_type, Some(FilterType::Task));
    assert_eq!(filter.tags, vec!["work"]);
    assert!(filter.after_date.is_some());
    assert!(filter.before_date.is_some());
    assert!(filter.invalid_tokens.is_empty());
}

#[test]
fn test_filter_invalid_tokens() {
    let today = d(2026, 1, 5);
    assert!(!parse_filter_query("!tas", today).invalid_tokens.is_empty());
    assert_eq!(
        parse_filter_query("!tasks !notes", today).invalid_tokens,
        vec!["Multiple entry types"]
    );
    assert_eq!(parse_filter_query("@bogus:x", today).invalid_tokens, vec!["@bogus:x"]);
    assert!(!parse_filter_query("@before:1/1 @before:1/15", today)
        .invalid_tokens
        .is_empty());
}

#[test]
fn test_update_day_insert_between_days() {
    let journal = "# 2026/01/10\n- A\n\n# 2026/01/20\n- B\n";
    let updated = update_day_content(journal, d(2026, 1, 15), "- New");
    let a = updated.find("# 2026/01/10").unwrap();
    let n = updated.find("# 2026/01/15").unwrap();
    let b = updated.find("# 2026/01/20").unwrap();
    assert!(a < n && n < b);
    assert_eq!(extract_day_content(&updated, d(2026, 1, 15)), "- New");
    assert_eq!(extract_day_content(&updated, d(2026, 1, 10)), "- A");
    assert_eq!(extract_day_content(&updated, d(2026, 1, 20)), "- B");
}

#[test]
fn test_update_day_insert_before_first_and_after_last() {
    let journal = "# 2026/01/10\n- A\n";
    let before = update_day_content(journal, d(2026, 1, 5), "- First");
    assert!(before.find("# 2026/01/05").unwrap() < before.find("# 2026/01/10").unwrap());
    let after = update_day_content(journal, d(2026, 1, 20), "- Last");
    assert!(after.find("# 2026/01/10").unwrap() < after.find("# 2026/01/20").unwrap());
}

#[test]
fn test_update_day_insert_into_empty_document() {
    let updated = update_day_content("", d(2026, 1, 15), "- Only");
    assert_eq!(updated, "# 2026/01/15\n- Only\n");
}

#[test]
fn test_update_day_blank_removes_block() {
    let journal = "# 2026/01/10\n- A\n\n# 2026/01/15\n- Gone\n\n# 2026/01/20\n- B\n";
    let updated = update_day_content(journal, d(2026, 1, 15), "");
    assert!(!updated.contains("# 2026/01/15"));
    assert_eq!(updated, "# 2026/01/10\n- A\n\n# 2026/01/20\n- B\n");
}

#[test]
fn test_update_day_blank_absent_is_noop() {
    let journal = "# 2026/01/10\n- A\n";
    let updated = update_day_content(journal, d(2026, 1, 15), "   \n ");
    assert_eq!(updated, journal);
}

#[test]
fn test_update_day_replaces_in_place_with_single_blank_separation() {
    let journal = "# 2026/01/10\n- A\n\n# 2026/01/20\n- B\n";
    let updated = update_day_content(journal, d(2026, 1, 10), "- A2\n- A3");
    assert_eq!(updated, "# 2026/01/10\n- A2\n- A3\n\n# 2026/01/20\n- B\n");
}

#[test]
fn test_update_entry_content_and_noop_cases() {
    let journal = "# 2026/01/10\n- [ ] Old\nraw line\n";
    let date = d(2026, 1, 10);
    let (updated, changed) = update_entry_content(journal, date, 0, "New");
    assert!(changed);
    assert!(updated.contains("- [ ] New"));
    // a raw line is not updated
    let (same, changed2) = update_entry_content(journal, date, 1, "New");
    assert!(!changed2);
    assert_eq!(same, journal);
    // an out-of-range index is not updated
    let (same2, changed3) = update_entry_content(journal, date, 9, "New");
    assert!(!changed3);
    assert_eq!(same2, journal);
}

#[test]
fn test_toggle_entry_complete_in_document() {
    let journal = "# 2026/01/10\n- [ ] Task\n";
    let date = d(2026, 1, 10);
    let toggled = toggle_entry_complete(journal, date, 0);
    assert!(toggled.contains("- [x] Task"));
    let back = toggle_entry_complete(&toggled, date, 0);
    assert!(back.contains("- [ ] Task"));
}

#[test]
fn test_cycle_entry_type_in_document() {
    let journal = "# 2026/01/10\n- [ ] Task\n";
    let date = d(2026, 1, 10);
    let (cycled, new_type) = cycle_entry_type(journal, date, 0);
    assert_eq!(new_type, Some(EntryType::Note));
    assert!(cycled.contains("- Task"));
    let (cycled2, new_type2) = cycle_entry_type(&cycled, date, 0);
    assert_eq!(new_type2, Some(EntryType::Event));
    assert!(cycled2.contains("* Task"));
    let (cycled3, new_type3) = cycle_entry_type(&cycled2, date, 0);
    assert_eq!(new_type3, Some(EntryType::Task { completed: false }));
    assert!(cycled3.contains("- [ ] Task"));
}

#[test]
fn test_delete_entry_removes_any_line_kind() {
    let journal = "# 2026/01/10\n- [ ] Task\nraw line\n";
    let date = d(2026, 1, 10);
    // deleting a raw line is honored
    let removed_raw = delete_entry(journal, date, 1);
    assert!(!removed_raw.contains("raw line"));
    assert!(removed_raw.contains("- [ ] Task"));
    // deleting out of range changes no line
    let same = delete_entry(journal, date, 9);
    assert!(same.contains("- [ ] Task") && same.contains("raw line"));
}

#[test]
fn test_parse_line_precedence_and_indentation() {
    // a completed-task line is not mistaken for a note
    let lines = parse_lines("- [x] done");
    assert_eq!(serialize_lines(&lines), "- [x] done");
    // indentation before a prefix is dropped on re-serialization
    let lines2 = parse_lines("  - [ ] padded");
    assert_eq!(serialize_lines(&lines2), "- [ ] padded");
}
