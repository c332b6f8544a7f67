use caliber::dates::{Date, Weekday};
use caliber::entries::RecurringPattern;
use caliber::filter::{collect_filtered_entries, parse_filter_query};
use caliber::projection::{collect_later_entries_for_date, collect_recurring_entries_for_date};
use caliber::dates::{add_days, sub_days, weekday};
use caliber::resolver::{
    extract_target_date, parse_date_prefer_past, parse_later_date, parse_natural_date,
};

fn d(y: u32, m: u32, day: u32) -> Date {
    Date::from_ymd(y, m, day).unwrap()
}

#[test]
fn test_always_future_md_parse() {
    let today = d(2026, 1, 5);
    assert_eq!(parse_later_date("12/25", today), Date::from_ymd(2026, 12, 25));
    assert_eq!(parse_later_date("01/01", today), Date::from_ymd(2027, 1, 1));
    // today itself does not roll over
    assert_eq!(parse_later_date("1/5", today), Date::from_ymd(2026, 1, 5));
}

#[test]
fn test_prefer_past_md_parse() {
    let today = d(2026, 1, 5);
    assert_eq!(parse_date_prefer_past("12/30", today), Date::from_ymd(2025, 12, 30));
    assert_eq!(parse_date_prefer_past("1/5", today), Date::from_ymd(2026, 1, 5));
    // explicit years read as written
    assert_eq!(parse_date_prefer_past("12/30/2026", today), Date::from_ymd(2026, 12, 30));
}

#[test]
fn test_absolute_format_precedence() {
    let today = d(2026, 1, 5);
    assert_eq!(parse_later_date("2026/1/9", today), Date::from_ymd(2026, 1, 9));
    assert_eq!(parse_later_date("1/9/26", today), Date::from_ymd(2026, 1, 9));
    assert_eq!(parse_later_date("1/9/2027", today), Date::from_ymd(2027, 1, 9));
    assert_eq!(parse_later_date("bogus", today), None);
    assert_eq!(parse_later_date("13/1", today), None);
}

#[test]
fn test_extract_target_date_first_marker() {
    let today = d(2026, 1, 5);
    assert_eq!(extract_target_date("pay rent @01/15 then @02/01", today), Date::from_ymd(2026, 1, 15));
    assert_eq!(extract_target_date("no marker here", today), None);
    assert_eq!(extract_target_date("ship @2026/02/03 build", today), Date::from_ymd(2026, 2, 3));
}

#[test]
fn test_weekday_resolution_never_today() {
    // 2026-01-05 is a Monday: next-monday wraps a full week
    let today = d(2026, 1, 5);
    assert_eq!(parse_natural_date("next-monday", today), Date::from_ymd(2026, 1, 12));
    assert_eq!(parse_natural_date("last-monday", today), Date::from_ymd(2025, 12, 29));
    assert_eq!(parse_natural_date("next-MON", today), Date::from_ymd(2026, 1, 12));
}

#[test]
fn test_recurring_monthly_clamp() {
    let p = RecurringPattern::Monthly(31);
    assert!(p.matches(d(2026, 2, 28))); // non-leap February
    assert!(!p.matches(d(2026, 2, 27)));
    assert!(p.matches(d(2024, 2, 29))); // leap February
    assert!(!p.matches(d(2024, 2, 28)));
    assert!(p.matches(d(2026, 1, 31))); // a 31-day month
    assert!(!p.matches(d(2026, 1, 30)));
    assert!(p.matches(d(2026, 4, 30))); // clamped in a 30-day month
}

#[test]
fn test_recurring_weekly_and_weekday() {
    let weekly = RecurringPattern::Weekly(Weekday::Mon);
    assert!(weekly.matches(d(2026, 1, 12)));
    assert!(!weekly.matches(d(2026, 1, 13)));
    let weekdays = RecurringPattern::Weekday;
    assert!(weekdays.matches(d(2026, 1, 12)));
    assert!(!weekdays.matches(d(2026, 1, 10))); // a Saturday
    assert!(RecurringPattern::Daily.matches(d(2026, 1, 10)));
}

#[test]
fn test_later_entries_appear_for_target() {
    let journal = "# 2026/01/10\n- [ ] Review doc @01/15\n- note without marker\n";
    let later = collect_later_entries_for_date(journal, d(2026, 1, 15));
    assert_eq!(later.len(), 1);
    assert_eq!(later[0].source_date, d(2026, 1, 10));
    assert_eq!(later[0].line_index, 0);
    assert_eq!(later[0].content, "Review doc @01/15");
    assert!(!later[0].completed);
}

#[test]
fn test_later_entries_exclude_target_day_itself() {
    let journal = "# 2026/01/15\n- [ ] On the day @01/15\n\n# 2026/01/10\n- [ ] Elsewhere @01/15\n";
    let later = collect_later_entries_for_date(journal, d(2026, 1, 15));
    assert_eq!(later.len(), 1);
    assert_eq!(later[0].source_date, d(2026, 1, 10));
}

#[test]
fn test_later_entries_sorted_by_source_date() {
    let journal = "# 2026/01/12\n- [ ] B @01/15\n\n# 2026/01/10\n- [ ] A @01/15\n";
    let later = collect_later_entries_for_date(journal, d(2026, 1, 15));
    assert_eq!(later.len(), 2);
    assert_eq!(later[0].source_date, d(2026, 1, 10));
    assert_eq!(later[1].source_date, d(2026, 1, 12));
}

#[test]
fn test_later_entries_stable_for_equal_source_dates() {
    // two hits in one source day keep their scan order after sorting
    let journal = "# 2026/01/12\n- [ ] first @01/15\n- [ ] second @01/15\n\n# 2026/01/10\n- [ ] early @01/15\n";
    let later = collect_later_entries_for_date(journal, d(2026, 1, 15));
    assert_eq!(later.len(), 3);
    assert_eq!(later[0].content, "early @01/15");
    assert_eq!(later[1].content, "first @01/15");
    assert_eq!(later[2].content, "second @01/15");
    assert_eq!(later[1].line_index, 0);
    assert_eq!(later[2].line_index, 1);
}

#[test]
fn test_recurring_entries_collected_for_matching_dates() {
    let journal = "# 2026/01/10\n- [ ] Stand-up @every-day\n- [ ] Weekly sync @every-monday\n";
    // 2026-01-13 is a Tuesday: only the daily rule matches
    let tue = collect_recurring_entries_for_date(journal, d(2026, 1, 13));
    assert_eq!(tue.len(), 1);
    assert_eq!(tue[0].entry.content, "Stand-up @every-day");
    // 2026-01-12 is a Monday: both match
    let mon = collect_recurring_entries_for_date(journal, d(2026, 1, 12));
    assert_eq!(mon.len(), 2);
    // the source day itself shows neither as a projection
    let own = collect_recurring_entries_for_date(journal, d(2026, 1, 10));
    assert_eq!(own.len(), 0);
}

#[test]
fn test_filter_fail_closed_on_invalid_token() {
    let today = d(2026, 1, 20);
    let journal = "# 2026/01/15\n- [ ] A #work\n- [ ] B #personal\n";
    let bogus = parse_filter_query("!bogus", today);
    assert!(!bogus.invalid_tokens.is_empty());
    assert_eq!(collect_filtered_entries(journal, &bogus, today).len(), 0);
    let doubled = parse_filter_query("@before:1/1 @before:1/15", today);
    assert_eq!(doubled.invalid_tokens, vec!["Multiple @before dates"]);
    assert_eq!(collect_filtered_entries(journal, &doubled, today).len(), 0);
}

#[test]
fn test_filter_tag_scenario() {
    let today = d(2026, 1, 20);
    let journal = "# 2026/01/15\n- [ ] A #work\n- [ ] B #personal\n";
    let filter = parse_filter_query("#work", today);
    let hits = collect_filtered_entries(journal, &filter, today);
    assert_eq!(hits.len(), 1);
    assert_eq!(hits[0].content, "A #work");
    assert_eq!(hits[0].source_date, d(2026, 1, 15));
    assert_eq!(hits[0].line_index, 0);
}

#[test]
fn test_filter_search_terms_case_insensitive() {
    let today = d(2026, 1, 20);
    let journal = "# 2026/01/15\n- [ ] Fix the Parser\n- [ ] Write docs\n";
    let filter = parse_filter_query("PARSER", today);
    let hits = collect_filtered_entries(journal, &filter, today);
    assert_eq!(hits.len(), 1);
    assert_eq!(hits[0].content, "Fix the Parser");
}

#[test]
fn test_filter_type_and_completion_modifiers() {
    let today = d(2026, 1, 20);
    let journal = "# 2026/01/15\n- [ ] open\n- [x] done\n- a note\n* an event\n";
    let open_tasks = collect_filtered_entries(journal, &parse_filter_query("!tasks", today), today);
    assert_eq!(open_tasks.len(), 1);
    assert_eq!(open_tasks[0].content, "open");
    let done_tasks = collect_filtered_entries(
        journal,
        &parse_filter_query("!tasks/done", today),
        today,
    );
    assert_eq!(done_tasks.len(), 1);
    assert_eq!(done_tasks[0].content, "done");
    let all_tasks = collect_filtered_entries(
        journal,
        &parse_filter_query("!tasks/all", today),
        today,
    );
    assert_eq!(all_tasks.len(), 2);
    let notes = collect_filtered_entries(journal, &parse_filter_query("!n", today), today);
    assert_eq!(notes.len(), 1);
    assert_eq!(notes[0].content, "a note");
}

#[test]
fn test_filter_not_tokens() {
    let today = d(2026, 1, 20);
    let journal = "# 2026/01/15\n- [ ] A #work\n- [ ] B #personal\n- a note\n";
    let no_personal = collect_filtered_entries(
        journal,
        &parse_filter_query("not:#personal", today),
        today,
    );
    assert_eq!(no_personal.len(), 2);
    let no_notes = collect_filtered_entries(
        journal,
        &parse_filter_query("not:!notes", today),
        today,
    );
    assert_eq!(no_notes.len(), 2);
    let no_b = collect_filtered_entries(journal, &parse_filter_query("not:B", today), today);
    assert_eq!(no_b.len(), 2);
}

#[test]
fn test_filter_date_bounds_and_overdue() {
    let today = d(2026, 1, 20);
    let journal =
        "# 2026/01/10\n- [ ] overdue @01/12\n\n# 2026/01/15\n- [ ] later @02/20/2026\n\n# 2026/02/01\n- [ ] feb\n";
    let before = collect_filtered_entries(
        journal,
        &parse_filter_query("@before:1/31/2026", today),
        today,
    );
    assert_eq!(before.len(), 2);
    let after = collect_filtered_entries(
        journal,
        &parse_filter_query("@after:1/31/2026", today),
        today,
    );
    assert_eq!(after.len(), 1);
    assert_eq!(after[0].content, "feb");
    // a year-less marker still ahead reads as last year and counts overdue
    let j2 = "# 2026/01/15\n- [ ] rolled @02/20\n";
    let od2 = collect_filtered_entries(j2, &parse_filter_query("@overdue", today), today);
    assert_eq!(od2.len(), 1);
    let overdue = collect_filtered_entries(journal, &parse_filter_query("@overdue", today), today);
    assert_eq!(overdue.len(), 1);
    assert_eq!(overdue[0].content, "overdue @01/12");
}

#[test]
fn test_date_arithmetic_across_boundaries() {
    assert_eq!(add_days(d(2026, 1, 31), 1), Date::from_ymd(2026, 2, 1));
    assert_eq!(add_days(d(2026, 12, 31), 1), Date::from_ymd(2027, 1, 1));
    assert_eq!(add_days(d(2024, 2, 28), 1), Date::from_ymd(2024, 2, 29));
    assert_eq!(sub_days(d(2026, 1, 1), 1), Date::from_ymd(2025, 12, 31));
    assert_eq!(add_days(d(9999, 12, 31), 1), None);
    assert_eq!(weekday(d(2026, 1, 5)), Weekday::Mon);
    assert_eq!(weekday(d(2026, 1, 10)), Weekday::Sat);
}
