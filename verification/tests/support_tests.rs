use caliber::config::{Config, PartialConfig};
use caliber::dates::Date;
use caliber::entries::{Entry, EntryType, Line};
use caliber::filter::extract_tags;
use caliber::journal::{set_journal_context, JournalSlot};
use caliber::locations::{
    execute_content_operation, get_entry_content, is_recurring_entry, ContentTarget, EditOp,
    EntryLocation,
};
use caliber::scroll::{scroll_indicator_text, ScrollIndicatorStyle};
use caliber::shortcuts::{expand_favorite_tags, expand_saved_filters};

fn d(y: u32, m: u32, day: u32) -> Date {
    Date::from_ymd(y, m, day).unwrap()
}

fn pairs(ps: &[(&str, &str)]) -> Vec<(String, String)> {
    ps.iter().map(|(k, v)| (k.to_string(), v.to_string())).collect()
}

#[test]
fn test_extract_tags_rules() {
    assert_eq!(extract_tags("fix #work and #a-b_2 now"), vec!["work", "a-b_2"]);
    // the first character must be a letter
    assert_eq!(extract_tags("#1 #9 # x"), Vec::<String>::new());
    assert_eq!(extract_tags("inline#tag"), vec!["tag"]);
}

#[test]
fn test_expand_favorite_tags() {
    let tags = pairs(&[("1", "feature"), ("2", ""), ("3", "idea")]);
    assert_eq!(expand_favorite_tags("do #1 now", &tags), "do #feature now");
    // an empty configured tag is left alone, as is an unknown digit
    assert_eq!(expand_favorite_tags("#2 and #7", &tags), "#2 and #7");
    // a digit followed by a word character is no shortcut
    assert_eq!(expand_favorite_tags("#12", &tags), "#12");
    assert_eq!(expand_favorite_tags("#3.", &tags), "#idea.");
}

#[test]
fn test_expand_saved_filters() {
    let filters = pairs(&[("work", "#work !tasks")]);
    let (expanded, unknown) = expand_saved_filters("$work extra", &filters);
    assert_eq!(expanded, "#work !tasks extra");
    assert!(unknown.is_empty());
    let (kept, unknown2) = expand_saved_filters("$missing x", &filters);
    assert_eq!(kept, "$missing x");
    assert_eq!(unknown2, vec!["$missing"]);
}

#[test]
fn test_journal_context_slots() {
    let mut ctx = set_journal_context("global.md".to_string(), None, JournalSlot::Global);
    assert_eq!(ctx.get_active_slot(), JournalSlot::Global);
    assert_eq!(ctx.get_active_journal_path(), "global.md");
    // a project slot without a project path falls back to the global path
    ctx.set_active_slot(JournalSlot::Project);
    assert_eq!(ctx.get_active_journal_path(), "global.md");
    ctx.set_project_path("proj.md".to_string());
    assert_eq!(ctx.get_active_journal_path(), "proj.md");
    assert_eq!(ctx.get_project_path(), Some("proj.md".to_string()));
    ctx.set_active_slot(JournalSlot::Global);
    assert_eq!(ctx.get_active_journal_path(), "global.md");
}

#[test]
fn test_validated_sort_order() {
    let config = Config {
        global_file: None,
        sort_order: vec![
            "events".to_string(),
            "bogus".to_string(),
            "events".to_string(),
            "notes".to_string(),
        ],
        favorite_tags: Vec::new(),
        filters: Vec::new(),
        default_filter: String::new(),
        header_date_format: String::new(),
        hide_completed: false,
    };
    assert_eq!(config.validated_sort_order(), vec!["events", "notes"]);
    let all_bogus = Config { sort_order: vec!["x".to_string()], ..config };
    assert_eq!(
        all_bogus.validated_sort_order(),
        vec!["completed", "events", "notes", "uncompleted"]
    );
}

#[test]
fn test_get_favorite_tag() {
    let config = Config {
        global_file: None,
        sort_order: Vec::new(),
        favorite_tags: pairs(&[("1", "feature"), ("2", "")]),
        filters: Vec::new(),
        default_filter: String::new(),
        header_date_format: String::new(),
        hide_completed: false,
    };
    assert_eq!(config.get_favorite_tag('1'), Some("feature".to_string()));
    assert_eq!(config.get_favorite_tag('2'), None);
    assert_eq!(config.get_favorite_tag('7'), None);
    assert_eq!(config.get_favorite_tag('x'), None);
}

#[test]
fn test_partial_config_merge() {
    let mut global = PartialConfig::unset();
    global.global_file = Some("g.md".to_string());
    global.default_filter = Some("!tasks".to_string());
    global.favorite_tags = Some(pairs(&[("1", "base"), ("2", "keep")]));
    let mut project = PartialConfig::unset();
    project.global_file = Some("ignored.md".to_string());
    project.favorite_tags = Some(pairs(&[("1", "override")]));
    let merged = project.merge_over(global);
    // the global file path is never overridden by the project
    assert_eq!(merged.global_file, Some("g.md".to_string()));
    assert_eq!(merged.default_filter, Some("!tasks".to_string()));
    let config = merged.into_config();
    assert_eq!(config.get_favorite_tag('1'), Some("override".to_string()));
    assert_eq!(config.get_favorite_tag('2'), Some("keep".to_string()));
}

#[test]
fn test_config_defaults() {
    let config = PartialConfig::unset().into_config();
    assert_eq!(config.default_filter, "!tasks");
    assert_eq!(config.header_date_format, "%m/%d/%y");
    assert!(!config.hide_completed);
    assert_eq!(config.get_favorite_tag('1'), Some("feature".to_string()));
    assert_eq!(config.get_favorite_tag('2'), Some("bug".to_string()));
    assert_eq!(config.get_favorite_tag('3'), Some("idea".to_string()));
}

#[test]
fn test_scroll_indicator_text() {
    assert_eq!(scroll_indicator_text(true, true, ScrollIndicatorStyle::Arrows), Some("▲▼"));
    assert_eq!(scroll_indicator_text(true, false, ScrollIndicatorStyle::Arrows), Some("▲"));
    assert_eq!(scroll_indicator_text(false, true, ScrollIndicatorStyle::Labeled), Some(" ▼ scroll "));
    assert_eq!(scroll_indicator_text(false, false, ScrollIndicatorStyle::Arrows), None);
}

#[test]
fn test_location_get_and_edit_daily() {
    let journal = "# 2026/01/10\n- [ ] A\nraw\n";
    let date = d(2026, 1, 10);
    let mut lines = caliber::document::load_day_lines(journal, date);
    let loc = EntryLocation::Daily { line_idx: 0 };
    assert_eq!(get_entry_content(journal, &lines, &loc), "A");
    let raw_loc = EntryLocation::Daily { line_idx: 1 };
    assert_eq!(get_entry_content(journal, &lines, &raw_loc), "");

    let updated = execute_content_operation(
        journal,
        &mut lines,
        date,
        &loc,
        &EditOp::Replace("B".to_string()),
    );
    assert!(updated.contains("- [ ] B"));
    // a raw line is untouched, and the document comes back unchanged
    let same = execute_content_operation(
        journal,
        &mut lines,
        date,
        &raw_loc,
        &EditOp::Replace("B".to_string()),
    );
    assert_eq!(same, journal);
}

#[test]
fn test_location_edit_remote_and_append() {
    let journal = "# 2026/01/10\n- [ ] Original @01/15\n";
    let date = d(2026, 1, 15);
    let later = caliber::projection::collect_later_entries_for_date(journal, date);
    assert_eq!(later.len(), 1);
    let pe = caliber::entries::ProjectedEntry {
        source_date: later[0].source_date,
        line_index: later[0].line_index,
        entry: Entry {
            entry_type: later[0].entry_type,
            content: later[0].content.clone(),
        },
        kind: caliber::entries::ProjectedKind::Later,
    };
    let loc = EntryLocation::Projected(pe);
    assert!(!is_recurring_entry(&loc));
    let mut lines: Vec<Line> = Vec::new();
    let edited = execute_content_operation(
        journal,
        &mut lines,
        date,
        &loc,
        &EditOp::Replace("Modified @01/15".to_string()),
    );
    assert!(edited.contains("Modified @01/15"));
    assert!(!edited.contains("Original"));
    let appended = execute_content_operation(journal, &mut lines, date, &loc, &EditOp::Append(
        " #tag".to_string(),
    ));
    assert!(appended.contains("- [ ] Original @01/15 #tag"));
    let toggled = execute_content_operation(journal, &mut lines, date, &loc, &EditOp::Toggle);
    assert!(toggled.contains("- [x] Original @01/15"));
    let cycled = execute_content_operation(journal, &mut lines, date, &loc, &EditOp::Cycle);
    assert!(cycled.contains("- Original @01/15"));
}

#[test]
fn test_content_target_keeps_original_for_undo() {
    let journal = "# 2026/01/10\n- [ ] Keep me\n";
    let date = d(2026, 1, 10);
    let mut lines = caliber::document::load_day_lines(journal, date);
    let loc = EntryLocation::Daily { line_idx: 0 };
    let original = get_entry_content(journal, &lines, &loc);
    let target = ContentTarget::new(loc, original);
    let changed = caliber::locations::set_entry_content(
        journal,
        &mut lines,
        date,
        &target.location,
        "Changed",
    );
    assert!(changed.contains("- [ ] Changed"));
    let restored = caliber::locations::set_entry_content(
        &changed,
        &mut lines,
        date,
        &target.location,
        target.original_content.as_str(),
    );
    assert!(restored.contains("- [ ] Keep me"));
    assert_eq!(restored, journal);
}

#[test]
fn test_entry_toggle_and_new_task() {
    let mut entry = Entry::new_task("buy milk");
    assert_eq!(entry.entry_type, EntryType::Task { completed: false });
    entry.toggle_complete();
    assert_eq!(entry.entry_type, EntryType::Task { completed: true });
    let mut note = Entry { entry_type: EntryType::Note, content: "n".to_string() };
    note.toggle_complete();
    assert_eq!(note.entry_type, EntryType::Note);
    assert_eq!(entry.prefix(), "- [x] ");
    assert_eq!(EntryType::Event.prefix(), "* ");
    assert_eq!(EntryType::Event.cycle(), EntryType::Task { completed: false });
}
