//! Location-addressed mutation primitives.
//!
//! An `EntryLocation` names an entry in one of three ways: a line index
//! into the active day's already-loaded lines, a projected entry reached
//! through its source day, or a filter result carrying the same source
//! addressing.  The operations here — get, set, apply an edit, append —
//! dispatch on the location kind; they are the storage surface an undo
//! layer needs, since a caller can capture an entry's original content and
//! later restore it verbatim.

use vstd::prelude::*;

use crate::dates::Date;
use crate::document::{
    day_lines_spec, entry_at, entry_of, saved_doc_spec, load_day_lines, save_day_lines,
};
use crate::entries::{
    spec_cycle, spec_toggle, Entry, EntryV, FilterResult, Line, LineV, ProjectedEntry,
    ProjectedKind,
};

verus! {

/// Where an entry lives: in the active day's loaded lines, behind a
/// projected entry, or behind a filter result.
#[derive(Debug, Clone)]
pub enum EntryLocation {
    Daily { line_idx: usize },
    Projected(ProjectedEntry),
    Filter { index: usize, entry: FilterResult },
}

/// A mutation target: a location plus the content it held before, kept so
/// the change can be reversed verbatim.
#[derive(Debug, Clone)]
pub struct ContentTarget {
    pub location: EntryLocation,
    pub original_content: String,
}

impl ContentTarget {
    pub fn new(location: EntryLocation, original_content: String) -> (r: Self)
        ensures
            r.location == location,
            r.original_content == original_content,
    {
        ContentTarget { location, original_content }
    }
}

/// A recurring projected entry may not be deferred; everything else may.
pub fn is_recurring_entry(location: &EntryLocation) -> (r: bool)
    ensures
        r == match location {
            EntryLocation::Projected(entry) => entry.kind == ProjectedKind::Recurring,
            _ => false,
        },
{
    match location {
        EntryLocation::Projected(entry) => matches!(entry.kind, ProjectedKind::Recurring),
        EntryLocation::Daily { .. } | EntryLocation::Filter { .. } => false,
    }
}

/// An edit applied to one entry's line.
#[derive(Debug, Clone)]
pub enum EditOp {
    /// Replace the content outright.
    Replace(String),
    /// Append text to the content.
    Append(String),
    /// Flip a task's completion.
    Toggle,
    /// Cycle the entry type.
    Cycle,
}

/// Mathematical model of an `EditOp`.
pub ghost enum EditOpV {
    Replace(Seq<char>),
    Append(Seq<char>),
    Toggle,
    Cycle,
}

impl View for EditOp {
    type V = EditOpV;

    open spec fn view(&self) -> EditOpV {
        match self {
            EditOp::Replace(s) => EditOpV::Replace(s@),
            EditOp::Append(s) => EditOpV::Append(s@),
            EditOp::Toggle => EditOpV::Toggle,
            EditOp::Cycle => EditOpV::Cycle,
        }
    }
}

/// The entry after an edit.
pub open spec fn edited_entry(e: EntryV, op: EditOpV) -> EntryV {
    match op {
        EditOpV::Replace(s) => EntryV { entry_type: e.entry_type, content: s },
        EditOpV::Append(s) => EntryV { entry_type: e.entry_type, content: e.content + s },
        EditOpV::Toggle => EntryV { entry_type: spec_toggle(e.entry_type), content: e.content },
        EditOpV::Cycle => EntryV { entry_type: spec_cycle(e.entry_type), content: e.content },
    }
}

/// The lines after an edit at `idx`: unchanged unless a typed entry stands
/// there.
pub open spec fn apply_edit(lvs: Seq<LineV>, idx: int, op: EditOpV) -> Seq<LineV> {
    if entry_at(lvs, idx) {
        lvs.update(idx, LineV::Entry(edited_entry(entry_of(lvs[idx]), op)))
    } else {
        lvs
    }
}

/// The content at a location: the addressed line's content when a typed
/// entry stands there, the empty string otherwise.
pub open spec fn content_at(lvs: Seq<LineV>, idx: int) -> Seq<char> {
    if entry_at(lvs, idx) {
        entry_of(lvs[idx]).content
    } else {
        Seq::empty()
    }
}

/// The day and line index a location addresses outside the active day, if
/// it does.
pub open spec fn remote_address(location: EntryLocation) -> Option<(Date, int)> {
    match location {
        EntryLocation::Daily { .. } => None,
        EntryLocation::Projected(e) => Some((e.source_date, e.line_index as int)),
        EntryLocation::Filter { entry, .. } => Some((entry.source_date, entry.line_index as int)),
    }
}

/// A location's source date names a real day; the active day's index stays
/// inside the loaded lines.
pub open spec fn location_wf(location: EntryLocation, lines: Seq<LineV>) -> bool {
    match location {
        EntryLocation::Daily { line_idx } => line_idx < lines.len(),
        EntryLocation::Projected(e) => e.source_date.valid(),
        EntryLocation::Filter { entry, .. } => entry.source_date.valid(),
    }
}

/// Reads the content at a location: from the loaded lines for the active
/// day, from the document for a projected or filter location.
pub fn get_entry_content(journal: &str, lines: &Vec<Line>, location: &EntryLocation) -> (r:
    String)
    requires
        location_wf(*location, lines.deep_view()),
    ensures
        r@ == match remote_address(*location) {
            None => content_at(lines.deep_view(), location->Daily_line_idx as int),
            Some((d, i)) => content_at(day_lines_spec(journal@, d), i),
        },
{
    match location {
        EntryLocation::Daily { line_idx } => {
            proof {
                assert(lines.deep_view()[*line_idx as int] == lines@[*line_idx as int]@);
            }
            match &lines[*line_idx] {
                Line::Entry(e) => e.content.clone(),
                Line::Raw(_) => String::new(),
            }
        },
        EntryLocation::Projected(e) => content_from_day(journal, e.source_date, e.line_index),
        EntryLocation::Filter { entry, .. } => content_from_day(
            journal,
            entry.source_date,
            entry.line_index,
        ),
    }
}

fn content_from_day(journal: &str, date: Date, line_index: usize) -> (r: String)
    requires
        date.valid(),
    ensures
        r@ == content_at(day_lines_spec(journal@, date), line_index as int),
{
    let day_lines = load_day_lines(journal, date);
    if line_index < day_lines.len() {
        proof {
            assert(day_lines.deep_view()[line_index as int] == day_lines@[line_index as int]@);
        }
        match &day_lines[line_index] {
            Line::Entry(e) => e.content.clone(),
            Line::Raw(_) => String::new(),
        }
    } else {
        String::new()
    }
}

/// Applies an edit at a location.  A `Daily` location edits the loaded
/// lines and writes the active day back; the other locations edit the
/// addressed source day inside the document.  Without a typed entry at the
/// index, nothing changes.  Returns the document text afterwards.
pub fn execute_content_operation(
    journal: &str,
    lines: &mut Vec<Line>,
    active_date: Date,
    location: &EntryLocation,
    op: &EditOp,
) -> (r: String)
    requires
        active_date.valid(),
        location_wf(*location, old(lines).deep_view()),
    ensures
        match remote_address(*location) {
            None => {
                &&& final(lines).deep_view() == apply_edit(
                    old(lines).deep_view(),
                    location->Daily_line_idx as int,
                    op@,
                )
                &&& if entry_at(old(lines).deep_view(), location->Daily_line_idx as int) {
                    r@ == saved_doc_spec(journal@, active_date, final(lines).deep_view())
                } else {
                    r@ == journal@
                }
            },
            Some((d, i)) => {
                &&& *final(lines) == *old(lines)
                &&& if entry_at(day_lines_spec(journal@, d), i) {
                    r@ == saved_doc_spec(journal@, d, apply_edit(day_lines_spec(journal@, d), i, op@))
                } else {
                    r@ == journal@
                }
            },
        },
{
    match location {
        EntryLocation::Daily { line_idx } => {
            let ghost lvs = lines.deep_view();
            let idx = *line_idx;
            proof {
                assert(lines.deep_view()[idx as int] == lines@[idx as int]@);
            }
            let is_entry = matches!(&lines[idx], Line::Entry(_));
            if is_entry {
                let slot = vstd::std_specs::vec::vec_index_mut(lines, idx);
                match slot {
                    Line::Entry(entry) => {
                        apply_op_to_entry(entry, op);
                    },
                    _ => {},
                }
                proof {
                    assert(lines.deep_view() =~~= apply_edit(lvs, idx as int, op@));
                }
                save_day_lines(journal, active_date, lines)
            } else {
                proof {
                    assert(lines.deep_view() =~~= apply_edit(lvs, idx as int, op@));
                }
                journal.to_owned()
            }
        },
        EntryLocation::Projected(e) => edit_in_day(journal, e.source_date, e.line_index, op),
        EntryLocation::Filter { entry, .. } => edit_in_day(
            journal,
            entry.source_date,
            entry.line_index,
            op,
        ),
    }
}

fn apply_op_to_entry(entry: &mut Entry, op: &EditOp)
    ensures
        final(entry)@ == edited_entry(old(entry)@, op@),
{
    match op {
        EditOp::Replace(s) => {
            entry.content = s.clone();
        },
        EditOp::Append(s) => {
            vstd::string::StringExecFns::append(&mut entry.content, s.as_str());
        },
        EditOp::Toggle => {
            entry.toggle_complete();
        },
        EditOp::Cycle => {
            entry.entry_type = entry.entry_type.cycle();
        },
    }
}

fn edit_in_day(journal: &str, date: Date, line_index: usize, op: &EditOp) -> (r: String)
    requires
        date.valid(),
    ensures
        if entry_at(day_lines_spec(journal@, date), line_index as int) {
            r@ == saved_doc_spec(
                journal@,
                date,
                apply_edit(day_lines_spec(journal@, date), line_index as int, op@),
            )
        } else {
            r@ == journal@
        },
{
    let mut day_lines = load_day_lines(journal, date);
    let ghost lvs = day_lines.deep_view();
    if line_index < day_lines.len() {
        proof {
            assert(day_lines.deep_view()[line_index as int] == day_lines@[line_index as int]@);
        }
        let is_entry = matches!(&day_lines[line_index], Line::Entry(_));
        if is_entry {
            let slot = vstd::std_specs::vec::vec_index_mut(&mut day_lines, line_index);
            match slot {
                Line::Entry(entry) => {
                    apply_op_to_entry(entry, op);
                },
                _ => {},
            }
            proof {
                assert(day_lines.deep_view() =~~= apply_edit(lvs, line_index as int, op@));
            }
            return save_day_lines(journal, date, &day_lines);
        }
    }
    journal.to_owned()
}

/// Sets the content at a location outright — the restore half of an undo.
pub fn set_entry_content(
    journal: &str,
    lines: &mut Vec<Line>,
    active_date: Date,
    location: &EntryLocation,
    content: &str,
) -> (r: String)
    requires
        active_date.valid(),
        location_wf(*location, old(lines).deep_view()),
    ensures
        match remote_address(*location) {
            None => {
                &&& final(lines).deep_view() == apply_edit(
                    old(lines).deep_view(),
                    location->Daily_line_idx as int,
                    EditOpV::Replace(content@),
                )
                &&& if entry_at(old(lines).deep_view(), location->Daily_line_idx as int) {
                    r@ == saved_doc_spec(journal@, active_date, final(lines).deep_view())
                } else {
                    r@ == journal@
                }
            },
            Some((d, i)) => {
                &&& *final(lines) == *old(lines)
                &&& if entry_at(day_lines_spec(journal@, d), i) {
                    r@ == saved_doc_spec(
                        journal@,
                        d,
                        apply_edit(day_lines_spec(journal@, d), i, EditOpV::Replace(content@)),
                    )
                } else {
                    r@ == journal@
                }
            },
        },
{
    let op = EditOp::Replace(content.to_owned());
    execute_content_operation(journal, lines, active_date, location, &op)
}

/// Appends a suffix to the content at a location.
pub fn execute_content_append(
    journal: &str,
    lines: &mut Vec<Line>,
    active_date: Date,
    location: &EntryLocation,
    suffix: &str,
) -> (r: String)
    requires
        active_date.valid(),
        location_wf(*location, old(lines).deep_view()),
    ensures
        match remote_address(*location) {
            None => {
                &&& final(lines).deep_view() == apply_edit(
                    old(lines).deep_view(),
                    location->Daily_line_idx as int,
                    EditOpV::Append(suffix@),
                )
                &&& if entry_at(old(lines).deep_view(), location->Daily_line_idx as int) {
                    r@ == saved_doc_spec(journal@, active_date, final(lines).deep_view())
                } else {
                    r@ == journal@
                }
            },
            Some((d, i)) => {
                &&& *final(lines) == *old(lines)
                &&& if entry_at(day_lines_spec(journal@, d), i) {
                    r@ == saved_doc_spec(
                        journal@,
                        d,
                        apply_edit(day_lines_spec(journal@, d), i, EditOpV::Append(suffix@)),
                    )
                } else {
                    r@ == journal@
                }
            },
        },
{
    let op = EditOp::Append(suffix.to_owned());
    execute_content_operation(journal, lines, active_date, location, &op)
}

} // verus!
