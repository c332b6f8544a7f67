//! The projection engine.
//!
//! One forward scan of the whole document finds, for a target date, the
//! entries that reference it from other days: "later" entries carrying an
//! `@date` marker that resolves to the target, and recurring entries whose
//! `@every-*` rule selects it.  Entries physically inside the target date's
//! own section are never projected — they already appear as ordinary
//! entries.  Each result carries its source day and line index so an edit
//! can be routed back to the exact originating line.

use vstd::prelude::*;

use crate::dates::{date_key, Date, Weekday};
use crate::document::parse_day_header_spec;
use crate::entries::{
    parse_line_spec, EntryType, LineV, ProjectedEntry, ProjectedKind, RecurringPattern,
    spec_pattern_matches,
};
use crate::resolver::{extract_target_date_spec, match_kw, weekday_name_len, parse_weekday_spec};
use crate::text::{
    copy_range, digits_run, digits_run_at, digits_val, line_at, next_line_pos, read_line_at,
    string_to_chars,
};

verus! {

/// An entry from another day that appears on a target date via an `@date`
/// marker.
#[derive(Debug, Clone)]
pub struct LaterEntry {
    pub source_date: Date,
    pub line_index: usize,
    pub content: String,
    pub entry_type: EntryType,
    pub completed: bool,
}

/// Mathematical model of a `LaterEntry`.
pub ghost struct LaterEntryV {
    pub source_date: Date,
    pub line_index: int,
    pub content: Seq<char>,
    pub entry_type: EntryType,
    pub completed: bool,
}

impl View for LaterEntry {
    type V = LaterEntryV;

    open spec fn view(&self) -> LaterEntryV {
        LaterEntryV {
            source_date: self.source_date,
            line_index: self.line_index as int,
            content: self.content@,
            entry_type: self.entry_type,
            completed: self.completed,
        }
    }
}

impl DeepView for LaterEntry {
    type V = LaterEntryV;

    open spec fn deep_view(&self) -> LaterEntryV {
        self.view()
    }
}

/// The later entries found scanning from `pos` with `cur` the day whose
/// section is open and `idx` the line index within it.  An entry line under
/// a day other than `target` is emitted when its first `@date` marker,
/// resolved against `target` itself, names `target`; every non-header line
/// under a day advances the line index, header lines reset it.
pub open spec fn later_scan(
    s: Seq<char>,
    target: Date,
    pos: int,
    cur: Option<Date>,
    idx: int,
) -> Seq<LaterEntryV>
    decreases s.len() - pos when 0 <= pos <= s.len() via later_scan_decreases
{
    if pos >= s.len() {
        Seq::empty()
    } else {
        let line = line_at(s, pos);
        let nxt = next_line_pos(s, pos);
        match parse_day_header_spec(line) {
            Some(d) => later_scan(s, target, nxt, Some(d), 0),
            None => match cur {
                None => later_scan(s, target, nxt, None, idx),
                Some(src) => {
                    if src == target {
                        later_scan(s, target, nxt, Some(src), idx + 1)
                    } else {
                        match parse_line_spec(line) {
                            LineV::Entry(e) => {
                                if extract_target_date_spec(e.content, target) == Some(target) {
                                    seq![
                                        LaterEntryV {
                                            source_date: src,
                                            line_index: idx,
                                            content: e.content,
                                            entry_type: e.entry_type,
                                            completed: e.entry_type == (EntryType::Task {
                                                completed: true,
                                            }),
                                        },
                                    ] + later_scan(s, target, nxt, Some(src), idx + 1)
                                } else {
                                    later_scan(s, target, nxt, Some(src), idx + 1)
                                }
                            },
                            LineV::Raw(_) => later_scan(s, target, nxt, Some(src), idx + 1),
                        }
                    }
                },
            },
        }
    }
}

#[via_fn]
proof fn later_scan_decreases(s: Seq<char>, target: Date, pos: int, cur: Option<Date>, idx: int) {
    crate::text::lemma_find_char_bounds(s, '\n', pos);
}

/// Inserts `x` behind every element whose source date is on or before its
/// own — the stable insertion position.
pub open spec fn insert_by_date(sorted: Seq<LaterEntryV>, x: LaterEntryV) -> Seq<LaterEntryV>
    decreases sorted.len(),
{
    if sorted.len() == 0 {
        seq![x]
    } else if date_key(sorted[0].source_date) <= date_key(x.source_date) {
        seq![sorted[0]] + insert_by_date(sorted.skip(1), x)
    } else {
        seq![x] + sorted
    }
}

/// Stable sort by source date: each element in turn is inserted behind its
/// equals, so ties keep their scan order.
pub open spec fn sort_by_date(s: Seq<LaterEntryV>) -> Seq<LaterEntryV>
    decreases s.len(),
{
    if s.len() == 0 {
        Seq::empty()
    } else {
        insert_by_date(sort_by_date(s.drop_last()), s.last())
    }
}

pub open spec fn sorted_by_date(s: Seq<LaterEntryV>) -> bool {
    forall|i: int, j: int|
        0 <= i < j < s.len() ==> date_key(#[trigger] s[i].source_date) <= date_key(
            #[trigger] s[j].source_date,
        )
}

proof fn lemma_insert_by_date_sorted(sorted: Seq<LaterEntryV>, x: LaterEntryV)
    requires
        sorted_by_date(sorted),
    ensures
        sorted_by_date(insert_by_date(sorted, x)),
        insert_by_date(sorted, x).len() == sorted.len() + 1,
        forall|i: int|
            0 <= i < insert_by_date(sorted, x).len() ==> (#[trigger] insert_by_date(sorted, x)[i]
                == x || sorted.contains(insert_by_date(sorted, x)[i])),
    decreases sorted.len(),
{
    if sorted.len() == 0 {
    } else if date_key(sorted[0].source_date) <= date_key(x.source_date) {
        assert(sorted_by_date(sorted.skip(1)));
        lemma_insert_by_date_sorted(sorted.skip(1), x);
        let r = seq![sorted[0]] + insert_by_date(sorted.skip(1), x);
        assert forall|i: int, j: int| 0 <= i < j < r.len() implies date_key(
            #[trigger] r[i].source_date,
        ) <= date_key(#[trigger] r[j].source_date) by {
            if i == 0 {
                let inner = insert_by_date(sorted.skip(1), x);
                assert(inner[j - 1] == x || sorted.skip(1).contains(inner[j - 1]));
            }
        }
        assert forall|i: int| 0 <= i < r.len() implies (#[trigger] r[i] == x || sorted.contains(
            r[i],
        )) by {
            if i > 0 {
                let inner = insert_by_date(sorted.skip(1), x);
                assert(inner[i - 1] == x || sorted.skip(1).contains(inner[i - 1]));
                if sorted.skip(1).contains(inner[i - 1]) {
                    let k = choose|k: int|
                        0 <= k < sorted.skip(1).len() && sorted.skip(1)[k] == inner[i - 1];
                    assert(sorted[k + 1] == inner[i - 1]);
                }
            }
        }
    } else {
        assert forall|i: int|
            0 <= i < insert_by_date(sorted, x).len() implies (#[trigger] insert_by_date(sorted, x)[i]
            == x || sorted.contains(insert_by_date(sorted, x)[i])) by {
            if i > 0 {
                assert(insert_by_date(sorted, x)[i] == sorted[i - 1]);
            }
        }
    }
}

/// Sorting law: the stable sort leaves the sequence ordered by source date.
pub proof fn lemma_sort_by_date_sorted(s: Seq<LaterEntryV>)
    ensures
        sorted_by_date(sort_by_date(s)),
        sort_by_date(s).len() == s.len(),
        forall|i: int|
            0 <= i < sort_by_date(s).len() ==> s.contains(#[trigger] sort_by_date(s)[i]),
    decreases s.len(),
{
    if s.len() > 0 {
        lemma_sort_by_date_sorted(s.drop_last());
        lemma_insert_by_date_sorted(sort_by_date(s.drop_last()), s.last());
        assert forall|i: int| 0 <= i < sort_by_date(s).len() implies s.contains(
            #[trigger] sort_by_date(s)[i],
        ) by {
            let e = sort_by_date(s)[i];
            if e == s.last() {
                assert(s[s.len() - 1] == e);
            } else {
                assert(sort_by_date(s.drop_last()).contains(e));
                let k = choose|k: int|
                    0 <= k < sort_by_date(s.drop_last()).len() && sort_by_date(s.drop_last())[k]
                        == e;
                assert(s.drop_last().contains(e));
                let k2 = choose|k2: int|
                    0 <= k2 < s.drop_last().len() && s.drop_last()[k2] == e;
                assert(s[k2] == e);
            }
        }
    }
}

proof fn lemma_insert_by_date_at(sorted: Seq<LaterEntryV>, x: LaterEntryV, j: int)
    requires
        0 <= j <= sorted.len(),
        forall|i: int| 0 <= i < j ==> date_key(#[trigger] sorted[i].source_date) <= date_key(
            x.source_date,
        ),
        j < sorted.len() ==> date_key(sorted[j].source_date) > date_key(x.source_date),
    ensures
        insert_by_date(sorted, x) == sorted.take(j) + seq![x] + sorted.skip(j),
    decreases j,
{
    if sorted.len() == 0 {
        assert(insert_by_date(sorted, x) =~= sorted.take(j) + seq![x] + sorted.skip(j));
    } else if j == 0 {
        assert(insert_by_date(sorted, x) =~= sorted.take(0) + seq![x] + sorted.skip(0));
    } else {
        lemma_insert_by_date_at(sorted.skip(1), x, j - 1);
        assert(sorted.skip(1).take(j - 1) =~= sorted.take(j).skip(1));
        assert(sorted.skip(1).skip(j - 1) =~= sorted.skip(j));
        assert(insert_by_date(sorted, x) =~= sorted.take(j) + seq![x] + sorted.skip(j));
    }
}

/// All source dates in a scan result are valid and none is the target.
pub open spec fn later_entries_wf(es: Seq<LaterEntryV>, target: Date) -> bool {
    forall|i: int|
        0 <= i < es.len() ==> (#[trigger] es[i]).source_date.valid() && es[i].source_date != target
}

proof fn lemma_later_scan_wf(s: Seq<char>, target: Date, pos: int, cur: Option<Date>, idx: int)
    requires
        0 <= pos <= s.len(),
        cur is Some ==> cur->0.valid(),
    ensures
        later_entries_wf(later_scan(s, target, pos, cur, idx), target),
    decreases s.len() - pos,
{
    crate::text::lemma_find_char_bounds(s, '\n', pos);
    if pos < s.len() {
        let line = line_at(s, pos);
        let nxt = next_line_pos(s, pos);
        match parse_day_header_spec(line) {
            Some(d) => {
                lemma_later_scan_wf(s, target, nxt, Some(d), 0);
            },
            None => match cur {
                None => {
                    lemma_later_scan_wf(s, target, nxt, None, idx);
                },
                Some(src) => {
                    lemma_later_scan_wf(s, target, nxt, Some(src), idx + 1);
                },
            },
        }
    }
}

fn sort_later_entries(v: Vec<LaterEntry>) -> (r: Vec<LaterEntry>)
    requires
        forall|i: int| 0 <= i < v@.len() ==> (#[trigger] v@[i]).source_date.valid(),
    ensures
        r.deep_view() == sort_by_date(v.deep_view()),
{
    let ghost orig = v.deep_view();
    let mut input = v;
    let mut out: Vec<LaterEntry> = Vec::new();
    let ghost mut k: int = 0;
    proof {
        assert(out.deep_view() =~~= sort_by_date(orig.take(0)));
        assert(input.deep_view() =~~= orig.skip(0));
    }
    while input.len() > 0
        invariant
            0 <= k <= orig.len(),
            out.deep_view() == sort_by_date(orig.take(k)),
            input.deep_view() =~~= orig.skip(k),
            forall|i: int| 0 <= i < input@.len() ==> (#[trigger] input@[i]).source_date.valid(),
            forall|i: int| 0 <= i < out@.len() ==> (#[trigger] out@[i]).source_date.valid(),
        decreases input.len(),
    {
        let ghost prev_in = input.deep_view();
        let x = input.remove(0);
        proof {
            assert(prev_in[0] == orig.skip(k)[0]);
            assert(orig.skip(k)[0] == orig[k]);
            assert(x.deep_view() == prev_in[0]);
            assert(input.deep_view() =~~= prev_in.skip(1));
            assert(prev_in.skip(1) =~= orig.skip(k + 1));
        }
        let mut j: usize = 0;
        while j < out.len() && crate::dates::date_le(out[j].source_date, x.source_date)
            invariant
                j <= out.len(),
                x.source_date.valid(),
                forall|i: int| 0 <= i < out@.len() ==> (#[trigger] out@[i]).source_date.valid(),
                forall|i: int|
                    0 <= i < j ==> date_key(#[trigger] out.deep_view()[i].source_date) <= date_key(
                        x@.source_date,
                    ),
            decreases out.len() - j,
        {
            j = j + 1;
        }
        let ghost prev = out.deep_view();
        out.insert(j, x);
        proof {
            lemma_insert_by_date_at(prev, x.deep_view(), j as int);
            assert(out.deep_view() =~~= prev.take(j as int) + seq![x.deep_view()] + prev.skip(
                j as int,
            ));
            assert(orig.take(k + 1).drop_last() =~= orig.take(k));
            assert(orig.take(k + 1).last() == orig[k]);
            assert(out.deep_view() =~~= sort_by_date(orig.take(k + 1)));
            k = k + 1;
        }
    }
    proof {
        assert(orig.take(k) =~= orig);
    }
    out
}

/// Collects the entries of other days whose `@date` marker resolves — with
/// the "always future" policy, anchored at the target date itself — to the
/// target date, sorted by source date ascending, ties in scan order.  An
/// entry physically in the target date's own section is never among them.
pub fn collect_later_entries_for_date(journal: &str, target_date: Date) -> (r: Vec<LaterEntry>)
    requires
        target_date.valid(),
    ensures
        r.deep_view() == sort_by_date(later_scan(journal@, target_date, 0, None, 0)),
        later_entries_wf(r.deep_view(), target_date),
{
    let v = string_to_chars(journal);
    let mut entries: Vec<LaterEntry> = Vec::new();
    let mut pos: usize = 0;
    let mut cur: Option<Date> = None;
    let mut idx: usize = 0;
    proof {
        assert(entries.deep_view() =~~= Seq::<LaterEntryV>::empty());
    }
    while pos < v.len()
        invariant
            target_date.valid(),
            pos <= v.len(),
            v@ == journal@,
            cur is Some ==> cur->0.valid(),
            later_scan(journal@, target_date, 0, None, 0) == entries.deep_view() + later_scan(
                v@,
                target_date,
                pos as int,
                cur,
                idx as int,
            ),
            forall|i: int|
                0 <= i < entries@.len() ==> (#[trigger] entries@[i]).source_date.valid(),
            idx <= pos,
        decreases v.len() - pos,
    {
        let (line, next) = read_line_at(&v, pos);
        proof {
            crate::text::lemma_find_char_bounds(v@, '\n', pos as int);
        }
        match crate::document::parse_day_header(&line) {
            Some(d) => {
                cur = Some(d);
                idx = 0;
            },
            None => {
                match cur {
                    Some(src) => {
                        if src == target_date {
                            idx = idx + 1;
                        } else {
                            let parsed = crate::entries::parse_line(&line);
                            match parsed {
                                crate::entries::Line::Entry(entry) => {
                                    let et = crate::resolver::extract_target_date(
                                        entry.content.as_str(),
                                        target_date,
                                    );
                                    let hit = match et {
                                        Some(t) => t == target_date,
                                        None => false,
                                    };
                                    if hit {
                                        let completed = matches!(
                                            entry.entry_type,
                                            EntryType::Task { completed: true },
                                        );
                                        let ghost before = entries.deep_view();
                                        let le = LaterEntry {
                                            source_date: src,
                                            line_index: idx,
                                            content: entry.content,
                                            entry_type: entry.entry_type,
                                            completed,
                                        };
                                        entries.push(le);
                                        proof {
                                            assert(entries.deep_view() =~~= before + seq![
                                                le.deep_view(),
                                            ]);
                                        }
                                    }
                                    idx = idx + 1;
                                },
                                crate::entries::Line::Raw(_) => {
                                    idx = idx + 1;
                                },
                            }
                        }
                    },
                    None => {},
                }
            },
        }
        pos = next;
    }
    proof {
        assert(later_scan(journal@, target_date, 0, None, 0) =~~= entries.deep_view());
        lemma_later_scan_wf(journal@, target_date, 0, None, 0);
        lemma_sort_by_date_sorted(entries.deep_view());
    }
    let sorted = sort_later_entries(entries);
    proof {
        assert forall|i: int| 0 <= i < sorted.deep_view().len() implies (
        #[trigger] sorted.deep_view()[i]).source_date.valid() && sorted.deep_view()[i].source_date
            != target_date by {
            lemma_sort_by_date_sorted(later_scan(journal@, target_date, 0, None, 0));
            assert(later_scan(journal@, target_date, 0, None, 0).contains(sorted.deep_view()[i]));
        }
    }
    sorted
}

/// Later-entry exclusion law: no later entry for a target date has the
/// target date itself as its source — an entry in the target's own section
/// is never projected onto it.
pub proof fn lemma_later_entry_exclusion(s: Seq<char>, target: Date)
    ensures
        forall|i: int|
            0 <= i < sort_by_date(later_scan(s, target, 0, None, 0)).len() ==> (
            #[trigger] sort_by_date(later_scan(s, target, 0, None, 0))[i]).source_date != target,
{
    lemma_later_scan_wf(s, target, 0, None, 0);
    lemma_sort_by_date_sorted(later_scan(s, target, 0, None, 0));
    assert forall|i: int|
        0 <= i < sort_by_date(later_scan(s, target, 0, None, 0)).len() implies (
    #[trigger] sort_by_date(later_scan(s, target, 0, None, 0))[i]).source_date != target by {
        assert(later_scan(s, target, 0, None, 0).contains(
            sort_by_date(later_scan(s, target, 0, None, 0))[i],
        ));
    }
}


/// The `every-` keyword that opens a recurrence marker.
pub open spec fn kw_every_dash() -> Seq<char> {
    seq!['e', 'v', 'e', 'r', 'y', '-']
}

pub open spec fn kw_weekday_word() -> Seq<char> {
    seq!['w', 'e', 'e', 'k', 'd', 'a', 'y']
}

pub open spec fn kw_day_word() -> Seq<char> {
    seq!['d', 'a', 'y']
}

/// The recurrence rule named at position `p` (just after an `@`):
/// `every-day`, `every-weekday`, `every-` plus a weekday name, or `every-`
/// plus a day of month 1 through 31.
pub open spec fn recurring_marker_at(s: Seq<char>, p: int) -> Option<RecurringPattern> {
    if match_kw(s, p, kw_every_dash()) {
        let q = p + 6;
        if match_kw(s, q, kw_weekday_word()) {
            Some(RecurringPattern::Weekday)
        } else if match_kw(s, q, kw_day_word()) {
            Some(RecurringPattern::Daily)
        } else if weekday_name_len(s, q) is Some && parse_weekday_spec(
            s.subrange(q, q + weekday_name_len(s, q)->0),
        ) is Some {
            Some(
                RecurringPattern::Weekly(
                    parse_weekday_spec(s.subrange(q, q + weekday_name_len(s, q)->0))->0,
                ),
            )
        } else if q <= s.len() && digits_run(s, q) >= 1 && crate::text::parse_num_u32_spec(
            s.subrange(q, q + digits_run(s, q)),
        ) is Some && 1 <= digits_val(s.subrange(q, q + digits_run(s, q)))
            && digits_val(s.subrange(q, q + digits_run(s, q))) <= 31 {
            Some(RecurringPattern::Monthly(digits_val(s.subrange(q, q + digits_run(s, q))) as u8))
        } else {
            None
        }
    } else {
        None
    }
}

/// The first recurrence marker in `s` at or after `pos`.
pub open spec fn first_recurring_marker(s: Seq<char>, pos: int) -> Option<RecurringPattern>
    decreases s.len() - pos when 0 <= pos <= s.len()
{
    if pos >= s.len() {
        None
    } else if s[pos] == '@' && recurring_marker_at(s, pos + 1) is Some {
        recurring_marker_at(s, pos + 1)
    } else {
        first_recurring_marker(s, pos + 1)
    }
}

/// The recurrence rule of an entry's content, read from its first
/// `@every-*` marker.
pub open spec fn recurring_pattern_spec(s: Seq<char>) -> Option<RecurringPattern> {
    first_recurring_marker(s, 0)
}

fn recurring_marker_pattern_at(v: &Vec<char>, p: usize) -> (r: Option<RecurringPattern>)
    requires
        p <= v.len(),
    ensures
        r == recurring_marker_at(v@, p as int),
{
    let every_dash = vec!['e', 'v', 'e', 'r', 'y', '-'];
    let weekday_word = vec!['w', 'e', 'e', 'k', 'd', 'a', 'y'];
    let day_word = vec!['d', 'a', 'y'];
    proof {
        assert(every_dash@ =~= kw_every_dash());
        assert(weekday_word@ =~= kw_weekday_word());
        assert(day_word@ =~= kw_day_word());
    }
    if !crate::resolver::kw_matches_pub(v, p, &every_dash) {
        return None;
    }
    let q = p + 6;
    if crate::resolver::kw_matches_pub(v, q, &weekday_word) {
        return Some(RecurringPattern::Weekday);
    }
    if crate::resolver::kw_matches_pub(v, q, &day_word) {
        return Some(RecurringPattern::Daily);
    }
    if let Some(l) = crate::resolver::weekday_name_len_at_pub(v, q) {
        let name = copy_range(v, q, q + l);
        proof {
            assert(name@ =~= v@.subrange(q as int, q + l as int));
        }
        if let Some(w) = crate::resolver::parse_weekday(&name) {
            return Some(RecurringPattern::Weekly(w));
        }
        proof {
            assert(recurring_marker_at(v@, p as int) is None);
        }
        return None;
    }
    let run = digits_run_at(v, q);
    if run >= 1 {
        let digits = copy_range(v, q, q + run);
        proof {
            assert(digits@ =~= v@.subrange(q as int, q + run as int));
        }
        if let Some(n) = crate::text::parse_u32_chars(&digits) {
            if 1 <= n && n <= 31 {
                return Some(RecurringPattern::Monthly(n as u8));
            }
        }
    }
    None
}

fn find_recurring_marker(v: &Vec<char>) -> (r: Option<RecurringPattern>)
    ensures
        r == recurring_pattern_spec(v@),
{
    let mut pos: usize = 0;
    while pos < v.len()
        invariant
            pos <= v.len(),
            recurring_pattern_spec(v@) == first_recurring_marker(v@, pos as int),
        decreases v.len() - pos,
    {
        if v[pos] == '@' {
            if let Some(pat) = recurring_marker_pattern_at(v, pos + 1) {
                return Some(pat);
            }
        }
        pos = pos + 1;
    }
    None
}

/// The recurrence rule named by an entry's first `@every-*` marker, if any.
pub fn recurring_pattern_of(content: &str) -> (r: Option<RecurringPattern>)
    ensures
        r == recurring_pattern_spec(content@),
{
    let v = string_to_chars(content);
    find_recurring_marker(&v)
}

/// The recurring entries found scanning from `pos`: entry lines outside the
/// target's own section whose recurrence rule selects the target date.
pub open spec fn recurring_scan(
    s: Seq<char>,
    target: Date,
    pos: int,
    cur: Option<Date>,
    idx: int,
) -> Seq<crate::entries::ProjectedEntryV>
    decreases s.len() - pos when 0 <= pos <= s.len() via recurring_scan_decreases
{
    if pos >= s.len() {
        Seq::empty()
    } else {
        let line = line_at(s, pos);
        let nxt = next_line_pos(s, pos);
        match parse_day_header_spec(line) {
            Some(d) => recurring_scan(s, target, nxt, Some(d), 0),
            None => match cur {
                None => recurring_scan(s, target, nxt, None, idx),
                Some(src) => {
                    if src == target {
                        recurring_scan(s, target, nxt, Some(src), idx + 1)
                    } else {
                        match parse_line_spec(line) {
                            LineV::Entry(e) => {
                                if recurring_pattern_spec(e.content) is Some
                                    && spec_pattern_matches(
                                    recurring_pattern_spec(e.content)->0,
                                    target,
                                ) {
                                    seq![
                                        crate::entries::ProjectedEntryV {
                                            source_date: src,
                                            line_index: idx,
                                            entry: e,
                                            kind: ProjectedKind::Recurring,
                                        },
                                    ] + recurring_scan(s, target, nxt, Some(src), idx + 1)
                                } else {
                                    recurring_scan(s, target, nxt, Some(src), idx + 1)
                                }
                            },
                            LineV::Raw(_) => recurring_scan(s, target, nxt, Some(src), idx + 1),
                        }
                    }
                },
            },
        }
    }
}

#[via_fn]
proof fn recurring_scan_decreases(
    s: Seq<char>,
    target: Date,
    pos: int,
    cur: Option<Date>,
    idx: int,
) {
    crate::text::lemma_find_char_bounds(s, '\n', pos);
}

/// Collects the entries of other days whose recurrence rule selects the
/// target date, in scan order.  Entries in the target's own section are
/// never among them.
pub fn collect_recurring_entries_for_date(journal: &str, target_date: Date) -> (r: Vec<
    ProjectedEntry,
>)
    requires
        target_date.valid(),
    ensures
        r.deep_view() == recurring_scan(journal@, target_date, 0, None, 0),
        forall|i: int|
            0 <= i < r.deep_view().len() ==> (#[trigger] r.deep_view()[i]).source_date
                != target_date,
{
    let v = string_to_chars(journal);
    let mut entries: Vec<ProjectedEntry> = Vec::new();
    let mut pos: usize = 0;
    let mut cur: Option<Date> = None;
    let mut idx: usize = 0;
    proof {
        assert(entries.deep_view() =~~= Seq::<crate::entries::ProjectedEntryV>::empty());
    }
    while pos < v.len()
        invariant
            target_date.valid(),
            pos <= v.len(),
            v@ == journal@,
            cur is Some ==> cur->0.valid(),
            recurring_scan(journal@, target_date, 0, None, 0) == entries.deep_view()
                + recurring_scan(v@, target_date, pos as int, cur, idx as int),
            forall|i: int|
                0 <= i < entries.deep_view().len() ==> (
                #[trigger] entries.deep_view()[i]).source_date != target_date,
            idx <= pos,
        decreases v.len() - pos,
    {
        let (line, next) = read_line_at(&v, pos);
        proof {
            crate::text::lemma_find_char_bounds(v@, '\n', pos as int);
        }
        match crate::document::parse_day_header(&line) {
            Some(d) => {
                cur = Some(d);
                idx = 0;
            },
            None => {
                match cur {
                    Some(src) => {
                        if src == target_date {
                            idx = idx + 1;
                        } else {
                            let parsed = crate::entries::parse_line(&line);
                            match parsed {
                                crate::entries::Line::Entry(entry) => {
                                    let pat = recurring_pattern_of(entry.content.as_str());
                                    let hit = match pat {
                                        Some(p) => p.matches(target_date),
                                        None => false,
                                    };
                                    if hit {
                                        let ghost before = entries.deep_view();
                                        let pe = ProjectedEntry {
                                            source_date: src,
                                            line_index: idx,
                                            entry,
                                            kind: ProjectedKind::Recurring,
                                        };
                                        entries.push(pe);
                                        proof {
                                            assert(entries.deep_view() =~~= before + seq![
                                                pe.deep_view(),
                                            ]);
                                        }
                                    }
                                    idx = idx + 1;
                                },
                                crate::entries::Line::Raw(_) => {
                                    idx = idx + 1;
                                },
                            }
                        }
                    },
                    None => {},
                }
            },
        }
        pos = next;
    }
    proof {
        assert(recurring_scan(journal@, target_date, 0, None, 0) =~~= entries.deep_view());
    }
    entries
}

} // verus!
