//! The entry model: typed journal lines and their textual form.
//!
//! Each stored line is either an `Entry` — a task, note, or event introduced
//! by a fixed prefix — or a `Raw` line kept verbatim.  Serializing a parsed
//! line reproduces the original text whenever the line was in canonical form
//! (no leading whitespace before a recognized prefix).

use vstd::prelude::*;

use crate::dates::{spec_days_in_month, spec_weekday, Date, Weekday};
use crate::text::{
    chars_to_string, copy_range, lines_of, matches_at, string_to_chars, subseq_matches,
    trim_start_chars, trim_start_spec,
};

verus! {

/// The kind of a typed entry line.
#[derive(Debug, Clone, Copy, PartialEq, Eq, Structural)]
pub enum EntryType {
    Task { completed: bool },
    Note,
    Event,
}

/// The storage prefix introducing an entry of type `t`.
pub open spec fn prefix_chars(t: EntryType) -> Seq<char> {
    match t {
        EntryType::Task { completed: false } => seq!['-', ' ', '[', ' ', ']', ' '],
        EntryType::Task { completed: true } => seq!['-', ' ', '[', 'x', ']', ' '],
        EntryType::Note => seq!['-', ' '],
        EntryType::Event => seq!['*', ' '],
    }
}

pub open spec fn spec_cycle(t: EntryType) -> EntryType {
    match t {
        EntryType::Task { .. } => EntryType::Note,
        EntryType::Note => EntryType::Event,
        EntryType::Event => EntryType::Task { completed: false },
    }
}

impl EntryType {
    /// The fixed textual prefix of this entry type.
    pub fn prefix(&self) -> (r: &'static str)
        ensures
            r@ == prefix_chars(*self),
    {
        match self {
            EntryType::Task { completed: false } => {
                let s = "- [ ] ";
                proof {
                    reveal_strlit("- [ ] ");
                    assert(s@ =~= prefix_chars(EntryType::Task { completed: false }));
                }
                s
            },
            EntryType::Task { completed: true } => {
                let s = "- [x] ";
                proof {
                    reveal_strlit("- [x] ");
                    assert(s@ =~= prefix_chars(EntryType::Task { completed: true }));
                }
                s
            },
            EntryType::Note => {
                let s = "- ";
                proof {
                    reveal_strlit("- ");
                    assert(s@ =~= prefix_chars(EntryType::Note));
                }
                s
            },
            EntryType::Event => {
                let s = "* ";
                proof {
                    reveal_strlit("* ");
                    assert(s@ =~= prefix_chars(EntryType::Event));
                }
                s
            },
        }
    }

    /// Advances Task to Note to Event and back to an open Task.
    pub fn cycle(&self) -> (r: Self)
        ensures
            r == spec_cycle(*self),
    {
        match self {
            EntryType::Task { .. } => EntryType::Note,
            EntryType::Note => EntryType::Event,
            EntryType::Event => EntryType::Task { completed: false },
        }
    }
}

/// A typed entry: its type and the text after the prefix.
#[derive(Debug, Clone, PartialEq)]
pub struct Entry {
    pub entry_type: EntryType,
    pub content: String,
}

/// Mathematical model of an `Entry`.
pub ghost struct EntryV {
    pub entry_type: EntryType,
    pub content: Seq<char>,
}

impl View for Entry {
    type V = EntryV;

    open spec fn view(&self) -> EntryV {
        EntryV { entry_type: self.entry_type, content: self.content@ }
    }
}

impl DeepView for Entry {
    type V = EntryV;

    open spec fn deep_view(&self) -> EntryV {
        self.view()
    }
}

pub open spec fn spec_toggle(t: EntryType) -> EntryType {
    match t {
        EntryType::Task { completed } => EntryType::Task { completed: !completed },
        _ => t,
    }
}

impl Entry {
    /// A fresh, not yet completed task.
    pub fn new_task(content: &str) -> (r: Self)
        ensures
            r@.entry_type == (EntryType::Task { completed: false }),
            r@.content == content@,
    {
        Entry { entry_type: EntryType::Task { completed: false }, content: content.to_owned() }
    }

    pub fn prefix(&self) -> (r: &'static str)
        ensures
            r@ == prefix_chars(self.entry_type),
    {
        self.entry_type.prefix()
    }

    /// Flips completion on a task; notes and events are unchanged.
    pub fn toggle_complete(&mut self)
        ensures
            final(self).entry_type == spec_toggle(old(self).entry_type),
            final(self).content == old(self).content,
    {
        match &self.entry_type {
            EntryType::Task { completed } => {
                let done = *completed;
                self.entry_type = EntryType::Task { completed: !done };
            },
            _ => {},
        }
    }
}

/// A stored line: a typed entry or verbatim text.
#[derive(Debug, Clone, PartialEq)]
pub enum Line {
    Entry(Entry),
    Raw(String),
}

/// Mathematical model of a `Line`.
pub ghost enum LineV {
    Entry(EntryV),
    Raw(Seq<char>),
}

impl View for Line {
    type V = LineV;

    open spec fn view(&self) -> LineV {
        match self {
            Line::Entry(e) => LineV::Entry(e@),
            Line::Raw(s) => LineV::Raw(s@),
        }
    }
}

impl DeepView for Line {
    type V = LineV;

    open spec fn deep_view(&self) -> LineV {
        self.view()
    }
}

/// How one line of text parses: the four prefixes are tried in order against
/// the line after leading whitespace, and the first match wins; a line that
/// matches none is kept raw.
pub open spec fn parse_line_spec(l: Seq<char>) -> LineV {
    let t = trim_start_spec(l);
    if matches_at(t, prefix_chars(EntryType::Task { completed: false }), 0) {
        LineV::Entry(
            EntryV { entry_type: EntryType::Task { completed: false }, content: t.skip(6) },
        )
    } else if matches_at(t, prefix_chars(EntryType::Task { completed: true }), 0) {
        LineV::Entry(EntryV { entry_type: EntryType::Task { completed: true }, content: t.skip(6) })
    } else if matches_at(t, prefix_chars(EntryType::Event), 0) {
        LineV::Entry(EntryV { entry_type: EntryType::Event, content: t.skip(2) })
    } else if matches_at(t, prefix_chars(EntryType::Note), 0) {
        LineV::Entry(EntryV { entry_type: EntryType::Note, content: t.skip(2) })
    } else {
        LineV::Raw(l)
    }
}

/// The text a line serializes to: prefix plus content for entries, the
/// stored text itself for raw lines.
pub open spec fn serialize_line_spec(lv: LineV) -> Seq<char> {
    match lv {
        LineV::Entry(e) => prefix_chars(e.entry_type) + e.content,
        LineV::Raw(s) => s,
    }
}

/// Tries one prefix against the trimmed line.
fn try_prefix(trimmed: &Vec<char>, t: EntryType) -> (r: Option<Entry>)
    ensures
        match r {
            Some(e) => matches_at(trimmed@, prefix_chars(t), 0) && e@.entry_type == t && e@.content
                == trimmed@.skip(prefix_chars(t).len() as int),
            None => !matches_at(trimmed@, prefix_chars(t), 0),
        },
{
    let p = string_to_chars(t.prefix());
    if p.len() <= trimmed.len() && subseq_matches(trimmed, 0, &p) {
        let content = copy_range(trimmed, p.len(), trimmed.len());
        assert(content@ =~= trimmed@.skip(p@.len() as int));
        Some(Entry { entry_type: t, content: chars_to_string(&content) })
    } else {
        None
    }
}

/// Parses one line of text.
pub(crate) fn parse_line(line: &Vec<char>) -> (r: Line)
    ensures
        r@ == parse_line_spec(line@),
{
    let trimmed = trim_start_chars(line);
    if let Some(e) = try_prefix(&trimmed, EntryType::Task { completed: false }) {
        return Line::Entry(e);
    }
    if let Some(e) = try_prefix(&trimmed, EntryType::Task { completed: true }) {
        return Line::Entry(e);
    }
    if let Some(e) = try_prefix(&trimmed, EntryType::Event) {
        return Line::Entry(e);
    }
    if let Some(e) = try_prefix(&trimmed, EntryType::Note) {
        return Line::Entry(e);
    }
    Line::Raw(chars_to_string(line))
}

/// The parse of every line of `s`.
pub open spec fn parse_lines_spec(s: Seq<char>) -> Seq<LineV> {
    lines_of(s).map_values(|l: Seq<char>| parse_line_spec(l))
}

/// Lines joined by single newlines; no trailing newline is added.
pub open spec fn join_nl(ss: Seq<Seq<char>>) -> Seq<char>
    decreases ss.len(),
{
    if ss.len() == 0 {
        Seq::empty()
    } else if ss.len() == 1 {
        ss[0]
    } else {
        ss[0] + seq!['\n'] + join_nl(ss.skip(1))
    }
}

/// The serialized text of a parsed line sequence.
pub open spec fn serialize_lines_spec(lvs: Seq<LineV>) -> Seq<char> {
    join_nl(lvs.map_values(|lv: LineV| serialize_line_spec(lv)))
}

/// Splits text into lines and parses each.
pub fn parse_lines(content: &str) -> (r: Vec<Line>)
    ensures
        r.deep_view() == parse_lines_spec(content@),
{
    let chars = string_to_chars(content);
    let raw_lines = crate::text::split_lines(&chars);
    let mut out: Vec<Line> = Vec::new();
    let mut i: usize = 0;
    while i < raw_lines.len()
        invariant
            i <= raw_lines.len(),
            raw_lines.deep_view() == lines_of(chars@),
            chars@ == content@,
            out.deep_view() =~= parse_lines_spec(content@).take(i as int),
        decreases raw_lines.len() - i,
    {
        let line = parse_line(&raw_lines[i]);
        let ghost prev = out.deep_view();
        proof {
            assert(raw_lines.deep_view()[i as int] == raw_lines@[i as int].deep_view());
            assert(raw_lines@[i as int].deep_view() =~= raw_lines@[i as int]@);
            assert(line@ == parse_line_spec(lines_of(content@)[i as int]));
            assert(parse_lines_spec(content@)[i as int] == parse_line_spec(
                lines_of(content@)[i as int],
            ));
        }
        out.push(line);
        i = i + 1;
        proof {
            assert(out.deep_view() =~= prev + seq![line@]);
            assert(out.deep_view() =~= parse_lines_spec(content@).take(i as int));
        }
    }
    proof {
        assert(parse_lines_spec(content@).take(i as int) =~= parse_lines_spec(content@));
    }
    out
}

/// Serializes one line back to its text.
pub(crate) fn serialize_line_chars(line: &Line) -> (r: Vec<char>)
    ensures
        r@ == serialize_line_spec(line@),
{
    match line {
        Line::Entry(e) => {
            let mut out = string_to_chars(e.prefix());
            let content = string_to_chars(e.content.as_str());
            crate::text::append_vec(&mut out, &content);
            out
        },
        Line::Raw(s) => string_to_chars(s.as_str()),
    }
}

proof fn lemma_join_nl_take(ss: Seq<Seq<char>>, i: int)
    requires
        0 < i < ss.len(),
    ensures
        join_nl(ss.take(i + 1)) == join_nl(ss.take(i)) + seq!['\n'] + ss[i],
    decreases i,
{
    if i == 1 {
        assert(ss.take(2)[0] == ss[0]);
        assert(ss.take(2).skip(1) =~= seq![ss[1]]);
        assert(join_nl(ss.take(2)) == ss[0] + seq!['\n'] + ss[1]);
        assert(ss.take(1) =~= seq![ss[0]]);
        assert(join_nl(ss.take(1)) == ss[0]);
    } else {
        lemma_join_nl_take(ss.skip(1), i - 1);
        assert(ss.skip(1).take(i) =~= ss.take(i + 1).skip(1));
        assert(ss.skip(1).take(i - 1) =~= ss.take(i).skip(1));
        assert(ss.skip(1)[i - 1] == ss[i]);
        assert(join_nl(ss.take(i + 1)) == ss[0] + seq!['\n'] + join_nl(ss.take(i + 1).skip(1)));
        assert(join_nl(ss.take(i)) == ss[0] + seq!['\n'] + join_nl(ss.take(i).skip(1)));
        assert(join_nl(ss.take(i + 1)) =~= join_nl(ss.take(i)) + seq!['\n'] + ss[i]);
    }
}

/// Serializes lines, re-joining with single newlines.
pub fn serialize_lines(lines: &Vec<Line>) -> (r: String)
    ensures
        r@ == serialize_lines_spec(lines.deep_view()),
{
    let ghost target = lines.deep_view().map_values(|lv: LineV| serialize_line_spec(lv));
    let mut out: Vec<char> = Vec::new();
    let mut i: usize = 0;
    while i < lines.len()
        invariant
            i <= lines.len(),
            target == lines.deep_view().map_values(|lv: LineV| serialize_line_spec(lv)),
            target.len() == lines@.len(),
            out@ == join_nl(target.take(i as int)),
        decreases lines.len() - i,
    {
        if i > 0 {
            out.push('\n');
        }
        let piece = serialize_line_chars(&lines[i]);
        crate::text::append_vec(&mut out, &piece);
        proof {
            if i == 0 {
                assert(target.take(1) =~= seq![target[0]]);
                assert(out@ =~= join_nl(target.take(1)));
            } else {
                lemma_join_nl_take(target, i as int);
                assert(out@ =~= join_nl(target.take(i as int)) + seq!['\n'] + target[i as int]);
            }
        }
        i = i + 1;
    }
    proof {
        assert(target.take(i as int) =~= target);
    }
    chars_to_string(&out)
}

/// A line whose parse serializes back to exactly itself: a raw line, or an
/// entry line with its prefix at the very start.
pub open spec fn canonical_line(l: Seq<char>) -> bool {
    serialize_line_spec(parse_line_spec(l)) == l
}

/// Round-trip law: text whose every line is canonical — recognized-prefix
/// lines without leading indentation, raw lines, and blanks — is reproduced
/// byte-for-byte by parsing and re-serializing, provided it has no trailing
/// newline and no carriage-return line endings, which the line splitter
/// cannot represent.
pub proof fn lemma_round_trip(s: Seq<char>)
    requires
        forall|i: int| 0 <= i < lines_of(s).len() ==> canonical_line(#[trigger] lines_of(s)[i]),
        s.len() > 0 ==> s.last() != '\n',
        forall|i: int| 0 <= i < s.len() - 1 ==> !(#[trigger] s[i] == '\r' && s[i + 1] == '\n'),
    ensures
        serialize_lines_spec(parse_lines_spec(s)) == s,
    decreases s.len(),
{
    crate::text::lemma_find_char_bounds(s, '\n', 0);
    if s.len() == 0 {
        assert(lines_of(s).len() == 0);
        assert(serialize_lines_spec(parse_lines_spec(s)) =~= s);
    } else {
        match crate::text::find_char(s, '\n') {
            None => {
                assert(lines_of(s) == seq![s]);
                assert(lines_of(s)[0] == s);
                assert(canonical_line(s));
                let pieces = parse_lines_spec(s).map_values(
                    |lv: LineV| serialize_line_spec(lv),
                );
                assert(pieces.len() == 1);
                assert(pieces[0] == serialize_line_spec(parse_line_spec(s)));
                assert(join_nl(pieces) == pieces[0]);
            },
            Some(j) => {
                assert(s[j] == '\n');
                assert(s.last() != '\n');
                assert(j < s.len() - 1);
                let head = s.take(j);
                let tail = s.skip(j + 1);
                // no carriage return directly before the newline
                if j > 0 {
                    assert(!(s[j - 1] == '\r' && s[j] == '\n'));
                    assert(head.last() != '\r');
                }
                assert(crate::text::strip_cr(head) == head);
                assert(lines_of(s) == seq![head] + lines_of(tail));
                assert(tail.len() > 0);
                assert(tail.last() == s.last());
                assert forall|i: int| 0 <= i < lines_of(tail).len() implies canonical_line(
                    #[trigger] lines_of(tail)[i],
                ) by {
                    assert(lines_of(s)[i + 1] == lines_of(tail)[i]);
                }
                assert forall|i: int| 0 <= i < tail.len() - 1 implies !(#[trigger] tail[i] == '\r'
                    && tail[i + 1] == '\n') by {
                    assert(tail[i] == s[j + 1 + i]);
                    assert(tail[i + 1] == s[j + 1 + i + 1]);
                }
                lemma_round_trip(tail);
                let pieces = parse_lines_spec(s).map_values(
                    |lv: LineV| serialize_line_spec(lv),
                );
                let tail_pieces = parse_lines_spec(tail).map_values(
                    |lv: LineV| serialize_line_spec(lv),
                );
                assert(lines_of(tail).len() > 0);
                assert(pieces.len() == lines_of(s).len());
                assert(pieces.len() >= 2);
                assert(pieces[0] == serialize_line_spec(parse_line_spec(head)));
                assert(lines_of(s)[0] == head);
                assert(canonical_line(head));
                assert(pieces[0] == head);
                assert(pieces.skip(1) =~= tail_pieces) by {
                    assert forall|i: int| 0 <= i < tail_pieces.len() implies pieces.skip(1)[i]
                        == tail_pieces[i] by {
                        assert(lines_of(s)[i + 1] == lines_of(tail)[i]);
                    }
                }
                assert(join_nl(pieces) == pieces[0] + seq!['\n'] + join_nl(pieces.skip(1)));
                assert(join_nl(tail_pieces) == tail);
                assert(head + seq!['\n'] + tail =~= s);
            },
        }
    }
}

/// Distinguishes projected entries that came from an explicit `@date` marker
/// from those produced by a recurrence rule.
#[derive(Debug, Clone, Copy, PartialEq, Eq, Structural)]
pub enum ProjectedKind {
    /// One-time projection via `@MM/DD` syntax.
    Later,
    /// Repeating projection via `@every-*` syntax.
    Recurring,
}

/// A filter-view result: an entry plus where it lives in the document.
#[derive(Debug, Clone)]
pub struct FilterResult {
    pub source_date: Date,
    pub line_index: usize,
    pub entry: Entry,
}

/// A projected entry: one that appears on a date other than its source day.
#[derive(Debug, Clone)]
pub struct ProjectedEntry {
    pub source_date: Date,
    pub line_index: usize,
    pub entry: Entry,
    pub kind: ProjectedKind,
}

/// Mathematical model of a `ProjectedEntry`.
pub ghost struct ProjectedEntryV {
    pub source_date: Date,
    pub line_index: int,
    pub entry: EntryV,
    pub kind: ProjectedKind,
}

impl View for ProjectedEntry {
    type V = ProjectedEntryV;

    open spec fn view(&self) -> ProjectedEntryV {
        ProjectedEntryV {
            source_date: self.source_date,
            line_index: self.line_index as int,
            entry: self.entry@,
            kind: self.kind,
        }
    }
}

impl DeepView for ProjectedEntry {
    type V = ProjectedEntryV;

    open spec fn deep_view(&self) -> ProjectedEntryV {
        self.view()
    }
}

/// Mathematical model of a `FilterResult`.
pub ghost struct FilterResultV {
    pub source_date: Date,
    pub line_index: int,
    pub entry: EntryV,
}

impl View for FilterResult {
    type V = FilterResultV;

    open spec fn view(&self) -> FilterResultV {
        FilterResultV {
            source_date: self.source_date,
            line_index: self.line_index as int,
            entry: self.entry@,
        }
    }
}

impl DeepView for FilterResult {
    type V = FilterResultV;

    open spec fn deep_view(&self) -> FilterResultV {
        self.view()
    }
}

/// A recurrence rule from `@every-*` syntax.
#[derive(Debug, Clone, Copy, PartialEq, Eq, Structural)]
pub enum RecurringPattern {
    /// `@every-day`: every day.
    Daily,
    /// `@every-weekday`: Monday through Friday.
    Weekday,
    /// `@every-monday` through `@every-sunday`.
    Weekly(Weekday),
    /// `@every-1` through `@every-31`, clamped to the month's last day.
    Monthly(u8),
}

/// Whether a recurrence rule selects a date: daily rules always do, weekday
/// rules on Monday through Friday, weekly rules on the equal weekday, and
/// monthly rules on the equal day of month — or on the month's last day when
/// the rule names a later day than the month has.
pub open spec fn spec_pattern_matches(p: RecurringPattern, d: Date) -> bool {
    match p {
        RecurringPattern::Daily => true,
        RecurringPattern::Weekday => spec_weekday(d) != Weekday::Sat && spec_weekday(d)
            != Weekday::Sun,
        RecurringPattern::Weekly(w) => spec_weekday(d) == w,
        RecurringPattern::Monthly(day) => {
            let last = spec_days_in_month(d.year as int, d.month as int);
            if day > last {
                d.day == last
            } else {
                d.day == day
            }
        },
    }
}

impl RecurringPattern {
    /// Returns true if this pattern matches the given date.
    pub fn matches(&self, date: Date) -> (r: bool)
        requires
            date.valid(),
        ensures
            r == spec_pattern_matches(*self, date),
    {
        match self {
            RecurringPattern::Daily => true,
            RecurringPattern::Weekday => {
                let w = crate::dates::weekday(date);
                !(matches!(w, Weekday::Sat) || matches!(w, Weekday::Sun))
            },
            RecurringPattern::Weekly(day) => {
                let w = crate::dates::weekday(date);
                w == *day
            },
            RecurringPattern::Monthly(day) => {
                let last = date.last_day_of_month();
                if (*day as u32) > last {
                    date.day == last
                } else {
                    date.day == (*day as u32)
                }
            },
        }
    }
}

/// Monthly clamp law: a rule for day 31 selects exactly the last day of
/// every month — day 31 where the month has one, February 28 or 29
/// otherwise.
pub proof fn lemma_monthly_clamp(d: Date)
    requires
        d.valid(),
    ensures
        spec_pattern_matches(RecurringPattern::Monthly(31), d) == (d.day as int
            == spec_days_in_month(d.year as int, d.month as int)),
{
}

} // verus!
