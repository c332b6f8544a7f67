//! The day section engine.
//!
//! A journal document is a single text file made of day blocks, each opened
//! by a header line of the exact form `# YYYY/MM/DD`.  The operations here
//! locate, extract, replace, insert, and remove one day's block while
//! keeping the document's conventions: day blocks separated by one blank
//! line, a single trailing newline, headers in ascending date order when all
//! edits go through `update_day_content`.

use vstd::prelude::*;

use crate::dates::{date_key, Date};
use crate::entries::{
    parse_lines, parse_lines_spec, serialize_lines, serialize_lines_spec, Entry, Line, LineV,
};
use crate::text::{
    append_vec, chars_to_string, copy_range, digit_char, digit_to_char, digit_val, find_char_from,
    find_sub, find_sub_chars, is_blank, is_blank_chars, is_digit, is_digit_char, line_at,
    next_line_pos, read_line_at, string_to_chars, trim_end_chars, trim_end_spec, trim_start_chars,
    trim_start_spec,
};

verus! {

/// Two-digit zero-padded decimal image of `n`.
pub open spec fn fmt2(n: int) -> Seq<char> {
    seq![digit_char(n / 10), digit_char(n % 10)]
}

/// Four-digit zero-padded decimal image of `n`.
pub open spec fn fmt4(n: int) -> Seq<char> {
    seq![digit_char(n / 1000), digit_char((n / 100) % 10), digit_char((n / 10) % 10), digit_char(
        n % 10,
    )]
}

pub fn push_fmt2(out: &mut Vec<char>, n: u32)
    requires
        n < 100,
    ensures
        final(out)@ == old(out)@ + fmt2(n as int),
{
    out.push(digit_to_char(n / 10));
    out.push(digit_to_char(n % 10));
    assert(out@ =~= old(out)@ + fmt2(n as int));
}

pub fn push_fmt4(out: &mut Vec<char>, n: u32)
    requires
        n < 10000,
    ensures
        final(out)@ == old(out)@ + fmt4(n as int),
{
    out.push(digit_to_char(n / 1000));
    out.push(digit_to_char((n / 100) % 10));
    out.push(digit_to_char((n / 10) % 10));
    out.push(digit_to_char(n % 10));
    assert(out@ =~= old(out)@ + fmt4(n as int));
}

/// The header line text for a date: `# YYYY/MM/DD`.
pub open spec fn header_chars(d: Date) -> Seq<char> {
    seq!['#', ' '] + fmt4(d.year as int) + seq!['/'] + fmt2(d.month as int) + seq!['/'] + fmt2(
        d.day as int,
    )
}

pub(crate) fn day_header_chars(d: Date) -> (r: Vec<char>)
    requires
        d.valid(),
    ensures
        r@ == header_chars(d),
{
    let mut out: Vec<char> = Vec::new();
    out.push('#');
    out.push(' ');
    assert(out@ =~= seq!['#', ' ']);
    push_fmt4(&mut out, d.year);
    out.push('/');
    push_fmt2(&mut out, d.month);
    out.push('/');
    push_fmt2(&mut out, d.day);
    assert(out@ =~= header_chars(d));
    out
}

/// The date named by a day header line `# YYYY/MM/DD`, trailing text
/// ignored; `None` when the line is no such header.
pub open spec fn parse_day_header_spec(line: Seq<char>) -> Option<Date> {
    if line.len() >= 12 && line[0] == '#' && line[1] == ' ' && is_digit(line[2]) && is_digit(
        line[3],
    ) && is_digit(line[4]) && is_digit(line[5]) && line[6] == '/' && is_digit(line[7]) && is_digit(
        line[8],
    ) && line[9] == '/' && is_digit(line[10]) && is_digit(line[11]) {
        let y = digit_val(line[2]) * 1000 + digit_val(line[3]) * 100 + digit_val(line[4]) * 10
            + digit_val(line[5]);
        let m = digit_val(line[7]) * 10 + digit_val(line[8]);
        let dd = digit_val(line[10]) * 10 + digit_val(line[11]);
        let date = Date { year: y as u32, month: m as u32, day: dd as u32 };
        if date.valid() {
            Some(date)
        } else {
            None
        }
    } else {
        None
    }
}

pub open spec fn is_day_header_line(line: Seq<char>) -> bool {
    parse_day_header_spec(line) is Some
}

pub(crate) fn parse_day_header(line: &Vec<char>) -> (r: Option<Date>)
    ensures
        r == parse_day_header_spec(line@),
        r is Some ==> r->0.valid(),
{
    if line.len() >= 12 && line[0] == '#' && line[1] == ' ' && is_digit_char(line[2])
        && is_digit_char(line[3]) && is_digit_char(line[4]) && is_digit_char(line[5]) && line[6]
        == '/' && is_digit_char(line[7]) && is_digit_char(line[8]) && line[9] == '/'
        && is_digit_char(line[10]) && is_digit_char(line[11]) {
        let y: u32 = (line[2] as u32 - 48) * 1000 + (line[3] as u32 - 48) * 100 + (line[4] as u32
            - 48) * 10 + (line[5] as u32 - 48);
        let m: u32 = (line[7] as u32 - 48) * 10 + (line[8] as u32 - 48);
        let dd: u32 = (line[10] as u32 - 48) * 10 + (line[11] as u32 - 48);
        Date::from_ymd(y, m, dd)
    } else {
        None
    }
}

/// Position of the first day header line strictly after the first line of
/// `s`, if any.  `s` is the text following a day's header, so its first line
/// is that day's own content.
pub open spec fn find_next_day_header_spec(s: Seq<char>) -> Option<int> {
    next_header_from(s, 0, true)
}

pub open spec fn next_header_from(s: Seq<char>, pos: int, first: bool) -> Option<int>
    decreases s.len() - pos when 0 <= pos <= s.len() via next_header_from_decreases
{
    if pos >= s.len() {
        None
    } else if !first && is_day_header_line(line_at(s, pos)) {
        Some(pos)
    } else {
        next_header_from(s, next_line_pos(s, pos), false)
    }
}

#[via_fn]
proof fn next_header_from_decreases(s: Seq<char>, pos: int, first: bool) {
    crate::text::lemma_find_char_bounds(s, '\n', pos);
}

pub(crate) fn find_next_day_header(v: &Vec<char>) -> (r: Option<usize>)
    ensures
        match r {
            Some(i) => find_next_day_header_spec(v@) == Some(i as int) && i < v@.len(),
            None => find_next_day_header_spec(v@) is None,
        },
{
    let mut pos: usize = 0;
    let mut first: bool = true;
    loop
        invariant
            pos <= v.len(),
            find_next_day_header_spec(v@) == next_header_from(v@, pos as int, first),
        decreases v.len() - pos + if first {
            1int
        } else {
            0int
        },
    {
        if pos >= v.len() {
            return None;
        }
        let (line, next) = read_line_at(v, pos);
        if !first {
            if parse_day_header(&line).is_some() {
                return Some(pos);
            }
        }
        proof {
            crate::text::lemma_find_char_bounds(v@, '\n', pos as int);
        }
        first = false;
        pos = next;
    }
}

/// The extracted content of `date`'s block: the text after the header line's
/// newline, up to the next day header, trailing whitespace trimmed; empty
/// when the document has no header for `date`.
pub open spec fn extract_day_content_spec(doc: Seq<char>, date: Date) -> Seq<char> {
    let h = header_chars(date);
    match find_sub(doc, h) {
        None => Seq::empty(),
        Some(i) => {
            let after_raw = doc.skip(i + h.len());
            let after = if after_raw.len() > 0 && after_raw[0] == '\n' {
                after_raw.skip(1)
            } else {
                after_raw
            };
            match find_next_day_header_spec(after) {
                Some(j) => trim_end_spec(after.take(j)),
                None => trim_end_spec(after),
            }
        },
    }
}

/// Extracts one day's content from the document text.
pub fn extract_day_content(journal: &str, date: Date) -> (r: String)
    requires
        date.valid(),
    ensures
        r@ == extract_day_content_spec(journal@, date),
{
    let doc = string_to_chars(journal);
    let h = day_header_chars(date);
    match find_sub_chars(&doc, &h) {
        None => String::new(),
        Some(i) => {
            proof {
                assert(i + h@.len() <= doc@.len());
            }
            let content_start = i + h.len();
            let mut after = copy_range(&doc, content_start, doc.len());
            assert(after@ =~= doc@.skip(content_start as int));
            if after.len() > 0 && after[0] == '\n' {
                let stripped = copy_range(&after, 1, after.len());
                assert(stripped@ =~= after@.skip(1));
                after = stripped;
            }
            let content = match find_next_day_header(&after) {
                Some(j) => {
                    let head = copy_range(&after, 0, j);
                    assert(head@ =~= after@.take(j as int));
                    trim_end_chars(&head)
                },
                None => trim_end_chars(&after),
            };
            chars_to_string(&content)
        },
    }
}


/// The text from the next day header onward, after the block opened at the
/// header found at `i` (of length `hlen`); empty when no later header
/// follows.
pub open spec fn after_day_spec(doc: Seq<char>, i: int, hlen: int) -> Seq<char> {
    let after_raw = doc.skip(i + hlen);
    let after_header = if after_raw.len() > 0 && after_raw[0] == '\n' {
        after_raw.skip(1)
    } else {
        after_raw
    };
    match find_next_day_header_spec(after_header) {
        Some(j) => after_header.skip(j),
        None => Seq::empty(),
    }
}

/// The document after a day block between `before` and `after` is dropped:
/// the two sides are rejoined with one blank line where both are non-empty,
/// and the result keeps a single trailing newline unless it is empty.
pub open spec fn remove_day_spec(before: Seq<char>, after: Seq<char>) -> Seq<char> {
    let r0 = trim_end_spec(before);
    let r1 = if r0.len() > 0 && after.len() > 0 {
        r0 + seq!['\n', '\n']
    } else {
        r0
    };
    let r2 = r1 + trim_start_spec(after);
    if r2.len() == 0 {
        r2
    } else {
        trim_end_spec(r2) + seq!['\n']
    }
}

/// The document with the block at `before..after` replaced by `h` and fresh
/// content, one blank line before `after`, and a single trailing newline.
pub open spec fn replace_day_spec(
    before: Seq<char>,
    h: Seq<char>,
    content: Seq<char>,
    after: Seq<char>,
) -> Seq<char> {
    trim_end_spec(before + h + seq!['\n'] + trim_end_spec(content) + seq!['\n', '\n'] + after)
        + seq!['\n']
}

/// Position where a new block for `date` is inserted: the start of the first
/// header line naming a strictly later date, located by searching for that
/// line's text; `None` appends at the end.
pub open spec fn find_insertion_point_spec(doc: Seq<char>, date: Date) -> Option<int> {
    insertion_from(doc, date, 0)
}

pub open spec fn insertion_from(doc: Seq<char>, date: Date, pos: int) -> Option<int>
    decreases doc.len() - pos when 0 <= pos <= doc.len() via insertion_from_decreases
{
    if pos >= doc.len() {
        None
    } else {
        match parse_day_header_spec(line_at(doc, pos)) {
            Some(d2) => if date_key(d2) > date_key(date) {
                find_sub(doc, line_at(doc, pos))
            } else {
                insertion_from(doc, date, next_line_pos(doc, pos))
            },
            None => insertion_from(doc, date, next_line_pos(doc, pos)),
        }
    }
}

#[via_fn]
proof fn insertion_from_decreases(doc: Seq<char>, date: Date, pos: int) {
    crate::text::lemma_find_char_bounds(doc, '\n', pos);
}

/// The document with a new block `h` + content inserted at the sorted
/// insertion point, separated from both neighbors by one blank line.
pub open spec fn insert_new_day_spec(
    doc: Seq<char>,
    date: Date,
    h: Seq<char>,
    content: Seq<char>,
) -> Seq<char> {
    let new_day = h + seq!['\n'] + trim_end_spec(content) + seq!['\n'];
    match find_insertion_point_spec(doc, date) {
        Some(p) => {
            let before = trim_end_spec(doc.take(p));
            let after = doc.skip(p);
            if before.len() == 0 {
                trim_end_spec(trim_end_spec(new_day) + seq!['\n', '\n'] + trim_start_spec(after))
                    + seq!['\n']
            } else {
                trim_end_spec(
                    before + seq!['\n', '\n'] + trim_end_spec(new_day) + seq!['\n', '\n']
                        + trim_start_spec(after),
                ) + seq!['\n']
            }
        },
        None => {
            let r = trim_end_spec(doc);
            let r1 = if r.len() > 0 {
                r + seq!['\n', '\n']
            } else {
                r
            };
            r1 + trim_end_spec(new_day) + seq!['\n']
        },
    }
}

/// What updating one day's block yields: with a header present, blank
/// content removes the block and other content replaces it; with no header,
/// blank content is a no-op and other content inserts a new block at the
/// sorted position.
pub open spec fn update_day_content_spec(doc: Seq<char>, date: Date, newc: Seq<char>) -> Seq<
    char,
> {
    let h = header_chars(date);
    match find_sub(doc, h) {
        Some(i) => {
            let before = doc.take(i);
            let after = after_day_spec(doc, i, h.len() as int);
            if is_blank(newc) {
                remove_day_spec(before, after)
            } else {
                replace_day_spec(before, h, newc, after)
            }
        },
        None => if is_blank(newc) {
            doc
        } else {
            insert_new_day_spec(doc, date, h, newc)
        },
    }
}

fn remove_day(before: &Vec<char>, after: &Vec<char>) -> (r: Vec<char>)
    ensures
        r@ == remove_day_spec(before@, after@),
{
    let mut result = trim_end_chars(before);
    let ghost r0 = result@;
    if result.len() > 0 && after.len() > 0 {
        result.push('\n');
        result.push('\n');
        assert(result@ =~= r0 + seq!['\n', '\n']);
    }
    let ts = trim_start_chars(after);
    append_vec(&mut result, &ts);
    if result.len() == 0 {
        result
    } else {
        let mut out = trim_end_chars(&result);
        out.push('\n');
        assert(out@ =~= trim_end_spec(result@) + seq!['\n']);
        out
    }
}

fn replace_day(before: &Vec<char>, h: &Vec<char>, content: &Vec<char>, after: &Vec<char>) -> (r:
    Vec<char>)
    ensures
        r@ == replace_day_spec(before@, h@, content@, after@),
{
    let mut whole = copy_range(before, 0, before.len());
    assert(whole@ =~= before@);
    append_vec(&mut whole, h);
    whole.push('\n');
    let tc = trim_end_chars(content);
    append_vec(&mut whole, &tc);
    whole.push('\n');
    whole.push('\n');
    append_vec(&mut whole, after);
    assert(whole@ =~= before@ + h@ + seq!['\n'] + trim_end_spec(content@) + seq!['\n', '\n']
        + after@);
    let mut out = trim_end_chars(&whole);
    out.push('\n');
    assert(out@ =~= trim_end_spec(whole@) + seq!['\n']);
    out
}

fn find_insertion_point(doc: &Vec<char>, date: Date) -> (r: Option<usize>)
    requires
        date.valid(),
    ensures
        match r {
            Some(p) => find_insertion_point_spec(doc@, date) == Some(p as int) && p <= doc@.len(),
            None => find_insertion_point_spec(doc@, date) is None,
        },
{
    let mut pos: usize = 0;
    loop
        invariant
            date.valid(),
            pos <= doc.len(),
            find_insertion_point_spec(doc@, date) == insertion_from(doc@, date, pos as int),
        decreases doc.len() - pos,
    {
        if pos >= doc.len() {
            return None;
        }
        let (line, next) = read_line_at(doc, pos);
        match parse_day_header(&line) {
            Some(d2) => {
                if crate::dates::date_lt(date, d2) {
                    proof {
                        crate::text::lemma_find_sub_bounds(doc@, line@, 0);
                    }
                    return find_sub_chars(doc, &line);
                }
            },
            None => {},
        }
        proof {
            crate::text::lemma_find_char_bounds(doc@, '\n', pos as int);
        }
        pos = next;
    }
}

fn insert_new_day(doc: &Vec<char>, date: Date, h: &Vec<char>, content: &Vec<char>) -> (r: Vec<
    char,
>)
    requires
        date.valid(),
    ensures
        r@ == insert_new_day_spec(doc@, date, h@, content@),
{
    let mut new_day = copy_range(h, 0, h.len());
    assert(new_day@ =~= h@);
    new_day.push('\n');
    let tc = trim_end_chars(content);
    append_vec(&mut new_day, &tc);
    new_day.push('\n');
    assert(new_day@ =~= h@ + seq!['\n'] + trim_end_spec(content@) + seq!['\n']);
    match find_insertion_point(doc, date) {
        Some(p) => {
            let before_raw = copy_range(doc, 0, p);
            assert(before_raw@ =~= doc@.take(p as int));
            let before = trim_end_chars(&before_raw);
            let after_raw = copy_range(doc, p, doc.len());
            assert(after_raw@ =~= doc@.skip(p as int));
            let after = trim_start_chars(&after_raw);
            let nd = trim_end_chars(&new_day);
            if before.len() == 0 {
                let mut whole = nd;
                whole.push('\n');
                whole.push('\n');
                append_vec(&mut whole, &after);
                assert(whole@ =~= trim_end_spec(new_day@) + seq!['\n', '\n'] + trim_start_spec(
                    after_raw@,
                ));
                let mut out = trim_end_chars(&whole);
                out.push('\n');
                assert(out@ =~= trim_end_spec(whole@) + seq!['\n']);
                out
            } else {
                let mut whole = before;
                whole.push('\n');
                whole.push('\n');
                append_vec(&mut whole, &nd);
                whole.push('\n');
                whole.push('\n');
                append_vec(&mut whole, &after);
                assert(whole@ =~= trim_end_spec(doc@.take(p as int)) + seq!['\n', '\n']
                    + trim_end_spec(new_day@) + seq!['\n', '\n'] + trim_start_spec(after_raw@));
                let mut out = trim_end_chars(&whole);
                out.push('\n');
                assert(out@ =~= trim_end_spec(whole@) + seq!['\n']);
                out
            }
        },
        None => {
            let mut out = trim_end_chars(doc);
            let ghost r = out@;
            if out.len() > 0 {
                out.push('\n');
                out.push('\n');
                assert(out@ =~= r + seq!['\n', '\n']);
            }
            let nd = trim_end_chars(&new_day);
            append_vec(&mut out, &nd);
            out.push('\n');
            assert(out@ =~= (if r.len() > 0 {
                r + seq!['\n', '\n']
            } else {
                r
            }) + trim_end_spec(new_day@) + seq!['\n']);
            out
        },
    }
}

/// Updates one day's block in the document and returns the new document.
pub fn update_day_content(journal: &str, date: Date, new_content: &str) -> (r: String)
    requires
        date.valid(),
    ensures
        r@ == update_day_content_spec(journal@, date, new_content@),
{
    let doc = string_to_chars(journal);
    let h = day_header_chars(date);
    let ncv = string_to_chars(new_content);
    let blank = is_blank_chars(&ncv);
    match find_sub_chars(&doc, &h) {
        Some(i) => {
            proof {
                assert(i + h@.len() <= doc.len());
            }
            let before = copy_range(&doc, 0, i);
            assert(before@ =~= doc@.take(i as int));
            let content_start = i + h.len();
            let mut after_header = copy_range(&doc, content_start, doc.len());
            assert(after_header@ =~= doc@.skip(i + h@.len()));
            if after_header.len() > 0 && after_header[0] == '\n' {
                let stripped = copy_range(&after_header, 1, after_header.len());
                assert(stripped@ =~= after_header@.skip(1));
                after_header = stripped;
            }
            let after = match find_next_day_header(&after_header) {
                Some(j) => {
                    let a = copy_range(&after_header, j, after_header.len());
                    assert(a@ =~= after_header@.skip(j as int));
                    a
                },
                None => Vec::new(),
            };
            proof {
                assert(after@ =~= after_day_spec(doc@, i as int, h@.len() as int));
            }
            if blank {
                chars_to_string(&remove_day(&before, &after))
            } else {
                chars_to_string(&replace_day(&before, &h, &ncv, &after))
            }
        },
        None => {
            if blank {
                journal.to_owned()
            } else {
                chars_to_string(&insert_new_day(&doc, date, &h, &ncv))
            }
        },
    }
}

/// The parsed lines of one day's block.
pub open spec fn day_lines_spec(doc: Seq<char>, date: Date) -> Seq<LineV> {
    parse_lines_spec(extract_day_content_spec(doc, date))
}

/// The document after one day's lines are serialized and written back.
pub open spec fn saved_doc_spec(doc: Seq<char>, date: Date, lvs: Seq<LineV>) -> Seq<char> {
    update_day_content_spec(doc, date, serialize_lines_spec(lvs))
}

/// Loads and parses one day's lines from the document.
pub fn load_day_lines(journal: &str, date: Date) -> (r: Vec<Line>)
    requires
        date.valid(),
    ensures
        r.deep_view() == day_lines_spec(journal@, date),
{
    let content = extract_day_content(journal, date);
    parse_lines(content.as_str())
}

/// Serializes lines and writes them back as `date`'s block.
pub fn save_day_lines(journal: &str, date: Date, lines: &Vec<Line>) -> (r: String)
    requires
        date.valid(),
    ensures
        r@ == saved_doc_spec(journal@, date, lines.deep_view()),
{
    let content = serialize_lines(lines);
    update_day_content(journal, date, content.as_str())
}


/// There is a typed entry at index `idx` of the parsed lines.
pub open spec fn entry_at(lvs: Seq<LineV>, idx: int) -> bool {
    0 <= idx < lvs.len() && lvs[idx] is Entry
}

/// The entry model at a line known to hold one.
pub open spec fn entry_of(lv: LineV) -> crate::entries::EntryV
    recommends
        lv is Entry,
{
    lv->Entry_0
}

/// Replaces the content of the entry at `line_index` of `date`'s block and
/// writes the day back; a missing index or a raw line leaves the document
/// unchanged.  The flag reports whether an update happened.
pub fn update_entry_content(journal: &str, date: Date, line_index: usize, content: &str) -> (r: (
    String,
    bool,
))
    requires
        date.valid(),
    ensures
        ({
            let lvs = day_lines_spec(journal@, date);
            if entry_at(lvs, line_index as int) {
                r.1 == true && r.0@ == saved_doc_spec(
                    journal@,
                    date,
                    lvs.update(
                        line_index as int,
                        LineV::Entry(
                            crate::entries::EntryV {
                                entry_type: entry_of(lvs[line_index as int]).entry_type,
                                content: content@,
                            },
                        ),
                    ),
                )
            } else {
                r.1 == false && r.0@ == journal@
            }
        }),
{
    let mut lines = load_day_lines(journal, date);
    let ghost lvs = lines.deep_view();
    let mut updated = false;
    if line_index < lines.len() {
        let slot = vstd::std_specs::vec::vec_index_mut(&mut lines, line_index);
        match slot {
            Line::Entry(entry) => {
                entry.content = content.to_owned();
                updated = true;
            },
            _ => {},
        }
    }
    if updated {
        proof {
            assert(lines.deep_view() =~~= lvs.update(
                line_index as int,
                LineV::Entry(
                    crate::entries::EntryV {
                        entry_type: entry_of(lvs[line_index as int]).entry_type,
                        content: content@,
                    },
                ),
            ));
        }
        (save_day_lines(journal, date, &lines), true)
    } else {
        (journal.to_owned(), false)
    }
}

/// Toggles completion of the task at `line_index` of `date`'s block; any
/// other index leaves the lines as they were.  The day is written back
/// either way, as the read-modify-write cycle always rewrites the document.
pub fn toggle_entry_complete(journal: &str, date: Date, line_index: usize) -> (r: String)
    requires
        date.valid(),
    ensures
        ({
            let lvs = day_lines_spec(journal@, date);
            if entry_at(lvs, line_index as int) {
                r@ == saved_doc_spec(
                    journal@,
                    date,
                    lvs.update(
                        line_index as int,
                        LineV::Entry(
                            crate::entries::EntryV {
                                entry_type: crate::entries::spec_toggle(
                                    entry_of(lvs[line_index as int]).entry_type,
                                ),
                                content: entry_of(lvs[line_index as int]).content,
                            },
                        ),
                    ),
                )
            } else {
                r@ == saved_doc_spec(journal@, date, lvs)
            }
        }),
{
    let mut lines = load_day_lines(journal, date);
    let ghost lvs = lines.deep_view();
    let mut updated = false;
    if line_index < lines.len() {
        let slot = vstd::std_specs::vec::vec_index_mut(&mut lines, line_index);
        match slot {
            Line::Entry(entry) => {
                entry.toggle_complete();
                updated = true;
            },
            _ => {},
        }
    }
    proof {
        if entry_at(lvs, line_index as int) {
            assert(lines.deep_view() =~~= lvs.update(
                line_index as int,
                LineV::Entry(
                    crate::entries::EntryV {
                        entry_type: crate::entries::spec_toggle(
                            entry_of(lvs[line_index as int]).entry_type,
                        ),
                        content: entry_of(lvs[line_index as int]).content,
                    },
                ),
            ));
        } else {
            assert(lines.deep_view() =~~= lvs);
        }
    }
    save_day_lines(journal, date, &lines)
}

/// Cycles the type of the entry at `line_index` of `date`'s block and
/// returns the new type; any other index changes nothing.  The day is
/// written back either way.
pub fn cycle_entry_type(journal: &str, date: Date, line_index: usize) -> (r: (
    String,
    Option<crate::entries::EntryType>,
))
    requires
        date.valid(),
    ensures
        ({
            let lvs = day_lines_spec(journal@, date);
            if entry_at(lvs, line_index as int) {
                r.1 == Some(
                    crate::entries::spec_cycle(entry_of(lvs[line_index as int]).entry_type),
                ) && r.0@ == saved_doc_spec(
                    journal@,
                    date,
                    lvs.update(
                        line_index as int,
                        LineV::Entry(
                            crate::entries::EntryV {
                                entry_type: crate::entries::spec_cycle(
                                    entry_of(lvs[line_index as int]).entry_type,
                                ),
                                content: entry_of(lvs[line_index as int]).content,
                            },
                        ),
                    ),
                )
            } else {
                r.1 is None && r.0@ == saved_doc_spec(journal@, date, lvs)
            }
        }),
{
    let mut lines = load_day_lines(journal, date);
    let ghost lvs = lines.deep_view();
    let mut new_type: Option<crate::entries::EntryType> = None;
    if line_index < lines.len() {
        let slot = vstd::std_specs::vec::vec_index_mut(&mut lines, line_index);
        match slot {
            Line::Entry(entry) => {
                entry.entry_type = entry.entry_type.cycle();
                new_type = Some(entry.entry_type);
            },
            _ => {},
        }
    }
    proof {
        if entry_at(lvs, line_index as int) {
            assert(lines.deep_view() =~~= lvs.update(
                line_index as int,
                LineV::Entry(
                    crate::entries::EntryV {
                        entry_type: crate::entries::spec_cycle(
                            entry_of(lvs[line_index as int]).entry_type,
                        ),
                        content: entry_of(lvs[line_index as int]).content,
                    },
                ),
            ));
        } else {
            assert(lines.deep_view() =~~= lvs);
        }
    }
    (save_day_lines(journal, date, &lines), new_type)
}

/// Removes the line at `line_index` of `date`'s block — any line, raw lines
/// included; an out-of-range index removes nothing.  The day is written back
/// either way.
pub fn delete_entry(journal: &str, date: Date, line_index: usize) -> (r: String)
    requires
        date.valid(),
    ensures
        ({
            let lvs = day_lines_spec(journal@, date);
            if 0 <= line_index < lvs.len() {
                r@ == saved_doc_spec(journal@, date, lvs.remove(line_index as int))
            } else {
                r@ == saved_doc_spec(journal@, date, lvs)
            }
        }),
{
    let mut lines = load_day_lines(journal, date);
    let ghost lvs = lines.deep_view();
    if line_index < lines.len() {
        let _removed = lines.remove(line_index);
        proof {
            assert(lines.deep_view() =~~= lvs.remove(line_index as int));
        }
    }
    save_day_lines(journal, date, &lines)
}

} // verus!
