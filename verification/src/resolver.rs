//! The date resolver.
//!
//! Absolute dates come in several slash formats, tried in a fixed
//! precedence: `YYYY/MM/DD` (first segment exactly four digits), then
//! `MM/DD/YYYY` or `MM/DD/YY` (two-digit years mean 2000 and later), then
//! `MM/DD` resolved against a reference day.  The plain `MM/DD` form has two
//! deliberate policies: the "always future" rule rolls a date that has
//! already passed into the next year, and the "prefer past" rule — used only
//! for overdue checks — rolls a date still ahead into the previous year.
//! Natural phrases (`tomorrow`, `3d`, `next-friday`, ...) resolve relative
//! to the reference day and can be normalized back into `@MM/DD` markers.

use vstd::prelude::*;

use crate::dates::{
    date_key, spec_add_days, spec_sub_days, spec_weekday, spec_weekday_index, weekday_number,
    add_days, num_days_from_monday, sub_days, weekday, Date, Weekday,
};
use crate::text::{
    all_digits, ascii_lower_char, ascii_lower_seq, ascii_lower_vec, copy_range, digits_run,
    digits_run_at, digits_val, find_char, find_char_from, is_digit, is_digit_char,
    chars_to_string, lemma_find_char_bounds, lemma_find_char_from, parse_num_u32_spec,
    parse_num_u64_spec, parse_u32_chars, parse_u64_chars, string_to_chars, vec_chars_eq,
};

verus! {

/// The segments of `s` split at `c` — the semantics of `str::split`: an
/// empty string is one empty segment, and a trailing separator yields a
/// trailing empty segment.
pub open spec fn split_char(s: Seq<char>, c: char) -> Seq<Seq<char>>
    decreases s.len() via split_char_decreases
{
    match find_char(s, c) {
        None => seq![s],
        Some(j) => seq![s.take(j)] + split_char(s.skip(j + 1), c),
    }
}

#[via_fn]
proof fn split_char_decreases(s: Seq<char>, c: char) {
    lemma_find_char_bounds(s, c, 0);
}

/// Splits `v` at every occurrence of `c`.
pub fn split_char_vec(v: &Vec<char>, c: char) -> (r: Vec<Vec<char>>)
    ensures
        r.deep_view() == split_char(v@, c),
{
    let mut out: Vec<Vec<char>> = Vec::new();
    let mut pos: usize = 0;
    proof {
        assert(out.deep_view() =~~= Seq::<Seq<char>>::empty());
        assert(v@.skip(0) =~= v@);
    }
    loop
        invariant
            pos <= v.len(),
            split_char(v@, c) == out.deep_view() + split_char(v@.skip(pos as int), c),
        decreases v.len() - pos,
    {
        let ghost rest = v@.skip(pos as int);
        let mut j: usize = pos;
        while j < v.len() && v[j] != c
            invariant
                pos <= j <= v.len(),
                forall|k: int| pos <= k < j ==> v@[k] != c,
            decreases v.len() - j,
        {
            j = j + 1;
        }
        proof {
            lemma_find_char_from(rest, c, 0, j - pos);
            assert(forall|k: int| 0 <= k < j - pos ==> rest[k] == v@[pos + k]);
        }
        let seg = copy_range(v, pos, j);
        let ghost old_out = out.deep_view();
        out.push(seg);
        if j < v.len() {
            proof {
                let jj = (j - pos) as int;
                assert(rest.take(jj) =~= v@.subrange(pos as int, j as int));
                assert(rest.skip(jj + 1) =~= v@.skip(j + 1));
                assert(split_char(rest, c) == seq![rest.take(jj)] + split_char(
                    rest.skip(jj + 1),
                    c,
                ));
                assert(out.deep_view() =~~= old_out + seq![seg@]);
                assert(out.deep_view() + split_char(v@.skip(j + 1), c) =~~= old_out + split_char(
                    rest,
                    c,
                ));
            }
            pos = j + 1;
        } else {
            proof {
                assert(rest =~= v@.subrange(pos as int, j as int));
                assert(split_char(rest, c) == seq![rest]);
                assert(out.deep_view() =~~= old_out + seq![seg@]);
                assert(out.deep_view() =~~= old_out + split_char(rest, c));
            }
            return out;
        }
    }
}

/// Keyword sequences for the natural-language phrases.
pub open spec fn kw_tomorrow() -> Seq<char> {
    seq!['t', 'o', 'm', 'o', 'r', 'r', 'o', 'w']
}

pub open spec fn kw_yesterday() -> Seq<char> {
    seq!['y', 'e', 's', 't', 'e', 'r', 'd', 'a', 'y']
}

pub open spec fn kw_next_dash() -> Seq<char> {
    seq!['n', 'e', 'x', 't', '-']
}

pub open spec fn kw_last_dash() -> Seq<char> {
    seq!['l', 'a', 's', 't', '-']
}

/// Full weekday name, lowercase.
pub open spec fn weekday_full_name(w: Weekday) -> Seq<char> {
    match w {
        Weekday::Mon => seq!['m', 'o', 'n', 'd', 'a', 'y'],
        Weekday::Tue => seq!['t', 'u', 'e', 's', 'd', 'a', 'y'],
        Weekday::Wed => seq!['w', 'e', 'd', 'n', 'e', 's', 'd', 'a', 'y'],
        Weekday::Thu => seq!['t', 'h', 'u', 'r', 's', 'd', 'a', 'y'],
        Weekday::Fri => seq!['f', 'r', 'i', 'd', 'a', 'y'],
        Weekday::Sat => seq!['s', 'a', 't', 'u', 'r', 'd', 'a', 'y'],
        Weekday::Sun => seq!['s', 'u', 'n', 'd', 'a', 'y'],
    }
}

/// Three-letter weekday abbreviation, lowercase.
pub open spec fn weekday_abbrev(w: Weekday) -> Seq<char> {
    weekday_full_name(w).take(3)
}

/// A weekday name, full or three-letter, case-insensitively.
pub open spec fn parse_weekday_spec(s: Seq<char>) -> Option<Weekday> {
    let l = ascii_lower_seq(s);
    if l == weekday_full_name(Weekday::Mon) || l == weekday_abbrev(Weekday::Mon) {
        Some(Weekday::Mon)
    } else if l == weekday_full_name(Weekday::Tue) || l == weekday_abbrev(Weekday::Tue) {
        Some(Weekday::Tue)
    } else if l == weekday_full_name(Weekday::Wed) || l == weekday_abbrev(Weekday::Wed) {
        Some(Weekday::Wed)
    } else if l == weekday_full_name(Weekday::Thu) || l == weekday_abbrev(Weekday::Thu) {
        Some(Weekday::Thu)
    } else if l == weekday_full_name(Weekday::Fri) || l == weekday_abbrev(Weekday::Fri) {
        Some(Weekday::Fri)
    } else if l == weekday_full_name(Weekday::Sat) || l == weekday_abbrev(Weekday::Sat) {
        Some(Weekday::Sat)
    } else if l == weekday_full_name(Weekday::Sun) || l == weekday_abbrev(Weekday::Sun) {
        Some(Weekday::Sun)
    } else {
        None
    }
}

fn weekday_full_name_vec(w: Weekday) -> (r: Vec<char>)
    ensures
        r@ == weekday_full_name(w),
{
    let r = match w {
        Weekday::Mon => vec!['m', 'o', 'n', 'd', 'a', 'y'],
        Weekday::Tue => vec!['t', 'u', 'e', 's', 'd', 'a', 'y'],
        Weekday::Wed => vec!['w', 'e', 'd', 'n', 'e', 's', 'd', 'a', 'y'],
        Weekday::Thu => vec!['t', 'h', 'u', 'r', 's', 'd', 'a', 'y'],
        Weekday::Fri => vec!['f', 'r', 'i', 'd', 'a', 'y'],
        Weekday::Sat => vec!['s', 'a', 't', 'u', 'r', 'd', 'a', 'y'],
        Weekday::Sun => vec!['s', 'u', 'n', 'd', 'a', 'y'],
    };
    proof {
        assert(r@ =~= weekday_full_name(w));
    }
    r
}

fn weekday_abbrev_vec(w: Weekday) -> (r: Vec<char>)
    ensures
        r@ == weekday_abbrev(w),
{
    let full = weekday_full_name_vec(w);
    let r = copy_range(&full, 0, 3);
    assert(r@ =~= weekday_abbrev(w));
    r
}

fn try_weekday_name(l: &Vec<char>, w: Weekday) -> (r: bool)
    ensures
        r == (l@ == weekday_full_name(w) || l@ == weekday_abbrev(w)),
{
    let full = weekday_full_name_vec(w);
    let abbr = weekday_abbrev_vec(w);
    vec_chars_eq(l, &full) || vec_chars_eq(l, &abbr)
}

/// Parses a weekday name (full or abbreviated, case-insensitive).
pub(crate) fn parse_weekday(v: &Vec<char>) -> (r: Option<Weekday>)
    ensures
        r == parse_weekday_spec(v@),
{
    let l = ascii_lower_vec(v);
    if try_weekday_name(&l, Weekday::Mon) {
        Some(Weekday::Mon)
    } else if try_weekday_name(&l, Weekday::Tue) {
        Some(Weekday::Tue)
    } else if try_weekday_name(&l, Weekday::Wed) {
        Some(Weekday::Wed)
    } else if try_weekday_name(&l, Weekday::Thu) {
        Some(Weekday::Thu)
    } else if try_weekday_name(&l, Weekday::Fri) {
        Some(Weekday::Fri)
    } else if try_weekday_name(&l, Weekday::Sat) {
        Some(Weekday::Sat)
    } else if try_weekday_name(&l, Weekday::Sun) {
        Some(Weekday::Sun)
    } else {
        None
    }
}

/// The `YYYY/MM/DD` reading of three slash-separated parts: the first must
/// be exactly four digits, the others one or two, and the parts must name a
/// real date.
pub open spec fn ymd_reading(parts: Seq<Seq<char>>) -> Option<Date> {
    if parts.len() == 3 && parts[0].len() == 4 && all_digits(parts[0]) && 1 <= parts[1].len() <= 2
        && all_digits(parts[1]) && 1 <= parts[2].len() <= 2 && all_digits(parts[2]) {
        let d = Date {
            year: digits_val(parts[0]) as u32,
            month: digits_val(parts[1]) as u32,
            day: digits_val(parts[2]) as u32,
        };
        if d.valid() {
            Some(d)
        } else {
            None
        }
    } else {
        None
    }
}

/// The `MM/DD/YYYY` or `MM/DD/YY` reading of three slash-separated parts; a
/// year below 100 means 2000 and later.
pub open spec fn mdy_reading(parts: Seq<Seq<char>>) -> Option<Date> {
    if parts.len() == 3 && parse_num_u32_spec(parts[0]) is Some && parse_num_u32_spec(
        parts[1],
    ) is Some && parse_num_u32_spec(parts[2]) is Some {
        let y = digits_val(parts[2]);
        let full_year = if y < 100 {
            2000 + y
        } else {
            y
        };
        let d = Date {
            year: full_year as u32,
            month: digits_val(parts[0]) as u32,
            day: digits_val(parts[1]) as u32,
        };
        if d.valid() {
            Some(d)
        } else {
            None
        }
    } else {
        None
    }
}

/// The `MM/DD` reading under the "always future" policy: the date in
/// `today`'s year, rolled into the next year when it lies strictly before
/// `today`.
pub open spec fn md_future_reading(parts: Seq<Seq<char>>, today: Date) -> Option<Date> {
    if parts.len() == 2 && parse_num_u32_spec(parts[0]) is Some && parse_num_u32_spec(
        parts[1],
    ) is Some {
        let cur = Date {
            year: today.year,
            month: digits_val(parts[0]) as u32,
            day: digits_val(parts[1]) as u32,
        };
        if cur.valid() {
            if date_key(cur) < date_key(today) {
                let nxt = Date { year: (today.year + 1) as u32, month: cur.month, day: cur.day };
                if nxt.valid() {
                    Some(nxt)
                } else {
                    None
                }
            } else {
                Some(cur)
            }
        } else {
            None
        }
    } else {
        None
    }
}

/// The `MM/DD` reading under the "prefer past" policy: the date in `today`'s
/// year, rolled into the previous year when it lies strictly after `today`.
pub open spec fn md_past_reading(parts: Seq<Seq<char>>, today: Date) -> Option<Date> {
    if parts.len() == 2 && parse_num_u32_spec(parts[0]) is Some && parse_num_u32_spec(
        parts[1],
    ) is Some {
        let cur = Date {
            year: today.year,
            month: digits_val(parts[0]) as u32,
            day: digits_val(parts[1]) as u32,
        };
        if cur.valid() {
            if date_key(cur) <= date_key(today) {
                Some(cur)
            } else {
                let prv = Date { year: (today.year - 1) as u32, month: cur.month, day: cur.day };
                if prv.valid() {
                    Some(prv)
                } else {
                    None
                }
            }
        } else {
            None
        }
    } else {
        None
    }
}

/// A date string without its `@`, in the precedence order `YYYY/MM/DD`, then
/// `MM/DD/YYYY` or `MM/DD/YY`, then `MM/DD` with the "always future" policy.
pub open spec fn parse_later_date_spec(s: Seq<char>, today: Date) -> Option<Date> {
    let parts = split_char(s, '/');
    if ymd_reading(parts) is Some {
        ymd_reading(parts)
    } else if parts.len() == 3 && mdy_reading(parts) is Some {
        mdy_reading(parts)
    } else {
        md_future_reading(parts, today)
    }
}

/// Like `parse_later_date_spec`, but `MM/DD` takes the "prefer past"
/// policy; explicit-year forms read as usual, and anything else fails.
pub open spec fn parse_date_prefer_past_spec(s: Seq<char>, today: Date) -> Option<Date> {
    let parts = split_char(s, '/');
    if parts.len() == 3 {
        parse_later_date_spec(s, today)
    } else {
        md_past_reading(parts, today)
    }
}

fn ymd_try(parts: &Vec<Vec<char>>) -> (r: Option<Date>)
    requires
        parts.len() == 3,
    ensures
        r == ymd_reading(parts.deep_view()),
        r is Some ==> r->0.valid(),
{
    let p0 = &parts[0];
    let p1 = &parts[1];
    let p2 = &parts[2];
    proof {
        assert(parts.deep_view()[0] == p0@);
        assert(parts.deep_view()[1] == p1@);
        assert(parts.deep_view()[2] == p2@);
    }
    if p0.len() == 4 && (1 <= p1.len() && p1.len() <= 2) && (1 <= p2.len() && p2.len() <= 2) {
        match (parse_u32_chars(p0), parse_u32_chars(p1), parse_u32_chars(p2)) {
            (Some(y), Some(m), Some(d)) => Date::from_ymd(y, m, d),
            _ => {
                proof {
                    if all_digits(p0@) && all_digits(p1@) && all_digits(p2@) {
                        crate::text::lemma_digits_val_len_bound(p0@);
                        crate::text::lemma_digits_val_len_bound(p1@);
                        crate::text::lemma_digits_val_len_bound(p2@);
                    }
                }
                None
            },
        }
    } else {
        None
    }
}

fn mdy_try(parts: &Vec<Vec<char>>) -> (r: Option<Date>)
    requires
        parts.len() == 3,
    ensures
        r == mdy_reading(parts.deep_view()),
        r is Some ==> r->0.valid(),
{
    let p0 = &parts[0];
    let p1 = &parts[1];
    let p2 = &parts[2];
    proof {
        assert(parts.deep_view()[0] == p0@);
        assert(parts.deep_view()[1] == p1@);
        assert(parts.deep_view()[2] == p2@);
    }
    match (parse_u32_chars(p0), parse_u32_chars(p1), parse_u32_chars(p2)) {
        (Some(m), Some(d), Some(y)) => {
            let full_year = if y < 100 {
                2000 + y
            } else {
                y
            };
            Date::from_ymd(full_year, m, d)
        },
        _ => None,
    }
}

fn md_future_try(parts: &Vec<Vec<char>>, today: Date) -> (r: Option<Date>)
    requires
        parts.len() == 2,
        today.valid(),
    ensures
        r == md_future_reading(parts.deep_view(), today),
        r is Some ==> r->0.valid(),
{
    let p0 = &parts[0];
    let p1 = &parts[1];
    proof {
        assert(parts.deep_view()[0] == p0@);
        assert(parts.deep_view()[1] == p1@);
    }
    match (parse_u32_chars(p0), parse_u32_chars(p1)) {
        (Some(m), Some(d)) => {
            match Date::from_ymd(today.year, m, d) {
                Some(cur) => {
                    if crate::dates::date_lt(cur, today) {
                        Date::from_ymd(today.year + 1, m, d)
                    } else {
                        Some(cur)
                    }
                },
                None => None,
            }
        },
        _ => None,
    }
}

fn md_past_try(parts: &Vec<Vec<char>>, today: Date) -> (r: Option<Date>)
    requires
        parts.len() == 2,
        today.valid(),
    ensures
        r == md_past_reading(parts.deep_view(), today),
        r is Some ==> r->0.valid(),
{
    let p0 = &parts[0];
    let p1 = &parts[1];
    proof {
        assert(parts.deep_view()[0] == p0@);
        assert(parts.deep_view()[1] == p1@);
    }
    match (parse_u32_chars(p0), parse_u32_chars(p1)) {
        (Some(m), Some(d)) => {
            match Date::from_ymd(today.year, m, d) {
                Some(cur) => {
                    if crate::dates::date_le(cur, today) {
                        Some(cur)
                    } else {
                        if today.year <= 1 {
                            assert(!(Date {
                                year: (today.year - 1) as u32,
                                month: cur.month,
                                day: cur.day,
                            }).valid());
                            None
                        } else {
                            Date::from_ymd(today.year - 1, m, d)
                        }
                    }
                },
                None => None,
            }
        },
        _ => None,
    }
}

pub(crate) fn parse_later_date_chars(v: &Vec<char>, today: Date) -> (r: Option<Date>)
    requires
        today.valid(),
    ensures
        r == parse_later_date_spec(v@, today),
        r is Some ==> r->0.valid(),
{
    let parts = split_char_vec(v, '/');
    if parts.len() == 3 {
        if let Some(d) = ymd_try(&parts) {
            return Some(d);
        }
        if let Some(d) = mdy_try(&parts) {
            return Some(d);
        }
        proof {
            assert(md_future_reading(parts.deep_view(), today) is None);
        }
        None
    } else if parts.len() == 2 {
        proof {
            assert(ymd_reading(parts.deep_view()) is None);
            assert(mdy_reading(parts.deep_view()) is None);
        }
        md_future_try(&parts, today)
    } else {
        proof {
            assert(ymd_reading(parts.deep_view()) is None);
            assert(mdy_reading(parts.deep_view()) is None);
            assert(md_future_reading(parts.deep_view(), today) is None);
        }
        None
    }
}

/// Parses a date string (without `@`) against the reference day `today`,
/// trying `YYYY/MM/DD`, `MM/DD/YYYY`, `MM/DD/YY`, and finally `MM/DD` with
/// the "always future" policy.
pub fn parse_later_date(date_str: &str, today: Date) -> (r: Option<Date>)
    requires
        today.valid(),
    ensures
        r == parse_later_date_spec(date_str@, today),
        r is Some ==> r->0.valid(),
{
    let v = string_to_chars(date_str);
    parse_later_date_chars(&v, today)
}

pub(crate) fn parse_date_prefer_past_chars(v: &Vec<char>, today: Date) -> (r: Option<Date>)
    requires
        today.valid(),
    ensures
        r == parse_date_prefer_past_spec(v@, today),
        r is Some ==> r->0.valid(),
{
    let parts = split_char_vec(v, '/');
    if parts.len() == 3 {
        parse_later_date_chars(v, today)
    } else if parts.len() == 2 {
        md_past_try(&parts, today)
    } else {
        proof {
            assert(md_past_reading(parts.deep_view(), today) is None);
        }
        None
    }
}

/// Like `parse_later_date`, but a year-less `MM/DD` resolves to its most
/// recent occurrence on or before `today` — the overdue-oriented policy.
pub fn parse_date_prefer_past(date_str: &str, today: Date) -> (r: Option<Date>)
    requires
        today.valid(),
    ensures
        r == parse_date_prefer_past_spec(date_str@, today),
        r is Some ==> r->0.valid(),
{
    let v = string_to_chars(date_str);
    parse_date_prefer_past_chars(&v, today)
}


/// The characters of `s` starting at `p` read case-insensitively as `kw`.
pub open spec fn match_kw(s: Seq<char>, p: int, kw: Seq<char>) -> bool {
    &&& 0 <= p
    &&& p + kw.len() <= s.len()
    &&& ascii_lower_seq(s.subrange(p, p + kw.len())) == kw
}

pub(crate) fn kw_matches_pub(v: &Vec<char>, p: usize, kw: &Vec<char>) -> (r: bool)
    requires
        p <= v.len(),
    ensures
        r == match_kw(v@, p as int, kw@),
{
    if v.len() - p < kw.len() {
        return false;
    }
    let mut i: usize = 0;
    while i < kw.len()
        invariant
            p + kw.len() <= v.len(),
            i <= kw.len(),
            forall|k: int| 0 <= k < i ==> ascii_lower_char(v@[p + k]) == kw@[k],
        decreases kw.len() - i,
    {
        if crate::text::lower_ascii_char(v[p + i]) != kw[i] {
            assert(ascii_lower_seq(v@.subrange(p as int, p + kw@.len()))[i as int] != kw@[
                i as int
            ]);
            return false;
        }
        i = i + 1;
    }
    assert(ascii_lower_seq(v@.subrange(p as int, p + kw@.len())) =~= kw@);
    true
}

/// Length of a weekday name (full name preferred over the three-letter
/// abbreviation) read case-insensitively at position `q`, if one is there.
pub open spec fn weekday_name_len(s: Seq<char>, q: int) -> Option<int> {
    if match_kw(s, q, weekday_abbrev(Weekday::Mon)) {
        if match_kw(s, q, weekday_full_name(Weekday::Mon)) {
            Some(6)
        } else {
            Some(3)
        }
    } else if match_kw(s, q, weekday_abbrev(Weekday::Tue)) {
        if match_kw(s, q, weekday_full_name(Weekday::Tue)) {
            Some(7)
        } else {
            Some(3)
        }
    } else if match_kw(s, q, weekday_abbrev(Weekday::Wed)) {
        if match_kw(s, q, weekday_full_name(Weekday::Wed)) {
            Some(9)
        } else {
            Some(3)
        }
    } else if match_kw(s, q, weekday_abbrev(Weekday::Thu)) {
        if match_kw(s, q, weekday_full_name(Weekday::Thu)) {
            Some(8)
        } else {
            Some(3)
        }
    } else if match_kw(s, q, weekday_abbrev(Weekday::Fri)) {
        if match_kw(s, q, weekday_full_name(Weekday::Fri)) {
            Some(6)
        } else {
            Some(3)
        }
    } else if match_kw(s, q, weekday_abbrev(Weekday::Sat)) {
        if match_kw(s, q, weekday_full_name(Weekday::Sat)) {
            Some(8)
        } else {
            Some(3)
        }
    } else if match_kw(s, q, weekday_abbrev(Weekday::Sun)) {
        if match_kw(s, q, weekday_full_name(Weekday::Sun)) {
            Some(6)
        } else {
            Some(3)
        }
    } else {
        None
    }
}

fn try_weekday_at(v: &Vec<char>, q: usize, w: Weekday) -> (r: Option<usize>)
    requires
        q <= v.len(),
    ensures
        match_kw(v@, q as int, weekday_abbrev(w)) <==> r is Some,
        r is Some ==> r->0 as int == (if match_kw(v@, q as int, weekday_full_name(w)) {
            weekday_full_name(w).len() as int
        } else {
            3int
        }),
{
    let abbr = weekday_abbrev_vec(w);
    let full = weekday_full_name_vec(w);
    if kw_matches_pub(v, q, &abbr) {
        if kw_matches_pub(v, q, &full) {
            Some(full.len())
        } else {
            Some(3)
        }
    } else {
        None
    }
}

pub(crate) fn weekday_name_len_at_pub(v: &Vec<char>, q: usize) -> (r: Option<usize>)
    requires
        q <= v.len(),
    ensures
        match r {
            Some(l) => weekday_name_len(v@, q as int) == Some(l as int),
            None => weekday_name_len(v@, q as int) is None,
        },
{
    if let Some(l) = try_weekday_at(v, q, Weekday::Mon) {
        return Some(l);
    }
    if let Some(l) = try_weekday_at(v, q, Weekday::Tue) {
        return Some(l);
    }
    if let Some(l) = try_weekday_at(v, q, Weekday::Wed) {
        return Some(l);
    }
    if let Some(l) = try_weekday_at(v, q, Weekday::Thu) {
        return Some(l);
    }
    if let Some(l) = try_weekday_at(v, q, Weekday::Fri) {
        return Some(l);
    }
    if let Some(l) = try_weekday_at(v, q, Weekday::Sat) {
        return Some(l);
    }
    if let Some(l) = try_weekday_at(v, q, Weekday::Sun) {
        return Some(l);
    }
    None
}

/// Length of a relative-day count marker (`3d`, `-12d`, case-insensitive
/// trailing letter) at position `p`: an optional minus, a digit run starting
/// with a non-zero digit, and the letter `d`.
pub open spec fn number_marker_len(s: Seq<char>, p: int) -> Option<int> {
    let q = if 0 <= p < s.len() && s[p] == '-' {
        p + 1
    } else {
        p
    };
    if 0 <= q < s.len() && is_digit(s[q]) && s[q] != '0' {
        let e = q + digits_run(s, q);
        if e < s.len() && ascii_lower_char(s[e]) == 'd' {
            Some(e + 1 - p)
        } else {
            None
        }
    } else {
        None
    }
}

fn number_marker_len_at(v: &Vec<char>, p: usize) -> (r: Option<usize>)
    requires
        p <= v.len(),
    ensures
        match r {
            Some(l) => number_marker_len(v@, p as int) == Some(l as int),
            None => number_marker_len(v@, p as int) is None,
        },
{
    let q: usize = if p < v.len() && v[p] == '-' {
        p + 1
    } else {
        p
    };
    if q < v.len() && is_digit_char(v[q]) && v[q] != '0' {
        let run = digits_run_at(v, q);
        let e = q + run;
        if e < v.len() && crate::text::lower_ascii_char(v[e]) == 'd' {
            Some(e + 1 - p)
        } else {
            None
        }
    } else {
        None
    }
}

/// Length of a natural-date marker at position `p` (just after an `@`):
/// `tomorrow`, `yesterday`, `next-`/`last-` plus a weekday name, or a
/// relative-day count, all case-insensitive, tried in that order.
pub open spec fn natural_marker_len(s: Seq<char>, p: int) -> Option<int> {
    if match_kw(s, p, kw_tomorrow()) {
        Some(8)
    } else if match_kw(s, p, kw_yesterday()) {
        Some(9)
    } else if match_kw(s, p, kw_next_dash()) && weekday_name_len(s, p + 5) is Some {
        Some(5 + weekday_name_len(s, p + 5)->0)
    } else if match_kw(s, p, kw_last_dash()) && weekday_name_len(s, p + 5) is Some {
        Some(5 + weekday_name_len(s, p + 5)->0)
    } else {
        number_marker_len(s, p)
    }
}

pub proof fn lemma_natural_marker_bounds(s: Seq<char>, p: int)
    requires
        0 <= p <= s.len(),
    ensures
        match natural_marker_len(s, p) {
            Some(l) => 1 <= l && p + l <= s.len(),
            None => true,
        },
{
    crate::text::lemma_digits_run_bounds(s, p);
    if p < s.len() && s[p] == '-' {
        crate::text::lemma_digits_run_bounds(s, p + 1);
    }
}

fn natural_marker_len_at(v: &Vec<char>, p: usize) -> (r: Option<usize>)
    requires
        p <= v.len(),
    ensures
        match r {
            Some(l) => natural_marker_len(v@, p as int) == Some(l as int) && 1 <= l && p + l
                <= v@.len(),
            None => natural_marker_len(v@, p as int) is None,
        },
{
    proof {
        lemma_natural_marker_bounds(v@, p as int);
    }
    let tomorrow = vec!['t', 'o', 'm', 'o', 'r', 'r', 'o', 'w'];
    let yesterday = vec!['y', 'e', 's', 't', 'e', 'r', 'd', 'a', 'y'];
    let next_dash = vec!['n', 'e', 'x', 't', '-'];
    let last_dash = vec!['l', 'a', 's', 't', '-'];
    proof {
        assert(tomorrow@ =~= kw_tomorrow());
        assert(yesterday@ =~= kw_yesterday());
        assert(next_dash@ =~= kw_next_dash());
        assert(last_dash@ =~= kw_last_dash());
    }
    if kw_matches_pub(v, p, &tomorrow) {
        return Some(8);
    }
    if kw_matches_pub(v, p, &yesterday) {
        return Some(9);
    }
    if kw_matches_pub(v, p, &next_dash) {
        if let Some(l) = weekday_name_len_at_pub(v, p + 5) {
            return Some(5 + l);
        }
        proof {
            assert(natural_marker_len(v@, p as int) == number_marker_len(v@, p as int));
        }
        return number_marker_len_at(v, p);
    }
    if kw_matches_pub(v, p, &last_dash) {
        if let Some(l) = weekday_name_len_at_pub(v, p + 5) {
            return Some(5 + l);
        }
        return number_marker_len_at(v, p);
    }
    number_marker_len_at(v, p)
}

/// The next weekday `target` strictly after `today`, wrapping a full week
/// when `target` is `today`'s own weekday.
pub open spec fn spec_next_weekday_from(today: Date, target: Weekday) -> Option<Date> {
    let td = spec_weekday_index(today);
    let t = weekday_number(target);
    let ahead = if t > td {
        t - td
    } else {
        7 - td + t
    };
    spec_add_days(today, ahead as nat)
}

/// The most recent weekday `target` strictly before `today`, wrapping a full
/// week when `target` is `today`'s own weekday.
pub open spec fn spec_prev_weekday_from(today: Date, target: Weekday) -> Option<Date> {
    let td = spec_weekday_index(today);
    let t = weekday_number(target);
    let back = if t < td {
        td - t
    } else {
        7 - t + td
    };
    spec_sub_days(today, back as nat)
}

pub(crate) fn next_weekday_from(today: Date, target: Weekday) -> (r: Option<Date>)
    requires
        today.valid(),
    ensures
        r == spec_next_weekday_from(today, target),
        r is Some ==> r->0.valid(),
{
    let td = num_days_from_monday(weekday(today));
    let t = num_days_from_monday(target);
    let ahead: u32 = if t > td {
        t - td
    } else {
        7 - td + t
    };
    add_days(today, ahead as u64)
}

pub(crate) fn prev_weekday_from(today: Date, target: Weekday) -> (r: Option<Date>)
    requires
        today.valid(),
    ensures
        r == spec_prev_weekday_from(today, target),
        r is Some ==> r->0.valid(),
{
    let td = num_days_from_monday(weekday(today));
    let t = num_days_from_monday(target);
    let back: u32 = if t < td {
        td - t
    } else {
        7 - t + td
    };
    sub_days(today, back as u64)
}

/// A natural date phrase: `tomorrow`, `yesterday`, `<N>d` ahead, `-<N>d`
/// behind (N positive), `next-`/`last-` weekday — all case-insensitive —
/// with anything else handed to the absolute-format parser.
pub open spec fn parse_natural_date_spec(s: Seq<char>, today: Date) -> Option<Date> {
    let l = ascii_lower_seq(s);
    if l == kw_tomorrow() {
        spec_add_days(today, 1)
    } else if l == kw_yesterday() {
        spec_sub_days(today, 1)
    } else if l.len() > 0 && l.last() == 'd' && l.drop_last().len() > 0 && l.drop_last()[0] == '-'
        && parse_num_u64_spec(l.drop_last().skip(1)) is Some && parse_num_u64_spec(
        l.drop_last().skip(1),
    )->0 > 0 {
        spec_sub_days(today, parse_num_u64_spec(l.drop_last().skip(1))->0 as nat)
    } else if l.len() > 0 && l.last() == 'd' && !(l.drop_last().len() > 0 && l.drop_last()[0]
        == '-') && parse_num_u64_spec(l.drop_last()) is Some && parse_num_u64_spec(
        l.drop_last(),
    )->0 > 0 {
        spec_add_days(today, parse_num_u64_spec(l.drop_last())->0 as nat)
    } else if l.len() >= 5 && l.take(5) == kw_next_dash() && parse_weekday_spec(
        l.skip(5),
    ) is Some {
        spec_next_weekday_from(today, parse_weekday_spec(l.skip(5))->0)
    } else if l.len() >= 5 && l.take(5) == kw_last_dash() && parse_weekday_spec(
        l.skip(5),
    ) is Some {
        spec_prev_weekday_from(today, parse_weekday_spec(l.skip(5))->0)
    } else {
        parse_later_date_spec(s, today)
    }
}

pub(crate) fn parse_natural_date_chars(v: &Vec<char>, today: Date) -> (r: Option<Date>)
    requires
        today.valid(),
    ensures
        r == parse_natural_date_spec(v@, today),
        r is Some ==> r->0.valid(),
{
    let l = ascii_lower_vec(v);
    let tomorrow = vec!['t', 'o', 'm', 'o', 'r', 'r', 'o', 'w'];
    let yesterday = vec!['y', 'e', 's', 't', 'e', 'r', 'd', 'a', 'y'];
    let next_dash = vec!['n', 'e', 'x', 't', '-'];
    let last_dash = vec!['l', 'a', 's', 't', '-'];
    proof {
        assert(tomorrow@ =~= kw_tomorrow());
        assert(yesterday@ =~= kw_yesterday());
        assert(next_dash@ =~= kw_next_dash());
        assert(last_dash@ =~= kw_last_dash());
    }
    if vec_chars_eq(&l, &tomorrow) {
        return add_days(today, 1);
    }
    if vec_chars_eq(&l, &yesterday) {
        return sub_days(today, 1);
    }
    if l.len() > 0 && l[l.len() - 1] == 'd' {
        let days_str = copy_range(&l, 0, l.len() - 1);
        proof {
            assert(days_str@ =~= l@.drop_last());
        }
        if days_str.len() > 0 && days_str[0] == '-' {
            let digits = copy_range(&days_str, 1, days_str.len());
            proof {
                assert(digits@ =~= days_str@.skip(1));
            }
            if let Some(n) = parse_u64_chars(&digits) {
                if n > 0 {
                    return sub_days(today, n);
                }
            }
        } else {
            if let Some(n) = parse_u64_chars(&days_str) {
                if n > 0 {
                    return add_days(today, n);
                }
            }
        }
    }
    if l.len() >= 5 {
        let head = copy_range(&l, 0, 5);
        let rest = copy_range(&l, 5, l.len());
        proof {
            assert(head@ =~= l@.take(5));
            assert(rest@ =~= l@.skip(5));
            assert(ascii_lower_seq(rest@) =~= rest@);
        }
        if vec_chars_eq(&head, &next_dash) {
            if let Some(w) = parse_weekday(&rest) {
                return next_weekday_from(today, w);
            }
        }
        if vec_chars_eq(&head, &last_dash) {
            if let Some(w) = parse_weekday(&rest) {
                return prev_weekday_from(today, w);
            }
        }
    }
    parse_later_date_chars(v, today)
}

/// Parses a natural date phrase against the reference day `today`.
pub fn parse_natural_date(input: &str, today: Date) -> (r: Option<Date>)
    requires
        today.valid(),
    ensures
        r == parse_natural_date_spec(input@, today),
        r is Some ==> r->0.valid(),
{
    let v = string_to_chars(input);
    parse_natural_date_chars(&v, today)
}

/// The canonical `@MM/DD` marker for a date.
pub open spec fn md_marker(d: Date) -> Seq<char> {
    seq!['@'] + crate::document::fmt2(d.month as int) + seq!['/'] + crate::document::fmt2(
        d.day as int,
    )
}

/// `s` from position `pos` on, with every resolvable natural-date marker
/// rewritten to its canonical `@MM/DD` form; unresolvable markers stay.
pub open spec fn normalize_from(s: Seq<char>, today: Date, pos: int) -> Seq<char>
    decreases s.len() - pos when 0 <= pos <= s.len() via normalize_from_decreases
{
    if pos >= s.len() {
        Seq::empty()
    } else if s[pos] == '@' {
        match natural_marker_len(s, pos + 1) {
            Some(l) => {
                let m = s.subrange(pos + 1, pos + 1 + l);
                match parse_natural_date_spec(m, today) {
                    Some(d) => md_marker(d) + normalize_from(s, today, pos + 1 + l),
                    None => s.subrange(pos, pos + 1 + l) + normalize_from(s, today, pos + 1 + l),
                }
            },
            None => seq![s[pos]] + normalize_from(s, today, pos + 1),
        }
    } else {
        seq![s[pos]] + normalize_from(s, today, pos + 1)
    }
}

#[via_fn]
proof fn normalize_from_decreases(s: Seq<char>, today: Date, pos: int) {
    if 0 <= pos < s.len() {
        lemma_natural_marker_bounds(s, pos + 1);
    }
}

/// The whole of `s` normalized.
pub open spec fn normalize_natural_dates_spec(s: Seq<char>, today: Date) -> Seq<char> {
    normalize_from(s, today, 0)
}

/// Replaces natural date markers (`@tomorrow`, `@3d`, `@next-mon`, ...) with
/// their canonical `@MM/DD` form; markers that resolve to no date are left
/// untouched.
pub fn normalize_natural_dates(content: &str, today: Date) -> (r: String)
    requires
        today.valid(),
    ensures
        r@ == normalize_natural_dates_spec(content@, today),
{
    let v = string_to_chars(content);
    let mut out: Vec<char> = Vec::new();
    let mut pos: usize = 0;
    while pos < v.len()
        invariant
            today.valid(),
            pos <= v.len(),
            v@ == content@,
            normalize_natural_dates_spec(content@, today) == out@ + normalize_from(
                v@,
                today,
                pos as int,
            ),
        decreases v.len() - pos,
    {
        let c = v[pos];
        if c == '@' {
            match natural_marker_len_at(&v, pos + 1) {
                Some(l) => {
                    let m = copy_range(&v, pos + 1, pos + 1 + l);
                    proof {
                        assert(m@ =~= v@.subrange(pos + 1, pos + 1 + l));
                    }
                    match parse_natural_date_chars(&m, today) {
                        Some(d) => {
                            let ghost before = out@;
                            out.push('@');
                            crate::document::push_fmt2(&mut out, d.month);
                            out.push('/');
                            crate::document::push_fmt2(&mut out, d.day);
                            proof {
                                assert(out@ =~= before + md_marker(d));
                            }
                        },
                        None => {
                            let ghost before = out@;
                            let piece = copy_range(&v, pos, pos + 1 + l);
                            crate::text::append_vec(&mut out, &piece);
                            proof {
                                assert(piece@ =~= v@.subrange(pos as int, pos + 1 + l));
                            }
                        },
                    }
                    pos = pos + 1 + l;
                },
                None => {
                    out.push(c);
                    pos = pos + 1;
                },
            }
        } else {
            out.push(c);
            pos = pos + 1;
        }
    }
    chars_to_string(&out)
}

/// The first `@date` marker in `s` at or after `pos`: the group's start and
/// length, `@` excluded.
pub open spec fn first_date_marker(s: Seq<char>, pos: int) -> Option<(int, int)>
    decreases s.len() - pos when 0 <= pos <= s.len()
{
    if pos >= s.len() {
        None
    } else if s[pos] == '@' && date_marker_len(s, pos + 1) is Some {
        Some((pos + 1, date_marker_len(s, pos + 1)->0))
    } else {
        first_date_marker(s, pos + 1)
    }
}

/// Length of a one-or-two-digit group followed by `/` at position `q`.
pub open spec fn slash_num_len(s: Seq<char>, q: int) -> Option<int> {
    if 0 <= q && q + 2 < s.len() && is_digit(s[q]) && is_digit(s[q + 1]) && s[q + 2] == '/' {
        Some(2)
    } else if 0 <= q && q + 1 < s.len() && is_digit(s[q]) && s[q + 1] == '/' {
        Some(1)
    } else {
        None
    }
}

/// Length of an absolute date marker at `p` (just after an `@`):
/// `YYYY/MM/DD` with exactly four year digits, or `MM/DD` with an optional
/// two-to-four digit year.
pub open spec fn date_marker_len(s: Seq<char>, p: int) -> Option<int> {
    if 0 <= p <= s.len() && digits_run(s, p) >= 4 && p + 4 < s.len() && s[p + 4] == '/'
        && slash_num_len(s, p + 5) is Some && digits_run(
        s,
        p + 5 + slash_num_len(s, p + 5)->0 + 1,
    ) >= 1 {
        let dstart = p + 5 + slash_num_len(s, p + 5)->0 + 1;
        let dr = digits_run(s, dstart);
        let dlen = if dr >= 2 {
            2int
        } else {
            1int
        };
        Some(dstart + dlen - p)
    } else if 0 <= p && slash_num_len(s, p) is Some && digits_run(
        s,
        p + slash_num_len(s, p)->0 + 1,
    ) >= 1 {
        let dstart = p + slash_num_len(s, p)->0 + 1;
        let dr = digits_run(s, dstart);
        let dlen = if dr >= 2 {
            2int
        } else {
            1int
        };
        let e = dstart + dlen;
        if e < s.len() && s[e] == '/' && digits_run(s, e + 1) >= 2 {
            let yr = digits_run(s, e + 1);
            let ylen = if yr >= 4 {
                4int
            } else if yr == 3 {
                3int
            } else {
                2int
            };
            Some(e + 1 + ylen - p)
        } else {
            Some(e - p)
        }
    } else {
        None
    }
}

pub proof fn lemma_date_marker_bounds(s: Seq<char>, p: int)
    requires
        0 <= p <= s.len(),
    ensures
        match date_marker_len(s, p) {
            Some(l) => 1 <= l && p + l <= s.len(),
            None => true,
        },
{
    crate::text::lemma_digits_run_bounds(s, p);
    if slash_num_len(s, p) is Some {
        crate::text::lemma_digits_run_bounds(s, p + slash_num_len(s, p)->0 + 1);
        let dstart = p + slash_num_len(s, p)->0 + 1;
        let dr = digits_run(s, dstart);
        let dlen = if dr >= 2 {
            2int
        } else {
            1int
        };
        let e = dstart + dlen;
        if e < s.len() && s[e] == '/' {
            crate::text::lemma_digits_run_bounds(s, e + 1);
        }
    }
    if digits_run(s, p) >= 4 && p + 4 < s.len() && s[p + 4] == '/' && slash_num_len(
        s,
        p + 5,
    ) is Some {
        crate::text::lemma_digits_run_bounds(s, p + 5 + slash_num_len(s, p + 5)->0 + 1);
    }
}

fn slash_num_len_at(v: &Vec<char>, q: usize) -> (r: Option<usize>)
    requires
        q <= v.len(),
    ensures
        match r {
            Some(l) => slash_num_len(v@, q as int) == Some(l as int) && 1 <= l <= 2,
            None => slash_num_len(v@, q as int) is None,
        },
{
    if v.len() - q > 2 && is_digit_char(v[q]) && is_digit_char(v[q + 1]) && v[q + 2] == '/' {
        Some(2)
    } else if v.len() - q > 1 && is_digit_char(v[q]) && v[q + 1] == '/' {
        Some(1)
    } else {
        None
    }
}

fn date_marker_len_at(v: &Vec<char>, p: usize) -> (r: Option<usize>)
    requires
        p <= v.len(),
    ensures
        match r {
            Some(l) => date_marker_len(v@, p as int) == Some(l as int) && 1 <= l && p + l
                <= v@.len(),
            None => date_marker_len(v@, p as int) is None,
        },
{
    proof {
        lemma_date_marker_bounds(v@, p as int);
    }
    let run0 = digits_run_at(v, p);
    if run0 >= 4 && p + 4 < v.len() && v[p + 4] == '/' {
        if let Some(ml) = slash_num_len_at(v, p + 5) {
            let dstart = p + 5 + ml + 1;
            proof {
                crate::text::lemma_digits_run_bounds(v@, p as int);
            }
            let dr = digits_run_at(v, dstart);
            if dr >= 1 {
                let dlen: usize = if dr >= 2 {
                    2
                } else {
                    1
                };
                return Some(dstart + dlen - p);
            }
        }
    }
    if let Some(ml) = slash_num_len_at(v, p) {
        let dstart = p + ml + 1;
        let dr = digits_run_at(v, dstart);
        if dr >= 1 {
            let dlen: usize = if dr >= 2 {
                2
            } else {
                1
            };
            let e = dstart + dlen;
            proof {
                crate::text::lemma_digits_run_bounds(v@, dstart as int);
            }
            if e < v.len() && v[e] == '/' {
                let yr = digits_run_at(v, e + 1);
                if yr >= 2 {
                    let ylen: usize = if yr >= 4 {
                        4
                    } else if yr == 3 {
                        3
                    } else {
                        2
                    };
                    return Some(e + 1 + ylen - p);
                }
            }
            return Some(e - p);
        }
    }
    None
}

/// The target date of the first `@date` marker in `s`, resolved with the
/// "always future" policy; `None` when there is no marker or its text names
/// no date.
pub open spec fn extract_target_date_spec(s: Seq<char>, today: Date) -> Option<Date> {
    match first_date_marker(s, 0) {
        Some((q, l)) => parse_later_date_spec(s.subrange(q, q + l), today),
        None => None,
    }
}

/// Like `extract_target_date_spec`, with the "prefer past" policy.
pub open spec fn extract_target_date_prefer_past_spec(s: Seq<char>, today: Date) -> Option<
    Date,
> {
    match first_date_marker(s, 0) {
        Some((q, l)) => parse_date_prefer_past_spec(s.subrange(q, q + l), today),
        None => None,
    }
}

fn find_date_marker(v: &Vec<char>) -> (r: Option<(usize, usize)>)
    ensures
        match r {
            Some((q, l)) => first_date_marker(v@, 0) == Some((q as int, l as int)) && q + l
                <= v@.len(),
            None => first_date_marker(v@, 0) is None,
        },
{
    let mut pos: usize = 0;
    while pos < v.len()
        invariant
            pos <= v.len(),
            first_date_marker(v@, 0) == first_date_marker(v@, pos as int),
        decreases v.len() - pos,
    {
        if v[pos] == '@' {
            if let Some(l) = date_marker_len_at(v, pos + 1) {
                return Some((pos + 1, l));
            }
        }
        pos = pos + 1;
    }
    None
}

/// Extracts the target date from entry content holding an `@date` marker.
pub fn extract_target_date(content: &str, today: Date) -> (r: Option<Date>)
    requires
        today.valid(),
    ensures
        r == extract_target_date_spec(content@, today),
        r is Some ==> r->0.valid(),
{
    let v = string_to_chars(content);
    match find_date_marker(&v) {
        Some((q, l)) => {
            let m = copy_range(&v, q, q + l);
            proof {
                assert(m@ =~= v@.subrange(q as int, q + l as int));
            }
            parse_later_date_chars(&m, today)
        },
        None => None,
    }
}

/// Extracts the target date preferring the past reading — the overdue check.
pub fn extract_target_date_prefer_past(content: &str, today: Date) -> (r: Option<Date>)
    requires
        today.valid(),
    ensures
        r == extract_target_date_prefer_past_spec(content@, today),
        r is Some ==> r->0.valid(),
{
    let v = string_to_chars(content);
    match find_date_marker(&v) {
        Some((q, l)) => {
            let m = copy_range(&v, q, q + l);
            proof {
                assert(m@ =~= v@.subrange(q as int, q + l as int));
            }
            parse_date_prefer_past_chars(&m, today)
        },
        None => None,
    }
}

} // verus!
