//! The filter query engine.
//!
//! A query is a single line, split on whitespace; each token independently
//! sets one part of the filter: date bounds (`@before:`, `@after:`), the
//! overdue flag, an entry type (`!tasks`, optionally with a completion
//! modifier), required and excluded tags, and plain search terms.  Malformed
//! tokens are collected rather than dropped, and a filter holding any
//! invalid token matches nothing at all — fail closed.

use vstd::prelude::*;

use crate::dates::{date_key, Date};
use crate::document::parse_day_header_spec;
use crate::entries::{parse_line_spec, Entry, EntryType, EntryV, LineV};
use crate::resolver::{
    extract_target_date_prefer_past_spec, parse_natural_date_chars, parse_natural_date_spec,
};
use crate::text::{
    ascii_eq_ignore_case, chars_eq_ignore_ascii_case, chars_to_string, copy_range, find_char,
    find_char_from, find_sub, find_sub_chars, is_ws, lemma_find_char_bounds, lemma_find_char_from,
    line_at, next_line_pos, read_line_at, string_to_chars, subseq_matches,
};

verus! {

/// The entry kinds a filter can select.
#[derive(Debug, Clone, Copy, PartialEq, Eq, Structural)]
pub enum FilterType {
    Task,
    Note,
    Event,
}

/// A parsed filter query.
#[derive(Debug, Clone)]
pub struct Filter {
    pub entry_type: Option<FilterType>,
    pub completed: Option<bool>,
    pub tags: Vec<String>,
    pub exclude_tags: Vec<String>,
    pub search_terms: Vec<String>,
    pub exclude_terms: Vec<String>,
    pub exclude_types: Vec<FilterType>,
    pub before_date: Option<Date>,
    pub after_date: Option<Date>,
    pub overdue: bool,
    pub invalid_tokens: Vec<String>,
}

/// Mathematical model of a `Filter`.
#[verifier::ext_equal]
pub ghost struct FilterV {
    pub entry_type: Option<FilterType>,
    pub completed: Option<bool>,
    pub tags: Seq<Seq<char>>,
    pub exclude_tags: Seq<Seq<char>>,
    pub search_terms: Seq<Seq<char>>,
    pub exclude_terms: Seq<Seq<char>>,
    pub exclude_types: Seq<FilterType>,
    pub before_date: Option<Date>,
    pub after_date: Option<Date>,
    pub overdue: bool,
    pub invalid_tokens: Seq<Seq<char>>,
}

impl View for Filter {
    type V = FilterV;

    open spec fn view(&self) -> FilterV {
        FilterV {
            entry_type: self.entry_type,
            completed: self.completed,
            tags: self.tags.deep_view(),
            exclude_tags: self.exclude_tags.deep_view(),
            search_terms: self.search_terms.deep_view(),
            exclude_terms: self.exclude_terms.deep_view(),
            exclude_types: self.exclude_types@,
            before_date: self.before_date,
            after_date: self.after_date,
            overdue: self.overdue,
            invalid_tokens: self.invalid_tokens.deep_view(),
        }
    }
}

/// The filter that matches everything: no constraint set.
pub open spec fn empty_filter() -> FilterV {
    FilterV {
        entry_type: None,
        completed: None,
        tags: Seq::empty(),
        exclude_tags: Seq::empty(),
        search_terms: Seq::empty(),
        exclude_terms: Seq::empty(),
        exclude_types: Seq::empty(),
        before_date: None,
        after_date: None,
        overdue: false,
        invalid_tokens: Seq::empty(),
    }
}

impl Default for Filter {
    /// The unconstrained filter.
    fn default() -> (r: Filter)
        ensures
            r@ == empty_filter(),
    {
        let r = Filter {
            entry_type: None,
            completed: None,
            tags: Vec::new(),
            exclude_tags: Vec::new(),
            search_terms: Vec::new(),
            exclude_terms: Vec::new(),
            exclude_types: Vec::new(),
            before_date: None,
            after_date: None,
            overdue: false,
            invalid_tokens: Vec::new(),
        };
        proof {
            assert(r@ =~~= empty_filter());
        }
        r
    }
}

/// Length of the run of non-whitespace characters starting at `p`.
pub open spec fn nonws_run(s: Seq<char>, p: int) -> int
    decreases s.len() - p when 0 <= p <= s.len()
{
    if p >= s.len() || is_ws(s[p]) {
        0
    } else {
        1 + nonws_run(s, p + 1)
    }
}

proof fn lemma_nonws_run_bounds(s: Seq<char>, p: int)
    requires
        0 <= p <= s.len(),
    ensures
        0 <= nonws_run(s, p) <= s.len() - p,
    decreases s.len() - p,
{
    if p < s.len() && !is_ws(s[p]) {
        lemma_nonws_run_bounds(s, p + 1);
    }
}

proof fn lemma_nonws_run_prefix(s: Seq<char>, p: int, j: int)
    requires
        0 <= p <= j <= s.len(),
        forall|i: int| p <= i < j ==> !is_ws(#[trigger] s[i]),
        j < s.len() ==> is_ws(s[j]),
    ensures
        nonws_run(s, p) == j - p,
    decreases j - p,
{
    if p < j {
        lemma_nonws_run_prefix(s, p + 1, j);
    }
}

/// The whitespace-separated tokens of `s` from `pos` on.
pub open spec fn tokens_from(s: Seq<char>, pos: int) -> Seq<Seq<char>>
    decreases s.len() - pos when 0 <= pos <= s.len() via tokens_from_decreases
{
    if pos >= s.len() {
        Seq::empty()
    } else if is_ws(s[pos]) {
        tokens_from(s, pos + 1)
    } else {
        seq![s.subrange(pos, pos + nonws_run(s, pos))] + tokens_from(s, pos + nonws_run(s, pos))
    }
}

#[via_fn]
proof fn tokens_from_decreases(s: Seq<char>, pos: int) {
    if 0 <= pos < s.len() && !is_ws(s[pos]) {
        lemma_nonws_run_bounds(s, pos + 1);
        assert(nonws_run(s, pos) == 1 + nonws_run(s, pos + 1));
        lemma_nonws_run_bounds(s, pos);
    }
}

pub open spec fn tokens_of(s: Seq<char>) -> Seq<Seq<char>> {
    tokens_from(s, 0)
}

fn tokenize(v: &Vec<char>) -> (r: Vec<Vec<char>>)
    ensures
        r.deep_view() == tokens_of(v@),
{
    let mut out: Vec<Vec<char>> = Vec::new();
    let mut pos: usize = 0;
    proof {
        assert(out.deep_view() =~~= Seq::<Seq<char>>::empty());
    }
    while pos < v.len()
        invariant
            pos <= v.len(),
            tokens_of(v@) == out.deep_view() + tokens_from(v@, pos as int),
        decreases v.len() - pos,
    {
        if crate::text::is_whitespace_char(v[pos]) {
            pos = pos + 1;
        } else {
            let mut j: usize = pos;
            while j < v.len() && !crate::text::is_whitespace_char(v[j])
                invariant
                    pos <= j <= v.len(),
                    forall|i: int| pos <= i < j ==> !is_ws(#[trigger] v@[i]),
                decreases v.len() - j,
            {
                j = j + 1;
            }
            proof {
                lemma_nonws_run_prefix(v@, pos as int, j as int);
            }
            let tok = copy_range(v, pos, j);
            let ghost before = out.deep_view();
            out.push(tok);
            proof {
                assert(out.deep_view() =~~= before + seq![tok@]);
            }
            pos = j;
        }
    }
    out
}

/// The type-keyword table, case-sensitive: `tasks`/`task`/`t`,
/// `notes`/`note`/`n`, `events`/`event`/`e`.
pub open spec fn type_keyword(s: Seq<char>) -> Option<FilterType> {
    if s == seq!['t', 'a', 's', 'k', 's'] || s == seq!['t', 'a', 's', 'k'] || s == seq!['t'] {
        Some(FilterType::Task)
    } else if s == seq!['n', 'o', 't', 'e', 's'] || s == seq!['n', 'o', 't', 'e'] || s == seq![
        'n',
    ] {
        Some(FilterType::Note)
    } else if s == seq!['e', 'v', 'e', 'n', 't', 's'] || s == seq!['e', 'v', 'e', 'n', 't'] || s
        == seq!['e'] {
        Some(FilterType::Event)
    } else {
        None
    }
}

/// Whether a type keyword is in the task family, which carries the
/// completion modifier.
pub open spec fn is_task_keyword(s: Seq<char>) -> bool {
    s == seq!['t', 'a', 's', 'k', 's'] || s == seq!['t', 'a', 's', 'k'] || s == seq!['t']
}

fn type_keyword_of(v: &Vec<char>) -> (r: Option<FilterType>)
    ensures
        r == type_keyword(v@),
{
    let tasks = vec!['t', 'a', 's', 'k', 's'];
    let task = vec!['t', 'a', 's', 'k'];
    let t = vec!['t'];
    let notes = vec!['n', 'o', 't', 'e', 's'];
    let note = vec!['n', 'o', 't', 'e'];
    let n = vec!['n'];
    let events = vec!['e', 'v', 'e', 'n', 't', 's'];
    let event = vec!['e', 'v', 'e', 'n', 't'];
    let e = vec!['e'];
    proof {
        assert(tasks@ =~= seq!['t', 'a', 's', 'k', 's']);
        assert(task@ =~= seq!['t', 'a', 's', 'k']);
        assert(t@ =~= seq!['t']);
        assert(notes@ =~= seq!['n', 'o', 't', 'e', 's']);
        assert(note@ =~= seq!['n', 'o', 't', 'e']);
        assert(n@ =~= seq!['n']);
        assert(events@ =~= seq!['e', 'v', 'e', 'n', 't', 's']);
        assert(event@ =~= seq!['e', 'v', 'e', 'n', 't']);
        assert(e@ =~= seq!['e']);
    }
    if crate::text::vec_chars_eq(v, &tasks) || crate::text::vec_chars_eq(v, &task)
        || crate::text::vec_chars_eq(v, &t) {
        Some(FilterType::Task)
    } else if crate::text::vec_chars_eq(v, &notes) || crate::text::vec_chars_eq(v, &note)
        || crate::text::vec_chars_eq(v, &n) {
        Some(FilterType::Note)
    } else if crate::text::vec_chars_eq(v, &events) || crate::text::vec_chars_eq(v, &event)
        || crate::text::vec_chars_eq(v, &e) {
        Some(FilterType::Event)
    } else {
        None
    }
}

fn is_task_keyword_of(v: &Vec<char>) -> (r: bool)
    ensures
        r == is_task_keyword(v@),
{
    let tasks = vec!['t', 'a', 's', 'k', 's'];
    let task = vec!['t', 'a', 's', 'k'];
    let t = vec!['t'];
    proof {
        assert(tasks@ =~= seq!['t', 'a', 's', 'k', 's']);
        assert(task@ =~= seq!['t', 'a', 's', 'k']);
        assert(t@ =~= seq!['t']);
    }
    crate::text::vec_chars_eq(v, &tasks) || crate::text::vec_chars_eq(v, &task)
        || crate::text::vec_chars_eq(v, &t)
}

/// The reported text for a repeated `@before:` bound.
pub open spec fn msg_multiple_before() -> Seq<char> {
    seq![
        'M', 'u', 'l', 't', 'i', 'p', 'l', 'e', ' ', '@', 'b', 'e', 'f', 'o', 'r', 'e', ' ', 'd',
        'a', 't', 'e', 's',
    ]
}

/// The reported text for a repeated `@after:` bound.
pub open spec fn msg_multiple_after() -> Seq<char> {
    seq![
        'M', 'u', 'l', 't', 'i', 'p', 'l', 'e', ' ', '@', 'a', 'f', 't', 'e', 'r', ' ', 'd', 'a',
        't', 'e', 's',
    ]
}

/// The reported text for conflicting type selectors.
pub open spec fn msg_multiple_types() -> Seq<char> {
    seq![
        'M', 'u', 'l', 't', 'i', 'p', 'l', 'e', ' ', 'e', 'n', 't', 'r', 'y', ' ', 't', 'y', 'p',
        'e', 's',
    ]
}

pub open spec fn starts_with(s: Seq<char>, p: Seq<char>) -> bool {
    p.len() <= s.len() && s.take(p.len() as int) == p
}

/// How one token changes the filter: the token grammar of the query
/// language, each shape tried in order.
#[verifier::opaque]
pub open spec fn apply_token(f: FilterV, tok: Seq<char>, today: Date) -> FilterV {
    let before_kw = seq!['@', 'b', 'e', 'f', 'o', 'r', 'e', ':'];
    let after_kw = seq!['@', 'a', 'f', 't', 'e', 'r', ':'];
    let overdue_kw = seq!['@', 'o', 'v', 'e', 'r', 'd', 'u', 'e'];
    let not_kw = seq!['n', 'o', 't', ':'];
    if starts_with(tok, before_kw) {
        let rest = tok.skip(8);
        if f.before_date is Some {
            FilterV { invalid_tokens: f.invalid_tokens.push(msg_multiple_before()), ..f }
        } else if parse_natural_date_spec(rest, today) is Some {
            FilterV { before_date: parse_natural_date_spec(rest, today), ..f }
        } else {
            FilterV { invalid_tokens: f.invalid_tokens.push(tok), ..f }
        }
    } else if starts_with(tok, after_kw) {
        let rest = tok.skip(7);
        if f.after_date is Some {
            FilterV { invalid_tokens: f.invalid_tokens.push(msg_multiple_after()), ..f }
        } else if parse_natural_date_spec(rest, today) is Some {
            FilterV { after_date: parse_natural_date_spec(rest, today), ..f }
        } else {
            FilterV { invalid_tokens: f.invalid_tokens.push(tok), ..f }
        }
    } else if tok == overdue_kw {
        FilterV { overdue: true, ..f }
    } else if tok.len() > 0 && tok[0] == '@' && find_char(tok, ':') is Some {
        FilterV { invalid_tokens: f.invalid_tokens.push(tok), ..f }
    } else if starts_with(tok, not_kw) {
        let rest = tok.skip(4);
        if rest.len() > 0 && rest[0] == '#' {
            FilterV { exclude_tags: f.exclude_tags.push(rest.skip(1)), ..f }
        } else if rest.len() > 0 && rest[0] == '!' {
            if type_keyword(rest.skip(1)) is Some {
                FilterV { exclude_types: f.exclude_types.push(type_keyword(rest.skip(1))->0), ..f }
            } else {
                FilterV { invalid_tokens: f.invalid_tokens.push(tok), ..f }
            }
        } else if rest.len() > 0 {
            FilterV { exclude_terms: f.exclude_terms.push(rest), ..f }
        } else {
            f
        }
    } else if tok.len() > 0 && tok[0] == '!' {
        let type_str = tok.skip(1);
        let base = match find_char(type_str, '/') {
            Some(j) => type_str.take(j),
            None => type_str,
        };
        let modifier = match find_char(type_str, '/') {
            Some(j) => Some(type_str.skip(j + 1)),
            None => None,
        };
        match type_keyword(base) {
            Some(new_type) => {
                if f.entry_type is Some && f.entry_type != Some(new_type) {
                    FilterV { invalid_tokens: f.invalid_tokens.push(msg_multiple_types()), ..f }
                } else {
                    let completed = if is_task_keyword(base) {
                        match modifier {
                            Some(m) => if m == seq!['d', 'o', 'n', 'e'] || m == seq![
                                'c', 'o', 'm', 'p', 'l', 'e', 't', 'e', 'd',
                            ] {
                                Some(true)
                            } else if m == seq!['a', 'l', 'l'] {
                                None
                            } else {
                                Some(false)
                            },
                            None => Some(false),
                        }
                    } else {
                        f.completed
                    };
                    FilterV { entry_type: Some(new_type), completed, ..f }
                }
            },
            None => FilterV { invalid_tokens: f.invalid_tokens.push(tok), ..f },
        }
    } else if tok.len() > 0 && tok[0] == '#' {
        FilterV { tags: f.tags.push(tok.skip(1)), ..f }
    } else if tok.len() > 0 {
        FilterV { search_terms: f.search_terms.push(tok), ..f }
    } else {
        f
    }
}

/// The filter built by applying every token in order.
pub open spec fn apply_tokens(f: FilterV, toks: Seq<Seq<char>>, today: Date) -> FilterV
    decreases toks.len(),
{
    if toks.len() == 0 {
        f
    } else {
        apply_tokens(apply_token(f, toks[0], today), toks.skip(1), today)
    }
}

/// The parse of a whole query string against the reference day `today`.
pub open spec fn parse_filter_query_spec(s: Seq<char>, today: Date) -> FilterV {
    apply_tokens(empty_filter(), tokens_of(s), today)
}

fn push_string(dst: &mut Vec<String>, chars: &Vec<char>)
    ensures
        final(dst).deep_view() == old(dst).deep_view().push(chars@),
{
    let ghost before = dst.deep_view();
    dst.push(chars_to_string(chars));
    proof {
        assert(dst.deep_view() =~~= before.push(chars@));
    }
}

fn push_literal(dst: &mut Vec<String>, text: &str, Ghost(expected): Ghost<Seq<char>>)
    requires
        text@ == expected,
    ensures
        final(dst).deep_view() == old(dst).deep_view().push(expected),
{
    let ghost before = dst.deep_view();
    dst.push(text.to_owned());
    proof {
        assert(dst.deep_view() =~~= before.push(expected));
    }
}

/// Applies one token to the filter under construction.
#[verifier::rlimit(60)]
fn apply_token_exec(f: &mut Filter, tok: &Vec<char>, today: Date)
    requires
        today.valid(),
    ensures
        final(f)@ == apply_token(old(f)@, tok@, today),
{
    proof {
        reveal(apply_token);
    }
    let before_kw = vec!['@', 'b', 'e', 'f', 'o', 'r', 'e', ':'];
    let after_kw = vec!['@', 'a', 'f', 't', 'e', 'r', ':'];
    let overdue_kw = vec!['@', 'o', 'v', 'e', 'r', 'd', 'u', 'e'];
    let not_kw = vec!['n', 'o', 't', ':'];
    proof {
        assert(before_kw@ =~= seq!['@', 'b', 'e', 'f', 'o', 'r', 'e', ':']);
        assert(after_kw@ =~= seq!['@', 'a', 'f', 't', 'e', 'r', ':']);
        assert(overdue_kw@ =~= seq!['@', 'o', 'v', 'e', 'r', 'd', 'u', 'e']);
        assert(not_kw@ =~= seq!['n', 'o', 't', ':']);
    }
    if tok.len() >= 8 && subseq_matches(tok, 0, &before_kw) {
        proof {
            assert(tok@.take(8) =~= tok@.subrange(0, 8));
        }
        let rest = copy_range(tok, 8, tok.len());
        proof {
            assert(rest@ =~= tok@.skip(8));
        }
        if f.before_date.is_some() {
            let msg = "Multiple @before dates";
            proof {
                reveal_strlit("Multiple @before dates");
                assert(msg@ =~= msg_multiple_before());
            }
            push_literal(&mut f.invalid_tokens, msg, Ghost(msg_multiple_before()));
        } else if let Some(d) = parse_natural_date_chars(&rest, today) {
            f.before_date = Some(d);
        } else {
            push_string(&mut f.invalid_tokens, tok);
        }
        proof {
            assert(f@ =~~= apply_token(old(f)@, tok@, today));
        }
        return ;
    }
    proof {
        if starts_with(tok@, seq!['@', 'b', 'e', 'f', 'o', 'r', 'e', ':']) {
            assert(tok@.take(8) =~= tok@.subrange(0, 8));
        }
    }
    if tok.len() >= 7 && subseq_matches(tok, 0, &after_kw) {
        proof {
            assert(tok@.take(7) =~= tok@.subrange(0, 7));
        }
        let rest = copy_range(tok, 7, tok.len());
        proof {
            assert(rest@ =~= tok@.skip(7));
        }
        if f.after_date.is_some() {
            let msg = "Multiple @after dates";
            proof {
                reveal_strlit("Multiple @after dates");
                assert(msg@ =~= msg_multiple_after());
            }
            push_literal(&mut f.invalid_tokens, msg, Ghost(msg_multiple_after()));
        } else if let Some(d) = parse_natural_date_chars(&rest, today) {
            f.after_date = Some(d);
        } else {
            push_string(&mut f.invalid_tokens, tok);
        }
        proof {
            assert(f@ =~~= apply_token(old(f)@, tok@, today));
        }
        return ;
    }
    proof {
        if starts_with(tok@, seq!['@', 'a', 'f', 't', 'e', 'r', ':']) {
            assert(tok@.take(7) =~= tok@.subrange(0, 7));
        }
    }
    if crate::text::vec_chars_eq(tok, &overdue_kw) {
        f.overdue = true;
        proof {
            assert(f@ =~~= apply_token(old(f)@, tok@, today));
        }
        return ;
    }
    if tok.len() > 0 && tok[0] == '@' {
        let mut i: usize = 0;
        while i < tok.len() && tok[i] != ':'
            invariant
                i <= tok.len(),
                forall|k: int| 0 <= k < i ==> tok@[k] != ':',
            decreases tok.len() - i,
        {
            i = i + 1;
        }
        let has_colon = i < tok.len();
        proof {
            lemma_find_char_from(tok@, ':', 0, i as int);
        }
        if has_colon {
            push_string(&mut f.invalid_tokens, tok);
            proof {
                assert(f@ =~~= apply_token(old(f)@, tok@, today));
            }
            return ;
        }
    }
    if tok.len() >= 4 && subseq_matches(tok, 0, &not_kw) {
        proof {
            assert(tok@.take(4) =~= tok@.subrange(0, 4));
        }
        let rest = copy_range(tok, 4, tok.len());
        proof {
            assert(rest@ =~= tok@.skip(4));
        }
        if rest.len() > 0 && rest[0] == '#' {
            let tag = copy_range(&rest, 1, rest.len());
            proof {
                assert(tag@ =~= rest@.skip(1));
            }
            push_string(&mut f.exclude_tags, &tag);
        } else if rest.len() > 0 && rest[0] == '!' {
            let type_str = copy_range(&rest, 1, rest.len());
            proof {
                assert(type_str@ =~= rest@.skip(1));
            }
            match type_keyword_of(&type_str) {
                Some(ft) => {
                    f.exclude_types.push(ft);
                },
                None => {
                    push_string(&mut f.invalid_tokens, tok);
                },
            }
        } else if rest.len() > 0 {
            push_string(&mut f.exclude_terms, &rest);
        }
        proof {
            assert(f@ =~~= apply_token(old(f)@, tok@, today));
        }
        return ;
    }
    proof {
        if starts_with(tok@, seq!['n', 'o', 't', ':']) {
            assert(tok@.take(4) =~= tok@.subrange(0, 4));
        }
    }
    if tok.len() > 0 && tok[0] == '!' {
        let type_str = copy_range(tok, 1, tok.len());
        proof {
            assert(type_str@ =~= tok@.skip(1));
        }
        let mut j: usize = 0;
        while j < type_str.len() && type_str[j] != '/'
            invariant
                j <= type_str.len(),
                forall|k: int| 0 <= k < j ==> type_str@[k] != '/',
            decreases type_str.len() - j,
        {
            j = j + 1;
        }
        proof {
            lemma_find_char_from(type_str@, '/', 0, j as int);
        }
        let base = copy_range(&type_str, 0, j);
        proof {
            assert(base@ =~= if j < type_str.len() {
                type_str@.take(j as int)
            } else {
                type_str@
            });
        }
        let modifier: Option<Vec<char>> = if j < type_str.len() {
            let m = copy_range(&type_str, j + 1, type_str.len());
            proof {
                assert(m@ =~= type_str@.skip(j + 1));
            }
            Some(m)
        } else {
            None
        };
        match type_keyword_of(&base) {
            Some(new_type) => {
                let conflicting = match f.entry_type {
                    Some(existing) => existing != new_type,
                    None => false,
                };
                if conflicting {
                    let msg = "Multiple entry types";
                    proof {
                        reveal_strlit("Multiple entry types");
                        assert(msg@ =~= msg_multiple_types());
                    }
                    push_literal(&mut f.invalid_tokens, msg, Ghost(msg_multiple_types()));
                } else {
                    f.entry_type = Some(new_type);
                    if is_task_keyword_of(&base) {
                        let done_kw = vec!['d', 'o', 'n', 'e'];
                        let completed_kw = vec!['c', 'o', 'm', 'p', 'l', 'e', 't', 'e', 'd'];
                        let all_kw = vec!['a', 'l', 'l'];
                        proof {
                            assert(done_kw@ =~= seq!['d', 'o', 'n', 'e']);
                            assert(completed_kw@ =~= seq![
                                'c', 'o', 'm', 'p', 'l', 'e', 't', 'e', 'd',
                            ]);
                            assert(all_kw@ =~= seq!['a', 'l', 'l']);
                        }
                        f.completed = match &modifier {
                            Some(m) => {
                                if crate::text::vec_chars_eq(m, &done_kw)
                                    || crate::text::vec_chars_eq(m, &completed_kw) {
                                    Some(true)
                                } else if crate::text::vec_chars_eq(m, &all_kw) {
                                    None
                                } else {
                                    Some(false)
                                }
                            },
                            None => Some(false),
                        };
                    }
                }
            },
            None => {
                push_string(&mut f.invalid_tokens, tok);
            },
        }
        proof {
            assert(f@ =~~= apply_token(old(f)@, tok@, today));
        }
        return ;
    }
    if tok.len() > 0 && tok[0] == '#' {
        let tag = copy_range(tok, 1, tok.len());
        proof {
            assert(tag@ =~= tok@.skip(1));
        }
        push_string(&mut f.tags, &tag);
        proof {
            assert(f@ =~~= apply_token(old(f)@, tok@, today));
        }
        return ;
    }
    if tok.len() > 0 {
        push_string(&mut f.search_terms, tok);
        proof {
            assert(f@ =~~= apply_token(old(f)@, tok@, today));
        }
        return ;
    }
    proof {
        assert(f@ =~~= apply_token(old(f)@, tok@, today));
    }
}

/// Tokenizes a query string into a structured filter against the reference
/// day `today`; malformed tokens are all collected in `invalid_tokens`.
pub fn parse_filter_query(query: &str, today: Date) -> (r: Filter)
    requires
        today.valid(),
    ensures
        r@ == parse_filter_query_spec(query@, today),
{
    let v = string_to_chars(query);
    let toks = tokenize(&v);
    let mut f = Filter::default();
    let mut i: usize = 0;
    proof {
        assert(tokens_of(query@).skip(0) =~= tokens_of(query@));
    }
    while i < toks.len()
        invariant
            today.valid(),
            i <= toks.len(),
            toks.deep_view() == tokens_of(query@),
            parse_filter_query_spec(query@, today) == apply_tokens(
                f@,
                tokens_of(query@).skip(i as int),
                today,
            ),
        decreases toks.len() - i,
    {
        let ghost rem = tokens_of(query@).skip(i as int);
        let ghost fprev = f@;
        proof {
            assert(rem[0] == toks.deep_view()[i as int]);
            assert(toks.deep_view()[i as int] == toks@[i as int].deep_view());
            assert(toks@[i as int].deep_view() =~= toks@[i as int]@);
            assert(rem.skip(1) =~= tokens_of(query@).skip(i as int + 1));
        }
        apply_token_exec(&mut f, &toks[i], today);
        proof {
            assert(apply_tokens(fprev, rem, today) == apply_tokens(
                apply_token(fprev, rem[0], today),
                rem.skip(1),
                today,
            ));
        }
        i = i + 1;
    }
    proof {
        assert(tokens_of(query@).skip(i as int) =~= Seq::<Seq<char>>::empty());
    }
    f
}


/// ASCII letter.
pub open spec fn is_tag_start(c: char) -> bool {
    (65 <= c as u32 && c as u32 <= 90) || (97 <= c as u32 && c as u32 <= 122)
}

/// A character allowed inside a tag: letters, digits, `_`, `-`.
pub open spec fn is_tag_char(c: char) -> bool {
    is_tag_start(c) || crate::text::is_digit(c) || c == '_' || c == '-'
}

fn is_tag_start_char(c: char) -> (r: bool)
    ensures
        r == is_tag_start(c),
{
    let u = c as u32;
    (65 <= u && u <= 90) || (97 <= u && u <= 122)
}

fn is_tag_char_exec(c: char) -> (r: bool)
    ensures
        r == is_tag_char(c),
{
    is_tag_start_char(c) || crate::text::is_digit_char(c) || c == '_' || c == '-'
}

/// Length of the run of tag characters starting at `p`.
pub open spec fn tagchar_run(s: Seq<char>, p: int) -> int
    decreases s.len() - p when 0 <= p <= s.len()
{
    if p >= s.len() || !is_tag_char(s[p]) {
        0
    } else {
        1 + tagchar_run(s, p + 1)
    }
}

proof fn lemma_tagchar_run_bounds(s: Seq<char>, p: int)
    requires
        0 <= p <= s.len(),
    ensures
        0 <= tagchar_run(s, p) <= s.len() - p,
    decreases s.len() - p,
{
    if p < s.len() && is_tag_char(s[p]) {
        lemma_tagchar_run_bounds(s, p + 1);
    }
}

proof fn lemma_tagchar_run_prefix(s: Seq<char>, p: int, j: int)
    requires
        0 <= p <= j <= s.len(),
        forall|i: int| p <= i < j ==> is_tag_char(#[trigger] s[i]),
        j < s.len() ==> !is_tag_char(s[j]),
    ensures
        tagchar_run(s, p) == j - p,
    decreases j - p,
{
    if p < j {
        lemma_tagchar_run_prefix(s, p + 1, j);
    }
}

/// The tags of a piece of content: every `#` followed by a letter opens a
/// tag running over letters, digits, `_` and `-`; matches do not overlap.
pub open spec fn tag_scan(s: Seq<char>, pos: int) -> Seq<Seq<char>>
    decreases s.len() - pos when 0 <= pos <= s.len() via tag_scan_decreases
{
    if pos >= s.len() {
        Seq::empty()
    } else if s[pos] == '#' && pos + 1 < s.len() && is_tag_start(s[pos + 1]) {
        seq![s.subrange(pos + 1, pos + 2 + tagchar_run(s, pos + 2))] + tag_scan(
            s,
            pos + 2 + tagchar_run(s, pos + 2),
        )
    } else {
        tag_scan(s, pos + 1)
    }
}

#[via_fn]
proof fn tag_scan_decreases(s: Seq<char>, pos: int) {
    if 0 <= pos < s.len() && pos + 1 < s.len() {
        lemma_tagchar_run_bounds(s, pos + 2);
    }
}

pub open spec fn tags_of(s: Seq<char>) -> Seq<Seq<char>> {
    tag_scan(s, 0)
}

/// Extracts every `#tag` of the content, in order.
pub fn extract_tags(content: &str) -> (r: Vec<String>)
    ensures
        r.deep_view() == tags_of(content@),
{
    let v = string_to_chars(content);
    let mut out: Vec<String> = Vec::new();
    let mut pos: usize = 0;
    proof {
        assert(out.deep_view() =~~= Seq::<Seq<char>>::empty());
    }
    while pos < v.len()
        invariant
            pos <= v.len(),
            v@ == content@,
            tags_of(content@) == out.deep_view() + tag_scan(v@, pos as int),
        decreases v.len() - pos,
    {
        if v[pos] == '#' && pos + 1 < v.len() && is_tag_start_char(v[pos + 1]) {
            let mut j: usize = pos + 2;
            while j < v.len() && is_tag_char_exec(v[j])
                invariant
                    pos + 2 <= j <= v.len(),
                    forall|i: int| pos + 2 <= i < j ==> is_tag_char(#[trigger] v@[i]),
                decreases v.len() - j,
            {
                j = j + 1;
            }
            proof {
                lemma_tagchar_run_prefix(v@, pos as int + 2, j as int);
            }
            let tag = copy_range(&v, pos + 1, j);
            proof {
                assert(tag@ =~= v@.subrange(pos as int + 1, j as int));
            }
            push_string(&mut out, &tag);
            pos = j;
        } else {
            pos = pos + 1;
        }
    }
    out
}

/// What `str::to_lowercase` returns: a pure function of the characters
/// alone.
pub uninterp spec fn lower_of(s: Seq<char>) -> Seq<char>;

/// Relies on `str::to_lowercase`: the Unicode lowercase image of the string,
/// a function of its characters alone.
#[verifier::external_body]
fn to_lowercase_string(s: &str) -> (r: String)
    ensures
        r@ == lower_of(s@),
{
    s.to_lowercase()
}

/// `sub` occurs somewhere in `s`.
pub open spec fn contains_sub(s: Seq<char>, sub: Seq<char>) -> bool {
    find_sub(s, sub) is Some
}

/// The filter kind an entry type falls under.
pub open spec fn entry_filter_type(t: EntryType) -> FilterType {
    match t {
        EntryType::Task { .. } => FilterType::Task,
        EntryType::Note => FilterType::Note,
        EntryType::Event => FilterType::Event,
    }
}

fn entry_type_to_filter_type(t: &EntryType) -> (r: FilterType)
    ensures
        r == entry_filter_type(*t),
{
    match t {
        EntryType::Task { .. } => FilterType::Task,
        EntryType::Note => FilterType::Note,
        EntryType::Event => FilterType::Event,
    }
}

/// One of the content's tags equals `want`, ASCII-case-insensitively.
pub open spec fn has_tag(tags: Seq<Seq<char>>, want: Seq<char>) -> bool {
    exists|j: int| 0 <= j < tags.len() && ascii_eq_ignore_case(#[trigger] tags[j], want)
}

/// Whether an entry passes a filter: the type matches if one is set and is
/// not excluded, completion matches if set (tasks only), every required tag
/// is present and no excluded one, every search term is a case-insensitive
/// substring of the content and no excluded term is.  Date bounds and the
/// overdue flag are applied per day during the scan, not here.
pub open spec fn spec_entry_matches(e: EntryV, f: FilterV) -> bool {
    let ft = entry_filter_type(e.entry_type);
    let tags = tags_of(e.content);
    &&& (f.entry_type is Some ==> f.entry_type->0 == ft)
    &&& !f.exclude_types.contains(ft)
    &&& ((f.completed is Some && e.entry_type is Task) ==> e.entry_type->completed == f.completed->0)
    &&& (forall|i: int| 0 <= i < f.tags.len() ==> has_tag(tags, #[trigger] f.tags[i]))
    &&& (forall|i: int| 0 <= i < f.exclude_tags.len() ==> !has_tag(tags, #[trigger] f.exclude_tags[i]))
    &&& (forall|i: int|
        0 <= i < f.search_terms.len() ==> contains_sub(
            lower_of(e.content),
            lower_of(#[trigger] f.search_terms[i]),
        ))
    &&& (forall|i: int|
        0 <= i < f.exclude_terms.len() ==> !contains_sub(
            lower_of(e.content),
            lower_of(#[trigger] f.exclude_terms[i]),
        ))
}

fn tag_matched(entry_tags: &Vec<String>, want: &String) -> (r: bool)
    ensures
        r == has_tag(entry_tags.deep_view(), want@),
{
    let want_chars = string_to_chars(want.as_str());
    let mut j: usize = 0;
    while j < entry_tags.len()
        invariant
            j <= entry_tags.len(),
            want_chars@ == want@,
            forall|k: int|
                0 <= k < j ==> !ascii_eq_ignore_case(
                    #[trigger] entry_tags.deep_view()[k],
                    want@,
                ),
        decreases entry_tags.len() - j,
    {
        let tag_chars = string_to_chars(entry_tags[j].as_str());
        proof {
            assert(entry_tags.deep_view()[j as int] == entry_tags@[j as int]@);
        }
        if chars_eq_ignore_ascii_case(&tag_chars, &want_chars) {
            return true;
        }
        j = j + 1;
    }
    false
}

/// Whether an entry passes the per-entry parts of a filter.
pub fn entry_matches_filter(entry: &Entry, filter: &Filter) -> (r: bool)
    ensures
        r == spec_entry_matches(entry@, filter@),
{
    let ft = entry_type_to_filter_type(&entry.entry_type);
    match filter.entry_type {
        Some(want) => {
            if want != ft {
                return false;
            }
        },
        None => {},
    }
    let mut i: usize = 0;
    while i < filter.exclude_types.len()
        invariant
            i <= filter.exclude_types.len(),
            ft == entry_filter_type(entry@.entry_type),
            forall|k: int| 0 <= k < i ==> filter.exclude_types@[k] != ft,
        decreases filter.exclude_types.len() - i,
    {
        if filter.exclude_types[i] == ft {
            assert(filter@.exclude_types.contains(ft));
            return false;
        }
        i = i + 1;
    }
    assert(!filter@.exclude_types.contains(ft));
    match filter.completed {
        Some(want) => {
            match &entry.entry_type {
                EntryType::Task { completed } => {
                    if *completed != want {
                        return false;
                    }
                },
                _ => {},
            }
        },
        None => {},
    }
    let entry_tags = extract_tags(entry.content.as_str());
    let mut i: usize = 0;
    while i < filter.tags.len()
        invariant
            i <= filter.tags.len(),
            entry_tags.deep_view() == tags_of(entry@.content),
            forall|k: int|
                0 <= k < i ==> has_tag(tags_of(entry@.content), #[trigger] filter@.tags[k]),
        decreases filter.tags.len() - i,
    {
        proof {
            assert(filter@.tags[i as int] == filter.tags@[i as int]@);
        }
        if !tag_matched(&entry_tags, &filter.tags[i]) {
            return false;
        }
        i = i + 1;
    }
    let mut i: usize = 0;
    while i < filter.exclude_tags.len()
        invariant
            i <= filter.exclude_tags.len(),
            entry_tags.deep_view() == tags_of(entry@.content),
            forall|k: int|
                0 <= k < i ==> !has_tag(
                    tags_of(entry@.content),
                    #[trigger] filter@.exclude_tags[k],
                ),
        decreases filter.exclude_tags.len() - i,
    {
        proof {
            assert(filter@.exclude_tags[i as int] == filter.exclude_tags@[i as int]@);
        }
        if tag_matched(&entry_tags, &filter.exclude_tags[i]) {
            return false;
        }
        i = i + 1;
    }
    let content_lower = to_lowercase_string(entry.content.as_str());
    let content_lower_chars = string_to_chars(content_lower.as_str());
    let mut i: usize = 0;
    while i < filter.search_terms.len()
        invariant
            i <= filter.search_terms.len(),
            content_lower_chars@ == lower_of(entry@.content),
            forall|k: int|
                0 <= k < i ==> contains_sub(
                    lower_of(entry@.content),
                    lower_of(#[trigger] filter@.search_terms[k]),
                ),
        decreases filter.search_terms.len() - i,
    {
        proof {
            assert(filter@.search_terms[i as int] == filter.search_terms@[i as int]@);
        }
        let term_lower = to_lowercase_string(filter.search_terms[i].as_str());
        let term_chars = string_to_chars(term_lower.as_str());
        if find_sub_chars(&content_lower_chars, &term_chars).is_none() {
            return false;
        }
        i = i + 1;
    }
    let mut i: usize = 0;
    while i < filter.exclude_terms.len()
        invariant
            i <= filter.exclude_terms.len(),
            content_lower_chars@ == lower_of(entry@.content),
            forall|k: int|
                0 <= k < i ==> !contains_sub(
                    lower_of(entry@.content),
                    lower_of(#[trigger] filter@.exclude_terms[k]),
                ),
        decreases filter.exclude_terms.len() - i,
    {
        proof {
            assert(filter@.exclude_terms[i as int] == filter.exclude_terms@[i as int]@);
        }
        let term_lower = to_lowercase_string(filter.exclude_terms[i].as_str());
        let term_chars = string_to_chars(term_lower.as_str());
        if find_sub_chars(&content_lower_chars, &term_chars).is_some() {
            return false;
        }
        i = i + 1;
    }
    true
}

/// A filter hit: an entry plus its location in the document.
#[derive(Debug, Clone)]
pub struct FilterEntry {
    pub source_date: Date,
    pub content: String,
    pub line_index: usize,
    pub entry_type: EntryType,
    pub completed: bool,
}

/// Mathematical model of a `FilterEntry`.
pub ghost struct FilterEntryV {
    pub source_date: Date,
    pub content: Seq<char>,
    pub line_index: int,
    pub entry_type: EntryType,
    pub completed: bool,
}

impl View for FilterEntry {
    type V = FilterEntryV;

    open spec fn view(&self) -> FilterEntryV {
        FilterEntryV {
            source_date: self.source_date,
            content: self.content@,
            line_index: self.line_index as int,
            entry_type: self.entry_type,
            completed: self.completed,
        }
    }
}

impl DeepView for FilterEntry {
    type V = FilterEntryV;

    open spec fn deep_view(&self) -> FilterEntryV {
        self.view()
    }
}

/// The filter hits found scanning from `pos`: day-level date bounds and the
/// overdue flag are applied first, then the per-entry match.
pub open spec fn filter_scan(
    s: Seq<char>,
    f: FilterV,
    today: Date,
    pos: int,
    cur: Option<Date>,
    idx: int,
) -> Seq<FilterEntryV>
    decreases s.len() - pos when 0 <= pos <= s.len() via filter_scan_decreases
{
    if pos >= s.len() {
        Seq::empty()
    } else {
        let line = line_at(s, pos);
        let nxt = next_line_pos(s, pos);
        match parse_day_header_spec(line) {
            Some(d) => filter_scan(s, f, today, nxt, Some(d), 0),
            None => match cur {
                None => filter_scan(s, f, today, nxt, None, idx),
                Some(src) => {
                    if (f.before_date is Some && date_key(src) > date_key(f.before_date->0)) || (
                    f.after_date is Some && date_key(src) < date_key(f.after_date->0)) {
                        filter_scan(s, f, today, nxt, Some(src), idx + 1)
                    } else {
                        match parse_line_spec(line) {
                            LineV::Entry(e) => {
                                if f.overdue && !overdue_hit(e.content, today) {
                                    filter_scan(s, f, today, nxt, Some(src), idx + 1)
                                } else if spec_entry_matches(e, f) {
                                    seq![
                                        FilterEntryV {
                                            source_date: src,
                                            content: e.content,
                                            line_index: idx,
                                            entry_type: e.entry_type,
                                            completed: e.entry_type == (EntryType::Task {
                                                completed: true,
                                            }),
                                        },
                                    ] + filter_scan(s, f, today, nxt, Some(src), idx + 1)
                                } else {
                                    filter_scan(s, f, today, nxt, Some(src), idx + 1)
                                }
                            },
                            LineV::Raw(_) => filter_scan(s, f, today, nxt, Some(src), idx + 1),
                        }
                    }
                },
            },
        }
    }
}

#[via_fn]
proof fn filter_scan_decreases(
    s: Seq<char>,
    f: FilterV,
    today: Date,
    pos: int,
    cur: Option<Date>,
    idx: int,
) {
    crate::text::lemma_find_char_bounds(s, '\n', pos);
}

/// The content carries an `@date` marker that, read with the "prefer past"
/// policy, lies strictly before `today`.
pub open spec fn overdue_hit(content: Seq<char>, today: Date) -> bool {
    &&& extract_target_date_prefer_past_spec(content, today) is Some
    &&& date_key(extract_target_date_prefer_past_spec(content, today)->0) < date_key(today)
}

/// Inserts a filter hit behind every element with a source date on or
/// before its own.
pub open spec fn insert_fe_by_date(sorted: Seq<FilterEntryV>, x: FilterEntryV) -> Seq<
    FilterEntryV,
>
    decreases sorted.len(),
{
    if sorted.len() == 0 {
        seq![x]
    } else if date_key(sorted[0].source_date) <= date_key(x.source_date) {
        seq![sorted[0]] + insert_fe_by_date(sorted.skip(1), x)
    } else {
        seq![x] + sorted
    }
}

/// Stable sort of filter hits by source date.
pub open spec fn sort_fe_by_date(s: Seq<FilterEntryV>) -> Seq<FilterEntryV>
    decreases s.len(),
{
    if s.len() == 0 {
        Seq::empty()
    } else {
        insert_fe_by_date(sort_fe_by_date(s.drop_last()), s.last())
    }
}

proof fn lemma_insert_fe_by_date_at(sorted: Seq<FilterEntryV>, x: FilterEntryV, j: int)
    requires
        0 <= j <= sorted.len(),
        forall|i: int| 0 <= i < j ==> date_key(#[trigger] sorted[i].source_date) <= date_key(
            x.source_date,
        ),
        j < sorted.len() ==> date_key(sorted[j].source_date) > date_key(x.source_date),
    ensures
        insert_fe_by_date(sorted, x) == sorted.take(j) + seq![x] + sorted.skip(j),
    decreases j,
{
    if sorted.len() == 0 {
        assert(insert_fe_by_date(sorted, x) =~= sorted.take(j) + seq![x] + sorted.skip(j));
    } else if j == 0 {
        assert(insert_fe_by_date(sorted, x) =~= sorted.take(0) + seq![x] + sorted.skip(0));
    } else {
        lemma_insert_fe_by_date_at(sorted.skip(1), x, j - 1);
        assert(sorted.skip(1).take(j - 1) =~= sorted.take(j).skip(1));
        assert(sorted.skip(1).skip(j - 1) =~= sorted.skip(j));
        assert(insert_fe_by_date(sorted, x) =~= sorted.take(j) + seq![x] + sorted.skip(j));
    }
}

fn sort_filter_entries(v: Vec<FilterEntry>) -> (r: Vec<FilterEntry>)
    requires
        forall|i: int| 0 <= i < v@.len() ==> (#[trigger] v@[i]).source_date.valid(),
    ensures
        r.deep_view() == sort_fe_by_date(v.deep_view()),
{
    let ghost orig = v.deep_view();
    let mut input = v;
    let mut out: Vec<FilterEntry> = Vec::new();
    let ghost mut k: int = 0;
    proof {
        assert(out.deep_view() =~~= sort_fe_by_date(orig.take(0)));
        assert(input.deep_view() =~~= orig.skip(0));
    }
    while input.len() > 0
        invariant
            0 <= k <= orig.len(),
            out.deep_view() == sort_fe_by_date(orig.take(k)),
            input.deep_view() =~~= orig.skip(k),
            forall|i: int| 0 <= i < input@.len() ==> (#[trigger] input@[i]).source_date.valid(),
            forall|i: int| 0 <= i < out@.len() ==> (#[trigger] out@[i]).source_date.valid(),
        decreases input.len(),
    {
        let ghost prev_in = input.deep_view();
        let x = input.remove(0);
        proof {
            assert(prev_in[0] == orig.skip(k)[0]);
            assert(orig.skip(k)[0] == orig[k]);
            assert(x.deep_view() == prev_in[0]);
            assert(input.deep_view() =~~= prev_in.skip(1));
            assert(prev_in.skip(1) =~= orig.skip(k + 1));
        }
        let mut j: usize = 0;
        while j < out.len() && crate::dates::date_le(out[j].source_date, x.source_date)
            invariant
                j <= out.len(),
                x.source_date.valid(),
                forall|i: int| 0 <= i < out@.len() ==> (#[trigger] out@[i]).source_date.valid(),
                forall|i: int|
                    0 <= i < j ==> date_key(#[trigger] out.deep_view()[i].source_date) <= date_key(
                        x@.source_date,
                    ),
            decreases out.len() - j,
        {
            j = j + 1;
        }
        let ghost prev = out.deep_view();
        out.insert(j, x);
        proof {
            lemma_insert_fe_by_date_at(prev, x.deep_view(), j as int);
            assert(out.deep_view() =~~= prev.take(j as int) + seq![x.deep_view()] + prev.skip(
                j as int,
            ));
            assert(orig.take(k + 1).drop_last() =~= orig.take(k));
            assert(orig.take(k + 1).last() == orig[k]);
            assert(out.deep_view() =~~= sort_fe_by_date(orig.take(k + 1)));
            k = k + 1;
        }
    }
    proof {
        assert(orig.take(k) =~= orig);
    }
    out
}

/// Collects all entries passing the filter over the whole document, sorted
/// by source date ascending, ties in scan order.  A filter holding any
/// invalid token matches nothing at all, whatever the document holds.
pub fn collect_filtered_entries(journal: &str, filter: &Filter, today: Date) -> (r: Vec<
    FilterEntry,
>)
    requires
        today.valid(),
        filter.before_date is Some ==> filter.before_date->0.valid(),
        filter.after_date is Some ==> filter.after_date->0.valid(),
    ensures
        filter@.invalid_tokens.len() > 0 ==> r@.len() == 0,
        filter@.invalid_tokens.len() == 0 ==> r.deep_view() == sort_fe_by_date(
            filter_scan(journal@, filter@, today, 0, None, 0),
        ),
{
    if filter.invalid_tokens.len() > 0 {
        return Vec::new();
    }
    let v = string_to_chars(journal);
    let mut entries: Vec<FilterEntry> = Vec::new();
    let mut pos: usize = 0;
    let mut cur: Option<Date> = None;
    let mut idx: usize = 0;
    proof {
        assert(entries.deep_view() =~~= Seq::<FilterEntryV>::empty());
    }
    while pos < v.len()
        invariant
            today.valid(),
            filter.before_date is Some ==> filter.before_date->0.valid(),
            filter.after_date is Some ==> filter.after_date->0.valid(),
            pos <= v.len(),
            v@ == journal@,
            cur is Some ==> cur->0.valid(),
            filter_scan(journal@, filter@, today, 0, None, 0) == entries.deep_view() + filter_scan(
                v@,
                filter@,
                today,
                pos as int,
                cur,
                idx as int,
            ),
            forall|i: int|
                0 <= i < entries@.len() ==> (#[trigger] entries@[i]).source_date.valid(),
            idx <= pos,
        decreases v.len() - pos,
    {
        let (line, next) = read_line_at(&v, pos);
        proof {
            crate::text::lemma_find_char_bounds(v@, '\n', pos as int);
        }
        match crate::document::parse_day_header(&line) {
            Some(d) => {
                cur = Some(d);
                idx = 0;
            },
            None => {
                match cur {
                    Some(src) => {
                        let before_miss = match filter.before_date {
                            Some(b) => crate::dates::date_lt(b, src),
                            None => false,
                        };
                        let after_miss = match filter.after_date {
                            Some(a) => crate::dates::date_lt(src, a),
                            None => false,
                        };
                        if before_miss || after_miss {
                            idx = idx + 1;
                        } else {
                            let parsed = crate::entries::parse_line(&line);
                            match parsed {
                                crate::entries::Line::Entry(entry) => {
                                    let overdue_skip = if filter.overdue {
                                        let t = crate::resolver::extract_target_date_prefer_past(
                                            entry.content.as_str(),
                                            today,
                                        );
                                        match t {
                                            Some(target) => !crate::dates::date_lt(target, today),
                                            None => true,
                                        }
                                    } else {
                                        false
                                    };
                                    if overdue_skip {
                                        idx = idx + 1;
                                    } else {
                                        if entry_matches_filter(&entry, filter) {
                                            let completed = matches!(
                                                entry.entry_type,
                                                EntryType::Task { completed: true },
                                            );
                                            let ghost before = entries.deep_view();
                                            let fe = FilterEntry {
                                                source_date: src,
                                                content: entry.content,
                                                line_index: idx,
                                                entry_type: entry.entry_type,
                                                completed,
                                            };
                                            entries.push(fe);
                                            proof {
                                                assert(entries.deep_view() =~~= before + seq![
                                                    fe.deep_view(),
                                                ]);
                                            }
                                        }
                                        idx = idx + 1;
                                    }
                                },
                                crate::entries::Line::Raw(_) => {
                                    idx = idx + 1;
                                },
                            }
                        }
                    },
                    None => {},
                }
            },
        }
        pos = next;
    }
    proof {
        assert(filter_scan(journal@, filter@, today, 0, None, 0) =~~= entries.deep_view());
    }
    sort_filter_entries(entries)
}

} // verus!
