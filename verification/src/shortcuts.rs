//! Config-driven shortcut expansion: digit tag shortcuts (`#1` through `#9`
//! and `#0`) expand to full tags, and saved-filter names (`$name`) expand to
//! their stored query text before a filter query is tokenized.  Unknown
//! names are left in place — and reported, for saved filters — never
//! silently dropped.

use vstd::prelude::*;

use crate::text::{copy_range, is_digit, is_digit_char, string_to_chars};
use vstd::string::StrSliceExecFns;

verus! {

/// A word character as shortcut names use them: letters, digits, `_`.
pub open spec fn is_word_char(c: char) -> bool {
    (65 <= c as u32 && c as u32 <= 90) || (97 <= c as u32 && c as u32 <= 122) || is_digit(c) || c
        == '_'
}

fn is_word_char_exec(c: char) -> (r: bool)
    ensures
        r == is_word_char(c),
{
    let u = c as u32;
    (65 <= u && u <= 90) || (97 <= u && u <= 122) || is_digit_char(c) || c == '_'
}

/// The value of the first pair whose key is `k`, if any.
pub open spec fn map_lookup(m: Seq<(Seq<char>, Seq<char>)>, k: Seq<char>) -> Option<Seq<char>>
    decreases m.len(),
{
    if m.len() == 0 {
        None
    } else if m[0].0 == k {
        Some(m[0].1)
    } else {
        map_lookup(m.skip(1), k)
    }
}

/// The key-value view of a shortcut table.
pub open spec fn map_view(m: Seq<(String, String)>) -> Seq<(Seq<char>, Seq<char>)> {
    m.map_values(|p: (String, String)| (p.0@, p.1@))
}

/// Looks `k` up in a shortcut table.
pub fn lookup_pair(m: &Vec<(String, String)>, k: &Vec<char>) -> (r: Option<String>)
    ensures
        match r {
            Some(val) => map_lookup(map_view(m@), k@) == Some(val@),
            None => map_lookup(map_view(m@), k@) is None,
        },
{
    let mut i: usize = 0;
    proof {
        assert(map_view(m@).skip(0) =~= map_view(m@));
    }
    while i < m.len()
        invariant
            i <= m.len(),
            map_lookup(map_view(m@), k@) == map_lookup(map_view(m@).skip(i as int), k@),
        decreases m.len() - i,
    {
        let key_chars = string_to_chars(m[i].0.as_str());
        proof {
            assert(map_view(m@)[i as int] == (m@[i as int].0@, m@[i as int].1@));
            assert(map_view(m@).skip(i as int)[0] == map_view(m@)[i as int]);
            assert(map_view(m@).skip(i as int).skip(1) =~= map_view(m@).skip(i as int + 1));
        }
        if crate::text::vec_chars_eq(&key_chars, k) {
            return Some(m[i].1.clone());
        }
        i = i + 1;
    }
    proof {
        assert(map_view(m@).skip(i as int) =~= Seq::<(Seq<char>, Seq<char>)>::empty());
    }
    None
}

/// `s` from `pos` on with every digit tag shortcut (`#` + one digit at a
/// word boundary) replaced by its configured tag; unknown or empty-valued
/// digits stay.
pub open spec fn fav_expand_from(
    s: Seq<char>,
    m: Seq<(Seq<char>, Seq<char>)>,
    pos: int,
) -> Seq<char>
    decreases s.len() - pos when 0 <= pos <= s.len()
{
    if pos >= s.len() {
        Seq::empty()
    } else if s[pos] == '#' && pos + 1 < s.len() && is_digit(s[pos + 1]) && (pos + 2 >= s.len()
        || !is_word_char(s[pos + 2])) {
        let key = seq![s[pos + 1]];
        match map_lookup(m, key) {
            Some(tag) => if tag.len() > 0 {
                seq!['#'] + tag + fav_expand_from(s, m, pos + 2)
            } else {
                seq![s[pos], s[pos + 1]] + fav_expand_from(s, m, pos + 2)
            },
            None => seq![s[pos], s[pos + 1]] + fav_expand_from(s, m, pos + 2),
        }
    } else {
        seq![s[pos]] + fav_expand_from(s, m, pos + 1)
    }
}

/// Replaces digit tag shortcuts with the configured tags; digits without a
/// non-empty configured tag are left unchanged.
pub fn expand_favorite_tags(content: &str, favorite_tags: &Vec<(String, String)>) -> (r: String)
    ensures
        r@ == fav_expand_from(content@, map_view(favorite_tags@), 0),
{
    let v = string_to_chars(content);
    let ghost mv = map_view(favorite_tags@);
    let mut out: Vec<char> = Vec::new();
    let mut pos: usize = 0;
    while pos < v.len()
        invariant
            pos <= v.len(),
            v@ == content@,
            fav_expand_from(content@, mv, 0) == out@ + fav_expand_from(v@, mv, pos as int),
            mv == map_view(favorite_tags@),
        decreases v.len() - pos,
    {
        if v[pos] == '#' && pos + 1 < v.len() && is_digit_char(v[pos + 1]) && (pos + 2 >= v.len()
            || !is_word_char_exec(v[pos + 2])) {
            let key = vec![v[pos + 1]];
            proof {
                assert(key@ =~= seq![v@[pos + 1]]);
            }
            let mut replaced = false;
            match crate::shortcuts::lookup_pair(favorite_tags, &key) {
                Some(tag) => {
                    if tag.as_str().unicode_len() > 0 {
                        let ghost before = out@;
                        out.push('#');
                        let tag_chars = string_to_chars(tag.as_str());
                        crate::text::append_vec(&mut out, &tag_chars);
                        proof {
                            assert(out@ =~= before + seq!['#'] + tag@);
                        }
                        replaced = true;
                    }
                },
                None => {},
            }
            if !replaced {
                out.push(v[pos]);
                out.push(v[pos + 1]);
            }
            pos = pos + 2;
        } else {
            out.push(v[pos]);
            pos = pos + 1;
        }
    }
    crate::text::chars_to_string(&out)
}

/// `s` from `pos` on with every known `$name` replaced by its stored
/// expansion, and the unknown names seen so far: name characters are
/// letters, digits and `_`, at least one.
pub open spec fn filters_expand_from(
    s: Seq<char>,
    m: Seq<(Seq<char>, Seq<char>)>,
    pos: int,
) -> (Seq<char>, Seq<Seq<char>>)
    decreases s.len() - pos when 0 <= pos <= s.len() via filters_expand_from_decreases
{
    if pos >= s.len() {
        (Seq::empty(), Seq::empty())
    } else if s[pos] == '$' && pos + 1 < s.len() && is_word_char(s[pos + 1]) {
        let e = pos + 1 + word_run(s, pos + 1);
        let name = s.subrange(pos + 1, e);
        let rest = filters_expand_from(s, m, e);
        match map_lookup(m, name) {
            Some(expansion) => (expansion + rest.0, rest.1),
            None => (s.subrange(pos, e) + rest.0, seq![s.subrange(pos, e)] + rest.1),
        }
    } else {
        let rest = filters_expand_from(s, m, pos + 1);
        (seq![s[pos]] + rest.0, rest.1)
    }
}

#[via_fn]
proof fn filters_expand_from_decreases(s: Seq<char>, m: Seq<(Seq<char>, Seq<char>)>, pos: int) {
    if 0 <= pos < s.len() && pos + 1 < s.len() {
        lemma_word_run_bounds(s, pos + 1);
    }
}

/// Length of the run of word characters starting at `p`.
pub open spec fn word_run(s: Seq<char>, p: int) -> int
    decreases s.len() - p when 0 <= p <= s.len()
{
    if p >= s.len() || !is_word_char(s[p]) {
        0
    } else {
        1 + word_run(s, p + 1)
    }
}

proof fn lemma_word_run_bounds(s: Seq<char>, p: int)
    requires
        0 <= p <= s.len(),
    ensures
        0 <= word_run(s, p) <= s.len() - p,
        p < s.len() && is_word_char(s[p]) ==> word_run(s, p) >= 1,
    decreases s.len() - p,
{
    if p < s.len() && is_word_char(s[p]) {
        lemma_word_run_bounds(s, p + 1);
    }
}

proof fn lemma_word_run_prefix(s: Seq<char>, p: int, j: int)
    requires
        0 <= p <= j <= s.len(),
        forall|i: int| p <= i < j ==> is_word_char(#[trigger] s[i]),
        j < s.len() ==> !is_word_char(s[j]),
    ensures
        word_run(s, p) == j - p,
    decreases j - p,
{
    if p < j {
        lemma_word_run_prefix(s, p + 1, j);
    }
}

/// Expands saved filter shortcuts (`$name`) with their stored query text;
/// unknown names are left in place and returned.
pub fn expand_saved_filters(query: &str, filters: &Vec<(String, String)>) -> (r: (
    String,
    Vec<String>,
))
    ensures
        r.0@ == filters_expand_from(query@, map_view(filters@), 0).0,
        r.1.deep_view() == filters_expand_from(query@, map_view(filters@), 0).1,
{
    let v = string_to_chars(query);
    let ghost mv = map_view(filters@);
    let mut out: Vec<char> = Vec::new();
    let mut unknown: Vec<String> = Vec::new();
    let mut pos: usize = 0;
    proof {
        assert(unknown.deep_view() =~~= Seq::<Seq<char>>::empty());
    }
    while pos < v.len()
        invariant
            pos <= v.len(),
            v@ == query@,
            mv == map_view(filters@),
            filters_expand_from(query@, mv, 0).0 == out@ + filters_expand_from(
                v@,
                mv,
                pos as int,
            ).0,
            filters_expand_from(query@, mv, 0).1 == unknown.deep_view() + filters_expand_from(
                v@,
                mv,
                pos as int,
            ).1,
        decreases v.len() - pos,
    {
        if v[pos] == '$' && pos + 1 < v.len() && is_word_char_exec(v[pos + 1]) {
            let mut j: usize = pos + 1;
            while j < v.len() && is_word_char_exec(v[j])
                invariant
                    pos + 1 <= j <= v.len(),
                    forall|i: int| pos + 1 <= i < j ==> is_word_char(#[trigger] v@[i]),
                decreases v.len() - j,
            {
                j = j + 1;
            }
            proof {
                lemma_word_run_prefix(v@, pos as int + 1, j as int);
            }
            let name = copy_range(&v, pos + 1, j);
            proof {
                assert(name@ =~= v@.subrange(pos as int + 1, j as int));
            }
            match lookup_pair(filters, &name) {
                Some(expansion) => {
                    let exp_chars = string_to_chars(expansion.as_str());
                    crate::text::append_vec(&mut out, &exp_chars);
                },
                None => {
                    let whole = copy_range(&v, pos, j);
                    proof {
                        assert(whole@ =~= v@.subrange(pos as int, j as int));
                    }
                    crate::text::append_vec(&mut out, &whole);
                    let ghost before = unknown.deep_view();
                    unknown.push(crate::text::chars_to_string(&whole));
                    proof {
                        assert(unknown.deep_view() =~~= before.push(whole@));
                        assert(before.push(whole@) =~~= before + seq![whole@]);
                    }
                },
            }
            pos = j;
        } else {
            out.push(v[pos]);
            pos = pos + 1;
        }
    }
    (crate::text::chars_to_string(&out), unknown)
}

} // verus!
