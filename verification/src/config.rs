//! Configuration values the storage layer consumes: the sort order for a
//! day's entries, the digit-keyed tag shortcuts, the saved filters, and a
//! few presentation defaults.  Loading and deserializing the files is the
//! host program's job; this module holds the merge and validation rules.

use vstd::prelude::*;

use crate::shortcuts::{map_lookup, map_view};
use crate::text::string_to_chars;

verus! {

/// The effective configuration, after defaults and merging.
#[derive(Debug, Clone)]
pub struct Config {
    pub global_file: Option<String>,
    pub sort_order: Vec<String>,
    pub favorite_tags: Vec<(String, String)>,
    pub filters: Vec<(String, String)>,
    pub default_filter: String,
    pub header_date_format: String,
    pub hide_completed: bool,
}

/// A configuration as read from one file: every field optional, so that an
/// unset field can fall back to a default or to the global file's value.
#[derive(Debug, Clone)]
pub struct PartialConfig {
    pub global_file: Option<String>,
    pub sort_order: Option<Vec<String>>,
    pub favorite_tags: Option<Vec<(String, String)>>,
    pub filters: Option<Vec<(String, String)>>,
    pub default_filter: Option<String>,
    pub header_date_format: Option<String>,
    pub hide_completed: Option<bool>,
}

pub open spec fn sort_kw_completed() -> Seq<char> {
    seq!['c', 'o', 'm', 'p', 'l', 'e', 't', 'e', 'd']
}

pub open spec fn sort_kw_uncompleted() -> Seq<char> {
    seq!['u', 'n', 'c', 'o', 'm', 'p', 'l', 'e', 't', 'e', 'd']
}

pub open spec fn sort_kw_notes() -> Seq<char> {
    seq!['n', 'o', 't', 'e', 's']
}

pub open spec fn sort_kw_events() -> Seq<char> {
    seq!['e', 'v', 'e', 'n', 't', 's']
}

/// A valid sort-order keyword.
pub open spec fn valid_sort_type(s: Seq<char>) -> bool {
    s == sort_kw_completed() || s == sort_kw_uncompleted() || s == sort_kw_notes() || s
        == sort_kw_events()
}

/// The default sort order: completed, events, notes, uncompleted.
pub open spec fn default_sort_order_spec() -> Seq<Seq<char>> {
    seq![sort_kw_completed(), sort_kw_events(), sort_kw_notes(), sort_kw_uncompleted()]
}

fn sort_keyword_vecs() -> (r: (Vec<char>, Vec<char>, Vec<char>, Vec<char>))
    ensures
        r.0@ == sort_kw_completed(),
        r.1@ == sort_kw_uncompleted(),
        r.2@ == sort_kw_notes(),
        r.3@ == sort_kw_events(),
{
    let completed = vec!['c', 'o', 'm', 'p', 'l', 'e', 't', 'e', 'd'];
    let uncompleted = vec!['u', 'n', 'c', 'o', 'm', 'p', 'l', 'e', 't', 'e', 'd'];
    let notes = vec!['n', 'o', 't', 'e', 's'];
    let events = vec!['e', 'v', 'e', 'n', 't', 's'];
    proof {
        assert(completed@ =~= sort_kw_completed());
        assert(uncompleted@ =~= sort_kw_uncompleted());
        assert(notes@ =~= sort_kw_notes());
        assert(events@ =~= sort_kw_events());
    }
    (completed, uncompleted, notes, events)
}

/// The default sort order as strings.
pub fn default_sort_order() -> (r: Vec<String>)
    ensures
        r.deep_view() == default_sort_order_spec(),
{
    let (completed, uncompleted, notes, events) = sort_keyword_vecs();
    let mut r: Vec<String> = Vec::new();
    r.push(crate::text::chars_to_string(&completed));
    r.push(crate::text::chars_to_string(&events));
    r.push(crate::text::chars_to_string(&notes));
    r.push(crate::text::chars_to_string(&uncompleted));
    proof {
        assert(r.deep_view() =~~= default_sort_order_spec());
    }
    r
}

/// The valid entries of `s`, first occurrences only.
pub open spec fn dedup_valid(s: Seq<Seq<char>>) -> Seq<Seq<char>>
    decreases s.len(),
{
    if s.len() == 0 {
        Seq::empty()
    } else {
        let prev = dedup_valid(s.drop_last());
        if valid_sort_type(s.last()) && !prev.contains(s.last()) {
            prev.push(s.last())
        } else {
            prev
        }
    }
}

/// The validated sort order: unknown names and repeats are dropped, and an
/// order left empty falls back to the default.
pub open spec fn validated_sort_order_spec(s: Seq<Seq<char>>) -> Seq<Seq<char>> {
    if dedup_valid(s).len() == 0 {
        default_sort_order_spec()
    } else {
        dedup_valid(s)
    }
}

fn contains_string(v: &Vec<String>, want: &Vec<char>) -> (r: bool)
    ensures
        r == v.deep_view().contains(want@),
{
    let mut i: usize = 0;
    while i < v.len()
        invariant
            i <= v.len(),
            forall|k: int| 0 <= k < i ==> v.deep_view()[k] != want@,
        decreases v.len() - i,
    {
        let s = string_to_chars(v[i].as_str());
        proof {
            assert(v.deep_view()[i as int] == v@[i as int]@);
        }
        if crate::text::vec_chars_eq(&s, want) {
            assert(v.deep_view()[i as int] == want@);
            return true;
        }
        i = i + 1;
    }
    assert(!v.deep_view().contains(want@)) by {
        if v.deep_view().contains(want@) {
            let k = choose|k: int| 0 <= k < v.deep_view().len() && v.deep_view()[k] == want@;
        }
    }
    false
}

impl Config {
    /// The sort order with unknown names and repeats dropped; the default
    /// order when nothing valid is left.
    pub fn validated_sort_order(&self) -> (r: Vec<String>)
        ensures
            r.deep_view() == validated_sort_order_spec(self.sort_order.deep_view()),
    {
        let (completed, uncompleted, notes, events) = sort_keyword_vecs();
        let mut kept: Vec<String> = Vec::new();
        let mut i: usize = 0;
        proof {
            assert(kept.deep_view() =~~= dedup_valid(self.sort_order.deep_view().take(0)));
        }
        while i < self.sort_order.len()
            invariant
                i <= self.sort_order.len(),
                completed@ == sort_kw_completed(),
                uncompleted@ == sort_kw_uncompleted(),
                notes@ == sort_kw_notes(),
                events@ == sort_kw_events(),
                kept.deep_view() == dedup_valid(self.sort_order.deep_view().take(i as int)),
            decreases self.sort_order.len() - i,
        {
            let s = string_to_chars(self.sort_order[i].as_str());
            proof {
                assert(self.sort_order.deep_view()[i as int] == self.sort_order@[i as int]@);
                assert(self.sort_order.deep_view().take(i as int + 1).drop_last()
                    =~= self.sort_order.deep_view().take(i as int));
                assert(self.sort_order.deep_view().take(i as int + 1).last() == s@);
            }
            let is_valid = crate::text::vec_chars_eq(&s, &completed) || crate::text::vec_chars_eq(
                &s,
                &uncompleted,
            ) || crate::text::vec_chars_eq(&s, &notes) || crate::text::vec_chars_eq(&s, &events);
            if is_valid && !contains_string(&kept, &s) {
                let ghost before = kept.deep_view();
                kept.push(crate::text::chars_to_string(&s));
                proof {
                    assert(kept.deep_view() =~~= before.push(s@));
                }
            }
            i = i + 1;
        }
        proof {
            assert(self.sort_order.deep_view().take(i as int) =~= self.sort_order.deep_view());
        }
        if kept.len() == 0 {
            default_sort_order()
        } else {
            kept
        }
    }

    /// The configured tag for a digit key, when one is set and non-empty.
    pub fn get_favorite_tag(&self, key: char) -> (r: Option<String>)
        ensures
            ({
                let looked = map_lookup(map_view(self.favorite_tags@), seq![key]);
                if crate::text::is_digit(key) && looked is Some && looked->0.len() > 0 {
                    r is Some && r->0@ == looked->0
                } else {
                    r is None
                }
            }),
    {
        if !crate::text::is_digit_char(key) {
            return None;
        }
        let k = vec![key];
        proof {
            assert(k@ =~= seq![key]);
        }
        match crate::shortcuts::lookup_pair(&self.favorite_tags, &k) {
            Some(tag) => {
                if tag.as_str().unicode_len() > 0 {
                    Some(tag)
                } else {
                    None
                }
            },
            None => None,
        }
    }
}

/// First pair wins when a key repeats; `overlay` pairs shadow `base` pairs.
pub open spec fn merged_maps_spec(
    base: Seq<(Seq<char>, Seq<char>)>,
    overlay: Seq<(Seq<char>, Seq<char>)>,
    k: Seq<char>,
) -> Option<Seq<char>> {
    match map_lookup(overlay, k) {
        Some(v) => Some(v),
        None => map_lookup(base, k),
    }
}

/// Merges two shortcut tables: overlay entries shadow base entries with the
/// same key; everything else is kept.
pub fn merge_maps(base: &Vec<(String, String)>, overlay: &Vec<(String, String)>) -> (r: Vec<
    (String, String),
>)
    ensures
        forall|k: Seq<char>|
            #[trigger] map_lookup(map_view(r@), k) == merged_maps_spec(
                map_view(base@),
                map_view(overlay@),
                k,
            ),
{
    let mut out: Vec<(String, String)> = Vec::new();
    let mut i: usize = 0;
    proof {
        assert(map_view(out@) =~= map_view(overlay@).take(0));
    }
    while i < overlay.len()
        invariant
            i <= overlay.len(),
            out@.len() == i,
            map_view(out@) == map_view(overlay@).take(i as int),
        decreases overlay.len() - i,
    {
        let k0 = overlay[i].0.clone();
        let v0 = overlay[i].1.clone();
        let ghost prev = out@;
        out.push((k0, v0));
        proof {
            assert forall|t: int| 0 <= t < out@.len() implies map_view(out@)[t] == map_view(
                overlay@,
            ).take(i as int + 1)[t] by {
                if t < prev.len() {
                    assert(out@[t] == prev[t]);
                    assert(map_view(prev)[t] == map_view(overlay@).take(i as int)[t]);
                } else {
                    assert(out@[t] == (k0, v0));
                    assert(map_view(overlay@)[i as int] == (
                        overlay@[i as int].0@,
                        overlay@[i as int].1@,
                    ));
                }
            }
            assert(map_view(out@) =~= map_view(overlay@).take(i as int + 1));
        }
        i = i + 1;
    }
    proof {
        assert(map_view(overlay@).take(i as int) =~= map_view(overlay@));
    }
    let ghost split: int = out@.len() as int;
    let mut j: usize = 0;
    while j < base.len()
        invariant
            j <= base.len(),
            out@.len() == split + j,
            split == map_view(overlay@).len(),
            map_view(out@) == map_view(overlay@) + map_view(base@).take(j as int),
        decreases base.len() - j,
    {
        let k0 = base[j].0.clone();
        let v0 = base[j].1.clone();
        let ghost prev = out@;
        out.push((k0, v0));
        proof {
            assert forall|t: int| 0 <= t < out@.len() implies map_view(out@)[t] == (map_view(
                overlay@,
            ) + map_view(base@).take(j as int + 1))[t] by {
                if t < prev.len() {
                    assert(out@[t] == prev[t]);
                    assert(map_view(prev)[t] == (map_view(overlay@) + map_view(base@).take(
                        j as int,
                    ))[t]);
                } else {
                    assert(out@[t] == (k0, v0));
                    assert(map_view(base@)[j as int] == (base@[j as int].0@, base@[j as int].1@));
                }
            }
            assert(map_view(out@) =~= map_view(overlay@) + map_view(base@).take(j as int + 1));
        }
        j = j + 1;
    }
    proof {
        assert(map_view(base@).take(j as int) =~= map_view(base@));
        assert forall|k: Seq<char>| #[trigger] map_lookup(map_view(out@), k) == merged_maps_spec(
            map_view(base@),
            map_view(overlay@),
            k,
        ) by {
            lemma_map_lookup_concat(map_view(overlay@), map_view(base@), k);
        }
    }
    out
}

proof fn lemma_map_lookup_concat(a: Seq<(Seq<char>, Seq<char>)>, b: Seq<(Seq<char>, Seq<char>)>, k: Seq<char>)
    ensures
        map_lookup(a + b, k) == match map_lookup(a, k) {
            Some(v) => Some(v),
            None => map_lookup(b, k),
        },
    decreases a.len(),
{
    if a.len() == 0 {
        assert(a + b =~= b);
    } else {
        assert((a + b)[0] == a[0]);
        if a[0].0 != k {
            lemma_map_lookup_concat(a.skip(1), b, k);
            assert((a + b).skip(1) =~= a.skip(1) + b);
        }
    }
}

impl PartialConfig {
    /// A configuration with nothing set.
    pub fn unset() -> (r: PartialConfig)
        ensures
            r.global_file is None,
            r.sort_order is None,
            r.favorite_tags is None,
            r.filters is None,
            r.default_filter is None,
            r.header_date_format is None,
            r.hide_completed is None,
    {
        PartialConfig {
            global_file: None,
            sort_order: None,
            favorite_tags: None,
            filters: None,
            default_filter: None,
            header_date_format: None,
            hide_completed: None,
        }
    }

    /// Lays this configuration over the global one: the global file path is
    /// never overridden, scalars take this one's value when set, and the
    /// two shortcut tables merge with this one's entries shadowing.
    pub fn merge_over(self, global: PartialConfig) -> (r: PartialConfig)
        ensures
            r.global_file == global.global_file,
            r.sort_order == if self.sort_order is Some {
                self.sort_order
            } else {
                global.sort_order
            },
            r.default_filter == if self.default_filter is Some {
                self.default_filter
            } else {
                global.default_filter
            },
            r.header_date_format == if self.header_date_format is Some {
                self.header_date_format
            } else {
                global.header_date_format
            },
            r.hide_completed == if self.hide_completed is Some {
                self.hide_completed
            } else {
                global.hide_completed
            },
            r.favorite_tags is Some,
            r.filters is Some,
    {
        let favorite_tags = merge_pair_options(global.favorite_tags, self.favorite_tags);
        let filters = merge_pair_options(global.filters, self.filters);
        PartialConfig {
            global_file: global.global_file,
            sort_order: if self.sort_order.is_some() {
                self.sort_order
            } else {
                global.sort_order
            },
            default_filter: if self.default_filter.is_some() {
                self.default_filter
            } else {
                global.default_filter
            },
            header_date_format: if self.header_date_format.is_some() {
                self.header_date_format
            } else {
                global.header_date_format
            },
            hide_completed: if self.hide_completed.is_some() {
                self.hide_completed
            } else {
                global.hide_completed
            },
            favorite_tags: Some(favorite_tags),
            filters: Some(filters),
        }
    }
}

/// Merges two optional shortcut tables, the overlay shadowing the base.
fn merge_pair_options(
    base: Option<Vec<(String, String)>>,
    overlay: Option<Vec<(String, String)>>,
) -> (r: Vec<(String, String)>)
    ensures
        base is None && overlay is None ==> r@.len() == 0,
{
    match (base, overlay) {
        (Some(b), Some(o)) => merge_maps(&b, &o),
        (Some(b), None) => b,
        (None, Some(o)) => o,
        (None, None) => Vec::new(),
    }
}


/// The built-in digit tag shortcuts.
pub open spec fn default_favorite_tags_spec() -> Seq<(Seq<char>, Seq<char>)> {
    seq![
        (seq!['1'], seq!['f', 'e', 'a', 't', 'u', 'r', 'e']),
        (seq!['2'], seq!['b', 'u', 'g']),
        (seq!['3'], seq!['i', 'd', 'e', 'a']),
    ]
}

/// The built-in digit tag shortcuts: 1 is `feature`, 2 is `bug`, 3 is
/// `idea`.
pub fn default_favorite_tags() -> (r: Vec<(String, String)>)
    ensures
        map_view(r@) == default_favorite_tags_spec(),
{
    let k1 = vec!['1'];
    let v1 = vec!['f', 'e', 'a', 't', 'u', 'r', 'e'];
    let k2 = vec!['2'];
    let v2 = vec!['b', 'u', 'g'];
    let k3 = vec!['3'];
    let v3 = vec!['i', 'd', 'e', 'a'];
    let mut r: Vec<(String, String)> = Vec::new();
    r.push((crate::text::chars_to_string(&k1), crate::text::chars_to_string(&v1)));
    r.push((crate::text::chars_to_string(&k2), crate::text::chars_to_string(&v2)));
    r.push((crate::text::chars_to_string(&k3), crate::text::chars_to_string(&v3)));
    proof {
        assert(map_view(r@) =~~= default_favorite_tags_spec());
    }
    r
}

/// The default filter query: open tasks.
pub open spec fn default_filter_spec() -> Seq<char> {
    seq!['!', 't', 'a', 's', 'k', 's']
}

/// The default header date format.
pub open spec fn default_header_date_format_spec() -> Seq<char> {
    seq!['%', 'm', '/', '%', 'd', '/', '%', 'y']
}

impl PartialConfig {
    /// Fills every unset field with its built-in default.
    pub fn into_config(self) -> (r: Config)
        ensures
            r.global_file == self.global_file,
            r.sort_order.deep_view() == if self.sort_order is Some {
                self.sort_order->0.deep_view()
            } else {
                default_sort_order_spec()
            },
            map_view(r.favorite_tags@) == if self.favorite_tags is Some {
                map_view(self.favorite_tags->0@)
            } else {
                default_favorite_tags_spec()
            },
            self.filters is Some ==> r.filters == self.filters->0,
            self.filters is None ==> r.filters@.len() == 0,
            r.default_filter@ == if self.default_filter is Some {
                self.default_filter->0@
            } else {
                default_filter_spec()
            },
            r.header_date_format@ == if self.header_date_format is Some {
                self.header_date_format->0@
            } else {
                default_header_date_format_spec()
            },
            r.hide_completed == if self.hide_completed is Some {
                self.hide_completed->0
            } else {
                false
            },
    {
        let sort_order = match self.sort_order {
            Some(s) => s,
            None => default_sort_order(),
        };
        let favorite_tags = match self.favorite_tags {
            Some(m) => m,
            None => default_favorite_tags(),
        };
        let filters = match self.filters {
            Some(m) => m,
            None => Vec::new(),
        };
        let default_filter = match self.default_filter {
            Some(s) => s,
            None => {
                let df = vec!['!', 't', 'a', 's', 'k', 's'];
                proof {
                    assert(df@ =~= default_filter_spec());
                }
                crate::text::chars_to_string(&df)
            },
        };
        let header_date_format = match self.header_date_format {
            Some(s) => s,
            None => {
                let hf = vec!['%', 'm', '/', '%', 'd', '/', '%', 'y'];
                proof {
                    assert(hf@ =~= default_header_date_format_spec());
                }
                crate::text::chars_to_string(&hf)
            },
        };
        let hide_completed = match self.hide_completed {
            Some(b) => b,
            None => false,
        };
        Config {
            global_file: self.global_file,
            sort_order,
            favorite_tags,
            filters,
            default_filter,
            header_date_format,
            hide_completed,
        }
    }
}

} // verus!
