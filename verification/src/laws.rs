//! Document-level laws of the day section engine.
//!
//! A well-formed document is the rendering of a sequence of day blocks:
//! dates strictly ascending, each block a header line followed by trimmed,
//! non-blank content that contains no header-shaped text, blocks separated
//! by one blank line, one trailing newline.  Over such documents the engine
//! behaves like an operation on the block sequence itself: extraction reads
//! one block's content, and updating replaces, removes, or sort-inserts one
//! block while leaving every other block's bytes untouched.

use vstd::prelude::*;

use crate::dates::{date_key, Date};
use crate::document::{
    extract_day_content_spec, find_next_day_header_spec, header_chars, is_day_header_line,
    next_header_from, parse_day_header_spec,
};
use crate::text::{
    digit_char, digit_val, find_char_from, find_sub, find_sub_from, is_digit, is_ws, line_at,
    matches_at, next_line_pos, trim_end_spec, trim_start_spec,
};

verus! {

/// One day block of the document model.
pub ghost struct DayBlock {
    pub date: Date,
    pub content: Seq<char>,
}

/// The text of one block: header line, newline, content, newline.
pub open spec fn block_text(b: DayBlock) -> Seq<char> {
    header_chars(b.date) + seq!['\n'] + b.content + seq!['\n']
}

/// The document a block sequence renders to: blocks separated by one blank
/// line (the newline ending each block plus one separator newline).
pub open spec fn render_blocks(bs: Seq<DayBlock>) -> Seq<char>
    decreases bs.len(),
{
    if bs.len() == 0 {
        Seq::empty()
    } else if bs.len() == 1 {
        block_text(bs[0])
    } else {
        block_text(bs[0]) + seq!['\n'] + render_blocks(bs.skip(1))
    }
}

/// Header-shaped text at position `i`: `# ` and eight digits in the
/// `YYYY/MM/DD` arrangement, dates real or not.
pub open spec fn header_shape_at(s: Seq<char>, i: int) -> bool {
    &&& 0 <= i
    &&& i + 12 <= s.len()
    &&& s[i] == '#'
    &&& s[i + 1] == ' '
    &&& is_digit(s[i + 2])
    &&& is_digit(s[i + 3])
    &&& is_digit(s[i + 4])
    &&& is_digit(s[i + 5])
    &&& s[i + 6] == '/'
    &&& is_digit(s[i + 7])
    &&& is_digit(s[i + 8])
    &&& s[i + 9] == '/'
    &&& is_digit(s[i + 10])
    &&& is_digit(s[i + 11])
}

/// Content a block may hold: non-empty, no trailing whitespace, and no
/// header-shaped text anywhere in it.
pub open spec fn wf_content(c: Seq<char>) -> bool {
    &&& c.len() > 0
    &&& trim_end_spec(c) == c
    &&& forall|i: int| !header_shape_at(c, i)
}

/// A well-formed block sequence: valid dates strictly ascending, every
/// content well-formed.
pub open spec fn wf_blocks(bs: Seq<DayBlock>) -> bool {
    &&& forall|k: int|
        0 <= k < bs.len() ==> (#[trigger] bs[k]).date.valid() && wf_content(bs[k].content)
    &&& forall|j: int, k: int|
        0 <= j < k < bs.len() ==> date_key(#[trigger] bs[j].date) < date_key(
            #[trigger] bs[k].date,
        )
}

/// The index of `d`'s block, if the model holds one.
pub open spec fn index_of_date(bs: Seq<DayBlock>, d: Date) -> Option<int>
    decreases bs.len(),
{
    if bs.len() == 0 {
        None
    } else if bs[0].date == d {
        Some(0)
    } else {
        match index_of_date(bs.skip(1), d) {
            Some(k) => Some(k + 1),
            None => None,
        }
    }
}

pub proof fn lemma_index_of_date_bounds(bs: Seq<DayBlock>, d: Date)
    ensures
        match index_of_date(bs, d) {
            Some(k) => 0 <= k < bs.len() && bs[k].date == d,
            None => forall|k: int| 0 <= k < bs.len() ==> (#[trigger] bs[k]).date != d,
        },
    decreases bs.len(),
{
    if bs.len() > 0 && bs[0].date != d {
        lemma_index_of_date_bounds(bs.skip(1), d);
        match index_of_date(bs.skip(1), d) {
            Some(k) => {
                assert(bs.skip(1)[k] == bs[k + 1]);
            },
            None => {
                assert forall|k: int| 0 <= k < bs.len() implies (#[trigger] bs[k]).date != d by {
                    if k > 0 {
                        assert(bs.skip(1)[k - 1] == bs[k]);
                    }
                }
            },
        }
    }
}

proof fn lemma_digit_char_facts(n: int)
    requires
        0 <= n <= 9,
    ensures
        is_digit(digit_char(n)),
        digit_char(n) != '\n',
        digit_val(digit_char(n)) == n,
{
}

pub proof fn lemma_header_len(d: Date)
    ensures
        header_chars(d).len() == 12,
{
}

pub proof fn lemma_header_no_newline(d: Date)
    requires
        d.valid(),
    ensures
        forall|k: int| 0 <= k < 12 ==> header_chars(d)[k] != '\n',
{
    let h = header_chars(d);
    let y = d.year as int;
    let m = d.month as int;
    let dd = d.day as int;
    lemma_digit_char_facts(y / 1000);
    lemma_digit_char_facts((y / 100) % 10);
    lemma_digit_char_facts((y / 10) % 10);
    lemma_digit_char_facts(y % 10);
    lemma_digit_char_facts(m / 10);
    lemma_digit_char_facts(m % 10);
    lemma_digit_char_facts(dd / 10);
    lemma_digit_char_facts(dd % 10);
    assert forall|k: int| 0 <= k < 12 implies h[k] != '\n' by {
        assert(h[0] == '#');
        assert(h[1] == ' ');
        assert(h[2] == digit_char(y / 1000));
        assert(h[3] == digit_char((y / 100) % 10));
        assert(h[4] == digit_char((y / 10) % 10));
        assert(h[5] == digit_char(y % 10));
        assert(h[6] == '/');
        assert(h[7] == digit_char(m / 10));
        assert(h[8] == digit_char(m % 10));
        assert(h[9] == '/');
        assert(h[10] == digit_char(dd / 10));
        assert(h[11] == digit_char(dd % 10));
    }
}

/// A header parses back to its own date.
pub proof fn lemma_parse_own_header(d: Date)
    requires
        d.valid(),
    ensures
        parse_day_header_spec(header_chars(d)) == Some(d),
        header_shape_at(header_chars(d), 0),
        is_day_header_line(header_chars(d)),
{
    let h = header_chars(d);
    let y = d.year as int;
    let m = d.month as int;
    let dd = d.day as int;
    lemma_digit_char_facts(y / 1000);
    lemma_digit_char_facts((y / 100) % 10);
    lemma_digit_char_facts((y / 10) % 10);
    lemma_digit_char_facts(y % 10);
    lemma_digit_char_facts(m / 10);
    lemma_digit_char_facts(m % 10);
    lemma_digit_char_facts(dd / 10);
    lemma_digit_char_facts(dd % 10);
    assert(h[0] == '#');
    assert(h[1] == ' ');
    assert(h[2] == digit_char(y / 1000));
    assert(h[3] == digit_char((y / 100) % 10));
    assert(h[4] == digit_char((y / 10) % 10));
    assert(h[5] == digit_char(y % 10));
    assert(h[6] == '/');
    assert(h[7] == digit_char(m / 10));
    assert(h[8] == digit_char(m % 10));
    assert(h[9] == '/');
    assert(h[10] == digit_char(dd / 10));
    assert(h[11] == digit_char(dd % 10));
    assert((y / 1000) * 1000 + ((y / 100) % 10) * 100 + ((y / 10) % 10) * 10 + y % 10 == y)
        by (nonlinear_arith)
        requires
            0 <= y < 10000,
    ;
    assert((m / 10) * 10 + m % 10 == m) by (nonlinear_arith)
        requires
            0 <= m < 100,
    ;
    assert((dd / 10) * 10 + dd % 10 == dd) by (nonlinear_arith)
        requires
            0 <= dd < 100,
    ;
}

/// Distinct dates have distinct headers.
pub proof fn lemma_header_injective(a: Date, b: Date)
    requires
        a.valid(),
        b.valid(),
        a != b,
    ensures
        header_chars(a) != header_chars(b),
{
    lemma_parse_own_header(a);
    lemma_parse_own_header(b);
}

/// Where block `k` starts in the rendering.
pub open spec fn block_start(bs: Seq<DayBlock>, k: int) -> int
    decreases k when 0 <= k
{
    if k <= 0 {
        0
    } else {
        block_text(bs[0]).len() + 1 + block_start(bs.skip(1), k - 1)
    }
}

proof fn lemma_render_unfold(bs: Seq<DayBlock>)
    requires
        bs.len() >= 1,
    ensures
        bs.len() == 1 ==> render_blocks(bs) == block_text(bs[0]),
        bs.len() > 1 ==> render_blocks(bs) == (block_text(bs[0]) + seq!['\n']) + render_blocks(
            bs.skip(1),
        ),
{
    if bs.len() > 1 {
        assert(block_text(bs[0]) + seq!['\n'] + render_blocks(bs.skip(1)) =~= (block_text(bs[0])
            + seq!['\n']) + render_blocks(bs.skip(1)));
    }
}

/// In a well-formed rendering, a valid date's header text occurs first at
/// its own block's start, and not at all when the model has no such block.
pub proof fn lemma_find_header(bs: Seq<DayBlock>, d: Date)
    requires
        wf_blocks(bs),
        d.valid(),
    ensures
        match index_of_date(bs, d) {
            Some(k) => find_sub(render_blocks(bs), header_chars(d)) == Some(block_start(bs, k)),
            None => find_sub(render_blocks(bs), header_chars(d)) is None,
        },
    decreases bs.len(),
{
    let s = render_blocks(bs);
    let h = header_chars(d);
    lemma_header_len(d);
    lemma_header_no_newline(d);
    lemma_parse_own_header(d);
    if bs.len() == 0 {
        crate::text::lemma_find_sub_bounds(s, h, 0);
        if find_sub(s, h) is Some {
            assert(false);
        }
    } else {
        let b0 = bs[0];
        let c = b0.content;
        let a = block_text(b0) + seq!['\n'];
        lemma_render_unfold(bs);
        if b0.date == d {
            assert(matches_at(s, h, 0)) by {
                if bs.len() == 1 {
                    assert(s =~= block_text(b0));
                }
                assert(s.subrange(0, 12) =~= h);
            }
            assert(find_sub_from(s, h, 0) == Some(0int));
        } else {
            lemma_header_injective(d, b0.date);
            lemma_header_no_newline(b0.date);
            // no match anywhere inside the first block or its separator
            let bl = block_text(b0).len() as int;
            if bs.len() == 1 {
                assert(s =~= block_text(b0));
            } else {
                assert(s =~= (block_text(b0) + seq!['\n']) + render_blocks(bs.skip(1)));
            }
            let climit = if bs.len() == 1 {
                bl
            } else {
                bl + 1
            };
            assert forall|p: int| 0 <= p < climit implies !matches_at(s, h, p) by {
                if matches_at(s, h, p) {
                    // identify the newline positions of the first block
                    assert(s[12] == '\n');
                    assert(s[bl - 1] == '\n') by {
                        assert(block_text(b0)[bl - 1] == '\n');
                        if bs.len() == 1 {
                            assert(s =~= block_text(b0));
                        }
                    }
                    if p == 0 {
                        assert(s.subrange(0, 12) =~= header_chars(b0.date));
                        assert(h == header_chars(b0.date));
                        assert(false);
                    } else if p <= 12 {
                        // the window covers the newline after the header
                        assert(s[12] == h[12 - p]);
                        assert(false);
                    } else if p + 12 <= bl - 1 {
                        // the window lies inside the content
                        assert(header_shape_at(c, p - 13)) by {
                            assert forall|t: int| 0 <= t < 12 implies c[p - 13 + t] == h[t] by {
                                assert(block_text(b0)[p + t] == c[p - 13 + t]);
                                if bs.len() == 1 {
                                    assert(s =~= block_text(b0));
                                }
                                assert(s.subrange(p, p + 12)[t] == h[t]);
                            }
                        }
                        assert(false);
                    } else {
                        // the window covers a newline at or after the content end
                        assert(s[bl - 1] == h[bl - 1 - p]);
                        assert(false);
                    }
                }
            }
            assert(index_of_date(bs, d) == match index_of_date(bs.skip(1), d) {
                Some(k) => Some(k + 1),
                None => None::<int>,
            });
            if bs.len() == 1 {
                crate::text::lemma_find_sub_after(s, h, climit);
                crate::text::lemma_find_sub_none_when_short_pub(s, h, climit);
                assert(index_of_date(bs.skip(1), d) is None);
            } else {
                assert(wf_blocks(bs.skip(1))) by {
                    assert(forall|k: int|
                        0 <= k < bs.skip(1).len() ==> #[trigger] bs.skip(1)[k] == bs[k + 1]);
                }
                lemma_find_header(bs.skip(1), d);
                crate::text::lemma_find_sub_after(s, h, climit);
                assert(s =~= a + render_blocks(bs.skip(1)));
                assert(a.len() == climit);
                crate::text::lemma_find_sub_in_suffix(a, render_blocks(bs.skip(1)), h, 0);
                assert(find_sub_from(s, h, climit) == match find_sub(
                    render_blocks(bs.skip(1)),
                    h,
                ) {
                    Some(j) => Some(climit + j),
                    None => None::<int>,
                });
                lemma_index_of_date_bounds(bs.skip(1), d);
                match index_of_date(bs.skip(1), d) {
                    Some(k) => {
                        assert(block_start(bs, k + 1) == bl + 1 + block_start(bs.skip(1), k));
                    },
                    None => {},
                }
            }
        }
    }
}


/// Stepping over a region whose every position opens no day-header line,
/// and whose line steps stay inside the region, lands the header search at
/// the region's end.
proof fn lemma_walk_region(s: Seq<char>, pos: int, end: int, first: bool)
    requires
        0 <= pos <= end <= s.len(),
        forall|q: int| pos <= q < end ==> !is_day_header_line(#[trigger] line_at(s, q)),
        forall|q: int| pos <= q < end ==> #[trigger] next_line_pos(s, q) <= end,
        pos == end ==> !first,
    ensures
        next_header_from(s, pos, first) == next_header_from(s, end, false),
    decreases end - pos,
{
    if pos < end {
        crate::text::lemma_find_char_bounds(s, '\n', pos);
        let nxt = next_line_pos(s, pos);
        assert(pos < nxt <= end);
        lemma_walk_region(s, nxt, end, false);
    }
}

/// In the text after a well-formed block's header — its content, its final
/// newline, and one separator newline before the rest — the next day header
/// stands exactly past the separator, or nowhere when nothing follows.
proof fn lemma_next_header_in_after(c: Seq<char>, rest: Seq<DayBlock>)
    requires
        wf_content(c),
        wf_blocks(rest),
    ensures
        rest.len() == 0 ==> find_next_day_header_spec(c + seq!['\n']) is None,
        rest.len() > 0 ==> find_next_day_header_spec(
            c + seq!['\n'] + seq!['\n'] + render_blocks(rest),
        ) == Some(c.len() as int + 2),
{
    if rest.len() == 0 {
        let s = c + seq!['\n'];
        let end: int = c.len() as int + 1;
        lemma_region_facts(c, s);
        lemma_walk_region(s, 0, end, true);
        assert(next_header_from(s, end, false) is None);
    } else {
        let s = c + seq!['\n'] + seq!['\n'] + render_blocks(rest);
        let end: int = c.len() as int + 2;
        lemma_region_facts(c, s);
        assert(s[c.len() as int + 1] == '\n');
        assert forall|q: int| 0 <= q < end implies #[trigger] next_line_pos(s, q) <= end by {
            if q <= c.len() {
                crate::text::lemma_find_char_first(s, '\n', q, c.len() as int);
            } else {
                crate::text::lemma_find_char_first(s, '\n', q, c.len() as int + 1);
            }
        }
        assert forall|q: int| 0 <= q < end implies !is_day_header_line(
            #[trigger] line_at(s, q),
        ) by {
            if q <= c.len() {
                lemma_line_not_header(c, s, 0, q);
            } else {
                assert(s[q] == '\n');
                assert(find_char_from(s, '\n', q) == Some(q));
                assert(line_at(s, q) =~= Seq::<char>::empty());
            }
        }
        lemma_walk_region(s, 0, end, true);
        // at the region's end the next block's header line begins
        let rb = render_blocks(rest);
        let h = header_chars(rest[0].date);
        lemma_header_len(rest[0].date);
        lemma_header_no_newline(rest[0].date);
        lemma_parse_own_header(rest[0].date);
        assert(end < s.len());
        assert forall|t: int| 0 <= t < 12 implies s[end + t] == h[t] by {
            lemma_render_unfold(rest);
            if rest.len() == 1 {
                assert(rb =~= block_text(rest[0]));
            }
            assert(rb[t] == block_text(rest[0])[t]);
            assert(s[end + t] == rb[t]);
        }
        assert(rb[12] == block_text(rest[0])[12]) by {
            lemma_render_unfold(rest);
            if rest.len() == 1 {
                assert(rb =~= block_text(rest[0]));
            }
        }
        assert(s[end + 12] == '\n');
        crate::text::lemma_find_char_from(s, '\n', end, end + 12);
        assert(line_at(s, end) =~= h) by {
            assert(s.subrange(end, end + 12).len() == 12);
            assert(forall|t: int| 0 <= t < 12 ==> #[trigger] s.subrange(end, end + 12)[t] == s[end
                + t]);
            assert(h[11] != '\n');
            assert(strip_cr_is_id(s.subrange(end, end + 12)));
        }
        assert(is_day_header_line(line_at(s, end)));
        assert(next_header_from(s, end, false) == Some(end));
    }
}

/// A sequence ending in a digit is unchanged by carriage-return stripping.
spec fn strip_cr_is_id(l: Seq<char>) -> bool {
    crate::text::strip_cr(l) == l
}

proof fn lemma_region_facts(c: Seq<char>, s: Seq<char>)
    requires
        wf_content(c),
        forall|t: int| 0 <= t < c.len() ==> s[t] == c[t],
        s.len() > c.len(),
        s[c.len() as int] == '\n',
    ensures
        forall|q: int| 0 <= q < c.len() + 1 ==> #[trigger] next_line_pos(s, q) <= c.len() + 1,
        forall|q: int|
            0 <= q < c.len() + 1 ==> !is_day_header_line(#[trigger] line_at(s, q)),
{
    assert forall|q: int| 0 <= q < c.len() + 1 implies #[trigger] next_line_pos(s, q) <= c.len()
        + 1 by {
        crate::text::lemma_find_char_first(s, '\n', q, c.len() as int);
    }
    assert forall|q: int| 0 <= q < c.len() + 1 implies !is_day_header_line(
        #[trigger] line_at(s, q),
    ) by {
        lemma_line_not_header(c, s, 0, q);
    }
}

/// No line opening inside well-formed content is a day header.
proof fn lemma_line_not_header(c: Seq<char>, s: Seq<char>, base: int, q: int)
    requires
        wf_content(c),
        0 <= base,
        forall|t: int| 0 <= t < c.len() ==> s[base + t] == c[t],
        s.len() > base + c.len(),
        s[base + c.len()] == '\n',
        base <= q <= base + c.len(),
    ensures
        is_day_header_line(line_at(s, q)) ==> header_shape_at(c, q - base),
{
    if is_day_header_line(line_at(s, q)) {
        let l = line_at(s, q);
        crate::text::lemma_find_char_bounds(s, '\n', q);
        crate::text::lemma_find_char_min(s, '\n', q);
        match find_char_from(s, '\n', q) {
            Some(j) => {
                let raw = s.subrange(q, j);
                assert(l == crate::text::strip_cr(raw));
                assert(l.len() >= 12);
                assert(forall|t: int| 0 <= t < l.len() && l.len() < raw.len() + 1 ==> l[t] == raw[t]);
                assert(forall|t: int| 0 <= t < 12 ==> l[t] == s[q + t]);
                // the line holds no newline, so its first twelve characters
                // lie before the newline at the content's end
                if q + 12 > base + c.len() {
                    let w = base + c.len() - q;
                    assert(0 <= w < 12);
                    assert(l[w] == s[q + w]);
                    assert(q + w < q + l.len());
                    assert(l.len() <= raw.len());
                    assert(q + w < j);
                    assert(s[q + w] != '\n');
                    assert(false);
                }
                assert(header_shape_at(c, q - base)) by {
                    assert(forall|t: int| 0 <= t < 12 ==> #[trigger] c[q - base + t] == s[q + t]);
                }
            },
            None => {
                let raw = s.subrange(q, s.len() as int);
                assert(l == raw);
                assert(l.len() >= 12);
                assert(forall|t: int| 0 <= t < 12 ==> l[t] == s[q + t]);
                if q + 12 > base + c.len() {
                    assert(q <= base + c.len() < s.len());
                    assert(s[base + c.len()] != '\n');
                    assert(false);
                }
                assert(header_shape_at(c, q - base)) by {
                    assert(forall|t: int| 0 <= t < 12 ==> #[trigger] c[q - base + t] == s[q + t]);
                }
            },
        }
    }
}




proof fn lemma_wf_blocks_take_skip(bs: Seq<DayBlock>, k: int)
    requires
        wf_blocks(bs),
        0 <= k <= bs.len(),
    ensures
        wf_blocks(bs.take(k)),
        wf_blocks(bs.skip(k)),
{
    assert(forall|t: int| 0 <= t < k ==> #[trigger] bs.take(k)[t] == bs[t]);
    assert(forall|t: int| 0 <= t < bs.len() - k ==> #[trigger] bs.skip(k)[t] == bs[t + k]);
}

/// Rendering splits at any block boundary: the text before block `k`, one
/// separator newline, and the rendering of the remaining blocks.
proof fn lemma_render_split(bs: Seq<DayBlock>, k: int)
    requires
        0 <= k <= bs.len(),
    ensures
        k == 0 ==> block_start(bs, k) == 0 && render_blocks(bs).skip(block_start(bs, k))
            =~= render_blocks(bs.skip(k)),
        0 < k < bs.len() ==> render_blocks(bs) =~= render_blocks(bs.take(k)) + seq!['\n']
            + render_blocks(bs.skip(k)) && block_start(bs, k) == render_blocks(bs.take(k)).len()
            + 1,
        k == bs.len() && k > 0 ==> render_blocks(bs) =~= render_blocks(bs.take(k)),
    decreases k,
{
    if k == 0 {
        assert(bs.skip(0) =~= bs);
        assert(render_blocks(bs).skip(0) =~= render_blocks(bs));
    } else if k == bs.len() {
        assert(bs.take(k) =~= bs);
    } else {
        // 0 < k < bs.len(), so bs has at least two blocks
        lemma_render_split(bs.skip(1), k - 1);
        lemma_render_unfold(bs);
        assert(bs.skip(1).skip(k - 1) =~= bs.skip(k));
        assert(bs.skip(1).take(k - 1) =~= bs.take(k).skip(1));
        if k == 1 {
            assert(bs.take(1) =~= seq![bs[0]]);
            assert(render_blocks(bs.take(1)) == block_text(bs[0]));
            assert(block_start(bs, 1) == block_text(bs[0]).len() + 1);
            assert(render_blocks(bs) =~= render_blocks(bs.take(1)) + seq!['\n'] + render_blocks(
                bs.skip(1),
            ));
        } else {
            // bs.take(k) has k >= 2 blocks, first bs[0]
            assert(bs.take(k)[0] == bs[0]);
            assert(bs.take(k).len() == k);
            assert(render_blocks(bs.take(k)) == block_text(bs[0]) + seq!['\n'] + render_blocks(
                bs.take(k).skip(1),
            ));
            assert(render_blocks(bs) =~= render_blocks(bs.take(k)) + seq!['\n'] + render_blocks(
                bs.skip(k),
            ));
            assert(block_start(bs, k) == block_text(bs[0]).len() + 1 + block_start(
                bs.skip(1),
                k - 1,
            ));
        }
    }
}

/// Rendering a concatenation joins the two renderings with one separator.
proof fn lemma_render_concat(a: Seq<DayBlock>, b: Seq<DayBlock>)
    ensures
        a.len() == 0 ==> render_blocks(a + b) =~= render_blocks(b),
        b.len() == 0 ==> render_blocks(a + b) =~= render_blocks(a),
        a.len() > 0 && b.len() > 0 ==> render_blocks(a + b) =~= render_blocks(a) + seq!['\n']
            + render_blocks(b),
    decreases a.len(),
{
    if a.len() == 0 {
        assert(a + b =~= b);
    } else if b.len() == 0 {
        assert(a + b =~= a);
    } else {
        lemma_render_concat(a.skip(1), b);
        assert((a + b).len() >= 2);
        assert((a + b)[0] == a[0]);
        assert((a + b).skip(1) =~= a.skip(1) + b);
        assert(render_blocks(a + b) == block_text(a[0]) + seq!['\n'] + render_blocks(
            a.skip(1) + b,
        ));
        if a.len() == 1 {
            assert(a.skip(1).len() == 0);
            assert(render_blocks(a) == block_text(a[0]));
            assert(render_blocks(a + b) =~= render_blocks(a) + seq!['\n'] + render_blocks(b));
        } else {
            assert(render_blocks(a) == block_text(a[0]) + seq!['\n'] + render_blocks(a.skip(1)));
            assert(render_blocks(a + b) =~= render_blocks(a) + seq!['\n'] + render_blocks(b));
        }
    }
}

proof fn lemma_trim_end_len(s: Seq<char>)
    ensures
        trim_end_spec(s).len() <= s.len(),
    decreases s.len(),
{
    if s.len() > 0 && is_ws(s.last()) {
        lemma_trim_end_len(s.drop_last());
    }
}

/// The key facts about a trimmed tail: where it ends and that its last
/// character is not whitespace.
proof fn lemma_trim_end_props(s: Seq<char>)
    ensures
        trim_end_spec(s).len() <= s.len(),
        trim_end_spec(s) == s.take(trim_end_spec(s).len() as int),
        trim_end_spec(s).len() > 0 ==> !is_ws(trim_end_spec(s).last()),
        (trim_end_spec(s).len() == 0 <==> crate::text::is_blank(s)),
        forall|i: int|
            trim_end_spec(s).len() <= i < s.len() ==> is_ws(#[trigger] s[i]),
    decreases s.len(),
{
    lemma_trim_end_len(s);
    if s.len() == 0 {
        assert(trim_end_spec(s) =~= s.take(0));
    } else if is_ws(s.last()) {
        lemma_trim_end_props(s.drop_last());
        assert(s.drop_last().take(trim_end_spec(s).len() as int) =~= s.take(
            trim_end_spec(s).len() as int,
        ));
        assert forall|i: int| trim_end_spec(s).len() <= i < s.len() implies is_ws(
            #[trigger] s[i],
        ) by {
            if i < s.len() - 1 {
                assert(s.drop_last()[i] == s[i]);
            }
        }
        if crate::text::is_blank(s.drop_last()) {
            assert(crate::text::is_blank(s)) by {
                assert(forall|i: int|
                    0 <= i < s.len() - 1 ==> #[trigger] s[i] == s.drop_last()[i]);
            }
        }
        if crate::text::is_blank(s) {
            assert(crate::text::is_blank(s.drop_last()));
        }
    } else {
        assert(trim_end_spec(s) == s);
        assert(s.take(s.len() as int) =~= s);
        assert(!crate::text::is_blank(s));
    }
}

/// A non-empty well-formed rendering ends in exactly one newline, preceded
/// by the last block's final (non-whitespace) content character, and is at
/// least one whole block long.
proof fn lemma_render_tail(bs: Seq<DayBlock>)
    requires
        wf_blocks(bs),
        bs.len() > 0,
    ensures
        render_blocks(bs).len() >= 15,
        render_blocks(bs).last() == '\n',
        !is_ws(render_blocks(bs)[render_blocks(bs).len() - 2]),
    decreases bs.len(),
{
    let s = render_blocks(bs);
    if bs.len() == 1 {
        let c = bs[0].content;
        assert(!is_ws(c.last())) by {
            lemma_trim_end_props(c);
        }
        assert(s =~= block_text(bs[0]));
        assert(s[s.len() - 2] == c.last());
    } else {
        lemma_wf_blocks_take_skip(bs, 1);
        lemma_render_tail(bs.skip(1));
        lemma_render_unfold(bs);
        let tail = render_blocks(bs.skip(1));
        assert(s.len() == block_text(bs[0]).len() + 1 + tail.len());
        assert(s[s.len() - 1] == tail[tail.len() - 1]);
        assert(s[s.len() - 2] == tail[tail.len() - 2]);
    }
}


/// How the rendering decomposes around block `k`: the header at the block
/// start, its newline, and then the content followed by the rest.
proof fn lemma_block_decomposition(bs: Seq<DayBlock>, k: int)
    requires
        wf_blocks(bs),
        0 <= k < bs.len(),
    ensures
        ({
            let doc = render_blocks(bs);
            let i = block_start(bs, k);
            let c = bs[k].content;
            &&& 0 <= i
            &&& i + 13 + c.len() + 1 <= doc.len()
            &&& doc.skip(i) == render_blocks(bs.skip(k))
            &&& doc.subrange(i, i + 12) == header_chars(bs[k].date)
            &&& doc[i + 12] == '\n'
            &&& (k + 1 < bs.len() ==> doc.skip(i + 13) =~= c + seq!['\n'] + seq!['\n']
                + render_blocks(bs.skip(k + 1)))
            &&& (k + 1 == bs.len() ==> doc.skip(i + 13) =~= c + seq!['\n'])
        }),
{
    let doc = render_blocks(bs);
    let i = block_start(bs, k);
    let c = bs[k].content;
    lemma_render_split(bs, k);
    lemma_header_len(bs[k].date);
    if k == 0 {
        assert(doc.skip(i) =~= render_blocks(bs.skip(k)));
    } else {
        assert(doc =~= render_blocks(bs.take(k)) + seq!['\n'] + render_blocks(bs.skip(k)));
        assert(doc.skip(i) =~= render_blocks(bs.skip(k)));
    }
    let tail = bs.skip(k);
    lemma_render_unfold(tail);
    assert(tail[0] == bs[k]);
    if tail.len() == 1 {
        assert(render_blocks(tail) =~= block_text(bs[k]));
        assert(doc.skip(i).skip(13) =~= c + seq!['\n']);
        assert(doc.skip(i + 13) =~= doc.skip(i).skip(13));
        assert(doc.subrange(i, i + 12) =~= header_chars(bs[k].date));
    } else {
        assert(render_blocks(tail) =~= block_text(bs[k]) + seq!['\n'] + render_blocks(
            tail.skip(1),
        ));
        assert(tail.skip(1) =~= bs.skip(k + 1));
        assert(doc.skip(i).skip(13) =~= c + seq!['\n'] + seq!['\n'] + render_blocks(
            bs.skip(k + 1),
        ));
        assert(doc.skip(i + 13) =~= doc.skip(i).skip(13));
        assert(doc.subrange(i, i + 12) =~= header_chars(bs[k].date));
    }
}

/// Extraction over a well-formed rendering reads exactly one block's
/// content: the block of the requested date, or nothing when no block
/// carries it.
pub proof fn lemma_extract_over_render(bs: Seq<DayBlock>, d: Date)
    requires
        wf_blocks(bs),
        d.valid(),
    ensures
        extract_day_content_spec(render_blocks(bs), d) == match index_of_date(bs, d) {
            Some(k) => bs[k].content,
            None => Seq::<char>::empty(),
        },
{
    let doc = render_blocks(bs);
    let h = header_chars(d);
    lemma_header_len(d);
    lemma_find_header(bs, d);
    lemma_index_of_date_bounds(bs, d);
    match index_of_date(bs, d) {
        None => {},
        Some(k) => {
            let i = block_start(bs, k);
            let c = bs[k].content;
            lemma_block_decomposition(bs, k);
            let after_raw = doc.skip(i + 12);
            assert(after_raw[0] == '\n');
            assert(after_raw.skip(1) =~= doc.skip(i + 13));
            let after = after_raw.skip(1);
            let suffix = bs.skip(k + 1);
            lemma_wf_blocks_take_skip(bs, k + 1);
            lemma_next_header_in_after(c, suffix);
            lemma_trim_end_props(c);
            if k + 1 < bs.len() {
                assert(after =~= c + seq!['\n'] + seq!['\n'] + render_blocks(suffix));
                assert(find_next_day_header_spec(after) == Some(c.len() as int + 2));
                let head = after.take(c.len() as int + 2);
                assert(head =~= c + seq!['\n', '\n']);
                crate::text::lemma_trim_end_take(head, c.len() as int);
                assert(head.take(c.len() as int) =~= c);
            } else {
                assert(after =~= c + seq!['\n']);
                assert(find_next_day_header_spec(after) is None);
                crate::text::lemma_trim_end_take(after, c.len() as int);
                assert(after.take(c.len() as int) =~= c);
            }
        },
    }
}


/// Where a new block for `d` belongs: before the first strictly later
/// block, or at the end.
pub open spec fn insert_position(bs: Seq<DayBlock>, d: Date) -> int
    decreases bs.len(),
{
    if bs.len() == 0 {
        0
    } else if date_key(bs[0].date) > date_key(d) {
        0
    } else {
        1 + insert_position(bs.skip(1), d)
    }
}

/// What updating day `d` with content `c` does to the block model: with a
/// block present, blank content removes it and other content replaces its
/// content (trailing whitespace trimmed); with none, blank content changes
/// nothing and other content inserts a new block at the sorted position.
pub open spec fn update_blocks(bs: Seq<DayBlock>, d: Date, c: Seq<char>) -> Seq<DayBlock> {
    match index_of_date(bs, d) {
        Some(k) => if crate::text::is_blank(c) {
            bs.remove(k)
        } else {
            bs.update(k, DayBlock { date: d, content: trim_end_spec(c) })
        },
        None => if crate::text::is_blank(c) {
            bs
        } else {
            bs.insert(insert_position(bs, d), DayBlock { date: d, content: trim_end_spec(c) })
        },
    }
}

proof fn lemma_trim_start_hash(s: Seq<char>)
    requires
        s.len() > 0 ==> s[0] == '#',
    ensures
        trim_start_spec(s) == s,
{
}

/// The day-update law for a day the model holds: over a well-formed
/// rendering, updating block `k`'s day behaves exactly as removing or
/// replacing that block in the model.
/// The shared decomposition both update cases start from: the engine's
/// `before` and `after` pieces over a well-formed rendering.
#[verifier::rlimit(100)]
proof fn lemma_update_pieces(bs: Seq<DayBlock>, d: Date) -> (pieces: (Seq<char>, Seq<char>))
    requires
        wf_blocks(bs),
        d.valid(),
        index_of_date(bs, d) is Some,
    ensures
        ({
            let doc = render_blocks(bs);
            let k = index_of_date(bs, d)->0;
            let i = block_start(bs, k);
            &&& 0 <= k < bs.len() && bs[k].date == d
            &&& find_sub(doc, header_chars(d)) == Some(i)
            &&& pieces.0 == doc.take(i)
            &&& pieces.1 == crate::document::after_day_spec(doc, i, 12)
            &&& (k > 0 ==> pieces.0 =~= render_blocks(bs.take(k)) + seq!['\n'])
            &&& (k == 0 ==> pieces.0 =~= Seq::<char>::empty())
            &&& (k + 1 < bs.len() ==> pieces.1 =~= render_blocks(bs.skip(k + 1)))
            &&& (k + 1 == bs.len() ==> pieces.1 =~= Seq::<char>::empty())
            &&& trim_start_spec(pieces.1) == pieces.1
        }),
{
    let doc = render_blocks(bs);
    let h = header_chars(d);
    lemma_header_len(d);
    lemma_find_header(bs, d);
    lemma_index_of_date_bounds(bs, d);
    let k = index_of_date(bs, d)->0;
    let i = block_start(bs, k);
    let cc = bs[k].content;
    lemma_block_decomposition(bs, k);
    lemma_render_split(bs, k);
    lemma_wf_blocks_take_skip(bs, k);
    lemma_wf_blocks_take_skip(bs, k + 1);
    let suffix = bs.skip(k + 1);
    let before = doc.take(i);
    lemma_next_header_in_after(cc, suffix);
    let after_raw = doc.skip(i + 12);
    assert(after_raw[0] == '\n');
    assert(after_raw.skip(1) =~= doc.skip(i + 13));
    let after_header = after_raw.skip(1);
    let after: Seq<char> = if k + 1 < bs.len() {
        assert(after_header =~= cc + seq!['\n'] + seq!['\n'] + render_blocks(suffix));
        assert(find_next_day_header_spec(after_header) == Some(cc.len() as int + 2));
        let a = after_header.skip(cc.len() as int + 2);
        assert(a =~= render_blocks(suffix));
        a
    } else {
        assert(after_header =~= cc + seq!['\n']);
        assert(find_next_day_header_spec(after_header) is None);
        Seq::empty()
    };
    assert(crate::document::after_day_spec(doc, i, 12) == after);
    if k > 0 {
        assert(before =~= render_blocks(bs.take(k)) + seq!['\n']);
    } else {
        assert(before =~= Seq::<char>::empty());
    }
    if k + 1 < bs.len() {
        lemma_render_unfold(suffix);
        assert(after[0] == block_text(suffix[0])[0]);
        assert(after[0] == '#');
    }
    lemma_trim_start_hash(after);
    (before, after)
}

/// Removing a present day's block rejoins its neighbors with one blank
/// line: the engine result renders the model with the block dropped.
#[verifier::rlimit(100)]
proof fn lemma_update_present_blank(bs: Seq<DayBlock>, d: Date, c: Seq<char>)
    requires
        wf_blocks(bs),
        d.valid(),
        index_of_date(bs, d) is Some,
        crate::text::is_blank(c),
    ensures
        crate::document::update_day_content_spec(render_blocks(bs), d, c) == render_blocks(
            update_blocks(bs, d, c),
        ),
{
    let doc = render_blocks(bs);
    lemma_header_len(d);
    let (before, after) = lemma_update_pieces(bs, d);
    let k = index_of_date(bs, d)->0;
    let p = bs.take(k);
    let suffix = bs.skip(k + 1);
    lemma_wf_blocks_take_skip(bs, k);
    lemma_wf_blocks_take_skip(bs, k + 1);
    let target = bs.remove(k);
    assert(target =~= p + suffix);
    lemma_render_concat(p, suffix);
    let r0 = trim_end_spec(before);
    if k > 0 {
        lemma_render_tail(p);
        let rp = render_blocks(p);
        crate::text::lemma_trim_end_take(before, rp.len() - 1);
        assert(r0 =~= rp.take(rp.len() - 1));
    }
    if k > 0 && k + 1 < bs.len() {
        lemma_render_tail(suffix);
        let rs = render_blocks(suffix);
        let r2 = r0 + seq!['\n', '\n'] + trim_start_spec(after);
        assert(r2 =~= render_blocks(p) + seq!['\n'] + rs);
        assert(r2[r2.len() - 1] == rs[rs.len() - 1]);
        assert(r2[r2.len() - 2] == rs[rs.len() - 2]);
        crate::text::lemma_trim_end_take(r2, r2.len() - 1);
        assert(trim_end_spec(r2) + seq!['\n'] =~= r2);
        assert(render_blocks(target) =~= r2);
        assert(crate::document::remove_day_spec(before, after) == trim_end_spec(r2) + seq!['\n']);
    } else if k > 0 {
        lemma_render_tail(p);
        let r2 = r0 + trim_start_spec(after);
        assert(r2 =~= r0);
        assert(r2.len() > 0);
        assert(!is_ws(r2.last()));
        assert(trim_end_spec(r2) == r2);
        assert(trim_end_spec(r2) + seq!['\n'] =~= render_blocks(p));
        assert(target =~= p);
        assert(crate::document::remove_day_spec(before, after) == trim_end_spec(r2) + seq!['\n']);
    } else if k + 1 < bs.len() {
        lemma_render_tail(suffix);
        let rs = render_blocks(suffix);
        let r2 = r0 + trim_start_spec(after);
        assert(r2 =~= rs);
        assert(r2[r2.len() - 1] == rs[rs.len() - 1]);
        assert(r2[r2.len() - 2] == rs[rs.len() - 2]);
        crate::text::lemma_trim_end_take(r2, r2.len() - 1);
        assert(trim_end_spec(r2) + seq!['\n'] =~= rs);
        assert(target =~= suffix);
        assert(crate::document::remove_day_spec(before, after) == trim_end_spec(r2) + seq!['\n']);
    } else {
        let r2 = r0 + trim_start_spec(after);
        assert(r2 =~= Seq::<char>::empty());
        assert(target =~= Seq::<DayBlock>::empty());
        assert(crate::document::remove_day_spec(before, after) == r2);
    }
}

/// Replacing a present day's content touches only that block: the engine
/// result renders the model with the block's content replaced.
#[verifier::rlimit(100)]
proof fn lemma_update_present_replace(bs: Seq<DayBlock>, d: Date, c: Seq<char>)
    requires
        wf_blocks(bs),
        d.valid(),
        index_of_date(bs, d) is Some,
        !crate::text::is_blank(c),
    ensures
        crate::document::update_day_content_spec(render_blocks(bs), d, c) == render_blocks(
            update_blocks(bs, d, c),
        ),
{
    let doc = render_blocks(bs);
    let h = header_chars(d);
    lemma_header_len(d);
    let (before, after) = lemma_update_pieces(bs, d);
    let k = index_of_date(bs, d)->0;
    let p = bs.take(k);
    let suffix = bs.skip(k + 1);
    lemma_wf_blocks_take_skip(bs, k);
    lemma_wf_blocks_take_skip(bs, k + 1);
    lemma_trim_end_props(c);
    let nc = trim_end_spec(c);
    assert(nc.len() > 0);
    assert(!is_ws(nc.last()));
    let nb = DayBlock { date: d, content: nc };
    let target = bs.update(k, nb);
    assert(target =~= p + (seq![nb] + suffix));
    lemma_render_concat(p, seq![nb] + suffix);
    lemma_render_concat(seq![nb], suffix);
    assert(render_blocks(seq![nb]) == block_text(nb));
    let inner = before + h + seq!['\n'] + nc + seq!['\n', '\n'] + after;
    if k + 1 < bs.len() {
        lemma_render_tail(suffix);
        let rs = render_blocks(suffix);
        assert(render_blocks(seq![nb] + suffix) =~= block_text(nb) + seq!['\n'] + rs);
        if k > 0 {
            assert(render_blocks(target) =~= render_blocks(p) + seq!['\n'] + (block_text(nb)
                + seq!['\n'] + rs));
            assert(inner =~= render_blocks(p) + seq!['\n'] + block_text(nb) + seq!['\n'] + rs);
        } else {
            assert(render_blocks(target) =~= block_text(nb) + seq!['\n'] + rs);
            assert(inner =~= block_text(nb) + seq!['\n'] + rs);
        }
        assert(inner[inner.len() - 1] == rs[rs.len() - 1]);
        assert(inner[inner.len() - 2] == rs[rs.len() - 2]);
        crate::text::lemma_trim_end_take(inner, inner.len() - 1);
        assert(trim_end_spec(inner) + seq!['\n'] =~= inner);
        assert(render_blocks(target) =~= inner);
    } else {
        assert(render_blocks(seq![nb] + suffix) =~= block_text(nb)) by {
            assert(seq![nb] + suffix =~= seq![nb]);
        }
        if k > 0 {
            assert(render_blocks(target) =~= render_blocks(p) + seq!['\n'] + block_text(nb));
            assert(inner =~= render_blocks(p) + seq!['\n'] + (h + seq!['\n'] + nc) + seq![
                '\n', '\n',
            ]);
        } else {
            assert(render_blocks(target) =~= block_text(nb));
            assert(inner =~= (h + seq!['\n'] + nc) + seq!['\n', '\n']);
        }
        assert(inner[inner.len() - 3] == nc.last());
        assert(inner[inner.len() - 2] == '\n');
        assert(inner[inner.len() - 1] == '\n');
        crate::text::lemma_trim_end_take(inner, inner.len() - 2);
        assert(trim_end_spec(inner) =~= inner.take(inner.len() - 2));
        assert(render_blocks(target) =~= trim_end_spec(inner) + seq!['\n']);
    }
    assert(crate::document::replace_day_spec(before, h, c, after) == trim_end_spec(inner) + seq![
        '\n',
    ]);
}

/// The day-update law for a day the model holds: over a well-formed
/// rendering, updating that day's block behaves exactly as removing or
/// replacing the block in the model.  In particular every other block's
/// bytes — headers, contents, and the blank-line separation — are exactly
/// those of the re-rendered model.
pub proof fn lemma_update_present(bs: Seq<DayBlock>, d: Date, c: Seq<char>)
    requires
        wf_blocks(bs),
        d.valid(),
        index_of_date(bs, d) is Some,
    ensures
        crate::document::update_day_content_spec(render_blocks(bs), d, c) == render_blocks(
            update_blocks(bs, d, c),
        ),
{
    if crate::text::is_blank(c) {
        lemma_update_present_blank(bs, d, c);
    } else {
        lemma_update_present_replace(bs, d, c);
    }
}


/// In a well-formed model each block is the first of its date.
proof fn lemma_index_of_own(bs: Seq<DayBlock>, k: int)
    requires
        wf_blocks(bs),
        0 <= k < bs.len(),
    ensures
        index_of_date(bs, bs[k].date) == Some(k),
    decreases k,
{
    if k > 0 {
        assert(date_key(bs[0].date) < date_key(bs[k].date));
        lemma_wf_blocks_take_skip(bs, 1);
        lemma_index_of_own(bs.skip(1), k - 1);
        assert(bs.skip(1)[k - 1] == bs[k]);
    }
}

/// Consecutive block starts differ by one block plus the separator.
proof fn lemma_block_start_step(bs: Seq<DayBlock>, k: int)
    requires
        0 <= k < bs.len(),
    ensures
        block_start(bs, k + 1) == block_start(bs, k) + block_text(bs[k]).len() + 1,
    decreases k,
{
    if k == 0 {
        assert(block_start(bs, 1) == block_text(bs[0]).len() + 1 + block_start(bs.skip(1), 0));
        assert(block_start(bs.skip(1), 0) == 0);
        assert(block_start(bs, 0) == 0);
    } else {
        lemma_block_start_step(bs.skip(1), k - 1);
        assert(bs.skip(1)[k - 1] == bs[k]);
        assert(block_start(bs, k + 1) == block_text(bs[0]).len() + 1 + block_start(
            bs.skip(1),
            k,
        ));
        assert(block_start(bs, k) == block_text(bs[0]).len() + 1 + block_start(
            bs.skip(1),
            k - 1,
        ));
    }
}

/// Stepping the insertion search over a region whose lines are no day
/// headers, with steps staying inside, lands at the region's end.
proof fn lemma_insertion_walk(s: Seq<char>, d: Date, pos: int, end: int)
    requires
        0 <= pos <= end <= s.len(),
        forall|q: int| pos <= q < end ==> !is_day_header_line(#[trigger] line_at(s, q)),
        forall|q: int| pos <= q < end ==> #[trigger] next_line_pos(s, q) <= end,
    ensures
        crate::document::insertion_from(s, d, pos) == crate::document::insertion_from(s, d, end),
    decreases end - pos,
{
    if pos < end {
        crate::text::lemma_find_char_bounds(s, '\n', pos);
        let nxt = next_line_pos(s, pos);
        assert(pos < nxt <= end);
        lemma_insertion_walk(s, d, nxt, end);
    }
}

/// The sorted insertion point over a well-formed rendering, searched from
/// block `k` on: the start of the first strictly later block, or nowhere.
#[verifier::rlimit(100)]
proof fn lemma_fip_from_block(bs: Seq<DayBlock>, d: Date, k: int)
    requires
        wf_blocks(bs),
        d.valid(),
        0 <= k <= bs.len(),
    ensures
        ({
            let doc = render_blocks(bs);
            let pos = if k < bs.len() {
                block_start(bs, k)
            } else {
                doc.len() as int
            };
            let j = k + insert_position(bs.skip(k), d);
            crate::document::insertion_from(doc, d, pos) == if j < bs.len() {
                Some(block_start(bs, j))
            } else {
                None::<int>
            }
        }),
    decreases bs.len() - k,
{
    let doc = render_blocks(bs);
    if k == bs.len() {
        assert(bs.skip(k).len() == 0);
        assert(insert_position(bs.skip(k), d) == 0);
    } else {
        let pos = block_start(bs, k);
        let c = bs[k].content;
        lemma_block_decomposition(bs, k);
        lemma_header_len(bs[k].date);
        lemma_header_no_newline(bs[k].date);
        lemma_parse_own_header(bs[k].date);
        let h = header_chars(bs[k].date);
        // the line at the block start is exactly the header
        assert forall|t: int| 0 <= t < 12 implies s_at(doc, pos + t) == h[t] by {
            assert(doc.subrange(pos, pos + 12)[t] == h[t]);
        }
        assert(doc[pos + 12] == '\n');
        crate::text::lemma_find_char_from(doc, '\n', pos, pos + 12);
        assert(line_at(doc, pos) =~= h) by {
            assert(forall|t: int|
                0 <= t < 12 ==> #[trigger] doc.subrange(pos, pos + 12)[t] == doc[pos + t]);
            assert(crate::text::is_digit(h[11]));
            assert(h[11] != '\r');
            assert(crate::text::strip_cr(doc.subrange(pos, pos + 12)) == doc.subrange(
                pos,
                pos + 12,
            ));
        }
        assert(crate::document::parse_day_header_spec(line_at(doc, pos)) == Some(bs[k].date));
        assert(bs.skip(k)[0] == bs[k]);
        if date_key(bs[k].date) > date_key(d) {
            assert(insert_position(bs.skip(k), d) == 0);
            lemma_find_header(bs, bs[k].date);
            lemma_index_of_own(bs, k);
            assert(crate::document::insertion_from(doc, d, pos) == find_sub(doc, h));
        } else {
            assert(insert_position(bs.skip(k), d) == 1 + insert_position(bs.skip(k).skip(1), d));
            assert(bs.skip(k).skip(1) =~= bs.skip(k + 1));
            assert(next_line_pos(doc, pos) == pos + 13);
            // walk the content region to the next block start or the end
            let end = if k + 1 < bs.len() {
                block_start(bs, k + 1)
            } else {
                doc.len() as int
            };
            lemma_block_start_step(bs, k);
            if k + 1 < bs.len() {
                assert(end == pos + 13 + c.len() + 2);
            } else {
                assert(doc.skip(pos + 13).len() == c.len() + 1);
                assert(end == pos + 13 + c.len() + 1);
            }
            assert forall|t: int| 0 <= t < c.len() + 1 implies #[trigger] doc[pos + 13 + t] == (c
                + seq!['\n'])[t] by {
                assert(doc.skip(pos + 13)[t] == doc[pos + 13 + t]);
                if k + 1 < bs.len() {
                    assert(doc.skip(pos + 13)[t] == (c + seq!['\n'] + seq!['\n'] + render_blocks(
                        bs.skip(k + 1),
                    ))[t]);
                } else {
                    assert(doc.skip(pos + 13)[t] == (c + seq!['\n'])[t]);
                }
            }
            assert(doc[pos + 13 + c.len()] == '\n');
            assert(forall|t: int| 0 <= t < c.len() ==> #[trigger] doc[pos + 13 + t] == c[t]);
            assert forall|q: int| pos + 13 <= q < end implies !is_day_header_line(
                #[trigger] line_at(doc, q),
            ) by {
                if q <= pos + 13 + c.len() {
                    lemma_line_not_header(c, doc, pos + 13, q);
                } else {
                    assert(q == pos + 13 + c.len() + 1 && k + 1 < bs.len());
                    assert(doc.skip(pos + 13)[c.len() as int + 1] == doc[q]);
                    assert(doc.skip(pos + 13)[c.len() as int + 1] == (c + seq!['\n'] + seq!['\n']
                        + render_blocks(bs.skip(k + 1)))[c.len() as int + 1]);
                    assert(doc[q] == '\n');
                    assert(find_char_from(doc, '\n', q) == Some(q));
                    assert(line_at(doc, q) =~= Seq::<char>::empty());
                }
            }
            assert forall|q: int| pos + 13 <= q < end implies #[trigger] next_line_pos(doc, q)
                <= end by {
                if q <= pos + 13 + c.len() {
                    crate::text::lemma_find_char_first(doc, '\n', q, pos + 13 + c.len());
                } else {
                    assert(q == pos + 13 + c.len() + 1 && k + 1 < bs.len());
                    assert(doc.skip(pos + 13)[c.len() as int + 1] == doc[q]);
                    assert(doc.skip(pos + 13)[c.len() as int + 1] == (c + seq!['\n'] + seq!['\n']
                        + render_blocks(bs.skip(k + 1)))[c.len() as int + 1]);
                    assert(doc[q] == '\n');
                    assert(find_char_from(doc, '\n', q) == Some(q));
                }
            }
            lemma_insertion_walk(doc, d, pos + 13, end);
            lemma_fip_from_block(bs, d, k + 1);
        }
    }
}

spec fn s_at(s: Seq<char>, i: int) -> char {
    s[i]
}

/// The engine's insertion point over a well-formed rendering is the sorted
/// position: the start of the first strictly later block, or the end.
pub proof fn lemma_insertion_point_over_render(bs: Seq<DayBlock>, d: Date)
    requires
        wf_blocks(bs),
        d.valid(),
    ensures
        crate::document::find_insertion_point_spec(render_blocks(bs), d) == (if insert_position(
            bs,
            d,
        ) < bs.len() {
            Some(block_start(bs, insert_position(bs, d)))
        } else {
            None::<int>
        }),
{
    lemma_fip_from_block(bs, d, 0);
    assert(bs.skip(0) =~= bs);
    if bs.len() == 0 {
        assert(render_blocks(bs).len() == 0);
    }
}


/// The day-update law for a day the model lacks: blank content changes
/// nothing, and other content inserts a new block at the sorted position,
/// one blank line from each neighbor.
#[verifier::rlimit(100)]
pub proof fn lemma_update_absent(bs: Seq<DayBlock>, d: Date, c: Seq<char>)
    requires
        wf_blocks(bs),
        d.valid(),
        index_of_date(bs, d) is None,
    ensures
        crate::document::update_day_content_spec(render_blocks(bs), d, c) == render_blocks(
            update_blocks(bs, d, c),
        ),
{
    let doc = render_blocks(bs);
    let h = header_chars(d);
    lemma_header_len(d);
    lemma_find_header(bs, d);
    if crate::text::is_blank(c) {
        return ;
    }
    lemma_insertion_point_over_render(bs, d);
    lemma_trim_end_props(c);
    let nc = trim_end_spec(c);
    assert(nc.len() > 0);
    assert(!is_ws(nc.last()));
    let nb = DayBlock { date: d, content: nc };
    let new_day = h + seq!['\n'] + nc + seq!['\n'];
    assert(trim_end_spec(new_day) =~= h + seq!['\n'] + nc) by {
        lemma_header_no_newline(d);
        crate::text::lemma_trim_end_take(new_day, new_day.len() - 1);
        assert(new_day[new_day.len() - 2] == nc.last());
        assert(new_day.take(new_day.len() - 1) =~= h + seq!['\n'] + nc);
    }
    let j = insert_position(bs, d);
    lemma_insert_position_bounds(bs, d);
    let target = bs.insert(j, nb);
    if j < bs.len() {
        let p = block_start(bs, j);
        lemma_render_split(bs, j);
        lemma_wf_blocks_take_skip(bs, j);
        let pre = bs.take(j);
        let suf = bs.skip(j);
        assert(target =~= pre + (seq![nb] + suf));
        lemma_render_concat(pre, seq![nb] + suf);
        lemma_render_concat(seq![nb], suf);
        assert(render_blocks(seq![nb]) == block_text(nb));
        let after = doc.skip(p);
        lemma_block_decomposition(bs, j);
        assert(after == render_blocks(suf));
        lemma_render_tail(suf);
        lemma_render_unfold(suf);
        assert(after[0] == block_text(suf[0])[0]);
        assert(after[0] == '#');
        lemma_trim_start_hash(after);
        let rs = render_blocks(suf);
        if j == 0 {
            assert(doc.take(0) =~= Seq::<char>::empty());
            assert(trim_end_spec(doc.take(p)) =~= Seq::<char>::empty());
            let inner = trim_end_spec(new_day) + seq!['\n', '\n'] + trim_start_spec(after);
            assert(inner =~= block_text(nb) + seq!['\n'] + rs);
            assert(render_blocks(target) =~= block_text(nb) + seq!['\n'] + rs);
            assert(inner[inner.len() - 1] == rs[rs.len() - 1]);
            assert(inner[inner.len() - 2] == rs[rs.len() - 2]);
            crate::text::lemma_trim_end_take(inner, inner.len() - 1);
            assert(trim_end_spec(inner) + seq!['\n'] =~= inner);
            assert(crate::document::insert_new_day_spec(doc, d, h, c) == trim_end_spec(inner)
                + seq!['\n']);
        } else {
            lemma_render_tail(pre);
            let rp = render_blocks(pre);
            assert(doc.take(p) =~= rp + seq!['\n']);
            crate::text::lemma_trim_end_take(doc.take(p), rp.len() - 1);
            let before = trim_end_spec(doc.take(p));
            assert(before =~= rp.take(rp.len() - 1));
            let inner = before + seq!['\n', '\n'] + trim_end_spec(new_day) + seq!['\n', '\n']
                + trim_start_spec(after);
            assert(inner =~= rp + seq!['\n'] + (block_text(nb) + seq!['\n'] + rs));
            assert(render_blocks(target) =~= rp + seq!['\n'] + (block_text(nb) + seq!['\n']
                + rs));
            assert(inner[inner.len() - 1] == rs[rs.len() - 1]);
            assert(inner[inner.len() - 2] == rs[rs.len() - 2]);
            crate::text::lemma_trim_end_take(inner, inner.len() - 1);
            assert(trim_end_spec(inner) + seq!['\n'] =~= inner);
            assert(crate::document::insert_new_day_spec(doc, d, h, c) == trim_end_spec(inner)
                + seq!['\n']);
        }
    } else {
        // append at the end
        assert(target =~= bs + seq![nb]);
        lemma_render_concat(bs, seq![nb]);
        assert(render_blocks(seq![nb]) == block_text(nb));
        if bs.len() == 0 {
            assert(doc.len() == 0);
            assert(trim_end_spec(doc) =~= Seq::<char>::empty());
            assert(crate::document::insert_new_day_spec(doc, d, h, c) =~= trim_end_spec(new_day)
                + seq!['\n']);
            assert(render_blocks(target) =~= block_text(nb));
            assert(trim_end_spec(new_day) + seq!['\n'] =~= block_text(nb));
        } else {
            lemma_render_tail(bs);
            crate::text::lemma_trim_end_take(doc, doc.len() - 1);
            let r0 = trim_end_spec(doc);
            assert(r0 =~= doc.take(doc.len() - 1));
            assert(r0.len() > 0);
            assert(crate::document::insert_new_day_spec(doc, d, h, c) == r0 + seq!['\n', '\n']
                + trim_end_spec(new_day) + seq!['\n']);
            assert(render_blocks(target) =~= render_blocks(bs) + seq!['\n'] + block_text(nb));
            assert(r0 + seq!['\n', '\n'] + trim_end_spec(new_day) + seq!['\n'] =~= render_blocks(
                bs,
            ) + seq!['\n'] + block_text(nb));
        }
    }
}

/// Everything before the insertion position is strictly earlier, and the
/// block at it (when any) strictly later, than the inserted day.
pub proof fn lemma_insert_position_bounds(bs: Seq<DayBlock>, d: Date)
    requires
        wf_blocks(bs),
        d.valid(),
        index_of_date(bs, d) is None,
    ensures
        0 <= insert_position(bs, d) <= bs.len(),
        forall|t: int|
            0 <= t < insert_position(bs, d) ==> date_key(#[trigger] bs[t].date) < date_key(d),
        insert_position(bs, d) < bs.len() ==> date_key(bs[insert_position(bs, d)].date)
            > date_key(d),
    decreases bs.len(),
{
    lemma_index_of_date_bounds(bs, d);
    if bs.len() > 0 && date_key(bs[0].date) <= date_key(d) {
        assert(bs[0].date != d);
        lemma_date_key_injective(bs[0].date, d);
        lemma_wf_blocks_take_skip(bs, 1);
        assert(index_of_date(bs.skip(1), d) is None);
        lemma_insert_position_bounds(bs.skip(1), d);
        assert(forall|t: int|
            0 <= t < bs.skip(1).len() ==> #[trigger] bs.skip(1)[t] == bs[t + 1]);
        assert forall|t: int|
            0 <= t < insert_position(bs, d) implies date_key(#[trigger] bs[t].date) < date_key(
            d,
        ) by {
            if t > 0 {
                assert(bs.skip(1)[t - 1] == bs[t]);
            }
        }
    }
}

/// Distinct valid dates have distinct keys.
proof fn lemma_date_key_injective(a: Date, b: Date)
    requires
        a.valid(),
        b.valid(),
        a != b,
    ensures
        date_key(a) != date_key(b),
{
    if date_key(a) == date_key(b) {
        assert(a.day == b.day && a.month == b.month && a.year == b.year) by (nonlinear_arith)
            requires
                a.year * 10000 + a.month * 100 + a.day == b.year * 10000 + b.month * 100 + b.day,
                1 <= a.month <= 12 && 1 <= a.day <= 31,
                1 <= b.month <= 12 && 1 <= b.day <= 31,
        ;
    }
}

/// The full day-update law: over a well-formed rendering, updating one
/// day's content is exactly the model operation — replace, remove, insert
/// at the sorted position, or nothing.
pub proof fn lemma_update_over_render(bs: Seq<DayBlock>, d: Date, c: Seq<char>)
    requires
        wf_blocks(bs),
        d.valid(),
    ensures
        crate::document::update_day_content_spec(render_blocks(bs), d, c) == render_blocks(
            update_blocks(bs, d, c),
        ),
{
    if index_of_date(bs, d) is Some {
        lemma_update_present(bs, d, c);
    } else {
        lemma_update_absent(bs, d, c);
    }
}


/// The model operation preserves well-formedness.
proof fn lemma_wf_update_blocks(bs: Seq<DayBlock>, d: Date, c: Seq<char>)
    requires
        wf_blocks(bs),
        d.valid(),
        !crate::text::is_blank(c) ==> forall|i: int| !header_shape_at(c, i),
    ensures
        wf_blocks(update_blocks(bs, d, c)),
{
    let bs2 = update_blocks(bs, d, c);
    lemma_index_of_date_bounds(bs, d);
    if !crate::text::is_blank(c) {
        lemma_trim_end_props(c);
        let nc = trim_end_spec(c);
        assert(wf_content(nc)) by {
            assert(trim_end_spec(nc) == nc);
            assert forall|i: int| !header_shape_at(nc, i) by {
                if header_shape_at(nc, i) {
                    assert(forall|t: int| 0 <= t < nc.len() ==> #[trigger] nc[t] == c[t]);
                    assert(header_shape_at(c, i));
                }
            }
        }
    }
    match index_of_date(bs, d) {
        Some(k) => {
            if crate::text::is_blank(c) {
                assert forall|t: int|
                    0 <= t < bs2.len() implies (#[trigger] bs2[t]).date.valid() && wf_content(
                    bs2[t].content,
                ) by {
                    assert(bs2[t] == if t < k {
                        bs[t]
                    } else {
                        bs[t + 1]
                    });
                }
                assert forall|j: int, t: int| 0 <= j < t < bs2.len() implies date_key(
                    #[trigger] bs2[j].date,
                ) < date_key(#[trigger] bs2[t].date) by {
                    assert(bs2[j] == if j < k {
                        bs[j]
                    } else {
                        bs[j + 1]
                    });
                    assert(bs2[t] == if t < k {
                        bs[t]
                    } else {
                        bs[t + 1]
                    });
                }
            } else {
                assert forall|t: int|
                    0 <= t < bs2.len() implies (#[trigger] bs2[t]).date.valid() && wf_content(
                    bs2[t].content,
                ) by {
                    if t != k {
                        assert(bs2[t] == bs[t]);
                    }
                }
                assert forall|j: int, t: int| 0 <= j < t < bs2.len() implies date_key(
                    #[trigger] bs2[j].date,
                ) < date_key(#[trigger] bs2[t].date) by {
                    assert(bs2[j].date == bs[j].date);
                    assert(bs2[t].date == bs[t].date);
                }
            }
        },
        None => {
            if !crate::text::is_blank(c) {
                let j = insert_position(bs, d);
                lemma_insert_position_bounds(bs, d);
                assert forall|t: int|
                    0 <= t < bs2.len() implies (#[trigger] bs2[t]).date.valid() && wf_content(
                    bs2[t].content,
                ) by {
                    assert(bs2[t] == if t < j {
                        bs[t]
                    } else if t == j {
                        DayBlock { date: d, content: trim_end_spec(c) }
                    } else {
                        bs[t - 1]
                    });
                }
                assert forall|t1: int, t2: int| 0 <= t1 < t2 < bs2.len() implies date_key(
                    #[trigger] bs2[t1].date,
                ) < date_key(#[trigger] bs2[t2].date) by {
                    assert(bs2[t1] == if t1 < j {
                        bs[t1]
                    } else if t1 == j {
                        DayBlock { date: d, content: trim_end_spec(c) }
                    } else {
                        bs[t1 - 1]
                    });
                    assert(bs2[t2] == if t2 < j {
                        bs[t2]
                    } else if t2 == j {
                        DayBlock { date: d, content: trim_end_spec(c) }
                    } else {
                        bs[t2 - 1]
                    });
                    if t1 == j && t2 > j {
                        assert(date_key(bs[j].date) > date_key(d));
                        if t2 - 1 > j {
                            assert(date_key(bs[j].date) < date_key(bs[t2 - 1].date));
                        }
                    }
                    if t2 == j && t1 < j {
                        assert(date_key(bs[t1].date) < date_key(d));
                    }
                }
            }
        },
    }
}

/// Insertion ordering law: updating an absent day inserts its block exactly
/// between the strictly earlier days and the strictly later ones — first
/// when every day is later, last when every day is earlier.
pub proof fn lemma_insertion_ordering(bs: Seq<DayBlock>, d: Date, c: Seq<char>)
    requires
        wf_blocks(bs),
        d.valid(),
        index_of_date(bs, d) is None,
        !crate::text::is_blank(c),
    ensures
        crate::document::update_day_content_spec(render_blocks(bs), d, c) == render_blocks(
            bs.insert(insert_position(bs, d), DayBlock { date: d, content: trim_end_spec(c) }),
        ),
        forall|t: int|
            0 <= t < insert_position(bs, d) ==> date_key(#[trigger] bs[t].date) < date_key(d),
        insert_position(bs, d) < bs.len() ==> date_key(bs[insert_position(bs, d)].date)
            > date_key(d),
{
    lemma_update_absent(bs, d, c);
    lemma_insert_position_bounds(bs, d);
}

/// Empty-content removal law: blank content removes a present day's block
/// entirely — afterwards the day extracts as empty — and is a no-op when
/// the day was absent.
pub proof fn lemma_empty_content_removal(bs: Seq<DayBlock>, d: Date, c: Seq<char>)
    requires
        wf_blocks(bs),
        d.valid(),
        crate::text::is_blank(c),
    ensures
        index_of_date(bs, d) is Some ==> crate::document::update_day_content_spec(
            render_blocks(bs),
            d,
            c,
        ) == render_blocks(bs.remove(index_of_date(bs, d)->0)),
        index_of_date(bs, d) is Some ==> crate::document::extract_day_content_spec(
            crate::document::update_day_content_spec(render_blocks(bs), d, c),
            d,
        ) == Seq::<char>::empty(),
        index_of_date(bs, d) is None ==> crate::document::update_day_content_spec(
            render_blocks(bs),
            d,
            c,
        ) == render_blocks(bs),
{
    lemma_update_over_render(bs, d, c);
    lemma_index_of_date_bounds(bs, d);
    if index_of_date(bs, d) is Some {
        let k = index_of_date(bs, d)->0;
        let bs2 = update_blocks(bs, d, c);
        assert(bs2 == bs.remove(k));
        lemma_wf_update_blocks(bs, d, c);
        lemma_extract_over_render(bs2, d);
        lemma_index_of_date_bounds(bs2, d);
        if index_of_date(bs2, d) is Some {
            let k2 = index_of_date(bs2, d)->0;
            assert(bs2[k2] == if k2 < k {
                bs[k2]
            } else {
                bs[k2 + 1]
            });
            if k2 < k {
                assert(date_key(bs[k2].date) < date_key(bs[k].date));
            } else {
                assert(date_key(bs[k].date) < date_key(bs[k2 + 1].date));
            }
            lemma_date_key_injective(bs2[k2].date, d);
            assert(false);
        }
    }
}

/// Day isolation law: updating one day never changes what any other day
/// extracts to — other blocks' bytes and the separation convention are
/// untouched.
pub proof fn lemma_day_isolation(bs: Seq<DayBlock>, d: Date, c: Seq<char>, d2: Date)
    requires
        wf_blocks(bs),
        d.valid(),
        d2.valid(),
        d2 != d,
        !crate::text::is_blank(c) ==> forall|i: int| !header_shape_at(c, i),
    ensures
        crate::document::extract_day_content_spec(
            crate::document::update_day_content_spec(render_blocks(bs), d, c),
            d2,
        ) == crate::document::extract_day_content_spec(render_blocks(bs), d2),
{
    lemma_update_over_render(bs, d, c);
    lemma_wf_update_blocks(bs, d, c);
    let bs2 = update_blocks(bs, d, c);
    lemma_extract_over_render(bs, d2);
    lemma_extract_over_render(bs2, d2);
    lemma_index_of_date_bounds(bs, d);
    lemma_index_of_date_bounds(bs, d2);
    lemma_index_of_date_bounds(bs2, d2);
    match index_of_date(bs, d2) {
        Some(k2) => {
            assert(bs[k2].date == d2);
            let k2p: int = match index_of_date(bs, d) {
                Some(k) => {
                    if crate::text::is_blank(c) {
                        if k2 < k {
                            k2
                        } else {
                            k2 - 1
                        }
                    } else {
                        k2
                    }
                },
                None => {
                    if crate::text::is_blank(c) {
                        k2
                    } else {
                        if k2 < insert_position(bs, d) {
                            k2
                        } else {
                            k2 + 1
                        }
                    }
                },
            };
            proof_index_survives(bs, d, c, k2, k2p);
            lemma_index_of_own(bs2, k2p);
        },
        None => {
            if index_of_date(bs2, d2) is Some {
                let t = index_of_date(bs2, d2)->0;
                assert(bs2[t].date == d2);
                proof_no_new_date(bs, d, c, t);
                assert(false);
            }
        },
    }
}

/// A block of another date survives the update at a computable index.
proof fn proof_index_survives(bs: Seq<DayBlock>, d: Date, c: Seq<char>, k2: int, k2p: int)
    requires
        wf_blocks(bs),
        d.valid(),
        0 <= k2 < bs.len(),
        bs[k2].date != d,
        k2p == ({
            let bs2 = update_blocks(bs, d, c);
            match index_of_date(bs, d) {
                Some(k) => if crate::text::is_blank(c) {
                    if k2 < k {
                        k2
                    } else {
                        k2 - 1int
                    }
                } else {
                    k2
                },
                None => if crate::text::is_blank(c) {
                    k2
                } else {
                    if k2 < insert_position(bs, d) {
                        k2
                    } else {
                        k2 + 1
                    }
                },
            }
        }),
    ensures
        0 <= k2p < update_blocks(bs, d, c).len(),
        update_blocks(bs, d, c)[k2p] == bs[k2],
{
    let bs2 = update_blocks(bs, d, c);
    lemma_index_of_date_bounds(bs, d);
    match index_of_date(bs, d) {
        Some(k) => {
            assert(bs[k].date == d);
            assert(k != k2);
            if crate::text::is_blank(c) {
                assert(bs2 == bs.remove(k));
                assert(bs2[k2p] == bs[k2]);
            } else {
                assert(bs2[k2p] == bs[k2]);
            }
        },
        None => {
            if !crate::text::is_blank(c) {
                lemma_insert_position_bounds(bs, d);
                assert(bs2[k2p] == bs[k2]);
            }
        },
    }
}

/// The update introduces no block of a date other than its own.
proof fn proof_no_new_date(bs: Seq<DayBlock>, d: Date, c: Seq<char>, t: int)
    requires
        wf_blocks(bs),
        d.valid(),
        0 <= t < update_blocks(bs, d, c).len(),
        update_blocks(bs, d, c)[t].date != d,
    ensures
        exists|u: int|
            0 <= u < bs.len() && (#[trigger] bs[u]).date == update_blocks(bs, d, c)[t].date,
{
    let bs2 = update_blocks(bs, d, c);
    lemma_index_of_date_bounds(bs, d);
    match index_of_date(bs, d) {
        Some(k) => {
            if crate::text::is_blank(c) {
                let u = if t < k {
                    t
                } else {
                    t + 1
                };
                assert(bs2[t] == bs[u]);
            } else {
                assert(t != k);
                assert(bs2[t] == bs[t]);
                assert(bs[t].date == bs2[t].date);
            }
        },
        None => {
            if crate::text::is_blank(c) {
                assert(bs2[t] == bs[t]);
            } else {
                lemma_insert_position_bounds(bs, d);
                let j = insert_position(bs, d);
                assert(t != j);
                let u = if t < j {
                    t
                } else {
                    t - 1
                };
                assert(bs2[t] == bs[u]);
            }
        },
    }
}

} // verus!
