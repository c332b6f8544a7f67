//! Character-level text utilities shared by the storage engine: whitespace
//! trimming, line splitting with the same semantics as `str::lines`,
//! substring search, and conversions between `String` and `Vec<char>`.

use vstd::prelude::*;
use vstd::string::StrSliceExecFns;

verus! {

/// The Unicode `White_Space` code points, the set `char::is_whitespace`
/// recognizes.
pub open spec fn is_ws(c: char) -> bool {
    ||| (9 <= c as u32 && c as u32 <= 13)
    ||| c as u32 == 32
    ||| c as u32 == 0x85
    ||| c as u32 == 0xA0
    ||| c as u32 == 0x1680
    ||| (0x2000 <= c as u32 && c as u32 <= 0x200A)
    ||| c as u32 == 0x2028
    ||| c as u32 == 0x2029
    ||| c as u32 == 0x202F
    ||| c as u32 == 0x205F
    ||| c as u32 == 0x3000
}

pub fn is_whitespace_char(c: char) -> (r: bool)
    ensures
        r == is_ws(c),
{
    let u = c as u32;
    (9 <= u && u <= 13) || u == 32 || u == 0x85 || u == 0xA0 || u == 0x1680 || (0x2000 <= u && u
        <= 0x200A) || u == 0x2028 || u == 0x2029 || u == 0x202F || u == 0x205F || u == 0x3000
}

/// `s` with trailing whitespace removed.
pub open spec fn trim_end_spec(s: Seq<char>) -> Seq<char>
    decreases s.len(),
{
    if s.len() == 0 {
        s
    } else if is_ws(s.last()) {
        trim_end_spec(s.drop_last())
    } else {
        s
    }
}

/// `s` with leading whitespace removed.
pub open spec fn trim_start_spec(s: Seq<char>) -> Seq<char>
    decreases s.len(),
{
    if s.len() == 0 {
        s
    } else if is_ws(s[0]) {
        trim_start_spec(s.skip(1))
    } else {
        s
    }
}

/// Every character of `s` is whitespace.
pub open spec fn is_blank(s: Seq<char>) -> bool {
    forall|i: int| 0 <= i < s.len() ==> is_ws(s[i])
}

pub proof fn lemma_trim_end_take(s: Seq<char>, k: int)
    requires
        0 <= k <= s.len(),
        forall|i: int| k <= i < s.len() ==> is_ws(s[i]),
        k > 0 ==> !is_ws(s[k - 1]),
    ensures
        trim_end_spec(s) == s.take(k),
    decreases s.len(),
{
    if s.len() == 0 {
        assert(s.take(k) =~= s);
    } else if k == s.len() {
        assert(!is_ws(s.last()));
        assert(s.take(k) =~= s);
    } else {
        assert(is_ws(s.last()));
        lemma_trim_end_take(s.drop_last(), k);
        assert(s.drop_last().take(k) =~= s.take(k));
    }
}

pub proof fn lemma_trim_start_skip(s: Seq<char>, k: int)
    requires
        0 <= k <= s.len(),
        forall|i: int| 0 <= i < k ==> is_ws(s[i]),
        k < s.len() ==> !is_ws(s[k]),
    ensures
        trim_start_spec(s) == s.skip(k),
    decreases k,
{
    if k == 0 {
        assert(s.skip(0) =~= s);
        if s.len() > 0 {
            assert(!is_ws(s[0]));
        }
    } else {
        assert(is_ws(s[0]));
        lemma_trim_start_skip(s.skip(1), k - 1);
        assert(s.skip(1).skip(k - 1) =~= s.skip(k));
    }
}

/// Copies `v[a..b]` out into a fresh vector.
pub fn copy_range(v: &Vec<char>, a: usize, b: usize) -> (r: Vec<char>)
    requires
        a <= b <= v.len(),
    ensures
        r@ == v@.subrange(a as int, b as int),
{
    let mut r: Vec<char> = Vec::new();
    let mut i: usize = a;
    while i < b
        invariant
            a <= i <= b <= v.len(),
            r@ == v@.subrange(a as int, i as int),
        decreases b - i,
    {
        r.push(v[i]);
        i = i + 1;
        assert(r@ =~= v@.subrange(a as int, i as int));
    }
    r
}

pub fn trim_end_chars(v: &Vec<char>) -> (r: Vec<char>)
    ensures
        r@ == trim_end_spec(v@),
{
    let mut k: usize = v.len();
    while k > 0 && is_whitespace_char(v[k - 1])
        invariant
            k <= v.len(),
            forall|i: int| k <= i < v@.len() ==> is_ws(v@[i]),
        decreases k,
    {
        k = k - 1;
    }
    proof {
        lemma_trim_end_take(v@, k as int);
    }
    let r = copy_range(v, 0, k);
    assert(r@ =~= v@.take(k as int));
    r
}

pub fn trim_start_chars(v: &Vec<char>) -> (r: Vec<char>)
    ensures
        r@ == trim_start_spec(v@),
{
    let mut a: usize = 0;
    while a < v.len() && is_whitespace_char(v[a])
        invariant
            a <= v.len(),
            forall|i: int| 0 <= i < a ==> is_ws(v@[i]),
        decreases v.len() - a,
    {
        a = a + 1;
    }
    proof {
        lemma_trim_start_skip(v@, a as int);
    }
    let r = copy_range(v, a, v.len());
    assert(r@ =~= v@.skip(a as int));
    r
}

pub fn is_blank_chars(v: &Vec<char>) -> (r: bool)
    ensures
        r == is_blank(v@),
{
    let mut i: usize = 0;
    while i < v.len()
        invariant
            i <= v.len(),
            forall|j: int| 0 <= j < i ==> is_ws(v@[j]),
        decreases v.len() - i,
    {
        if !is_whitespace_char(v[i]) {
            return false;
        }
        i = i + 1;
    }
    true
}

/// First index of `c` in `s`, if any.
pub open spec fn find_char_from(s: Seq<char>, c: char, i: int) -> Option<int>
    decreases s.len() - i when 0 <= i <= s.len()
{
    if i >= s.len() {
        None
    } else if s[i] == c {
        Some(i)
    } else {
        find_char_from(s, c, i + 1)
    }
}

pub open spec fn find_char(s: Seq<char>, c: char) -> Option<int> {
    find_char_from(s, c, 0)
}

pub proof fn lemma_find_char_bounds(s: Seq<char>, c: char, i: int)
    requires
        0 <= i <= s.len(),
    ensures
        match find_char_from(s, c, i) {
            Some(j) => i <= j < s.len() && s[j] == c,
            None => true,
        },
    decreases s.len() - i,
{
    if i < s.len() && s[i] != c {
        lemma_find_char_bounds(s, c, i + 1);
    }
}

pub proof fn lemma_find_char_from(s: Seq<char>, c: char, i: int, k: int)
    requires
        0 <= i <= k <= s.len(),
        forall|j: int| i <= j < k ==> s[j] != c,
        k < s.len() ==> s[k] == c,
    ensures
        find_char_from(s, c, i) == if k < s.len() {
            Some(k)
        } else {
            None::<int>
        },
    decreases k - i,
{
    if i < k {
        lemma_find_char_from(s, c, i + 1, k);
    }
}

/// `pat` occurs in `s` starting at `i`.
pub open spec fn matches_at(s: Seq<char>, pat: Seq<char>, i: int) -> bool {
    &&& 0 <= i
    &&& i + pat.len() <= s.len()
    &&& s.subrange(i, i + pat.len()) == pat
}

/// First index at which `pat` occurs in `s`, if any.
pub open spec fn find_sub_from(s: Seq<char>, pat: Seq<char>, i: int) -> Option<int>
    decreases s.len() - i when 0 <= i <= s.len()
{
    if i + pat.len() > s.len() {
        None
    } else if matches_at(s, pat, i) {
        Some(i)
    } else if i == s.len() {
        None
    } else {
        find_sub_from(s, pat, i + 1)
    }
}

pub open spec fn find_sub(s: Seq<char>, pat: Seq<char>) -> Option<int> {
    find_sub_from(s, pat, 0)
}

pub proof fn lemma_find_sub_bounds(s: Seq<char>, pat: Seq<char>, i: int)
    requires
        0 <= i <= s.len(),
    ensures
        match find_sub_from(s, pat, i) {
            Some(j) => i <= j && matches_at(s, pat, j),
            None => true,
        },
    decreases s.len() - i,
{
    if i + pat.len() <= s.len() && !matches_at(s, pat, i) && i < s.len() {
        lemma_find_sub_bounds(s, pat, i + 1);
    }
}

pub fn subseq_matches(v: &Vec<char>, i: usize, pat: &Vec<char>) -> (r: bool)
    requires
        i + pat.len() <= v.len(),
    ensures
        r == matches_at(v@, pat@, i as int),
{
    let mut j: usize = 0;
    while j < pat.len()
        invariant
            i + pat.len() <= v.len(),
            j <= pat.len(),
            forall|k: int| 0 <= k < j ==> v@[i + k] == pat@[k],
        decreases pat.len() - j,
    {
        if v[i + j] != pat[j] {
            assert(v@.subrange(i as int, i + pat@.len())[j as int] != pat@[j as int]);
            return false;
        }
        j = j + 1;
    }
    assert(v@.subrange(i as int, i + pat@.len()) =~= pat@);
    true
}

pub fn find_sub_chars(v: &Vec<char>, pat: &Vec<char>) -> (r: Option<usize>)
    ensures
        match r {
            Some(i) => find_sub(v@, pat@) == Some(i as int) && matches_at(v@, pat@, i as int),
            None => find_sub(v@, pat@) is None,
        },
{
    let mut i: usize = 0;
    loop
        invariant
            0 <= i <= v.len(),
            find_sub(v@, pat@) == find_sub_from(v@, pat@, i as int),
        decreases v.len() - i,
    {
        if v.len() - i < pat.len() {
            return None;
        }
        if subseq_matches(v, i, pat) {
            return Some(i);
        }
        if i == v.len() {
            return None;
        }
        i = i + 1;
    }
}

/// The segments of `s` split at `'\n'`, each segment before a newline losing
/// one trailing `'\r'` — the semantics of `str::lines`.
pub open spec fn strip_cr(l: Seq<char>) -> Seq<char> {
    if l.len() > 0 && l.last() == '\r' {
        l.drop_last()
    } else {
        l
    }
}

pub open spec fn lines_of(s: Seq<char>) -> Seq<Seq<char>>
    decreases s.len() via lines_of_decreases
{
    if s.len() == 0 {
        Seq::empty()
    } else {
        match find_char(s, '\n') {
            None => seq![s],
            Some(j) => seq![strip_cr(s.take(j))] + lines_of(s.skip(j + 1)),
        }
    }
}

#[via_fn]
proof fn lines_of_decreases(s: Seq<char>) {
    lemma_find_char_bounds(s, '\n', 0);
}

/// The line starting at `pos` (with `str::lines` carriage-return handling)
/// and the position just past its newline, mirroring how the engine walks a
/// document.
pub open spec fn line_at(s: Seq<char>, pos: int) -> Seq<char> {
    match find_char_from(s, '\n', pos) {
        None => s.subrange(pos, s.len() as int),
        Some(j) => strip_cr(s.subrange(pos, j)),
    }
}

pub open spec fn next_line_pos(s: Seq<char>, pos: int) -> int {
    match find_char_from(s, '\n', pos) {
        None => s.len() as int,
        Some(j) => j + 1,
    }
}

/// Reads the line starting at `pos` and returns it with the position of the
/// next line's start.
pub fn read_line_at(v: &Vec<char>, pos: usize) -> (r: (Vec<char>, usize))
    requires
        pos <= v.len(),
    ensures
        r.0@ == line_at(v@, pos as int),
        r.1 == next_line_pos(v@, pos as int),
        pos <= r.1 <= v.len(),
        pos < v.len() ==> pos < r.1,
{
    let mut j: usize = pos;
    while j < v.len() && v[j] != '\n'
        invariant
            pos <= j <= v.len(),
            forall|k: int| pos <= k < j ==> v@[k] != '\n',
        decreases v.len() - j,
    {
        j = j + 1;
    }
    proof {
        lemma_find_char_from(v@, '\n', pos as int, j as int);
    }
    if j < v.len() {
        let line_end: usize = if j > pos && v[j - 1] == '\r' {
            j - 1
        } else {
            j
        };
        let line = copy_range(v, pos, line_end);
        proof {
            assert(strip_cr(v@.subrange(pos as int, j as int)) =~= line@);
        }
        (line, j + 1)
    } else {
        let line = copy_range(v, pos, v.len());
        (line, j)
    }
}

/// Splits `v` into its lines.
pub fn split_lines(v: &Vec<char>) -> (r: Vec<Vec<char>>)
    ensures
        r.deep_view() == lines_of(v@),
{
    let mut out: Vec<Vec<char>> = Vec::new();
    let mut pos: usize = 0;
    proof {
        assert(out.deep_view() =~~= Seq::<Seq<char>>::empty());
        assert(v@.skip(0) =~= v@);
    }
    while pos < v.len()
        invariant
            pos <= v.len(),
            lines_of(v@) == out.deep_view() + lines_of(v@.skip(pos as int)),
        decreases v.len() - pos,
    {
        let ghost rest = v@.skip(pos as int);
        let mut j: usize = pos;
        while j < v.len() && v[j] != '\n'
            invariant
                pos <= j <= v.len(),
                forall|k: int| pos <= k < j ==> v@[k] != '\n',
            decreases v.len() - j,
        {
            j = j + 1;
        }
        proof {
            lemma_find_char_from(rest, '\n', 0, j - pos);
            assert(forall|k: int| 0 <= k < j - pos ==> rest[k] == v@[pos + k]);
        }
        let line_end: usize = if j < v.len() && j > pos && v[j - 1] == '\r' {
            j - 1
        } else {
            j
        };
        let line = copy_range(v, pos, line_end);
        let ghost old_out = out.deep_view();
        out.push(line);
        if j < v.len() {
            proof {
                let jj = (j - pos) as int;
                assert(rest.take(jj) =~= v@.subrange(pos as int, j as int));
                assert(strip_cr(rest.take(jj)) =~= line@);
                assert(rest.skip(jj + 1) =~= v@.skip(j + 1));
                assert(lines_of(rest) == seq![strip_cr(rest.take(jj))] + lines_of(
                    rest.skip(jj + 1),
                ));
                assert(out.deep_view() =~~= old_out + seq![line@]);
                assert(out.deep_view() + lines_of(v@.skip(j + 1)) =~~= old_out + lines_of(rest));
            }
            pos = j + 1;
        } else {
            proof {
                assert(rest =~= v@.subrange(pos as int, j as int));
                assert(lines_of(rest) == seq![rest]);
                assert(line@ =~= rest);
                assert(out.deep_view() =~~= old_out + seq![line@]);
                assert(lines_of(v@.skip(j as int)) == Seq::<Seq<char>>::empty());
                assert(out.deep_view() + lines_of(v@.skip(j as int)) =~~= old_out + lines_of(rest));
            }
            pos = j;
        }
    }
    proof {
        assert(v@.skip(pos as int) =~= Seq::<char>::empty());
        assert(out.deep_view() =~~= out.deep_view() + lines_of(v@.skip(pos as int)));
    }
    out
}

/// Appends all characters of `src` to `dst`.
pub fn append_vec(dst: &mut Vec<char>, src: &Vec<char>)
    ensures
        final(dst)@ == old(dst)@ + src@,
{
    let mut i: usize = 0;
    while i < src.len()
        invariant
            i <= src.len(),
            dst@ == old(dst)@ + src@.take(i as int),
        decreases src.len() - i,
    {
        dst.push(src[i]);
        i = i + 1;
        assert(dst@ =~= old(dst)@ + src@.take(i as int));
    }
    assert(old(dst)@ + src@.take(src@.len() as int) =~= old(dst)@ + src@);
}

/// Relies on `String::push`: appends one character to the string.
#[verifier::external_body]
fn push_char(s: &mut String, c: char)
    ensures
        final(s)@ == old(s)@.push(c),
{
    s.push(c);
}

/// Builds the string holding exactly the characters of `v`.
pub fn chars_to_string(v: &Vec<char>) -> (r: String)
    ensures
        r@ == v@,
{
    let mut r = String::new();
    let mut i: usize = 0;
    while i < v.len()
        invariant
            i <= v.len(),
            r@ == v@.take(i as int),
        decreases v.len() - i,
    {
        push_char(&mut r, v[i]);
        i = i + 1;
        assert(r@ =~= v@.take(i as int));
    }
    assert(v@.take(v@.len() as int) =~= v@);
    r
}

/// The characters of `s` as a vector.
pub fn string_to_chars(s: &str) -> (r: Vec<char>)
    ensures
        r@ == s@,
{
    let n = s.unicode_len();
    let mut r: Vec<char> = Vec::new();
    let mut i: usize = 0;
    while i < n
        invariant
            i <= n,
            n == s@.len(),
            r@ == s@.take(i as int),
        decreases n - i,
    {
        r.push(s.get_char(i));
        i = i + 1;
        assert(r@ =~= s@.take(i as int));
    }
    assert(s@.take(n as int) =~= s@);
    r
}

/// ASCII decimal digit.
pub open spec fn is_digit(c: char) -> bool {
    48 <= c as u32 && c as u32 <= 57
}

pub open spec fn digit_val(c: char) -> int {
    c as u32 - 48
}

pub fn is_digit_char(c: char) -> (r: bool)
    ensures
        r == is_digit(c),
{
    let u = c as u32;
    48 <= u && u <= 57
}

pub open spec fn digit_char(n: int) -> char {
    if n == 0 {
        '0'
    } else if n == 1 {
        '1'
    } else if n == 2 {
        '2'
    } else if n == 3 {
        '3'
    } else if n == 4 {
        '4'
    } else if n == 5 {
        '5'
    } else if n == 6 {
        '6'
    } else if n == 7 {
        '7'
    } else if n == 8 {
        '8'
    } else {
        '9'
    }
}

pub fn digit_to_char(n: u32) -> (r: char)
    requires
        n < 10,
    ensures
        r == digit_char(n as int),
{
    if n == 0 {
        '0'
    } else if n == 1 {
        '1'
    } else if n == 2 {
        '2'
    } else if n == 3 {
        '3'
    } else if n == 4 {
        '4'
    } else if n == 5 {
        '5'
    } else if n == 6 {
        '6'
    } else if n == 7 {
        '7'
    } else if n == 8 {
        '8'
    } else {
        '9'
    }
}

/// Lowercase image of one ASCII character; other characters are unchanged.
pub open spec fn ascii_lower_char(c: char) -> char {
    if 65 <= c as u32 && c as u32 <= 90 {
        ((c as u32 + 32) as u8) as char
    } else {
        c
    }
}

pub fn lower_ascii_char(c: char) -> (r: char)
    ensures
        r == ascii_lower_char(c),
{
    let u = c as u32;
    if 65 <= u && u <= 90 {
        ((u + 32) as u8) as char
    } else {
        c
    }
}

/// ASCII-case-insensitive equality of two character sequences.
pub open spec fn ascii_eq_ignore_case(a: Seq<char>, b: Seq<char>) -> bool {
    a.map_values(|c: char| ascii_lower_char(c)) == b.map_values(|c: char| ascii_lower_char(c))
}

pub fn chars_eq_ignore_ascii_case(a: &Vec<char>, b: &Vec<char>) -> (r: bool)
    ensures
        r == ascii_eq_ignore_case(a@, b@),
{
    let ghost la = a@.map_values(|c: char| ascii_lower_char(c));
    let ghost lb = b@.map_values(|c: char| ascii_lower_char(c));
    if a.len() != b.len() {
        assert(la.len() != lb.len());
        return false;
    }
    let mut i: usize = 0;
    while i < a.len()
        invariant
            a@.len() == b@.len(),
            i <= a.len(),
            la == a@.map_values(|c: char| ascii_lower_char(c)),
            lb == b@.map_values(|c: char| ascii_lower_char(c)),
            forall|j: int| 0 <= j < i ==> la[j] == lb[j],
        decreases a.len() - i,
    {
        if lower_ascii_char(a[i]) != lower_ascii_char(b[i]) {
            assert(la[i as int] != lb[i as int]);
            return false;
        }
        i = i + 1;
    }
    assert(la =~= lb);
    true
}


/// Decimal value of a digit sequence, most significant first.
pub open spec fn digits_val(s: Seq<char>) -> int
    decreases s.len(),
{
    if s.len() == 0 {
        0
    } else {
        digits_val(s.drop_last()) * 10 + digit_val(s.last())
    }
}

pub proof fn lemma_digits_val_len_bound(s: Seq<char>)
    requires
        all_digits(s),
    ensures
        0 <= digits_val(s),
        s.len() <= 1 ==> digits_val(s) <= 9,
        s.len() <= 2 ==> digits_val(s) <= 99,
        s.len() <= 3 ==> digits_val(s) <= 999,
        s.len() <= 4 ==> digits_val(s) <= 9999,
    decreases s.len(),
{
    if s.len() > 0 {
        assert(all_digits(s.drop_last()));
        lemma_digits_val_len_bound(s.drop_last());
        assert(is_digit(s.last()));
    }
}

pub open spec fn all_digits(s: Seq<char>) -> bool {
    forall|i: int| 0 <= i < s.len() ==> is_digit(#[trigger] s[i])
}

/// What `str::parse::<u32>` accepts of a plain digit string: non-empty, all
/// digits, value in range.
pub open spec fn parse_num_u32_spec(s: Seq<char>) -> Option<int> {
    if s.len() > 0 && all_digits(s) && digits_val(s) <= u32::MAX {
        Some(digits_val(s))
    } else {
        None
    }
}

/// What `str::parse::<u64>` accepts of a plain digit string.
pub open spec fn parse_num_u64_spec(s: Seq<char>) -> Option<int> {
    if s.len() > 0 && all_digits(s) && digits_val(s) <= u64::MAX {
        Some(digits_val(s))
    } else {
        None
    }
}

proof fn lemma_digits_val_grows(s: Seq<char>, k: int)
    requires
        all_digits(s),
        0 <= k <= s.len(),
    ensures
        digits_val(s.take(k)) <= digits_val(s),
        digits_val(s) >= 0,
    decreases s.len(),
{
    if s.len() == 0 {
        assert(s.take(k) =~= s);
    } else {
        assert(all_digits(s.drop_last()));
        lemma_digits_val_grows(s.drop_last(), if k <= s.len() - 1 {
            k
        } else {
            (s.len() - 1) as int
        });
        assert(is_digit(s.last()));
        assert(0 <= digit_val(s.last()) <= 9);
        if k <= s.len() - 1 {
            assert(s.drop_last().take(k) =~= s.take(k));
            assert(digits_val(s.drop_last()) <= digits_val(s));
        } else {
            assert(s.take(k) =~= s);
        }
    }
}

pub fn parse_u32_chars(v: &Vec<char>) -> (r: Option<u32>)
    ensures
        match r {
            Some(n) => parse_num_u32_spec(v@) == Some(n as int),
            None => parse_num_u32_spec(v@) is None,
        },
{
    if v.len() == 0 {
        return None;
    }
    let mut acc: u32 = 0;
    let mut i: usize = 0;
    while i < v.len()
        invariant
            i <= v.len(),
            v@.len() > 0,
            all_digits(v@.take(i as int)),
            acc == digits_val(v@.take(i as int)),
        decreases v.len() - i,
    {
        let c = v[i];
        if !is_digit_char(c) {
            return None;
        }
        let d: u32 = c as u32 - 48;
        if acc > (u32::MAX - d) / 10 {
            proof {
                assert(v@.take(i as int + 1).drop_last() =~= v@.take(i as int));
                assert(digits_val(v@.take(i as int + 1)) == acc * 10 + d);
                assert(acc * 10 + d > u32::MAX) by (nonlinear_arith)
                    requires
                        acc > (u32::MAX - d) / 10,
                        0 <= d <= 9,
                        acc >= 0,
                ;
                if all_digits(v@) {
                    lemma_digits_val_grows(v@, i as int + 1);
                    assert(digits_val(v@) > u32::MAX);
                }
            }
            return None;
        }
        proof {
            assert(acc * 10 + d <= u32::MAX) by (nonlinear_arith)
                requires
                    acc <= (u32::MAX - d) / 10,
                    0 <= d <= 9,
                    acc >= 0,
            ;
            assert(v@.take(i as int + 1).drop_last() =~= v@.take(i as int));
        }
        acc = acc * 10 + d;
        i = i + 1;
    }
    proof {
        assert(v@.take(i as int) =~= v@);
    }
    Some(acc)
}

pub fn parse_u64_chars(v: &Vec<char>) -> (r: Option<u64>)
    ensures
        match r {
            Some(n) => parse_num_u64_spec(v@) == Some(n as int),
            None => parse_num_u64_spec(v@) is None,
        },
{
    if v.len() == 0 {
        return None;
    }
    let mut acc: u64 = 0;
    let mut i: usize = 0;
    while i < v.len()
        invariant
            i <= v.len(),
            v@.len() > 0,
            all_digits(v@.take(i as int)),
            acc == digits_val(v@.take(i as int)),
        decreases v.len() - i,
    {
        let c = v[i];
        if !is_digit_char(c) {
            return None;
        }
        let d: u64 = (c as u32 - 48) as u64;
        if acc > (u64::MAX - d) / 10 {
            proof {
                assert(v@.take(i as int + 1).drop_last() =~= v@.take(i as int));
                assert(digits_val(v@.take(i as int + 1)) == acc * 10 + d);
                assert(acc * 10 + d > u64::MAX) by (nonlinear_arith)
                    requires
                        acc > (u64::MAX - d) / 10,
                        0 <= d <= 9,
                        acc >= 0,
                ;
                if all_digits(v@) {
                    lemma_digits_val_grows(v@, i as int + 1);
                    assert(digits_val(v@) > u64::MAX);
                }
            }
            return None;
        }
        proof {
            assert(acc * 10 + d <= u64::MAX) by (nonlinear_arith)
                requires
                    acc <= (u64::MAX - d) / 10,
                    0 <= d <= 9,
                    acc >= 0,
            ;
            assert(v@.take(i as int + 1).drop_last() =~= v@.take(i as int));
        }
        acc = acc * 10 + d;
        i = i + 1;
    }
    proof {
        assert(v@.take(i as int) =~= v@);
    }
    Some(acc)
}

/// Length of the run of decimal digits starting at `p`.
pub open spec fn digits_run(s: Seq<char>, p: int) -> int
    decreases s.len() - p when 0 <= p <= s.len()
{
    if p >= s.len() || !is_digit(s[p]) {
        0
    } else {
        1 + digits_run(s, p + 1)
    }
}

pub proof fn lemma_digits_run_bounds(s: Seq<char>, p: int)
    requires
        0 <= p <= s.len(),
    ensures
        0 <= digits_run(s, p) <= s.len() - p,
        forall|i: int| p <= i < p + digits_run(s, p) ==> is_digit(#[trigger] s[i]),
        p + digits_run(s, p) < s.len() ==> !is_digit(s[p + digits_run(s, p)]),
    decreases s.len() - p,
{
    if p < s.len() && is_digit(s[p]) {
        lemma_digits_run_bounds(s, p + 1);
    }
}

pub fn digits_run_at(v: &Vec<char>, p: usize) -> (r: usize)
    requires
        p <= v.len(),
    ensures
        r == digits_run(v@, p as int),
        p + r <= v.len(),
{
    let mut j: usize = p;
    while j < v.len() && is_digit_char(v[j])
        invariant
            p <= j <= v.len(),
            forall|i: int| p <= i < j ==> is_digit(#[trigger] v@[i]),
        decreases v.len() - j,
    {
        j = j + 1;
    }
    proof {
        lemma_digits_run_prefix(v@, p as int, j as int);
    }
    j - p
}

proof fn lemma_digits_run_prefix(s: Seq<char>, p: int, j: int)
    requires
        0 <= p <= j <= s.len(),
        forall|i: int| p <= i < j ==> is_digit(#[trigger] s[i]),
        j < s.len() ==> !is_digit(s[j]),
    ensures
        digits_run(s, p) == j - p,
    decreases j - p,
{
    if p < j {
        lemma_digits_run_prefix(s, p + 1, j);
    }
}

/// Exact equality of two character vectors.
pub fn vec_chars_eq(a: &Vec<char>, b: &Vec<char>) -> (r: bool)
    ensures
        r == (a@ == b@),
{
    if a.len() != b.len() {
        return false;
    }
    if subseq_matches(a, 0, b) {
        assert(a@.subrange(0, a@.len() as int) =~= a@);
        true
    } else {
        assert(a@.subrange(0, b@.len() as int) =~= a@);
        false
    }
}

/// Lowercase image of a sequence under ASCII case folding.
pub open spec fn ascii_lower_seq(s: Seq<char>) -> Seq<char> {
    s.map_values(|c: char| ascii_lower_char(c))
}

pub fn ascii_lower_vec(v: &Vec<char>) -> (r: Vec<char>)
    ensures
        r@ == ascii_lower_seq(v@),
{
    let mut out: Vec<char> = Vec::new();
    let mut i: usize = 0;
    while i < v.len()
        invariant
            i <= v.len(),
            out@ =~= ascii_lower_seq(v@.take(i as int)),
        decreases v.len() - i,
    {
        out.push(lower_ascii_char(v[i]));
        i = i + 1;
        assert(v@.take(i as int).drop_last() =~= v@.take(i as int - 1));
        assert(out@ =~= ascii_lower_seq(v@.take(i as int)));
    }
    assert(v@.take(i as int) =~= v@);
    out
}


pub proof fn lemma_find_sub_after(s: Seq<char>, pat: Seq<char>, off: int)
    requires
        0 <= off <= s.len(),
        forall|p: int| 0 <= p < off ==> !matches_at(s, pat, p),
    ensures
        find_sub(s, pat) == find_sub_from(s, pat, off),
    decreases off,
{
    if off > 0 {
        lemma_find_sub_after_step(s, pat, 0, off);
    }
}

proof fn lemma_find_sub_after_step(s: Seq<char>, pat: Seq<char>, i: int, off: int)
    requires
        0 <= i <= off <= s.len(),
        forall|p: int| i <= p < off ==> !matches_at(s, pat, p),
    ensures
        find_sub_from(s, pat, i) == find_sub_from(s, pat, off),
    decreases off - i,
{
    if i < off {
        if i + pat.len() > s.len() {
            lemma_find_sub_none_when_short_pub(s, pat, i);
            lemma_find_sub_none_when_short_pub(s, pat, off);
        } else {
            lemma_find_sub_after_step(s, pat, i + 1, off);
        }
    }
}

pub proof fn lemma_find_sub_none_when_short_pub(s: Seq<char>, pat: Seq<char>, i: int)
    requires
        0 <= i <= s.len(),
        i + pat.len() > s.len(),
    ensures
        find_sub_from(s, pat, i) is None,
    decreases s.len() - i,
{
    if i < s.len() {
        lemma_find_sub_none_when_short_pub(s, pat, i + 1);
    }
}

/// Matching in the suffix `b` of `a + b` is matching in `b`.
pub proof fn lemma_matches_in_suffix(a: Seq<char>, b: Seq<char>, pat: Seq<char>, q: int)
    requires
        0 <= q,
        q + pat.len() <= b.len(),
    ensures
        matches_at(a + b, pat, a.len() + q) == matches_at(b, pat, q),
{
    let s = a + b;
    assert(s.subrange(a.len() + q, a.len() + q + pat.len()) =~= b.subrange(q, q + pat.len()));
}

/// Searching `a + b` from the start of `b` is searching `b`.
pub proof fn lemma_find_sub_in_suffix(a: Seq<char>, b: Seq<char>, pat: Seq<char>, q: int)
    requires
        0 <= q <= b.len(),
    ensures
        find_sub_from(a + b, pat, a.len() + q) == match find_sub_from(b, pat, q) {
            Some(j) => Some(a.len() + j),
            None => None::<int>,
        },
    decreases b.len() - q,
{
    let s = a + b;
    if q + pat.len() <= b.len() {
        lemma_matches_in_suffix(a, b, pat, q);
        if !matches_at(b, pat, q) && q < b.len() {
            lemma_find_sub_in_suffix(a, b, pat, q + 1);
        }
    }
}

/// Before the first hit of `find_char_from` the character does not occur.
pub proof fn lemma_find_char_min(s: Seq<char>, c: char, i: int)
    requires
        0 <= i <= s.len(),
    ensures
        match find_char_from(s, c, i) {
            Some(j) => forall|t: int| i <= t < j ==> s[t] != c,
            None => forall|t: int| i <= t < s.len() ==> s[t] != c,
        },
    decreases s.len() - i,
{
    if i < s.len() && s[i] != c {
        lemma_find_char_min(s, c, i + 1);
    }
}

/// The first hit of `find_char_from` is no later than any occurrence.
pub proof fn lemma_find_char_first(s: Seq<char>, c: char, i: int, m: int)
    requires
        0 <= i <= m < s.len(),
        s[m] == c,
    ensures
        find_char_from(s, c, i) is Some,
        find_char_from(s, c, i)->0 <= m,
    decreases m - i,
{
    if s[i] != c {
        lemma_find_char_first(s, c, i + 1, m);
    }
}

} // verus!
