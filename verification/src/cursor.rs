//! A single-line editing buffer with a character-position cursor.
//!
//! The buffer tracks its text as characters, so cursor movement and edits
//! are safe on multi-byte text; byte and display positions are derived
//! views for callers that need them.

use vstd::prelude::*;

use crate::text::{chars_to_string, copy_range, is_ws, string_to_chars};

verus! {

/// An editing buffer: its text and the cursor's character position.
#[derive(Clone, Debug)]
pub struct CursorBuffer {
    pub content: Vec<char>,
    pub cursor: usize,
}

impl CursorBuffer {
    /// The cursor never passes the end of the text.
    pub open spec fn inv(self) -> bool {
        self.cursor <= self.content@.len()
    }

    /// A buffer over `content` with the cursor at the end.
    pub fn new(content: String) -> (r: Self)
        ensures
            r.content@ == content@,
            r.cursor == content@.len(),
            r.inv(),
    {
        let chars = string_to_chars(content.as_str());
        let cursor = chars.len();
        CursorBuffer { content: chars, cursor }
    }

    /// The empty buffer.
    pub fn empty() -> (r: Self)
        ensures
            r.content@.len() == 0,
            r.cursor == 0,
            r.inv(),
    {
        CursorBuffer { content: Vec::new(), cursor: 0 }
    }

    /// The cursor's character position.
    pub fn cursor_char_pos(&self) -> (r: usize)
        ensures
            r == self.cursor,
    {
        self.cursor
    }

    /// The buffer's text.
    pub fn content(&self) -> (r: String)
        ensures
            r@ == self.content@,
    {
        chars_to_string(&self.content)
    }

    /// The buffer's text, consuming the buffer.
    pub fn into_content(self) -> (r: String)
        ensures
            r@ == self.content@,
    {
        chars_to_string(&self.content)
    }

    /// The buffer holds no text.
    pub fn is_empty(&self) -> (r: bool)
        ensures
            r == (self.content@.len() == 0),
    {
        self.content.len() == 0
    }

    /// The cursor's byte position in the UTF-8 form of the text.
    pub fn cursor_byte_pos(&self) -> (r: usize)
        requires
            self.inv(),
            utf8_len_of(self.content@) <= usize::MAX,
        ensures
            r == utf8_len_of(self.content@.take(self.cursor as int)),
    {
        let mut sum: usize = 0;
        let mut i: usize = 0;
        while i < self.cursor
            invariant
                self.inv(),
                i <= self.cursor,
                sum == utf8_len_of(self.content@.take(i as int)),
                utf8_len_of(self.content@) <= usize::MAX,
            decreases self.cursor - i,
        {
            proof {
                lemma_utf8_len_grows(self.content@, i as int + 1);
                assert(self.content@.take(i as int + 1).drop_last() =~= self.content@.take(
                    i as int,
                ));
            }
            sum = sum + utf8_len_char(self.content[i]);
            i = i + 1;
        }
        sum
    }

    /// The cursor's display position: the terminal width of the text before
    /// it.
    pub fn cursor_display_pos(&self) -> (r: usize)
        requires
            self.inv(),
        ensures
            r == display_width(self.content@.take(self.cursor as int)),
    {
        let prefix = copy_range(&self.content, 0, self.cursor);
        proof {
            assert(prefix@ =~= self.content@.take(self.cursor as int));
        }
        let s = chars_to_string(&prefix);
        str_display_width(s.as_str())
    }

    /// Inserts a character at the cursor and moves past it.
    pub fn insert_char(&mut self, c: char)
        requires
            old(self).inv(),
        ensures
            final(self).content@ == old(self).content@.insert(old(self).cursor as int, c),
            final(self).cursor == old(self).cursor + 1,
            final(self).inv(),
    {
        self.content.insert(self.cursor, c);
        let n = self.content.len();
        self.cursor = self.cursor + 1;
    }

    /// Deletes the character before the cursor; false when at the start.
    pub fn delete_char_before(&mut self) -> (r: bool)
        requires
            old(self).inv(),
        ensures
            r == (old(self).cursor > 0),
            r ==> final(self).content@ == old(self).content@.remove(old(self).cursor - 1)
                && final(self).cursor == old(self).cursor - 1,
            !r ==> *final(self) == *old(self),
            final(self).inv(),
    {
        if self.cursor == 0 {
            return false;
        }
        let _removed = self.content.remove(self.cursor - 1);
        self.cursor = self.cursor - 1;
        true
    }

    /// Deletes the character after the cursor; false when at the end.
    pub fn delete_char_after(&mut self) -> (r: bool)
        requires
            old(self).inv(),
        ensures
            r == (old(self).cursor < old(self).content@.len()),
            r ==> final(self).content@ == old(self).content@.remove(old(self).cursor as int)
                && final(self).cursor == old(self).cursor,
            !r ==> *final(self) == *old(self),
            final(self).inv(),
    {
        if self.cursor >= self.content.len() {
            return false;
        }
        let _removed = self.content.remove(self.cursor);
        true
    }

    /// Moves one character left, stopping at the start.
    pub fn move_left(&mut self)
        requires
            old(self).inv(),
        ensures
            final(self).content == old(self).content,
            final(self).cursor == if old(self).cursor > 0 {
                old(self).cursor - 1
            } else {
                0int
            },
            final(self).inv(),
    {
        if self.cursor > 0 {
            self.cursor = self.cursor - 1;
        }
    }

    /// Moves one character right, stopping at the end.
    pub fn move_right(&mut self)
        requires
            old(self).inv(),
        ensures
            final(self).content == old(self).content,
            final(self).cursor == if old(self).cursor < old(self).content@.len() {
                old(self).cursor + 1
            } else {
                old(self).cursor as int
            },
            final(self).inv(),
    {
        if self.cursor < self.content.len() {
            self.cursor = self.cursor + 1;
        }
    }

    /// Moves the cursor to the start.
    pub fn move_to_start(&mut self)
        ensures
            final(self).content == old(self).content,
            final(self).cursor == 0,
            final(self).inv(),
    {
        self.cursor = 0;
    }

    /// Moves the cursor to the end.
    pub fn move_to_end(&mut self)
        ensures
            final(self).content == old(self).content,
            final(self).cursor == old(self).content@.len(),
            final(self).inv(),
    {
        self.cursor = self.content.len();
    }

    /// Moves left over whitespace, then left over a word.
    pub fn move_word_left(&mut self)
        requires
            old(self).inv(),
        ensures
            final(self).content == old(self).content,
            final(self).cursor == back_over_word(old(self).content@, old(self).cursor as int),
            final(self).inv(),
    {
        let mut pos: usize = self.cursor;
        while pos > 0 && crate::text::is_whitespace_char(self.content[pos - 1])
            invariant
                pos <= self.content@.len(),
                back_over_ws(self.content@, self.cursor as int) == back_over_ws(
                    self.content@,
                    pos as int,
                ),
            decreases pos,
        {
            pos = pos - 1;
        }
        while pos > 0 && !crate::text::is_whitespace_char(self.content[pos - 1])
            invariant
                pos <= self.content@.len(),
                back_over_ws(self.content@, self.cursor as int) == pos || back_over_nonws(
                    self.content@,
                    back_over_ws(self.content@, self.cursor as int),
                ) == back_over_nonws(self.content@, pos as int),
                back_over_nonws(self.content@, back_over_ws(self.content@, self.cursor as int))
                    == back_over_nonws(self.content@, pos as int),
            decreases pos,
        {
            pos = pos - 1;
        }
        self.cursor = pos;
    }

    /// Moves right over a word, then right over whitespace.
    pub fn move_word_right(&mut self)
        requires
            old(self).inv(),
        ensures
            final(self).content == old(self).content,
            final(self).cursor == fwd_over_word(old(self).content@, old(self).cursor as int),
            final(self).inv(),
    {
        let len = self.content.len();
        let mut pos: usize = self.cursor;
        while pos < len && !crate::text::is_whitespace_char(self.content[pos])
            invariant
                pos <= len,
                len == self.content@.len(),
                fwd_over_nonws(self.content@, self.cursor as int) == fwd_over_nonws(
                    self.content@,
                    pos as int,
                ),
            decreases len - pos,
        {
            pos = pos + 1;
        }
        while pos < len && crate::text::is_whitespace_char(self.content[pos])
            invariant
                pos <= len,
                len == self.content@.len(),
                fwd_over_ws(self.content@, fwd_over_nonws(self.content@, self.cursor as int))
                    == fwd_over_ws(self.content@, pos as int),
            decreases len - pos,
        {
            pos = pos + 1;
        }
        self.cursor = pos;
    }

    /// Deletes from the start of the word before the cursor up to the
    /// cursor.
    pub fn delete_word_before(&mut self)
        requires
            old(self).inv(),
        ensures
            ({
                let cut = back_over_word(old(self).content@, old(self).cursor as int);
                final(self).content@ == old(self).content@.take(cut) + old(self).content@.skip(
                    old(self).cursor as int,
                ) && final(self).cursor == cut
            }),
            final(self).inv(),
    {
        let start_pos = self.cursor;
        self.move_word_left();
        let end_pos = self.cursor;
        let mut rebuilt = copy_range(&self.content, 0, end_pos);
        let tail = copy_range(&self.content, start_pos, self.content.len());
        crate::text::append_vec(&mut rebuilt, &tail);
        proof {
            assert(rebuilt@ =~= self.content@.take(end_pos as int) + self.content@.skip(
                start_pos as int,
            ));
        }
        self.content = rebuilt;
        self.cursor = end_pos;
    }

    /// Deletes from the cursor to the end of the word after it.
    pub fn delete_word_after(&mut self)
        requires
            old(self).inv(),
        ensures
            ({
                let cut = fwd_over_word(old(self).content@, old(self).cursor as int);
                final(self).content@ == old(self).content@.take(old(self).cursor as int) + old(
                    self,
                ).content@.skip(cut) && final(self).cursor == old(self).cursor
            }),
            final(self).inv(),
    {
        let start_pos = self.cursor;
        let len = self.content.len();
        let mut end_pos: usize = start_pos;
        while end_pos < len && !crate::text::is_whitespace_char(self.content[end_pos])
            invariant
                end_pos <= len,
                len == self.content@.len(),
                fwd_over_nonws(self.content@, start_pos as int) == fwd_over_nonws(
                    self.content@,
                    end_pos as int,
                ),
            decreases len - end_pos,
        {
            end_pos = end_pos + 1;
        }
        while end_pos < len && crate::text::is_whitespace_char(self.content[end_pos])
            invariant
                end_pos <= len,
                len == self.content@.len(),
                fwd_over_ws(self.content@, fwd_over_nonws(self.content@, start_pos as int))
                    == fwd_over_ws(self.content@, end_pos as int),
            decreases len - end_pos,
        {
            end_pos = end_pos + 1;
        }
        let mut rebuilt = copy_range(&self.content, 0, start_pos);
        let tail = copy_range(&self.content, end_pos, len);
        crate::text::append_vec(&mut rebuilt, &tail);
        proof {
            assert(rebuilt@ =~= self.content@.take(start_pos as int) + self.content@.skip(
                end_pos as int,
            ));
        }
        self.content = rebuilt;
        self.cursor = start_pos;
    }

    /// Deletes everything before the cursor.
    pub fn delete_to_start(&mut self)
        requires
            old(self).inv(),
        ensures
            final(self).content@ == old(self).content@.skip(old(self).cursor as int),
            final(self).cursor == 0,
            final(self).inv(),
    {
        let rest = copy_range(&self.content, self.cursor, self.content.len());
        proof {
            assert(rest@ =~= self.content@.skip(self.cursor as int));
        }
        self.content = rest;
        self.cursor = 0;
    }

    /// Deletes everything after the cursor.
    pub fn delete_to_end(&mut self)
        requires
            old(self).inv(),
        ensures
            final(self).content@ == old(self).content@.take(old(self).cursor as int),
            final(self).cursor == old(self).cursor,
            final(self).inv(),
    {
        self.content.truncate(self.cursor);
    }

    /// Empties the buffer.
    pub fn clear(&mut self)
        ensures
            final(self).content@.len() == 0,
            final(self).cursor == 0,
            final(self).inv(),
    {
        self.content.clear();
        self.cursor = 0;
    }

    /// Replaces the text and puts the cursor at the end.
    pub fn set_content(&mut self, content: &str)
        ensures
            final(self).content@ == content@,
            final(self).cursor == content@.len(),
            final(self).inv(),
    {
        let chars = string_to_chars(content);
        let n = chars.len();
        self.content = chars;
        self.cursor = n;
    }

    /// Appends a character and puts the cursor at the end.
    pub fn push(&mut self, c: char)
        ensures
            final(self).content@ == old(self).content@.push(c),
            final(self).cursor == final(self).content@.len(),
            final(self).inv(),
    {
        self.content.push(c);
        self.cursor = self.content.len();
    }

    /// Removes and returns the last character, putting the cursor at the
    /// end; `None` on an empty buffer.
    pub fn pop(&mut self) -> (r: Option<char>)
        requires
            old(self).inv(),
        ensures
            final(self).inv(),
            old(self).content@.len() == 0 ==> r is None && final(self).content@ == old(self).content@
                && final(self).cursor == old(self).cursor,
            old(self).content@.len() > 0 ==> {
                &&& r == Some(old(self).content@.last())
                &&& final(self).content@ == old(self).content@.drop_last()
                &&& final(self).cursor == old(self).content@.len() - 1
            },
    {
        let c = self.content.pop();
        if c.is_some() {
            self.cursor = self.content.len();
        }
        c
    }
}

/// Positions after stepping back over whitespace, and over a word.
pub open spec fn back_over_ws(s: Seq<char>, p: int) -> int
    decreases p when 0 <= p <= s.len()
{
    if p > 0 && is_ws(s[p - 1]) {
        back_over_ws(s, p - 1)
    } else {
        p
    }
}

pub open spec fn back_over_nonws(s: Seq<char>, p: int) -> int
    decreases p when 0 <= p <= s.len()
{
    if p > 0 && !is_ws(s[p - 1]) {
        back_over_nonws(s, p - 1)
    } else {
        p
    }
}

/// Where the cursor lands moving one word left: back over whitespace, then
/// back over the word.
pub open spec fn back_over_word(s: Seq<char>, p: int) -> int {
    back_over_nonws(s, back_over_ws(s, p))
}

pub open spec fn fwd_over_nonws(s: Seq<char>, p: int) -> int
    decreases s.len() - p when 0 <= p <= s.len()
{
    if p < s.len() && !is_ws(s[p]) {
        fwd_over_nonws(s, p + 1)
    } else {
        p
    }
}

pub open spec fn fwd_over_ws(s: Seq<char>, p: int) -> int
    decreases s.len() - p when 0 <= p <= s.len()
{
    if p < s.len() && is_ws(s[p]) {
        fwd_over_ws(s, p + 1)
    } else {
        p
    }
}

/// Where the cursor lands moving one word right: over the word, then over
/// the whitespace after it.
pub open spec fn fwd_over_word(s: Seq<char>, p: int) -> int {
    fwd_over_ws(s, fwd_over_nonws(s, p))
}

/// UTF-8 length of one character, by code point range.
pub open spec fn utf8_len_char_spec(c: char) -> int {
    if (c as u32) < 0x80 {
        1
    } else if (c as u32) < 0x800 {
        2
    } else if (c as u32) < 0x10000 {
        3
    } else {
        4
    }
}

pub fn utf8_len_char(c: char) -> (r: usize)
    ensures
        r == utf8_len_char_spec(c),
{
    let u = c as u32;
    if u < 0x80 {
        1
    } else if u < 0x800 {
        2
    } else if u < 0x10000 {
        3
    } else {
        4
    }
}

/// UTF-8 length of a character sequence.
pub open spec fn utf8_len_of(s: Seq<char>) -> int
    decreases s.len(),
{
    if s.len() == 0 {
        0
    } else {
        utf8_len_of(s.drop_last()) + utf8_len_char_spec(s.last())
    }
}

proof fn lemma_utf8_len_grows(s: Seq<char>, k: int)
    requires
        0 <= k <= s.len(),
    ensures
        0 <= utf8_len_of(s.take(k)) <= utf8_len_of(s),
    decreases s.len(),
{
    if s.len() == 0 {
        assert(s.take(k) =~= s);
    } else if k == s.len() {
        lemma_utf8_len_grows(s.drop_last(), k - 1);
        assert(s.take(k) =~= s);
        assert(s.drop_last().take(k - 1) =~= s.drop_last());
    } else {
        lemma_utf8_len_grows(s.drop_last(), k);
        assert(s.drop_last().take(k) =~= s.take(k));
    }
}

/// What `unicode_width::UnicodeWidthStr::width` returns for a string: its
/// displayed width in terminal columns, a function of the characters alone.
pub uninterp spec fn display_width(s: Seq<char>) -> int;

/// Relies on `unicode_width::UnicodeWidthStr::width`: the string's display
/// width in columns; an empty string has width zero.
#[verifier::external_body]
fn str_display_width(s: &str) -> (r: usize)
    ensures
        r == display_width(s@),
        s@.len() == 0 ==> r == 0,
{
    unicode_width::UnicodeWidthStr::width(s)
}

} // verus!
