//! Editing a line of text at a cursor.
//!
//! A cursor is a byte offset into the UTF-8 form of the text, and always lies
//! between two characters. Each operation is stated over the characters: `spot`
//! is the index of the character that the cursor stands before.
use vstd::prelude::*;
use vstd::utf8::{encode_scalar, encode_utf8};

use crate::text::{chars_of, text_between};

verus! {

/// The number of bytes of one character in UTF-8.
pub open spec fn char_len(c: char) -> nat {
    encode_scalar(c as u32).len()
}

/// The byte offset of the character at index `index`.
pub open spec fn offset(s: Seq<char>, index: int) -> nat {
    encode_utf8(s.take(index)).len()
}

/// The length of a text in bytes.
pub open spec fn byte_len(s: Seq<char>) -> nat {
    encode_utf8(s).len()
}

/// Whether a cursor lies between two characters of a text, or at one of its ends.
pub open spec fn is_cursor(s: Seq<char>, cursor: nat) -> bool {
    exists|index: int| 0 <= index <= s.len() && #[trigger] offset(s, index) == cursor
}

/// The index of the character that the cursor stands before.
pub open spec fn spot(s: Seq<char>, cursor: nat) -> int {
    choose|index: int| 0 <= index <= s.len() && #[trigger] offset(s, index) == cursor
}

/// A line of text with its cursor.
#[verifier::ext_equal]
pub struct Line {
    pub text: Seq<char>,
    pub cursor: nat,
}

impl Line {
    pub open spec fn valid(self) -> bool {
        is_cursor(self.text, self.cursor)
    }

    /// The character goes in at the cursor, and the cursor moves past it.
    pub open spec fn insert(self, c: char) -> Line {
        let at = spot(self.text, self.cursor);
        let text = self.text.insert(at, c);
        Line { text, cursor: offset(text, at + 1) }
    }

    /// The character before the cursor goes; at the front nothing does.
    pub open spec fn backspace(self) -> Line {
        let at = spot(self.text, self.cursor);
        if at == 0 {
            self
        } else {
            Line { text: self.text.remove(at - 1), cursor: offset(self.text, at - 1) }
        }
    }

    /// The character after the cursor goes; at the end nothing does.
    pub open spec fn delete(self) -> Line {
        let at = spot(self.text, self.cursor);
        if at == self.text.len() {
            self
        } else {
            Line { text: self.text.remove(at), cursor: self.cursor }
        }
    }

    pub open spec fn left(self) -> Line {
        let at = spot(self.text, self.cursor);
        if at == 0 {
            self
        } else {
            Line { text: self.text, cursor: offset(self.text, at - 1) }
        }
    }

    pub open spec fn right(self) -> Line {
        let at = spot(self.text, self.cursor);
        if at == self.text.len() {
            self
        } else {
            Line { text: self.text, cursor: offset(self.text, at + 1) }
        }
    }

    pub open spec fn home(self) -> Line {
        Line { text: self.text, cursor: 0 }
    }

    pub open spec fn end(self) -> Line {
        Line { text: self.text, cursor: byte_len(self.text) }
    }

    pub open spec fn empty() -> Line {
        Line { text: Seq::empty(), cursor: 0 }
    }
}

// ---------------------------------------------------------------------------
// Offsets
// ---------------------------------------------------------------------------

pub proof fn lemma_char_len(c: char)
    ensures
        1 <= char_len(c) <= 4,
{
}

proof fn lemma_byte_len_concat(left: Seq<char>, right: Seq<char>)
    ensures
        byte_len(left + right) == byte_len(left) + byte_len(right),
    decreases left.len(),
{
    if left.len() == 0 {
        assert(left + right =~= right);
    } else {
        assert((left + right).drop_first() =~= left.drop_first() + right);
        lemma_byte_len_concat(left.drop_first(), right);
    }
}

pub proof fn lemma_offset_next(s: Seq<char>, index: int)
    requires
        0 <= index < s.len(),
    ensures
        offset(s, index + 1) == offset(s, index) + char_len(s[index]),
{
    let one = seq![s[index]];
    assert(s.take(index + 1) =~= s.take(index) + one);
    lemma_byte_len_concat(s.take(index), one);
    assert(one.drop_first() =~= Seq::<char>::empty());
    assert(encode_utf8(one) =~= encode_scalar(one[0] as u32) + encode_utf8(one.drop_first()));
    assert(encode_utf8(Seq::<char>::empty()).len() == 0);
}

proof fn lemma_offset_grows(s: Seq<char>, low: int, high: int)
    requires
        0 <= low <= high <= s.len(),
    ensures
        offset(s, low) + (high - low) <= offset(s, high),
    decreases high - low,
{
    if low < high {
        lemma_offset_grows(s, low, high - 1);
        lemma_offset_next(s, high - 1);
        lemma_char_len(s[high - 1]);
    }
}

pub proof fn lemma_offset_ends(s: Seq<char>)
    ensures
        offset(s, 0) == 0,
        offset(s, s.len() as int) == byte_len(s),
        is_cursor(s, 0),
        is_cursor(s, byte_len(s)),
{
    assert(s.take(s.len() as int) =~= s);
    assert(s.take(0) =~= Seq::<char>::empty());
    assert(encode_utf8(Seq::<char>::empty()).len() == 0);
    assert(is_cursor(s, offset(s, s.len() as int)));
}

/// The spot of a character's offset is that character's index.
pub proof fn lemma_spot(s: Seq<char>, index: int)
    requires
        0 <= index <= s.len(),
    ensures
        is_cursor(s, offset(s, index)),
        spot(s, offset(s, index)) == index,
{
    let other = spot(s, offset(s, index));
    assert(0 <= other <= s.len() && offset(s, other) == offset(s, index));
    if other < index {
        lemma_offset_grows(s, other, index);
    } else if index < other {
        lemma_offset_grows(s, index, other);
    }
}

/// A cursor is zero exactly at the front, and the length exactly at the end.
pub proof fn lemma_cursor_range(s: Seq<char>, cursor: nat)
    requires
        is_cursor(s, cursor),
    ensures
        0 <= spot(s, cursor) <= s.len(),
        offset(s, spot(s, cursor)) == cursor,
        cursor <= byte_len(s),
        cursor == 0 <==> spot(s, cursor) == 0,
        cursor == byte_len(s) <==> spot(s, cursor) == s.len(),
{
    let at = spot(s, cursor);
    lemma_offset_ends(s);
    lemma_offset_grows(s, 0, at);
    lemma_offset_grows(s, at, s.len() as int);
}

proof fn lemma_offset_prefix(left: Seq<char>, right: Seq<char>, index: int)
    requires
        0 <= index <= left.len(),
        index <= right.len(),
        left.take(index) == right.take(index),
    ensures
        offset(left, index) == offset(right, index),
{
}

// ---------------------------------------------------------------------------
// Laws
// ---------------------------------------------------------------------------

/// Every operation leaves the cursor between two characters.
pub proof fn editing_keeps_cursor_valid(line: Line, c: char)
    requires
        line.valid(),
    ensures
        line.insert(c).valid(),
        line.backspace().valid(),
        line.delete().valid(),
        line.left().valid(),
        line.right().valid(),
        line.home().valid(),
        line.end().valid(),
        Line::empty().valid(),
{
    let s = line.text;
    let at = spot(s, line.cursor);
    lemma_cursor_range(s, line.cursor);
    lemma_spot(s.insert(at, c), at + 1);
    if at > 0 {
        let shorter = s.remove(at - 1);
        assert(shorter.take(at - 1) =~= s.take(at - 1));
        lemma_offset_prefix(shorter, s, at - 1);
        lemma_spot(shorter, at - 1);
        lemma_spot(s, at - 1);
    }
    if at < s.len() {
        let shorter = s.remove(at);
        assert(shorter.take(at) =~= s.take(at));
        lemma_offset_prefix(shorter, s, at);
        lemma_spot(shorter, at);
        lemma_spot(s, at + 1);
    }
    lemma_offset_ends(s);
    lemma_offset_ends(Seq::empty());
}

/// A backspace takes back the character typed last, cursor and all.
pub proof fn backspace_undoes_insert(line: Line, c: char)
    requires
        line.valid(),
    ensures
        line.insert(c).backspace() == line,
{
    let s = line.text;
    let at = spot(s, line.cursor);
    lemma_cursor_range(s, line.cursor);
    let longer = s.insert(at, c);
    lemma_spot(longer, at + 1);
    assert(longer.remove(at) =~= s);
    assert(longer.take(at) =~= s.take(at));
}

/// To the left and back to the right is no move, except from the front.
pub proof fn right_undoes_left(line: Line)
    requires
        line.valid(),
        line.cursor > 0,
    ensures
        line.left().right() == line,
{
    lemma_cursor_range(line.text, line.cursor);
    lemma_spot(line.text, spot(line.text, line.cursor) - 1);
}

/// Deleting at the cursor does what stepping right and deleting backwards does.
pub proof fn delete_is_right_then_backspace(line: Line)
    requires
        line.valid(),
        line.cursor < byte_len(line.text),
    ensures
        line.delete() == line.right().backspace(),
{
    lemma_cursor_range(line.text, line.cursor);
    lemma_spot(line.text, spot(line.text, line.cursor) + 1);
}

// ---------------------------------------------------------------------------
// Operations
// ---------------------------------------------------------------------------

fn width(c: char) -> (bytes: usize)
    ensures
        bytes == char_len(c),
{
    let scalar: u32 = c as u32;
    if scalar <= 0x7f {
        1
    } else if scalar <= 0x7ff {
        2
    } else if scalar <= 0xffff {
        3
    } else {
        4
    }
}

/// The length of a text in bytes.
pub fn length(text: &str) -> (bytes: usize)
    ensures
        bytes == byte_len(text@),
{
    text.as_bytes().len()
}

/// The index of the character that the cursor stands before.
pub fn index_of(chars: &Vec<char>, cursor: usize) -> (index: usize)
    requires
        is_cursor(chars@, cursor as nat),
    ensures
        index == spot(chars@, cursor as nat),
        index <= chars@.len(),
        offset(chars@, index as int) == cursor,
{
    let ghost s = chars@;
    let ghost goal = spot(s, cursor as nat);
    let mut index: usize = 0;
    let mut reached: usize = 0;
    proof {
        lemma_offset_ends(s);
        lemma_cursor_range(s, cursor as nat);
    }
    while reached < cursor
        invariant
            s == chars@,
            0 <= index <= goal <= chars.len(),
            reached == offset(s, index as int),
            offset(s, goal) == cursor,
        decreases goal - index,
    {
        proof {
            if index == goal {
                assert(false);
            }
            lemma_offset_next(s, index as int);
            lemma_offset_grows(s, index + 1, goal);
        }
        reached = reached + width(chars[index]);
        index = index + 1;
    }
    proof {
        lemma_offset_grows(s, index as int, goal);
    }
    index
}

/// Puts a character in at the cursor and moves the cursor past it.
pub fn insert_char(text: &mut String, cursor: &mut usize, c: char)
    requires
        is_cursor(old(text)@, *old(cursor) as nat),
    ensures
        (Line { text: final(text)@, cursor: *final(cursor) as nat }) == (Line {
            text: old(text)@,
            cursor: *old(cursor) as nat,
        }).insert(c),
        is_cursor(final(text)@, *final(cursor) as nat),
{
    let ghost line = Line { text: text@, cursor: *cursor as nat };
    let chars = chars_of(text.as_str());
    let at: usize = index_of(&chars, *cursor);
    let mut edited = text_between(&chars, 0, at);
    edited.push(c);
    let reached: usize = length(edited.as_str());
    let tail = text_between(&chars, at, chars.len());
    let ghost head = edited@;
    edited.push_str(tail.as_str());
    proof {
        assert(edited@ =~= line.text.insert(at as int, c));
        assert(edited@.take(at + 1) =~= head);
        editing_keeps_cursor_valid(line, c);
    }
    *text = edited;
    *cursor = reached;
}

/// Takes out the character before the cursor, if there is one.
pub fn backspace(text: &mut String, cursor: &mut usize)
    requires
        is_cursor(old(text)@, *old(cursor) as nat),
    ensures
        (Line { text: final(text)@, cursor: *final(cursor) as nat }) == (Line {
            text: old(text)@,
            cursor: *old(cursor) as nat,
        }).backspace(),
        is_cursor(final(text)@, *final(cursor) as nat),
{
    let ghost line = Line { text: text@, cursor: *cursor as nat };
    let chars = chars_of(text.as_str());
    let at: usize = index_of(&chars, *cursor);
    if at == 0 {
        return;
    }
    let mut edited = text_between(&chars, 0, at - 1);
    let reached: usize = length(edited.as_str());
    let tail = text_between(&chars, at, chars.len());
    edited.push_str(tail.as_str());
    proof {
        assert(edited@ =~= line.text.remove(at - 1));
        assert(line.text.take(at - 1) =~= chars@.subrange(0, at - 1));
        editing_keeps_cursor_valid(line, ' ');
    }
    *text = edited;
    *cursor = reached;
}

/// Takes out the character after the cursor, if there is one.
pub fn delete(text: &mut String, cursor: usize)
    requires
        is_cursor(old(text)@, cursor as nat),
    ensures
        (Line { text: final(text)@, cursor: cursor as nat }) == (Line {
            text: old(text)@,
            cursor: cursor as nat,
        }).delete(),
        is_cursor(final(text)@, cursor as nat),
{
    let ghost line = Line { text: text@, cursor: cursor as nat };
    let chars = chars_of(text.as_str());
    let at: usize = index_of(&chars, cursor);
    if at == chars.len() {
        return;
    }
    let mut edited = text_between(&chars, 0, at);
    let tail = text_between(&chars, at + 1, chars.len());
    edited.push_str(tail.as_str());
    proof {
        assert(edited@ =~= line.text.remove(at as int));
        editing_keeps_cursor_valid(line, ' ');
    }
    *text = edited;
}

/// The cursor one character to the left, if there is one.
pub fn left_of(text: &str, cursor: usize) -> (moved: usize)
    requires
        is_cursor(text@, cursor as nat),
    ensures
        moved == (Line { text: text@, cursor: cursor as nat }).left().cursor,
        is_cursor(text@, moved as nat),
{
    let ghost line = Line { text: text@, cursor: cursor as nat };
    proof {
        editing_keeps_cursor_valid(line, ' ');
    }
    let chars = chars_of(text);
    let at: usize = index_of(&chars, cursor);
    if at == 0 {
        cursor
    } else {
        proof {
            lemma_offset_next(text@, at - 1);
        }
        cursor - width(chars[at - 1])
    }
}

/// The cursor one character to the right, if there is one.
pub fn right_of(text: &str, cursor: usize) -> (moved: usize)
    requires
        is_cursor(text@, cursor as nat),
    ensures
        moved == (Line { text: text@, cursor: cursor as nat }).right().cursor,
        is_cursor(text@, moved as nat),
{
    let ghost line = Line { text: text@, cursor: cursor as nat };
    proof {
        editing_keeps_cursor_valid(line, ' ');
    }
    let ghost at = spot(text@, cursor as nat);
    proof {
        lemma_cursor_range(text@, cursor as nat);
    }
    if cursor == length(text) {
        cursor
    } else {
        proof {
            lemma_offset_next(text@, at);
            lemma_offset_ends(text@);
            lemma_offset_grows(text@, at + 1, text@.len() as int);
        }
        let chars = chars_of(text);
        cursor + width(chars[index_of(&chars, cursor)])
    }
}

// ---------------------------------------------------------------------------
// Operations at a known place
// ---------------------------------------------------------------------------

/// With the cursor before the character at index `at`, a character goes in right
/// there, and the cursor is as many bytes further as the character is long.
pub proof fn insert_goes_in_at_the_cursor(line: Line, c: char, at: int)
    requires
        0 <= at <= line.text.len(),
        line.cursor == offset(line.text, at),
    ensures
        line.insert(c).text == line.text.take(at) + seq![c] + line.text.skip(at),
        line.insert(c).cursor == line.cursor + char_len(c),
{
    lemma_spot(line.text, at);
    let longer = line.text.insert(at, c);
    assert(longer =~= line.text.take(at) + seq![c] + line.text.skip(at));
    assert(longer.take(at) =~= line.text.take(at));
    lemma_offset_next(longer, at);
    assert(longer[at] == c);
}

/// With the cursor before the character at index `at`, a backspace takes away
/// the character before it, and a delete the character at it. At the front and
/// at the end there is none, and nothing changes.
pub proof fn one_character_goes(line: Line, at: int)
    requires
        0 <= at <= line.text.len(),
        line.cursor == offset(line.text, at),
    ensures
        at == 0 ==> line.backspace() == line,
        at > 0 ==> line.backspace().text == line.text.take(at - 1) + line.text.skip(at),
        at > 0 ==> line.backspace().cursor == line.cursor - char_len(line.text[at - 1]),
        at == line.text.len() ==> line.delete() == line,
        at < line.text.len() ==> line.delete().text == line.text.take(at) + line.text.skip(at + 1),
        at < line.text.len() ==> line.delete().cursor == line.cursor,
{
    lemma_spot(line.text, at);
    if at > 0 {
        assert(line.text.remove(at - 1) =~= line.text.take(at - 1) + line.text.skip(at));
        lemma_offset_next(line.text, at - 1);
    }
    if at < line.text.len() {
        assert(line.text.remove(at) =~= line.text.take(at) + line.text.skip(at + 1));
    }
}

/// A step is over one character, to the left or to the right, and stops at the
/// ends; a jump goes to the first byte or behind the last. The text stays.
pub proof fn moving_keeps_the_text(line: Line, at: int)
    requires
        0 <= at <= line.text.len(),
        line.cursor == offset(line.text, at),
    ensures
        line.left().text == line.text && line.right().text == line.text,
        line.home().text == line.text && line.end().text == line.text,
        at > 0 ==> line.left().cursor == line.cursor - char_len(line.text[at - 1]),
        at == 0 ==> line.left() == line,
        at < line.text.len() ==> line.right().cursor == line.cursor + char_len(line.text[at]),
        at == line.text.len() ==> line.right() == line,
        line.home().cursor == 0,
        line.end().cursor == encode_utf8(line.text).len(),
{
    lemma_spot(line.text, at);
    if at > 0 {
        lemma_offset_next(line.text, at - 1);
    }
    if at < line.text.len() {
        lemma_offset_next(line.text, at);
    }
}

} // verus!
