//! The one-line text field of the interactive screens: a string and a
//! cursor kept on a character boundary (as a byte offset), edited by keys.
use vstd::prelude::*;
use crate::terminal::{byte_len, utf8_width};
use crate::text::{chars_of, push_char, string_of};

verus! {

/// The keys a text field reacts to; any other key is `Other`.
#[derive(Debug, Clone, Copy, PartialEq, Eq)]
pub enum Key {
    Char(char),
    Backspace,
    Delete,
    Left,
    Right,
    Other,
}

/// A line of text being edited, with the cursor as a byte offset.
#[derive(Debug)]
pub struct TextInput {
    pub text: String,
    pub cursor: usize,
}

/// The character position whose byte offset in `s` is `b`, if `b` falls
/// on a character boundary.
pub open spec fn boundary(s: Seq<char>, b: int) -> bool {
    exists|k: int| 0 <= k <= s.len() && byte_len(s.take(k)) == b
}

/// The character position of byte offset `b` in `s`.
pub open spec fn char_pos(s: Seq<char>, b: int) -> int {
    choose|k: int| 0 <= k <= s.len() && byte_len(s.take(k)) == b
}

/// What a key does to the text and the cursor's character position.
pub open spec fn edit(s: Seq<char>, k: int, key: Key) -> (Seq<char>, int) {
    match key {
        Key::Char(c) => (s.take(k).push(c) + s.skip(k), k + 1),
        Key::Backspace => if k > 0 {
            (s.take(k - 1) + s.skip(k), k - 1)
        } else {
            (s, k)
        },
        Key::Delete => if k < s.len() {
            (s.take(k) + s.skip(k + 1), k)
        } else {
            (s, k)
        },
        Key::Left => if k > 0 {
            (s, k - 1)
        } else {
            (s, k)
        },
        Key::Right => if k < s.len() {
            (s, k + 1)
        } else {
            (s, k)
        },
        Key::Other => (s, k),
    }
}

proof fn lemma_byte_len_take_step(s: Seq<char>, k: int)
    requires
        0 <= k < s.len(),
    ensures
        byte_len(s.take(k + 1)) == byte_len(s.take(k)) + utf8_width(s[k]),
{
    assert(s.take(k + 1).drop_last() =~= s.take(k));
}

proof fn lemma_len_le_byte_len(s: Seq<char>)
    ensures
        s.len() <= byte_len(s),
    decreases s.len(),
{
    if s.len() > 0 {
        lemma_len_le_byte_len(s.drop_last());
    }
}

proof fn lemma_byte_len_monotone(s: Seq<char>, a: int, b: int)
    requires
        0 <= a < b <= s.len(),
    ensures
        byte_len(s.take(a)) < byte_len(s.take(b)),
    decreases b - a,
{
    lemma_byte_len_take_step(s, b - 1);
    if a < b - 1 {
        lemma_byte_len_monotone(s, a, b - 1);
    }
}

proof fn lemma_char_pos(s: Seq<char>, k: int)
    requires
        0 <= k <= s.len(),
    ensures
        boundary(s, byte_len(s.take(k)) as int),
        char_pos(s, byte_len(s.take(k)) as int) == k,
{
    let b = byte_len(s.take(k)) as int;
    assert(0 <= k <= s.len() && byte_len(s.take(k)) == b);
    let j = char_pos(s, b);
    if j < k {
        lemma_byte_len_monotone(s, j, k);
    } else if j > k {
        lemma_byte_len_monotone(s, k, j);
    }
}

proof fn lemma_byte_len_append(a: Seq<char>, b: Seq<char>)
    ensures
        byte_len(a + b) == byte_len(a) + byte_len(b),
    decreases b.len(),
{
    if b.len() > 0 {
        assert((a + b).drop_last() =~= a + b.drop_last());
        lemma_byte_len_append(a, b.drop_last());
    } else {
        assert(a + b =~= a);
    }
}

proof fn lemma_byte_len_split(s: Seq<char>, k: int)
    requires
        0 <= k <= s.len(),
    ensures
        byte_len(s) == byte_len(s.take(k)) + byte_len(s.skip(k)),
{
    assert(s =~= s.take(k) + s.skip(k));
    lemma_byte_len_append(s.take(k), s.skip(k));
}

impl TextInput {
    /// Whether the cursor lies on a character boundary of the text.
    pub open spec fn wf(&self) -> bool {
        boundary(self.text@, self.cursor as int)
    }

    /// An empty field.
    pub fn new() -> (t: TextInput)
        ensures
            t.wf(),
            t.text@ == Seq::<char>::empty(),
            t.cursor == 0,
    {
        let t = TextInput { text: String::new(), cursor: 0 };
        assert(t.text@.take(0) =~= Seq::<char>::empty());
        assert(byte_len(t.text@.take(0)) == 0);
        t
    }

    /// A field holding `text`, with the cursor at its end.
    pub fn with_text(text: String) -> (t: TextInput)
        requires
            byte_len(text@) <= usize::MAX,
        ensures
            t.wf(),
            t.text@ == text@,
            t.cursor == byte_len(text@),
    {
        let cursor = crate::terminal::byte_len_of(text.as_str());
        let t = TextInput { text, cursor };
        assert(t.text@.take(t.text@.len() as int) =~= t.text@);
        assert(0 <= t.text@.len() <= t.text@.len() && byte_len(t.text@.take(t.text@.len() as int)) == cursor);
        t
    }

    /// Applies a key: a character is inserted at the cursor, Backspace and
    /// Delete remove the character before or at the cursor, Left and Right
    /// move it by one character; nothing goes past either end.
    pub fn handle_key(&mut self, key: Key)
        requires
            old(self).wf(),
            byte_len(old(self).text@) + 4 <= usize::MAX,
        ensures
            final(self).wf(),
            ({
                let (s2, k2) = edit(old(self).text@, char_pos(old(self).text@, old(self).cursor as int), key);
                final(self).text@ == s2 && final(self).cursor == byte_len(s2.take(k2))
            }),
    {
        let ghost s = self.text@;
        let ghost k = char_pos(s, self.cursor as int);
        let v = chars_of(self.text.as_str());
        // Find the character position of the cursor.
        let mut pos: usize = 0;
        let mut acc: usize = 0;
        proof {
            lemma_len_le_byte_len(s);
            assert(s.take(0) =~= Seq::<char>::empty());
            lemma_byte_len_split(s, k);
            if k > 0 {
                lemma_byte_len_monotone(s, 0, k);
            }
        }
        while acc < self.cursor
            invariant
                v@ == s,
                s == self.text@,
                0 <= k <= s.len(),
                byte_len(s.take(k)) == self.cursor,
                byte_len(s) + 4 <= usize::MAX,
                s.len() <= byte_len(s),
                pos <= k,
                acc == byte_len(s.take(pos as int)),
            decreases k - pos,
        {
            proof {
                if pos == k {
                    assert(false);
                }
                lemma_byte_len_take_step(s, pos as int);
                lemma_byte_len_split(s, pos + 1);
                if pos + 1 < k {
                    lemma_byte_len_monotone(s, pos + 1, k);
                }
            }
            let c = v[pos];
            let w: usize = if (c as u32) < 0x80 {
                1
            } else if (c as u32) < 0x800 {
                2
            } else if (c as u32) < 0x10000 {
                3
            } else {
                4
            };
            acc = acc + w;
            pos = pos + 1;
        }
        proof {
            if pos < k {
                lemma_byte_len_monotone(s, pos as int, k);
            }
        }
        assert(pos == k);
        let (chars, new_pos) = match key {
            Key::Char(c) => {
                let mut out: Vec<char> = Vec::new();
                let mut t: usize = 0;
                while t < pos
                    invariant
                        t <= pos <= v@.len(),
                        out@ == v@.take(t as int),
                    decreases pos - t,
                {
                    out.push(v[t]);
                    t = t + 1;
                    assert(out@ =~= v@.take(t as int));
                }
                out.push(c);
                let mut t2: usize = pos;
                while t2 < v.len()
                    invariant
                        pos <= t2 <= v@.len(),
                        out@ == v@.take(pos as int).push(c) + v@.subrange(pos as int, t2 as int),
                    decreases v@.len() - t2,
                {
                    out.push(v[t2]);
                    t2 = t2 + 1;
                    assert(out@ =~= v@.take(pos as int).push(c) + v@.subrange(pos as int, t2 as int));
                }
                assert(out@ =~= v@.take(pos as int).push(c) + v@.skip(pos as int));
                (out, pos + 1)
            },
            Key::Backspace => {
                if pos > 0 {
                    let out = remove_at(&v, pos - 1);
                    assert(out@ =~= v@.take(pos - 1) + v@.skip(pos as int));
                    (out, pos - 1)
                } else {
                    (v, pos)
                }
            },
            Key::Delete => {
                if pos < v.len() {
                    let out = remove_at(&v, pos);
                    assert(out@ =~= v@.take(pos as int) + v@.skip(pos + 1));
                    (out, pos)
                } else {
                    (v, pos)
                }
            },
            Key::Left => {
                if pos > 0 {
                    (v, pos - 1)
                } else {
                    (v, pos)
                }
            },
            Key::Right => {
                if pos < v.len() {
                    (v, pos + 1)
                } else {
                    (v, pos)
                }
            },
            Key::Other => (v, pos),
        };
        let ghost s2 = edit(s, k, key).0;
        let ghost k2 = edit(s, k, key).1;
        assert(chars@ == s2 && new_pos as int == k2);
        proof {
            // The new text is at most one character longer.
            match key {
                Key::Char(c) => {
                    lemma_byte_len_append(s.take(k).push(c), s.skip(k));
                    lemma_byte_len_split(s, k);
                    assert(s.take(k).push(c).drop_last() =~= s.take(k));
                },
                Key::Backspace => if k > 0 {
                    lemma_byte_len_append(s.take(k - 1), s.skip(k));
                    lemma_byte_len_split(s, k);
                    lemma_byte_len_monotone(s, k - 1, k);
                },
                Key::Delete => if k < s.len() {
                    lemma_byte_len_append(s.take(k), s.skip(k + 1));
                    lemma_byte_len_split(s, k);
                    lemma_byte_len_split(s, k + 1);
                    lemma_byte_len_monotone(s, k, k + 1);
                },
                _ => {},
            }
            lemma_byte_len_split(s2, k2);
        }
        // The cursor's byte offset in the new text.
        let mut b: usize = 0;
        let mut t: usize = 0;
        while t < new_pos
            invariant
                t <= new_pos <= chars@.len(),
                chars@ == s2,
                byte_len(s2) <= byte_len(s) + 4,
                byte_len(s) + 4 <= usize::MAX,
                byte_len(s2.take(new_pos as int)) <= byte_len(s2),
                b == byte_len(s2.take(t as int)),
            decreases new_pos - t,
        {
            proof {
                lemma_byte_len_take_step(s2, t as int);
                if t + 1 < new_pos {
                    lemma_byte_len_monotone(s2, t + 1, new_pos as int);
                }
            }
            let c = chars[t];
            let w: usize = if (c as u32) < 0x80 {
                1
            } else if (c as u32) < 0x800 {
                2
            } else if (c as u32) < 0x10000 {
                3
            } else {
                4
            };
            b = b + w;
            t = t + 1;
        }
        self.text = string_of(chars.as_slice());
        self.cursor = b;
        proof {
            lemma_char_pos(s2, k2);
        }
    }
}

/// `v` without its character at `at`.
fn remove_at(v: &Vec<char>, at: usize) -> (r: Vec<char>)
    requires
        at < v@.len(),
    ensures
        r@ == v@.take(at as int) + v@.skip(at + 1),
{
    let mut out: Vec<char> = Vec::new();
    let mut t: usize = 0;
    while t < v.len()
        invariant
            t <= v@.len(),
            at < v@.len(),
            out@ == if t <= at { v@.take(t as int) } else { v@.take(at as int) + v@.subrange(at + 1, t as int) },
        decreases v@.len() - t,
    {
        if t != at {
            out.push(v[t]);
        }
        t = t + 1;
        if t <= at {
            assert(out@ =~= v@.take(t as int));
        } else if t == at + 1 {
            assert(out@ =~= v@.take(at as int) + v@.subrange(at + 1, t as int));
        } else {
            assert(out@ =~= v@.take(at as int) + v@.subrange(at + 1, t as int));
        }
    }
    assert(v@.subrange(at + 1, v@.len() as int) =~= v@.skip(at + 1));
    out
}

/// Typing a character and then Backspace gives back the text and cursor
/// position from before.
pub proof fn lemma_insert_then_backspace(s: Seq<char>, k: int, c: char)
    requires
        0 <= k <= s.len(),
    ensures
        edit(edit(s, k, Key::Char(c)).0, edit(s, k, Key::Char(c)).1, Key::Backspace) == (s, k),
{
    let t = s.take(k).push(c) + s.skip(k);
    assert(t.take(k) =~= s.take(k));
    assert(t.skip(k + 1) =~= s.skip(k));
    assert(s.take(k) + s.skip(k) =~= s);
}

/// Whatever the key, the cursor stays within the text.
pub proof fn lemma_cursor_in_range(s: Seq<char>, k: int, key: Key)
    requires
        0 <= k <= s.len(),
    ensures
        0 <= edit(s, k, key).1 <= edit(s, k, key).0.len(),
{
}

/// Left then Right brings the cursor back when it is past the start, and
/// Right then Left when it is before the end; at the start Backspace and
/// Left change nothing, and at the end Delete and Right change nothing.
pub proof fn lemma_cursor_moves(s: Seq<char>, k: int)
    requires
        0 <= k <= s.len(),
    ensures
        k > 0 ==> edit(edit(s, k, Key::Left).0, edit(s, k, Key::Left).1, Key::Right) == (s, k),
        k < s.len() ==> edit(edit(s, k, Key::Right).0, edit(s, k, Key::Right).1, Key::Left) == (s, k),
        k == 0 ==> edit(s, k, Key::Backspace) == (s, k) && edit(s, k, Key::Left) == (s, k),
        k == s.len() ==> edit(s, k, Key::Delete) == (s, k) && edit(s, k, Key::Right) == (s, k),
{
}

/// Delete removes the character at the cursor and leaves the cursor
/// where it is; Backspace removes the one before it and moves the cursor
/// back onto its place; a typed character lands at the cursor, which moves
/// past it. Every other character keeps its order.
pub proof fn lemma_edits_by_position(s: Seq<char>, k: int, c: char)
    requires
        0 <= k <= s.len(),
    ensures
        k < s.len() ==> ({
            let (t, k2) = edit(s, k, Key::Delete);
            &&& t.len() == s.len() - 1
            &&& k2 == k
            &&& forall|j: int| 0 <= j < k ==> t[j] == s[j]
            &&& forall|j: int| k <= j < t.len() ==> t[j] == s[j + 1]
        }),
        k > 0 ==> ({
            let (t, k2) = edit(s, k, Key::Backspace);
            &&& t.len() == s.len() - 1
            &&& k2 == k - 1
            &&& forall|j: int| 0 <= j < k - 1 ==> t[j] == s[j]
            &&& forall|j: int| k - 1 <= j < t.len() ==> t[j] == s[j + 1]
        }),
        ({
            let (t, k2) = edit(s, k, Key::Char(c));
            &&& t.len() == s.len() + 1
            &&& k2 == k + 1
            &&& t[k] == c
            &&& forall|j: int| 0 <= j < k ==> t[j] == s[j]
            &&& forall|j: int| k < j < t.len() ==> t[j] == s[j - 1]
        }),
{
}

} // verus!
