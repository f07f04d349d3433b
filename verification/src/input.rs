use vstd::prelude::*;

use crate::strutil::push_char;

verus! {

/// Where the beginning of the word before `cur` is: leading back over
/// spaces, then over the word itself.
pub open spec fn word_start(s: Seq<char>, cur: int) -> int
    decreases cur,
{
    if cur <= 0 {
        0
    } else if s[cur - 1] == ' ' {
        word_start_spaces(s, cur)
    } else {
        word_start_word(s, cur)
    }
}

/// Backs over the spaces right before `cur`, then over the word before them.
pub open spec fn word_start_spaces(s: Seq<char>, cur: int) -> int
    decreases cur,
{
    if cur <= 0 {
        0
    } else if s[cur - 1] == ' ' {
        word_start_spaces(s, cur - 1)
    } else {
        word_start_word(s, cur)
    }
}

/// Backs over the non-space characters right before `cur`.
pub open spec fn word_start_word(s: Seq<char>, cur: int) -> int
    decreases cur,
{
    if cur <= 0 {
        0
    } else if s[cur - 1] != ' ' {
        word_start_word(s, cur - 1)
    } else {
        cur
    }
}

/// The input line: an edit buffer, the caret position in it, and whether the
/// line is being read as a password (hidden, not kept in history).
#[derive(Debug, Clone)]
pub struct InputLine {
    pub buf: Vec<char>,
    pub cursor: usize,
    pub password: bool,
    pub history: Vec<String>,
    pub history_index: usize,
}

impl InputLine {
    /// The caret stays inside the buffer (one past the end at most), and the
    /// history marker inside the history.
    pub open spec fn wf(self) -> bool {
        &&& self.cursor <= self.buf@.len()
        &&& self.history_index <= self.history@.len()
    }

    /// An empty input line.
    pub fn new() -> (r: InputLine)
        ensures
            r.wf(),
            r.buf@.len() == 0,
            r.cursor == 0,
            !r.password,
            r.history@.len() == 0,
    {
        InputLine { buf: Vec::new(), cursor: 0, password: false, history: Vec::new(), history_index: 0 }
    }

    /// Inserts a character at the caret and moves the caret past it.
    pub fn key(&mut self, c: char)
        requires
            old(self).wf(),
        ensures
            final(self).wf(),
            final(self).buf@ == old(self).buf@.insert(old(self).cursor as int, c),
            final(self).cursor == old(self).cursor + 1,
            final(self).password == old(self).password,
            final(self).history == old(self).history,
    {
        self.buf.insert(self.cursor, c);
        let n = self.buf.len();
        self.cursor = if self.cursor < n {
            self.cursor + 1
        } else {
            n
        };
    }

    /// Removes the character before the caret, if any.
    pub fn backspace(&mut self)
        requires
            old(self).wf(),
        ensures
            final(self).wf(),
            old(self).cursor == 0 ==> final(self).buf@ == old(self).buf@ && final(self).cursor
                == 0,
            old(self).cursor > 0 ==> final(self).buf@ == old(self).buf@.remove(
                old(self).cursor - 1,
            ) && final(self).cursor == old(self).cursor - 1,
            final(self).password == old(self).password,
            final(self).history == old(self).history,
    {
        if self.cursor > 0 {
            self.buf.remove(self.cursor - 1);
            self.cursor = self.cursor - 1;
        }
    }

    /// Removes the character under the caret, if any.
    pub fn delete(&mut self)
        requires
            old(self).wf(),
        ensures
            final(self).wf(),
            old(self).cursor == old(self).buf@.len() ==> final(self).buf@ == old(self).buf@,
            old(self).cursor < old(self).buf@.len() ==> final(self).buf@ == old(self).buf@.remove(
                old(self).cursor as int,
            ),
            final(self).cursor == old(self).cursor,
            final(self).password == old(self).password,
            final(self).history == old(self).history,
    {
        if self.cursor < self.buf.len() {
            self.buf.remove(self.cursor);
        }
    }

    /// Moves the caret to the start of the line.
    pub fn home(&mut self)
        ensures
            *final(self) == (InputLine { cursor: 0, ..*old(self) }),
    {
        self.cursor = 0;
    }

    /// Moves the caret one past the end of the line.
    pub fn end(&mut self)
        ensures
            *final(self) == (InputLine { cursor: old(self).buf@.len() as usize, ..*old(self) }),
    {
        self.cursor = self.buf.len();
    }

    /// Moves the caret one character left, stopping at the start.
    pub fn left(&mut self)
        ensures
            final(self).cursor == if old(self).cursor > 0 {
                (old(self).cursor - 1) as usize
            } else {
                0
            },
            final(self).buf == old(self).buf,
            final(self).password == old(self).password,
            final(self).history == old(self).history,
            final(self).history_index == old(self).history_index,
    {
        if self.cursor > 0 {
            self.cursor = self.cursor - 1;
        }
    }

    /// Moves the caret one character right, stopping past the end.
    pub fn right(&mut self)
        requires
            old(self).wf(),
        ensures
            final(self).wf(),
            final(self).cursor == if old(self).cursor < old(self).buf@.len() {
                (old(self).cursor + 1) as usize
            } else {
                old(self).cursor
            },
            final(self).buf == old(self).buf,
            final(self).password == old(self).password,
            final(self).history == old(self).history,
            final(self).history_index == old(self).history_index,
    {
        if self.cursor < self.buf.len() {
            self.cursor = self.cursor + 1;
        }
    }

    /// Deletes from the beginning of the word before the caret up to the
    /// caret: trailing spaces and the word before them go together.
    pub fn backward_delete_word(&mut self)
        requires
            old(self).wf(),
        ensures
            final(self).wf(),
            final(self).cursor == word_start(old(self).buf@, old(self).cursor as int),
            final(self).buf@ == old(self).buf@.subrange(0, final(self).cursor as int)
                + old(self).buf@.subrange(old(self).cursor as int, old(self).buf@.len() as int),
            final(self).password == old(self).password,
            final(self).history == old(self).history,
    {
        let ghost gbuf = self.buf@;
        let ghost gcur = self.cursor as int;
        let mut start = self.cursor;
        while start > 0 && self.buf[start - 1] == ' '
            invariant
                *self == *old(self),
                old(self).wf(),
                gbuf == self.buf@,
                gcur == self.cursor as int,
                start <= self.cursor,
                word_start(gbuf, gcur) == if start == gcur {
                    word_start(gbuf, start as int)
                } else {
                    word_start_spaces(gbuf, start as int)
                },
                start < gcur ==> gbuf[start as int] == ' ',
            decreases start,
        {
            start = start - 1;
        }
        while start > 0 && self.buf[start - 1] != ' '
            invariant
                *self == *old(self),
                old(self).wf(),
                gbuf == self.buf@,
                gcur == self.cursor as int,
                start <= self.cursor,
                word_start(gbuf, gcur) == if start == gcur {
                    word_start(gbuf, start as int)
                } else if start < gcur && gbuf[start as int] == ' ' {
                    word_start_spaces(gbuf, start as int)
                } else {
                    word_start_word(gbuf, start as int)
                },
                start == gcur ==> start == 0 || gbuf[start as int - 1] != ' ',
                start < gcur && gbuf[start as int] == ' ' ==> start == 0 || gbuf[start as int
                    - 1] != ' ',
            decreases start,
        {
            start = start - 1;
        }
        proof {
            assert(word_start(gbuf, gcur) == start);
        }
        let mut kept: Vec<char> = Vec::new();
        let mut i: usize = 0;
        while i < start
            invariant
                *self == *old(self),
                old(self).wf(),
                gbuf == self.buf@,
                gcur == self.cursor as int,
                start <= self.cursor,
                i <= start,
                kept@ == gbuf.subrange(0, i as int),
            decreases start - i,
        {
            kept.push(self.buf[i]);
            proof {
                assert(kept@ =~= gbuf.subrange(0, i as int + 1));
            }
            i = i + 1;
        }
        let mut j = self.cursor;
        while j < self.buf.len()
            invariant
                *self == *old(self),
                old(self).wf(),
                gbuf == self.buf@,
                gcur == self.cursor as int,
                start <= self.cursor <= j <= self.buf@.len(),
                kept@ == gbuf.subrange(0, start as int) + gbuf.subrange(gcur, j as int),
            decreases self.buf@.len() - j,
        {
            kept.push(self.buf[j]);
            proof {
                assert(kept@ =~= gbuf.subrange(0, start as int) + gbuf.subrange(
                    gcur,
                    j as int + 1,
                ));
            }
            j = j + 1;
        }
        self.buf = kept;
        self.cursor = start;
    }

    /// Turns the edit buffer into an owned string.
    pub fn content(&self) -> (r: String)
        ensures
            r@ == self.buf@,
    {
        let mut s = String::new();
        let mut i: usize = 0;
        while i < self.buf.len()
            invariant
                i <= self.buf@.len(),
                s@ == self.buf@.subrange(0, i as int),
            decreases self.buf@.len() - i,
        {
            push_char(&mut s, self.buf[i]);
            proof {
                assert(s@ =~= self.buf@.subrange(0, i as int + 1));
            }
            i = i + 1;
        }
        proof {
            assert(self.buf@.subrange(0, self.buf@.len() as int) =~= self.buf@);
        }
        s
    }

    /// Replaces the line, placing the caret past its end.
    pub fn set_content(&mut self, text: &str)
        ensures
            final(self).wf(),
            final(self).buf@ == text@,
            final(self).cursor == text@.len(),
            final(self).password == old(self).password,
            final(self).history == old(self).history,
    {
        let n = text.unicode_len();
        let mut buf: Vec<char> = Vec::new();
        let mut i: usize = 0;
        while i < n
            invariant
                i <= n,
                n == text@.len(),
                buf@ == text@.subrange(0, i as int),
            decreases n - i,
        {
            buf.push(text.get_char(i));
            proof {
                assert(buf@ =~= text@.subrange(0, i as int + 1));
            }
            i = i + 1;
        }
        proof {
            assert(text@.subrange(0, n as int) =~= text@);
        }
        self.buf = buf;
        self.cursor = n;
        self.history_index = if self.history.len() > 0 {
            self.history.len()
        } else {
            0
        };
    }

    /// Switches to password entry: the line is cleared and what is typed next
    /// is not echoed or remembered.
    pub fn read_password(&mut self)
        requires
            old(self).wf(),
        ensures
            final(self).wf(),
            final(self).buf@.len() == 0,
            final(self).cursor == 0,
            final(self).password,
            final(self).history == old(self).history,
    {
        self.buf = Vec::new();
        self.cursor = 0;
        self.password = true;
    }

    /// Submits the line: hands back its text and whether it was a password,
    /// clears the buffer, and remembers ordinary lines in the history.
    pub fn validate(&mut self) -> (r: (String, bool))
        requires
            old(self).wf(),
        ensures
            final(self).wf(),
            r.0@ == old(self).buf@,
            r.1 == old(self).password,
            final(self).buf@.len() == 0,
            final(self).cursor == 0,
            !final(self).password,
            old(self).password ==> final(self).history == old(self).history,
            !old(self).password ==> final(self).history.deep_view()
                == old(self).history.deep_view().push(old(self).buf@),
    {
        let text = self.content();
        let was_password = self.password;
        if !was_password {
            let ghost g = self.history.deep_view();
            let copy = text.clone();
            self.history.push(copy);
            proof {
                assert(self.history.deep_view() =~= g.push(old(self).buf@));
            }
        }
        self.history_index = self.history.len();
        self.buf = Vec::new();
        self.cursor = 0;
        self.password = false;
        (text, was_password)
    }

    /// Recalls the previous history entry, stopping at the oldest.
    pub fn previous(&mut self)
        requires
            old(self).wf(),
        ensures
            final(self).wf(),
            old(self).history_index == 0 ==> final(self).buf == old(self).buf
                && final(self).history_index == 0,
            old(self).history_index > 0 ==> {
                &&& final(self).history_index == old(self).history_index - 1
                &&& final(self).buf@ == old(self).history@[old(self).history_index - 1]@
            },
            final(self).history == old(self).history,
            final(self).password == old(self).password,
    {
        if self.history_index > 0 {
            self.history_index = self.history_index - 1;
            let entry = self.history[self.history_index].clone();
            let n = entry.as_str().unicode_len();
            let mut buf: Vec<char> = Vec::new();
            let mut i: usize = 0;
            while i < n
                invariant
                    i <= n,
                    n == entry@.len(),
                    buf@ == entry@.subrange(0, i as int),
                decreases n - i,
            {
                buf.push(entry.as_str().get_char(i));
                proof {
                    assert(buf@ =~= entry@.subrange(0, i as int + 1));
                }
                i = i + 1;
            }
            proof {
                assert(entry@.subrange(0, n as int) =~= entry@);
            }
            self.buf = buf;
            self.cursor = n;
        }
    }

    /// Recalls the next history entry, clearing the line once past the most
    /// recent one.
    pub fn next(&mut self)
        requires
            old(self).wf(),
        ensures
            final(self).wf(),
            old(self).history_index + 1 < old(self).history@.len() ==> {
                &&& final(self).history_index == old(self).history_index + 1
                &&& final(self).buf@ == old(self).history@[old(self).history_index + 1]@
            },
            old(self).history_index + 1 >= old(self).history@.len() ==> {
                &&& final(self).history_index == old(self).history@.len()
                &&& final(self).buf@.len() == 0
            },
            final(self).history == old(self).history,
            final(self).password == old(self).password,
    {
        if self.history.len() > 0 && self.history_index < self.history.len() - 1 {
            self.history_index = self.history_index + 1;
            let entry = self.history[self.history_index].clone();
            let n = entry.as_str().unicode_len();
            let mut buf: Vec<char> = Vec::new();
            let mut i: usize = 0;
            while i < n
                invariant
                    i <= n,
                    n == entry@.len(),
                    buf@ == entry@.subrange(0, i as int),
                decreases n - i,
            {
                buf.push(entry.as_str().get_char(i));
                proof {
                    assert(buf@ =~= entry@.subrange(0, i as int + 1));
                }
                i = i + 1;
            }
            proof {
                assert(entry@.subrange(0, n as int) =~= entry@);
            }
            self.buf = buf;
            self.cursor = n;
        } else {
            self.history_index = self.history.len();
            self.buf = Vec::new();
            self.cursor = 0;
        }
    }
}

} // verus!
