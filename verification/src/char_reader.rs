//! A character source that tracks line and column and can take back the
//! character it delivered last.

use vstd::prelude::*;

verus! {

/// Buffered text with a cursor, a one-character pushback slot and the
/// position of the cursor as a line and a column, both counted from 1.
pub struct CharReader {
    line_num: u32,
    col_num: u32,
    col_num_before_newline: u32,
    chars: Vec<char>,
    pos: usize,
    saved: Option<char>,
    last: Option<char>,
}

impl CharReader {
    /// The characters that `next` will deliver, in order.
    pub closed spec fn pending(&self) -> Seq<char> {
        let rest = self.chars@.subrange(self.pos as int, self.chars@.len() as int);
        match self.saved {
            Some(ch) => seq![ch] + rest,
            None => rest,
        }
    }

    /// The line of the cursor.
    pub closed spec fn line(&self) -> u32 {
        self.line_num
    }

    /// The column of the cursor.
    pub closed spec fn col(&self) -> u32 {
        self.col_num
    }

    /// The column the cursor had before the most recent line break was read.
    pub closed spec fn col_before_newline(&self) -> u32 {
        self.col_num_before_newline
    }

    /// The character that may be pushed back, if any: the one that the latest
    /// call of `next` delivered, unless it has been pushed back already.
    pub closed spec fn last_read(&self) -> Option<char> {
        self.last
    }

    /// The internal invariant of the reader.
    pub closed spec fn wf(&self) -> bool {
        &&& self.pos <= self.chars@.len()
        &&& self.line_num >= 1
        &&& self.col_num >= 1
        &&& self.last is Some ==> self.saved is None
        &&& self.last == Some('\n') ==> self.line_num >= 2 && self.col_num_before_newline >= 1
        &&& (self.last is Some && self.last != Some('\n')) ==> self.col_num >= 2
    }

    /// Whether `ungetc(ch)` is allowed: `ch` is the character delivered last
    /// and it has not been pushed back since.
    pub open spec fn accepts_unget(&self, ch: char) -> bool {
        self.last_read() == Some(ch)
    }

    /// Lines and columns are counted from 1.
    pub proof fn lemma_position_is_positive(&self)
        requires
            self.wf(),
        ensures
            self.line() >= 1,
            self.col() >= 1,
    {
    }

    /// A reader over `text`, with the cursor at line 1, column 1.
    pub fn new(text: Vec<char>) -> (r: CharReader)
        ensures
            r.wf(),
            r.pending() == text@,
            r.line() == 1,
            r.col() == 1,
            r.last_read() is None,
    {
        let r = CharReader {
            line_num: 1,
            col_num: 1,
            col_num_before_newline: 0,
            chars: text,
            pos: 0,
            saved: None,
            last: None,
        };
        assert(r.chars@.subrange(0, r.chars@.len() as int) =~= text@);
        r
    }

    /// Appends `more` to the text still to be delivered.
    pub fn supply(&mut self, more: Vec<char>)
        requires
            old(self).wf(),
        ensures
            final(self).wf(),
            final(self).pending() == old(self).pending() + more@,
            final(self).line() == old(self).line(),
            final(self).col() == old(self).col(),
            final(self).col_before_newline() == old(self).col_before_newline(),
            final(self).last_read() == old(self).last_read(),
    {
        if self.pos == self.chars.len() {
            self.chars = more;
            self.pos = 0;
            assert(self.pending() =~= old(self).pending() + more@);
        } else {
            let ghost added = more@;
            let mut more = more;
            self.chars.append(&mut more);
            assert(self.pending() =~= old(self).pending() + added);
        }
    }

    /// Whether nothing is left to deliver.
    pub fn is_drained(&self) -> (b: bool)
        requires
            self.wf(),
        ensures
            b == (self.pending().len() == 0),
    {
        self.saved.is_none() && self.pos == self.chars.len()
    }

    /// Whether `ch` may be pushed back now.
    pub fn can_unget(&self, ch: char) -> (b: bool)
        ensures
            b == self.accepts_unget(ch),
    {
        match self.last {
            Some(c) => c == ch,
            None => false,
        }
    }

    /// Pushes `ch`, the character delivered last, back: the next call of
    /// `next` delivers it again, and the position is what it was before `ch`
    /// was read.
    pub fn ungetc(&mut self, ch: char)
        requires
            old(self).wf(),
            old(self).accepts_unget(ch),
        ensures
            final(self).wf(),
            final(self).pending() == seq![ch] + old(self).pending(),
            final(self).last_read() is None,
            ch == '\n' ==> final(self).line() == old(self).line() - 1 && final(self).col() == old(
                self,
            ).col_before_newline(),
            ch != '\n' ==> final(self).line() == old(self).line() && final(self).col() == old(
                self,
            ).col() - 1,
            final(self).col_before_newline() == old(self).col_before_newline(),
    {
        self.retreat_loc(ch);
        self.saved = Some(ch);
        self.last = None;
    }

    /// The line of the cursor, counted from 1.
    pub fn line_num(&self) -> (n: u32)
        ensures
            n == self.line(),
    {
        self.line_num
    }

    /// The column of the cursor, counted from 1.
    pub fn col_num(&self) -> (n: u32)
        ensures
            n == self.col(),
    {
        self.col_num
    }

    /// Moves the position over `ch`: a line break starts a new line at
    /// column 1, any other character moves one column on.
    fn advance_loc(&mut self, ch: char)
        requires
            old(self).line_num < u32::MAX,
            old(self).col_num < u32::MAX,
        ensures
            ch == '\n' ==> final(self).line_num == old(self).line_num + 1 && final(self).col_num
                == 1 && final(self).col_num_before_newline == old(self).col_num,
            ch != '\n' ==> final(self).line_num == old(self).line_num && final(self).col_num
                == old(self).col_num + 1 && final(self).col_num_before_newline == old(
                self,
            ).col_num_before_newline,
            final(self).chars == old(self).chars,
            final(self).pos == old(self).pos,
            final(self).saved == old(self).saved,
            final(self).last == old(self).last,
    {
        if ch == '\n' {
            self.col_num_before_newline = self.col_num;
            self.line_num += 1;
            self.col_num = 1;
        } else {
            self.col_num += 1;
        }
    }

    /// Moves the position back over `ch`, undoing `advance_loc(ch)`.
    fn retreat_loc(&mut self, ch: char)
        requires
            ch == '\n' ==> old(self).line_num >= 1,
            ch != '\n' ==> old(self).col_num >= 1,
        ensures
            ch == '\n' ==> final(self).line_num == old(self).line_num - 1 && final(self).col_num
                == old(self).col_num_before_newline,
            ch != '\n' ==> final(self).line_num == old(self).line_num && final(self).col_num
                == old(self).col_num - 1,
            final(self).col_num_before_newline == old(self).col_num_before_newline,
            final(self).chars == old(self).chars,
            final(self).pos == old(self).pos,
            final(self).saved == old(self).saved,
            final(self).last == old(self).last,
    {
        if ch == '\n' {
            self.line_num -= 1;
            self.col_num = self.col_num_before_newline;
        } else {
            self.col_num -= 1;
        }
    }

    /// Delivers the next character and moves the position over it. At the end
    /// of the text it returns `None` and moves one column on.
    pub fn next(&mut self) -> (r: Option<char>)
        requires
            old(self).wf(),
            old(self).line() < u32::MAX,
            old(self).col() < u32::MAX,
        ensures
            final(self).wf(),
            final(self).last_read() == r,
            old(self).pending().len() == 0 ==> {
                &&& r is None
                &&& final(self).pending() == old(self).pending()
                &&& final(self).line() == old(self).line()
                &&& final(self).col() == old(self).col() + 1
                &&& final(self).col_before_newline() == old(self).col_before_newline()
            },
            old(self).pending().len() > 0 ==> {
                &&& r == Some(old(self).pending()[0])
                &&& final(self).pending() == old(self).pending().skip(1)
            },
            r == Some('\n') ==> {
                &&& final(self).line() == old(self).line() + 1
                &&& final(self).col() == 1
                &&& final(self).col_before_newline() == old(self).col()
            },
            r is Some && r != Some('\n') ==> {
                &&& final(self).line() == old(self).line()
                &&& final(self).col() == old(self).col() + 1
                &&& final(self).col_before_newline() == old(self).col_before_newline()
            },
    {
        if let Some(ch) = self.saved {
            self.saved = None;
            self.advance_loc(ch);
            self.last = Some(ch);
            assert(self.pending() =~= old(self).pending().skip(1));
            return Some(ch);
        }
        if self.pos < self.chars.len() {
            let ch = self.chars[self.pos];
            self.pos += 1;
            self.advance_loc(ch);
            self.last = Some(ch);
            assert(self.pending() =~= old(self).pending().skip(1));
            Some(ch)
        } else {
            self.col_num += 1;
            self.last = None;
            None
        }
    }
}

} // verus!
