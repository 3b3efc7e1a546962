use vstd::prelude::*;
use crate::marker::Marker;

verus! {

/// How many end-of-input sentinels follow the text: enough for every look
/// ahead, and for a column to take an indentation indicator without overflow.
pub const LOOKAHEAD: usize = 16;

/// The character source: the text, followed by end-of-input sentinels, and the
/// position of the next character to be read.
pub struct Reader {
    pub src: Vec<char>,
    pub mark: Marker,
}

/// Whether a character at this place ends a line: `\n`, or a `\r` that no `\n` follows.
pub open spec fn ends_line(c: char, next: char) -> bool {
    c == '\n' || (c == '\r' && next != '\n')
}

/// The position after one character `c`, followed by `next`, was read at `m`.
pub open spec fn mark_after(m: Marker, c: char, next: char) -> Marker {
    if ends_line(c, next) {
        Marker { index: (m.index + 1) as usize, line: (m.line + 1) as usize, col: 0 }
    } else {
        Marker { index: (m.index + 1) as usize, line: m.line, col: (m.col + 1) as usize }
    }
}

/// What scanning a piece of text comes to: the position after it and what was
/// read, or the position and the words of an error.
pub enum Scan<T> {
    Done { mark: Marker, value: T },
    Fail { mark: Marker, info: Seq<char> },
}

/// The position one character after `m` in `src`.
pub open spec fn past_one(src: Seq<char>, m: Marker) -> Marker {
    mark_after(m, src[m.index as int], src[m.index + 1])
}

/// The position after the line break at `m` in `src`, if there is one: `\r\n` is one break.
pub open spec fn past_break(src: Seq<char>, m: Marker) -> Marker {
    if src[m.index as int] == '\r' && src[m.index + 1] == '\n' {
        past_one(src, past_one(src, m))
    } else if src[m.index as int] == '\n' || src[m.index as int] == '\r' {
        past_one(src, m)
    } else {
        m
    }
}

/// The position after the blanks at `m` in `src`.
pub open spec fn past_blanks(src: Seq<char>, m: Marker) -> Marker
    decreases src.len() - m.index,
{
    if m.index + 1 < src.len() <= usize::MAX
        && (src[m.index as int] == ' ' || src[m.index as int] == '\t') {
        past_blanks(src, past_one(src, m))
    } else {
        m
    }
}

/// The position of the end of the line of `m` in `src`: of its line break, or
/// of the end of the text.
pub open spec fn line_end(src: Seq<char>, m: Marker) -> Marker
    decreases src.len() - m.index,
{
    if m.index + 1 < src.len() <= usize::MAX
        && !(src[m.index as int] == '\n' || src[m.index as int] == '\r'
        || src[m.index as int] == '\0') {
        line_end(src, past_one(src, m))
    } else {
        m
    }
}

/// `text` with the end-of-input sentinels after it.
pub open spec fn padded(text: Seq<char>) -> Seq<char> {
    text + Seq::new(LOOKAHEAD as nat, |i: int| '\0')
}

impl Reader {
    /// The number of characters of the text.
    pub open spec fn end(&self) -> int {
        self.src.len() - LOOKAHEAD
    }

    /// The text that is read.
    pub open spec fn text(&self) -> Seq<char> {
        self.src@.take(self.end())
    }

    /// The number of characters not yet read.
    pub open spec fn left(&self) -> int {
        self.end() - self.mark.index
    }

    /// The character `k` places ahead; past the text it is the sentinel.
    pub open spec fn at(&self, k: int) -> char {
        self.src@[self.mark.index + k]
    }

    /// The reader is in order: the sentinels follow the text, and the position
    /// is inside the text or at its end, with a line and a column that fit it.
    pub open spec fn wf(&self) -> bool {
        &&& self.src.len() >= LOOKAHEAD
        &&& forall|i: int| self.end() <= i < self.src.len() ==> self.src@[i] == '\0'
        &&& self.mark.index <= self.end()
        &&& self.mark.col <= self.mark.index
        &&& 1 <= self.mark.line <= self.mark.index + 2
        &&& self.mark.col > 0 ==> self.mark.line <= self.mark.index + 1
    }

    /// `self` reads the same text as `before` and is not behind it.
    pub open spec fn follows(&self, before: &Reader) -> bool {
        &&& self.wf()
        &&& self.src == before.src
        &&& self.mark.index >= before.mark.index
    }

    /// A reader at the start of `source`.
    pub fn new(source: &str) -> (r: Reader)
        ensures
            r.wf(),
            r.text() == source@,
            r.src@ == padded(source@),
            r.mark == (Marker { index: 0, line: 1, col: 0 }),
    {
        let mut src: Vec<char> = Vec::new();
        for c in it: source.chars()
            invariant
                src@ =~= it.seq().take(it.index() as int),
                it.seq() == source@,
        {
            src.push(c);
        }
        assert(src@ =~= source@);
        let mut k: usize = 0;
        while k < LOOKAHEAD
            invariant
                k <= LOOKAHEAD,
                src@.len() == source@.len() + k,
                src@.take(source@.len() as int) =~= source@,
                forall|i: int| source@.len() <= i < src@.len() ==> src@[i] == '\0',
            decreases LOOKAHEAD - k,
        {
            src.push('\0');
            k += 1;
        }
        let r = Reader { src, mark: Marker::new(0, 1, 0) };
        assert(r.text() =~= source@);
        assert(r.src@ =~= padded(source@));
        r
    }

    /// The position of the next character.
    pub fn mark(&self) -> (m: Marker)
        ensures
            m == self.mark,
    {
        self.mark
    }

    /// The next character, or the sentinel at the end of the text.
    pub fn ch(&self) -> (c: char)
        requires
            self.wf(),
        ensures
            c == self.at(0),
            c != '\0' ==> self.left() > 0,
    {
        self.src[self.mark.index]
    }

    /// The character `k` places ahead.
    pub fn peek(&self, k: usize) -> (c: char)
        requires
            self.wf(),
            k < LOOKAHEAD,
        ensures
            c == self.at(k as int),
            c != '\0' ==> self.left() > k,
    {
        self.src[self.mark.index + k]
    }

    /// Reads one character, keeping count of lines and columns.
    pub fn skip(&mut self)
        requires
            old(self).wf(),
            old(self).left() > 0,
        ensures
            final(self).follows(old(self)),
            final(self).mark == mark_after(old(self).mark, old(self).at(0), old(self).at(1)),
            final(self).mark == past_one(old(self).src@, old(self).mark),
            final(self).mark.index == old(self).mark.index + 1,
    {
        let c = self.src[self.mark.index];
        let next = self.src[self.mark.index + 1];
        self.mark.index = self.mark.index + 1;
        if c == '\n' || (c == '\r' && next != '\n') {
            self.mark.line = self.mark.line + 1;
            self.mark.col = 0;
        } else {
            self.mark.col = self.mark.col + 1;
        }
    }

    /// Reads a line break, if one is next: `\r\n` counts as one.
    pub fn skip_line(&mut self)
        requires
            old(self).wf(),
        ensures
            final(self).follows(old(self)),
            final(self).mark.index == old(self).mark.index + break_len(
                old(self).at(0),
                old(self).at(1),
            ),
            break_len(old(self).at(0), old(self).at(1)) > 0 ==> final(self).mark.col == 0
                && final(self).mark.line == old(self).mark.line + 1,
            break_len(old(self).at(0), old(self).at(1)) == 0 ==> final(self).mark == old(self).mark,
            final(self).mark == past_break(old(self).src@, old(self).mark),
    {
        let c = self.ch();
        if c == '\r' && self.peek(1) == '\n' {
            self.skip();
            self.skip();
        } else if c == '\n' || c == '\r' {
            self.skip();
        }
    }

    /// Reads a line break and appends it to `s` as a single `\n`.
    pub fn read_break(&mut self, s: &mut String)
        requires
            old(self).wf(),
            old(self).at(0) == '\n' || old(self).at(0) == '\r',
        ensures
            final(self).follows(old(self)),
            final(self).mark.index == old(self).mark.index + break_len(
                old(self).at(0),
                old(self).at(1),
            ),
            final(self).mark.col == 0,
            final(self).mark.line == old(self).mark.line + 1,
            final(self).mark == past_break(old(self).src@, old(self).mark),
            final(s)@ == old(s)@.push('\n'),
    {
        s.push('\n');
        self.skip_line();
    }
}

/// The number of characters of the line break that starts with `c`, `next`
/// being the character after it: 0 where `c` starts none.
pub open spec fn break_len(c: char, next: char) -> int {
    if c == '\r' && next == '\n' {
        2
    } else if c == '\n' || c == '\r' {
        1
    } else {
        0
    }
}

/// `String::push` of std: the character is appended to the string.
pub assume_specification[ std::string::String::push ](s: &mut std::string::String, c: char)
    ensures
        final(s)@ == old(s)@.push(c),
;

} // verus!
