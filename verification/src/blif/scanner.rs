//! A cursor over bytes, and the byte classes of BLIF text.

use vstd::prelude::*;
use vstd::slice::slice_subrange;

verus! {

/// A class of bytes.
#[derive(Clone, Copy, Debug, PartialEq, Eq, Structural)]
pub enum ByteClass {
    /// Whitespace other than a newline: tab, form feed, carriage return, space.
    LineWhitespace,
    /// ASCII whitespace: tab, newline, form feed, carriage return, space.
    AsciiWhitespace,
    /// A byte that ends a token: line whitespace, newline or `#`.
    TokenTerminator,
    /// A cube input value: `0`, `1` or `-`.
    CubeInput,
    /// A cube output value: `0` or `1`.
    CubeOutput,
    /// The line feed.
    Newline,
    /// The equals sign.
    Equals,
}

pub open spec fn in_class(c: ByteClass, b: u8) -> bool {
    match c {
        ByteClass::LineWhitespace => b == 9 || b == 12 || b == 13 || b == 32,
        ByteClass::AsciiWhitespace => b == 9 || b == 10 || b == 12 || b == 13 || b == 32,
        ByteClass::TokenTerminator => b == 9 || b == 12 || b == 13 || b == 32 || b == 10 || b
            == 35,
        ByteClass::CubeInput => b == 48 || b == 49 || b == 45,
        ByteClass::CubeOutput => b == 48 || b == 49,
        ByteClass::Newline => b == 10,
        ByteClass::Equals => b == 61,
    }
}

/// Whether `b` belongs to the class `c`.
pub fn class_contains(c: ByteClass, b: u8) -> (r: bool)
    ensures
        r == in_class(c, b),
{
    match c {
        ByteClass::LineWhitespace => b == 9 || b == 12 || b == 13 || b == 32,
        ByteClass::AsciiWhitespace => b == 9 || b == 10 || b == 12 || b == 13 || b == 32,
        ByteClass::TokenTerminator => b == 9 || b == 12 || b == 13 || b == 32 || b == 10 || b
            == 35,
        ByteClass::CubeInput => b == 48 || b == 49 || b == 45,
        ByteClass::CubeOutput => b == 48 || b == 49,
        ByteClass::Newline => b == 10,
        ByteClass::Equals => b == 61,
    }
}

/// The first position from `pos` on whose byte is in `c` exactly when
/// `inside` is false (the end of the bytes if there is none).
pub open spec fn run_end(bytes: Seq<u8>, pos: int, c: ByteClass, inside: bool) -> int
    decreases bytes.len() - pos,
{
    if 0 <= pos < bytes.len() && in_class(c, bytes[pos]) == inside {
        run_end(bytes, pos + 1, c, inside)
    } else {
        pos
    }
}

pub proof fn lemma_run_end_bounds(bytes: Seq<u8>, pos: int, c: ByteClass, inside: bool)
    requires
        0 <= pos <= bytes.len(),
    ensures
        pos <= run_end(bytes, pos, c, inside) <= bytes.len(),
        run_end(bytes, pos, c, inside) < bytes.len() ==> in_class(
            c,
            bytes[run_end(bytes, pos, c, inside)],
        ) != inside,
        forall|k: int|
            pos <= k < run_end(bytes, pos, c, inside) ==> in_class(c, #[trigger] bytes[k])
                == inside,
    decreases bytes.len() - pos,
{
    if pos < bytes.len() && in_class(c, bytes[pos]) == inside {
        lemma_run_end_bounds(bytes, pos + 1, c, inside);
    }
}

/// A cursor over a slice of bytes.
pub struct Scanner<'a> {
    bytes: &'a [u8],
    cursor: usize,
}

impl<'a> Scanner<'a> {
    pub closed spec fn spec_bytes(&self) -> Seq<u8> {
        self.bytes@
    }

    pub closed spec fn spec_cursor(&self) -> int {
        self.cursor as int
    }

    pub closed spec fn wf(&self) -> bool {
        self.cursor <= self.bytes@.len()
    }

    pub fn new(bytes: &'a [u8]) -> (r: Self)
        ensures
            r.wf(),
            r.spec_bytes() == bytes@,
            r.spec_cursor() == 0,
    {
        Scanner { bytes, cursor: 0 }
    }

    /// The position of the next byte.
    pub fn cursor(&self) -> (r: usize)
        ensures
            r == self.spec_cursor(),
    {
        self.cursor
    }

    /// Whether every byte has been consumed.
    pub fn done(&self) -> (r: bool)
        requires
            self.wf(),
        ensures
            r == (self.spec_cursor() == self.spec_bytes().len()),
    {
        self.cursor >= self.bytes.len()
    }

    /// The next byte, if any, without consuming it.
    pub fn peek(&self) -> (r: Option<u8>)
        requires
            self.wf(),
        ensures
            self.spec_cursor() < self.spec_bytes().len() ==> r == Some(
                self.spec_bytes()[self.spec_cursor()],
            ),
            self.spec_cursor() >= self.spec_bytes().len() ==> r is None,
    {
        if self.cursor < self.bytes.len() {
            Some(self.bytes[self.cursor])
        } else {
            None
        }
    }

    /// Whether the next byte is `b`.
    pub fn at_byte(&self, b: u8) -> (r: bool)
        requires
            self.wf(),
        ensures
            r == (self.spec_cursor() < self.spec_bytes().len() && self.spec_bytes()[self.spec_cursor()]
                == b),
    {
        self.cursor < self.bytes.len() && self.bytes[self.cursor] == b
    }

    /// Whether the next byte is in the class `c`.
    pub fn at_class(&self, c: ByteClass) -> (r: bool)
        requires
            self.wf(),
        ensures
            r == (self.spec_cursor() < self.spec_bytes().len() && in_class(
                c,
                self.spec_bytes()[self.spec_cursor()],
            )),
    {
        self.cursor < self.bytes.len() && class_contains(c, self.bytes[self.cursor])
    }

    /// Consumes the next byte, which must be `b`.
    pub fn expect_byte(&mut self, b: u8)
        requires
            old(self).wf(),
            old(self).spec_cursor() < old(self).spec_bytes().len(),
            old(self).spec_bytes()[old(self).spec_cursor()] == b,
        ensures
            final(self).wf(),
            final(self).spec_bytes() == old(self).spec_bytes(),
            final(self).spec_cursor() == old(self).spec_cursor() + 1,
    {
        let _len = self.bytes.len();
        self.cursor = self.cursor + 1;
    }

    /// Consumes the next byte, which must be in the class `c`.
    pub fn expect_class(&mut self, c: ByteClass)
        requires
            old(self).wf(),
            old(self).spec_cursor() < old(self).spec_bytes().len(),
            in_class(c, old(self).spec_bytes()[old(self).spec_cursor()]),
        ensures
            final(self).wf(),
            final(self).spec_bytes() == old(self).spec_bytes(),
            final(self).spec_cursor() == old(self).spec_cursor() + 1,
    {
        let _len = self.bytes.len();
        self.cursor = self.cursor + 1;
    }

    /// Consumes bytes while they are in `c` (when `inside`) or outside it
    /// (otherwise), and returns them.
    pub fn eat_run(&mut self, c: ByteClass, inside: bool) -> (r: &'a [u8])
        requires
            old(self).wf(),
        ensures
            final(self).wf(),
            final(self).spec_bytes() == old(self).spec_bytes(),
            final(self).spec_cursor() == run_end(
                old(self).spec_bytes(),
                old(self).spec_cursor(),
                c,
                inside,
            ),
            r@ == old(self).spec_bytes().subrange(old(self).spec_cursor(), final(self).spec_cursor()),
    {
        let start = self.cursor;
        let mut end = start;
        while end < self.bytes.len() && class_contains(c, self.bytes[end]) == inside
            invariant
                self.wf(),
                self.cursor == start,
                start <= end <= self.bytes@.len(),
                run_end(self.bytes@, start as int, c, inside) == run_end(
                    self.bytes@,
                    end as int,
                    c,
                    inside,
                ),
            decreases self.bytes@.len() - end,
        {
            end = end + 1;
        }
        self.cursor = end;
        slice_subrange(self.bytes, start, end)
    }

    /// Consumes bytes while they are in the class `c`.
    pub fn eat_while(&mut self, c: ByteClass) -> (r: &'a [u8])
        requires
            old(self).wf(),
        ensures
            final(self).wf(),
            final(self).spec_bytes() == old(self).spec_bytes(),
            final(self).spec_cursor() == run_end(
                old(self).spec_bytes(),
                old(self).spec_cursor(),
                c,
                true,
            ),
            r@ == old(self).spec_bytes().subrange(old(self).spec_cursor(), final(self).spec_cursor()),
    {
        self.eat_run(c, true)
    }

    /// Consumes bytes until one in the class `c`.
    pub fn eat_until(&mut self, c: ByteClass) -> (r: &'a [u8])
        requires
            old(self).wf(),
        ensures
            final(self).wf(),
            final(self).spec_bytes() == old(self).spec_bytes(),
            final(self).spec_cursor() == run_end(
                old(self).spec_bytes(),
                old(self).spec_cursor(),
                c,
                false,
            ),
            r@ == old(self).spec_bytes().subrange(old(self).spec_cursor(), final(self).spec_cursor()),
    {
        self.eat_run(c, false)
    }

    /// Consumes ASCII whitespace.
    pub fn eat_whitespace(&mut self) -> (r: &'a [u8])
        requires
            old(self).wf(),
        ensures
            final(self).wf(),
            final(self).spec_bytes() == old(self).spec_bytes(),
            final(self).spec_cursor() == run_end(
                old(self).spec_bytes(),
                old(self).spec_cursor(),
                ByteClass::AsciiWhitespace,
                true,
            ),
            r@ == old(self).spec_bytes().subrange(old(self).spec_cursor(), final(self).spec_cursor()),
    {
        self.eat_run(ByteClass::AsciiWhitespace, true)
    }

    /// Consumes whitespace other than newlines.
    pub fn eat_line_whitespace(&mut self) -> (r: &'a [u8])
        requires
            old(self).wf(),
        ensures
            final(self).wf(),
            final(self).spec_bytes() == old(self).spec_bytes(),
            final(self).spec_cursor() == run_end(
                old(self).spec_bytes(),
                old(self).spec_cursor(),
                ByteClass::LineWhitespace,
                true,
            ),
            r@ == old(self).spec_bytes().subrange(old(self).spec_cursor(), final(self).spec_cursor()),
    {
        self.eat_run(ByteClass::LineWhitespace, true)
    }

    /// Consumes bytes up to the next ASCII whitespace.
    pub fn eat_non_whitespace(&mut self) -> (r: &'a [u8])
        requires
            old(self).wf(),
        ensures
            final(self).wf(),
            final(self).spec_bytes() == old(self).spec_bytes(),
            final(self).spec_cursor() == run_end(
                old(self).spec_bytes(),
                old(self).spec_cursor(),
                ByteClass::AsciiWhitespace,
                false,
            ),
            r@ == old(self).spec_bytes().subrange(old(self).spec_cursor(), final(self).spec_cursor()),
    {
        self.eat_run(ByteClass::AsciiWhitespace, false)
    }

    /// Consumes a single token: bytes up to the next token terminator.
    pub fn eat_token(&mut self) -> (r: &'a [u8])
        requires
            old(self).wf(),
        ensures
            final(self).wf(),
            final(self).spec_bytes() == old(self).spec_bytes(),
            final(self).spec_cursor() == run_end(
                old(self).spec_bytes(),
                old(self).spec_cursor(),
                ByteClass::TokenTerminator,
                false,
            ),
            r@ == old(self).spec_bytes().subrange(old(self).spec_cursor(), final(self).spec_cursor()),
    {
        self.eat_run(ByteClass::TokenTerminator, false)
    }

    /// Whether the next byte ends a token.
    pub fn at_token_terminator(&self) -> (r: bool)
        requires
            self.wf(),
        ensures
            r == (self.spec_cursor() < self.spec_bytes().len() && in_class(
                ByteClass::TokenTerminator,
                self.spec_bytes()[self.spec_cursor()],
            )),
    {
        self.at_class(ByteClass::TokenTerminator)
    }

    /// Moves to the end of the bytes.
    pub fn jump_end(&mut self)
        requires
            old(self).wf(),
        ensures
            final(self).wf(),
            final(self).spec_bytes() == old(self).spec_bytes(),
            final(self).spec_cursor() == old(self).spec_bytes().len(),
    {
        self.cursor = self.bytes.len();
    }
}

} // verus!
