//! The bytes of a BLIF text, positions and spans in them, and the split of
//! the text into lines.

use super::error::{same_filename, Filename, SourceLocation};
use super::scanner::{lemma_run_end_bounds, run_end, ByteClass, Scanner};
use vstd::prelude::*;
use vstd::slice::{slice_subrange, slice_to_vec};
use vstd::string::StringSliceAdditionalSpecFns;

verus! {

/// A byte position in a BLIF text.
#[derive(Clone, Copy, Debug, PartialEq, Eq, Structural)]
pub struct BytePos(pub usize);

/// The bytes from `start` up to but excluding `end`.
#[derive(Clone, Copy, Debug, PartialEq, Eq, Structural)]
pub struct Span {
    pub start: BytePos,
    pub end: BytePos,
}

impl Span {
    /// The `len` bytes from `base` on.
    pub fn new(base: BytePos, len: usize) -> (r: Self)
        requires
            base.0 + len <= usize::MAX,
        ensures
            r.start == base,
            r.end.0 == base.0 + len,
    {
        Span { start: base, end: BytePos(base.0 + len) }
    }

    /// The bytes from `base + start` up to `base + end`.
    pub fn new_rebased_range(base: BytePos, start: usize, end: usize) -> (r: Self)
        requires
            base.0 + start <= usize::MAX,
            base.0 + end <= usize::MAX,
        ensures
            r.start.0 == base.0 + start,
            r.end.0 == base.0 + end,
    {
        Span { start: BytePos(base.0 + start), end: BytePos(base.0 + end) }
    }

    /// The span from the start of `first` to the end of `last`.
    pub fn new_token_range(first: &Span, last: &Span) -> (r: Self)
        ensures
            r.start == first.start,
            r.end == last.end,
    {
        Span { start: first.start, end: last.end }
    }

    pub fn start_pos(&self) -> (r: BytePos)
        ensures
            r == self.start,
    {
        self.start
    }

    pub fn end_pos(&self) -> (r: BytePos)
        ensures
            r == self.end,
    {
        self.end
    }
}

/// The number of line feeds in `s`.
pub open spec fn count_newlines(s: Seq<u8>) -> nat
    decreases s.len(),
{
    if s.len() == 0 {
        0
    } else {
        count_newlines(s.drop_last()) + if s.last() == 10 {
            1nat
        } else {
            0nat
        }
    }
}

/// The position just after the last line feed in `s` (0 if there is none).
pub open spec fn last_line_start(s: Seq<u8>) -> nat
    decreases s.len(),
{
    if s.len() == 0 {
        0
    } else if s.last() == 10 {
        s.len()
    } else {
        last_line_start(s.drop_last())
    }
}

/// Locations advance one byte at a time: past a line feed the next byte is
/// on the next line, in column 1; past any other byte it is on the same
/// line, one column further.
pub proof fn lemma_location_step(s: Seq<u8>, pos: int)
    requires
        0 <= pos < s.len(),
    ensures
        s[pos] == 10 ==> count_newlines(s.subrange(0, pos + 1)) == count_newlines(
            s.subrange(0, pos),
        ) + 1 && (pos + 1) - last_line_start(s.subrange(0, pos + 1)) + 1 == 1,
        s[pos] != 10 ==> count_newlines(s.subrange(0, pos + 1)) == count_newlines(
            s.subrange(0, pos),
        ) && (pos + 1) - last_line_start(s.subrange(0, pos + 1)) + 1 == (pos - last_line_start(
            s.subrange(0, pos),
        ) + 1) + 1,
{
    let a = s.subrange(0, pos);
    let b = s.subrange(0, pos + 1);
    assert(b.drop_last() =~= a);
    assert(b.last() == s[pos]);
}

/// The next line from `pos` on that holds something other than line
/// whitespace: its start, its end (a line feed or the end of the text), and
/// the position after it.
pub open spec fn next_line_spec(bytes: Seq<u8>, pos: int) -> Option<(int, int, int)>
    decreases bytes.len() - pos,
{
    if pos < 0 || pos >= bytes.len() {
        None
    } else {
        let e = run_end(bytes, pos, ByteClass::Newline, false);
        let np = if e < bytes.len() {
            e + 1
        } else {
            e
        };
        proof {
            lemma_run_end_bounds(bytes, pos, ByteClass::Newline, false);
        }
        if run_end(bytes, pos, ByteClass::LineWhitespace, true) >= e {
            next_line_spec(bytes, np)
        } else {
            Some((pos, e, np))
        }
    }
}

/// The bytes of a BLIF text and the name of its file.
#[derive(Debug)]
pub struct BlifBuffer {
    bytes: Vec<u8>,
    pub filename: Filename,
}

impl BlifBuffer {
    pub closed spec fn spec_bytes(&self) -> Seq<u8> {
        self.bytes@
    }

    pub closed spec fn spec_filename(&self) -> Filename {
        self.filename
    }

    /// A buffer of the bytes of `text`, from an unknown file.
    pub fn new_str(text: &str) -> (r: Self)
        ensures
            r.spec_bytes() == text.spec_bytes(),
            r.spec_filename() == Filename::Unknown,
    {
        BlifBuffer { bytes: slice_to_vec(text.as_bytes()), filename: Filename::Unknown }
    }

    /// A buffer of `bytes` read from the file `filename`.
    pub fn from_bytes(bytes: Vec<u8>, filename: Filename) -> (r: Self)
        ensures
            r.spec_bytes() == bytes@,
            r.spec_filename() == filename,
    {
        BlifBuffer { bytes, filename }
    }

    pub fn len(&self) -> (r: usize)
        ensures
            r == self.spec_bytes().len(),
    {
        self.bytes.len()
    }

    /// The bytes of `span`.
    pub fn view(&self, span: Span) -> (r: &[u8])
        requires
            span.start.0 <= span.end.0 <= self.spec_bytes().len(),
        ensures
            r@ == self.spec_bytes().subrange(span.start.0 as int, span.end.0 as int),
    {
        slice_subrange(self.bytes.as_slice(), span.start.0, span.end.0)
    }

    /// The 1-based line and column of the byte at `pos`.
    pub fn calculate_location(&self, pos: BytePos) -> (r: SourceLocation)
        requires
            pos.0 <= self.spec_bytes().len() < usize::MAX,
        ensures
            same_filename(r.filename, self.spec_filename()),
            r.line == count_newlines(self.spec_bytes().subrange(0, pos.0 as int)) + 1,
            r.column == pos.0 - last_line_start(self.spec_bytes().subrange(0, pos.0 as int)) + 1,
            r.line >= 1,
            1 <= r.column <= pos.0 + 1,
    {
        let mut line: usize = 1;
        let mut start: usize = 0;
        let mut i: usize = 0;
        while i < pos.0
            invariant
                i <= pos.0 <= self.bytes@.len() < usize::MAX,
                line == count_newlines(self.bytes@.subrange(0, i as int)) + 1,
                start == last_line_start(self.bytes@.subrange(0, i as int)),
                start <= i,
                line <= i + 1,
            decreases pos.0 - i,
        {
            proof {
                assert(self.bytes@.subrange(0, i + 1).drop_last() =~= self.bytes@.subrange(
                    0,
                    i as int,
                ));
            }
            if self.bytes[i] == 10 {
                line = line + 1;
                start = i + 1;
            }
            i = i + 1;
        }
        SourceLocation { filename: self.filename.copy(), line, column: pos.0 - start + 1 }
    }

    /// The lines of the text that hold something other than whitespace.
    pub fn preprocess(&self) -> (r: BlifLines<'_>)
        ensures
            r.spec_bytes() == self.spec_bytes(),
            r.spec_pos() == 0,
    {
        BlifLines { bytes: self.bytes.as_slice(), pos: 0 }
    }
}

/// A line of a BLIF text: its bytes and the position of its first byte.
#[derive(Clone, Copy, Debug)]
pub struct BlifLine<'a> {
    pub bytes: &'a [u8],
    pub start: BytePos,
}

impl<'a> BlifLine<'a> {
    pub fn get_bytes(&self) -> (r: &'a [u8])
        ensures
            r@ == self.bytes@,
    {
        self.bytes
    }

    pub fn start_pos(&self) -> (r: BytePos)
        ensures
            r == self.start,
    {
        self.start
    }
}

/// A cursor over the lines of a BLIF text (see [`next_line_spec`]).
pub struct BlifLines<'a> {
    bytes: &'a [u8],
    pos: usize,
}

impl<'a> BlifLines<'a> {
    pub closed spec fn spec_bytes(&self) -> Seq<u8> {
        self.bytes@
    }

    pub closed spec fn spec_pos(&self) -> int {
        self.pos as int
    }

    pub fn next(&mut self) -> (r: Option<BlifLine<'a>>)
        requires
            old(self).spec_pos() <= old(self).spec_bytes().len(),
        ensures
            final(self).spec_bytes() == old(self).spec_bytes(),
            final(self).spec_pos() <= final(self).spec_bytes().len(),
            old(self).spec_bytes().len() <= usize::MAX,
            match next_line_spec(old(self).spec_bytes(), old(self).spec_pos()) {
                None => r is None,
                Some((s, e, np)) => r matches Some(line) && line.start.0 == s && line.bytes@
                    == old(self).spec_bytes().subrange(s, e) && final(self).spec_pos() == np,
            },
    {
        let n = self.bytes.len();
        while self.pos < n
            invariant
                n == self.bytes@.len(),
                self.pos <= n,
                self.bytes == old(self).bytes,
                next_line_spec(self.bytes@, old(self).pos as int) == next_line_spec(
                    self.bytes@,
                    self.pos as int,
                ),
            decreases n - self.pos,
        {
            let start = self.pos;
            proof {
                lemma_run_end_bounds(self.bytes@, start as int, ByteClass::Newline, false);
                lemma_run_end_bounds(self.bytes@, start as int, ByteClass::LineWhitespace, true);
            }
            let end = start + run_len(self.bytes, start, ByteClass::Newline, false);
            let ws = start + run_len(self.bytes, start, ByteClass::LineWhitespace, true);
            self.pos = if end < n {
                end + 1
            } else {
                end
            };
            if ws < end {
                return Some(BlifLine { bytes: slice_subrange(self.bytes, start, end), start: BytePos(start) });
            }
        }
        None
    }
}

/// The length of the run of bytes from `pos` on that are in `c` (when
/// `inside`) or outside it.
pub fn run_len(bytes: &[u8], pos: usize, c: ByteClass, inside: bool) -> (r: usize)
    requires
        pos <= bytes@.len(),
    ensures
        pos + r == run_end(bytes@, pos as int, c, inside),
{
    let mut s = Scanner::new(slice_subrange(bytes, pos, bytes.len()));
    let run = s.eat_run(c, inside);
    proof {
        lemma_run_end_shift(bytes@, pos as int, 0, c, inside);
        lemma_run_end_bounds(bytes@.subrange(pos as int, bytes@.len() as int), 0, c, inside);
    }
    run.len()
}

proof fn lemma_run_end_shift(bytes: Seq<u8>, pos: int, k: int, c: ByteClass, inside: bool)
    requires
        0 <= pos <= bytes.len(),
        0 <= k <= bytes.len() - pos,
    ensures
        run_end(bytes.subrange(pos, bytes.len() as int), k, c, inside) + pos == run_end(
            bytes,
            pos + k,
            c,
            inside,
        ),
    decreases bytes.len() - pos - k,
{
    if k < bytes.len() - pos {
        lemma_run_end_shift(bytes, pos, k + 1, c, inside);
    }
}

} // verus!
