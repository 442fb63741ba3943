//! Splits the lines of a BLIF text into tokens: commands and cubes.

use super::buffer::{next_line_spec, BlifBuffer, BlifLines, BytePos, Span};
use super::error::Error;
use super::scanner::{
    class_contains, in_class, lemma_run_end_bounds, run_end, ByteClass, Scanner,
};
use vstd::prelude::*;

verus! {

/// Byte classes of BLIF text.
pub trait BlifChar {
    /// Whitespace other than a newline.
    fn is_line_whitespace(&self) -> bool;

    /// A byte that ends a token.
    fn is_token_terminator(&self) -> bool;

    /// A valid cube input value.
    fn is_cube_input(&self) -> bool;

    /// A valid cube output value.
    fn is_cube_output(&self) -> bool;
}

impl BlifChar for u8 {
    fn is_line_whitespace(&self) -> (r: bool)
        ensures
            r == in_class(ByteClass::LineWhitespace, *self),
    {
        class_contains(ByteClass::LineWhitespace, *self)
    }

    fn is_token_terminator(&self) -> (r: bool)
        ensures
            r == in_class(ByteClass::TokenTerminator, *self),
    {
        class_contains(ByteClass::TokenTerminator, *self)
    }

    fn is_cube_input(&self) -> (r: bool)
        ensures
            r == in_class(ByteClass::CubeInput, *self),
    {
        class_contains(ByteClass::CubeInput, *self)
    }

    fn is_cube_output(&self) -> (r: bool)
        ensures
            r == in_class(ByteClass::CubeOutput, *self),
    {
        class_contains(ByteClass::CubeOutput, *self)
    }
}

/// The scanned token kind.
#[derive(Clone, Copy, Debug, PartialEq, Eq, Structural)]
pub enum TokenKind {
    /// A command.
    Command,
    /// A cube.
    Cube,
}

/// A scanned token: its kind, the spans of its parts and its full extent.
#[derive(Debug, PartialEq)]
pub struct Token {
    pub kind: TokenKind,
    pub trivia: Vec<Span>,
    pub extent: Span,
}

/// The span of the line bytes from `a` to `b`, for a line starting at `base`.
pub open spec fn rel_span(base: usize, a: int, b: int) -> Span {
    Span { start: BytePos((base + a) as usize), end: BytePos((base + b) as usize) }
}

/// The arguments of a command line from `cur` on, appended to `acc`, with
/// the end of the last one (`token_end` if there is none).
pub open spec fn command_args_spec(
    line: Seq<u8>,
    base: usize,
    cur: int,
    token_end: int,
    acc: Seq<Span>,
) -> (Seq<Span>, int)
    decreases line.len() - cur,
{
    if 0 <= cur < line.len() && !in_class(ByteClass::TokenTerminator, line[cur]) {
        let te = run_end(line, cur, ByteClass::TokenTerminator, false);
        let ws = run_end(line, te, ByteClass::AsciiWhitespace, true);
        proof {
            lemma_run_end_bounds(line, cur + 1, ByteClass::TokenTerminator, false);
            lemma_run_end_bounds(line, te, ByteClass::AsciiWhitespace, true);
        }
        command_args_spec(line, base, ws, te, acc.push(rel_span(base, cur, te)))
    } else {
        (acc, token_end)
    }
}

/// A command line starts with `.` and a non-empty command name.
pub open spec fn command_ok(line: Seq<u8>) -> bool {
    line.len() >= 1 && line[0] == 46 && run_end(line, 1, ByteClass::TokenTerminator, false) >= 2
}

/// The parts of a command line (its name, then its arguments) and its extent.
pub open spec fn command_token_spec(line: Seq<u8>, base: usize) -> (Seq<Span>, Span) {
    let name_end = run_end(line, 1, ByteClass::TokenTerminator, false);
    let ws = run_end(line, name_end, ByteClass::AsciiWhitespace, true);
    let (trivia, te) = command_args_spec(line, base, ws, name_end, seq![rel_span(base, 0, name_end)]);
    (trivia, rel_span(base, 0, te))
}

pub open spec fn cube_input_end(line: Seq<u8>) -> int {
    run_end(line, 1, ByteClass::CubeInput, true)
}

pub open spec fn cube_output_start(line: Seq<u8>) -> int {
    run_end(line, cube_input_end(line), ByteClass::AsciiWhitespace, true)
}

pub open spec fn cube_output_end(line: Seq<u8>) -> int {
    run_end(line, cube_output_start(line), ByteClass::CubeOutput, true)
}

/// A cube line: input values, whitespace, output values, then optional
/// whitespace and an optional comment.
pub open spec fn cube_ok(line: Seq<u8>) -> bool {
    let after = run_end(line, cube_output_end(line), ByteClass::AsciiWhitespace, true);
    &&& line.len() >= 1
    &&& in_class(ByteClass::CubeInput, line[0])
    &&& cube_output_start(line) > cube_input_end(line)
    &&& cube_output_end(line) > cube_output_start(line)
    &&& (after == line.len() || line[after] == 35)
}

/// The parts of a cube line (inputs, output) and its extent.
pub open spec fn cube_token_spec(line: Seq<u8>, base: usize) -> (Seq<Span>, Span) {
    (
        seq![
            rel_span(base, 0, cube_input_end(line)),
            rel_span(base, cube_output_start(line), cube_output_end(line)),
        ],
        rel_span(base, 0, cube_output_end(line)),
    )
}

/// `Command ::= "." cmd-name (S+ arg0 (S+ argn)*)?`
pub fn tokenize_command_line(line: &[u8], start_pos: BytePos) -> (r: Result<Token, Error>)
    requires
        command_ok(line@),
        start_pos.0 + line@.len() <= usize::MAX,
    ensures
        r matches Ok(t) && t.kind == TokenKind::Command && t.trivia@ == command_token_spec(
            line@,
            start_pos.0,
        ).0 && t.extent == command_token_spec(line@, start_pos.0).1,
{
    let mut scanner = Scanner::new(line);
    scanner.expect_byte(46);
    scanner.eat_token();
    let mut token_end = scanner.cursor();
    proof {
        lemma_run_end_bounds(line@, 1, ByteClass::TokenTerminator, false);
    }
    scanner.eat_whitespace();
    proof {
        lemma_run_end_bounds(line@, token_end as int, ByteClass::AsciiWhitespace, true);
    }
    let mut trivia: Vec<Span> = Vec::new();
    trivia.push(Span::new(start_pos, token_end));
    let ghost init = command_args_spec(
        line@,
        start_pos.0,
        scanner.spec_cursor(),
        token_end as int,
        trivia@,
    );
    while !scanner.done() && !scanner.at_token_terminator()
        invariant
            scanner.wf(),
            scanner.spec_bytes() == line@,
            start_pos.0 + line@.len() <= usize::MAX,
            token_end <= scanner.spec_cursor() <= line@.len(),
            command_token_spec(line@, start_pos.0) == (init.0, rel_span(start_pos.0, 0, init.1)),
            command_args_spec(line@, start_pos.0, scanner.spec_cursor(), token_end as int, trivia@)
                == init,
        decreases line@.len() - scanner.spec_cursor(),
    {
        let trivia_start = scanner.cursor();
        scanner.eat_token();
        token_end = scanner.cursor();
        proof {
            lemma_run_end_bounds(line@, trivia_start as int + 1, ByteClass::TokenTerminator, false);
        }
        trivia.push(Span::new_rebased_range(start_pos, trivia_start, token_end));
        scanner.eat_whitespace();
        proof {
            lemma_run_end_bounds(line@, token_end as int, ByteClass::AsciiWhitespace, true);
        }
    }
    Ok(Token { kind: TokenKind::Command, trivia, extent: Span::new(start_pos, token_end) })
}

/// `Cube ::= ("0" | "1" | "-")+ S+ ("0" | "1")`
pub fn tokenize_cube_line(line: &[u8], start_pos: BytePos) -> (r: Result<Token, Error>)
    requires
        cube_ok(line@),
        start_pos.0 + line@.len() <= usize::MAX,
    ensures
        r matches Ok(t) && t.kind == TokenKind::Cube && t.trivia@ == cube_token_spec(
            line@,
            start_pos.0,
        ).0 && t.extent == cube_token_spec(line@, start_pos.0).1,
{
    let mut scanner = Scanner::new(line);
    scanner.expect_class(ByteClass::CubeInput);
    scanner.eat_while(ByteClass::CubeInput);
    let input_end = scanner.cursor();
    proof {
        lemma_run_end_bounds(line@, 1, ByteClass::CubeInput, true);
    }
    scanner.eat_whitespace();
    let output_start = scanner.cursor();
    proof {
        lemma_run_end_bounds(line@, input_end as int, ByteClass::AsciiWhitespace, true);
    }
    scanner.eat_while(ByteClass::CubeOutput);
    let token_end = scanner.cursor();
    proof {
        lemma_run_end_bounds(line@, output_start as int, ByteClass::CubeOutput, true);
    }
    scanner.eat_whitespace();
    if scanner.at_byte(35) {
        scanner.jump_end();
    }
    let mut trivia: Vec<Span> = Vec::new();
    trivia.push(Span::new(start_pos, input_end));
    trivia.push(Span::new_rebased_range(start_pos, output_start, token_end));
    proof {
        assert(trivia@ =~= cube_token_spec(line@, start_pos.0).0);
    }
    Ok(Token { kind: TokenKind::Cube, trivia, extent: Span::new(start_pos, token_end) })
}

/// The next token from `pos` on: comment lines are skipped. `None` where
/// the reader stops with a panic (a line that is neither a command, a cube
/// nor a comment, or a malformed command or cube line); `Some(None)` at the
/// end of the text.
pub open spec fn next_token_spec(bytes: Seq<u8>, pos: int) -> Option<
    Option<(TokenKind, Seq<Span>, Span, int)>,
>
    decreases bytes.len() - pos,
{
    match next_line_spec(bytes, pos) {
        None => Some(None),
        Some((s, e, np)) => {
            let line = bytes.subrange(s, e);
            proof {
                lemma_next_line_bounds(bytes, pos);
            }
            if line[0] == 46 {
                if command_ok(line) {
                    let t = command_token_spec(line, s as usize);
                    Some(Some((TokenKind::Command, t.0, t.1, np)))
                } else {
                    None
                }
            } else if in_class(ByteClass::CubeInput, line[0]) {
                if cube_ok(line) {
                    let t = cube_token_spec(line, s as usize);
                    Some(Some((TokenKind::Cube, t.0, t.1, np)))
                } else {
                    None
                }
            } else if line[0] == 35 {
                next_token_spec(bytes, np)
            } else {
                None
            }
        },
    }
}

pub proof fn lemma_next_line_bounds(bytes: Seq<u8>, pos: int)
    requires
        0 <= pos,
    ensures
        next_line_spec(bytes, pos) matches Some((s, e, np)) ==> pos <= s < e <= bytes.len() && e
            <= np <= bytes.len() && pos < np && (e < bytes.len() ==> np == e + 1) && (e
            == bytes.len() ==> np == e),
    decreases bytes.len() - pos,
{
    if 0 <= pos < bytes.len() {
        let e = run_end(bytes, pos, ByteClass::Newline, false);
        lemma_run_end_bounds(bytes, pos, ByteClass::Newline, false);
        lemma_run_end_bounds(bytes, pos, ByteClass::LineWhitespace, true);
        let np = if e < bytes.len() {
            e + 1
        } else {
            e
        };
        if run_end(bytes, pos, ByteClass::LineWhitespace, true) >= e {
            lemma_next_line_bounds(bytes, np);
        }
    }
}

/// A cursor over the tokens of a BLIF text.
pub struct Tokenizer<'a> {
    lines: BlifLines<'a>,
}

impl<'a> Tokenizer<'a> {
    pub closed spec fn spec_bytes(&self) -> Seq<u8> {
        self.lines.spec_bytes()
    }

    pub closed spec fn spec_pos(&self) -> int {
        self.lines.spec_pos()
    }

    /// A tokenizer over `lines`.
    pub fn new(lines: BlifLines<'a>) -> (r: Self)
        ensures
            r.spec_bytes() == lines.spec_bytes(),
            r.spec_pos() == lines.spec_pos(),
    {
        Tokenizer { lines }
    }

    /// A tokenizer over the lines of `buffer`.
    pub fn new_preprocess(buffer: &'a BlifBuffer) -> (r: Self)
        ensures
            r.spec_bytes() == buffer.spec_bytes(),
            r.spec_pos() == 0,
    {
        Self::new(buffer.preprocess())
    }

    /// The next token (see [`next_token_spec`]).
    pub fn next(&mut self) -> (r: Option<Result<Token, Error>>)
        requires
            0 <= old(self).spec_pos() <= old(self).spec_bytes().len(),
            next_token_spec(old(self).spec_bytes(), old(self).spec_pos()) is Some,
        ensures
            final(self).spec_bytes() == old(self).spec_bytes(),
            match next_token_spec(old(self).spec_bytes(), old(self).spec_pos()) {
                Some(None) => r is None,
                Some(Some((kind, trivia, extent, np))) => r matches Some(Ok(t)) && t.kind == kind
                    && t.trivia@ == trivia && t.extent == extent && final(self).spec_pos() == np,
                None => false,
            },
    {
        let ghost total = next_token_spec(self.spec_bytes(), self.spec_pos());
        loop
            invariant
                0 <= self.spec_pos() <= self.spec_bytes().len(),
                self.spec_bytes() == old(self).spec_bytes(),
                total == next_token_spec(old(self).spec_bytes(), old(self).spec_pos()),
                total == next_token_spec(self.spec_bytes(), self.spec_pos()),
                total is Some,
            decreases self.spec_bytes().len() - self.spec_pos(),
        {
            let ghost pos = self.spec_pos();
            proof {
                lemma_next_line_bounds(self.spec_bytes(), pos);
            }
            let line = match self.lines.next() {
                Some(line) => line,
                None => return None,
            };
            let line_bytes = line.get_bytes();
            let first = line_bytes[0];
            if first == 46 {
                return Some(tokenize_command_line(line_bytes, line.start_pos()));
            } else if first.is_cube_input() {
                return Some(tokenize_cube_line(line_bytes, line.start_pos()));
            } else if first == 35 {
                continue;
            } else {
                proof {
                    assert(false);
                }
                return None;
            }
        }
    }
}

} // verus!
