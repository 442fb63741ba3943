//! A BLIF reader that reports the commands of a text to an event handler.

use super::buffer::{BlifBuffer, Span};
use super::command::{
    command_name_spec, command_spec, lemma_command_words, span_bytes, trivia_ok, Command,
    CommandModel, CommandName,
};
use super::error::{names_file_opt, Error, Filename};
use super::token::{Token, TokenKind};
use vstd::prelude::*;
use vstd::string::StringSliceAdditionalSpecFns;
use vstd::utf8::{decode_utf8, valid_utf8};
use crate::text::utf8_str;
use vstd::slice::slice_to_vec;

verus! {

/// Handlers for the commands of a BLIF text. The handlers of the other
/// commands do nothing unless an implementation says otherwise; those of
/// `.model`, `.inputs` and `.outputs` each state what they do through a
/// spec function of their own, which an implementation that states nothing
/// of its handlers leaves as it is (true of every call).
pub trait BlifEvents<'a, 'tok>: Sized {
    /// Holds when `model`, handed the model name `name` (its text, if any)
    /// and the token `token`, takes the handler from `before` to `after`
    /// and answers `r`.
    open spec fn handles_model(
        before: Self,
        after: Self,
        name: Option<Seq<char>>,
        token: Token,
        r: Result<(), Error>,
    ) -> bool {
        true
    }

    /// Holds when `inputs`, handed the input names `inputs` (their texts, in
    /// order) and the token `token`, takes the handler from `before` to
    /// `after` and answers `r`.
    open spec fn handles_inputs(
        before: Self,
        after: Self,
        inputs: Seq<Seq<char>>,
        token: Token,
        r: Result<(), Error>,
    ) -> bool {
        true
    }

    /// Holds when `outputs`, handed the output names `outputs` (their texts,
    /// in order) and the token `token`, takes the handler from `before` to
    /// `after` and answers `r`.
    open spec fn handles_outputs(
        before: Self,
        after: Self,
        outputs: Seq<Seq<char>>,
        token: Token,
        r: Result<(), Error>,
    ) -> bool {
        true
    }

    fn model(&mut self, name: Option<&'a str>, token: &'tok Token) -> (r: Result<(), Error>)
        ensures
            Self::handles_model(*old(self), *final(self), opt_text(name), *token, r),
    ;

    fn inputs(&mut self, inputs: &[&'a str], token: &'tok Token) -> (r: Result<(), Error>)
        ensures
            Self::handles_inputs(*old(self), *final(self), texts(inputs@), *token, r),
    ;

    fn outputs(&mut self, outputs: &[&'a str], token: &'tok Token) -> (r: Result<(), Error>)
        ensures
            Self::handles_outputs(*old(self), *final(self), texts(outputs@), *token, r),
    ;

    fn names(&mut self, inputs: &[&'a str], output: &'a str, token: &'tok Token) -> (r: Result<(), Error>)
        default_ensures
            r is Ok,
    {
        Ok(())
    }

    fn latch(
        &mut self,
        input: &'a str,
        output: &'a str,
        trigger: Option<&'a str>,
        ctrl: Option<&'a str>,
        init: Option<&'a str>,
        token: &'tok Token,
    ) -> (r: Result<(), Error>)
        default_ensures
            r is Ok,
    {
        Ok(())
    }

    fn subckt(&mut self, token: &'tok Token) -> (r: Result<(), Error>)
        default_ensures
            r is Ok,
    {
        Ok(())
    }

    fn end(&mut self, token: &'tok Token) -> (r: Result<(), Error>)
        default_ensures
            r is Ok,
    {
        Ok(())
    }

    fn cube(&mut self, token: &'tok Token) -> (r: Result<(), Error>)
        default_ensures
            r is Ok,
    {
        Ok(())
    }
}

/// The handler that ignores every command: each call leaves it as it was
/// and succeeds.
impl<'a, 'tok> BlifEvents<'a, 'tok> for () {
    open spec fn handles_model(
        before: Self,
        after: Self,
        name: Option<Seq<char>>,
        token: Token,
        r: Result<(), Error>,
    ) -> bool {
        r is Ok
    }

    open spec fn handles_inputs(
        before: Self,
        after: Self,
        inputs: Seq<Seq<char>>,
        token: Token,
        r: Result<(), Error>,
    ) -> bool {
        r is Ok
    }

    open spec fn handles_outputs(
        before: Self,
        after: Self,
        outputs: Seq<Seq<char>>,
        token: Token,
        r: Result<(), Error>,
    ) -> bool {
        r is Ok
    }

    fn model(&mut self, name: Option<&'a str>, token: &'tok Token) -> (r: Result<(), Error>) {
        Ok(())
    }

    fn inputs(&mut self, inputs: &[&'a str], token: &'tok Token) -> (r: Result<(), Error>) {
        Ok(())
    }

    fn outputs(&mut self, outputs: &[&'a str], token: &'tok Token) -> (r: Result<(), Error>) {
        Ok(())
    }
}

/// The text of a name, if there is one.
pub open spec fn opt_text(name: Option<&str>) -> Option<Seq<char>> {
    match name {
        Some(n) => Some(n@),
        None => None,
    }
}

/// The texts of names, in order.
pub open spec fn texts(names: Seq<&str>) -> Seq<Seq<char>> {
    names.map_values(|n: &str| n@)
}

/// The text that the bytes of a span encode.
pub open spec fn span_text(s: Span, bytes: Seq<u8>) -> Seq<char> {
    decode_utf8(bytes.subrange(s.start.0 as int, s.end.0 as int))
}

/// The text of the span `name`, if there is one.
pub open spec fn opt_span_text(name: Option<Span>, bytes: Seq<u8>) -> Option<Seq<char>> {
    match name {
        Some(n) => Some(span_text(n, bytes)),
        None => None,
    }
}

/// The texts of spans, in order.
pub open spec fn span_texts(spans: Seq<Span>, bytes: Seq<u8>) -> Seq<Seq<char>> {
    spans.map_values(|s: Span| span_text(s, bytes))
}

/// The bytes of every span lie in the buffer and are valid UTF-8.
pub open spec fn spans_utf8(spans: Seq<Span>, bytes: Seq<u8>) -> bool {
    forall|i: int|
        0 <= i < spans.len() ==> (#[trigger] spans[i]).start.0 <= spans[i].end.0 <= bytes.len()
            && valid_utf8(bytes.subrange(spans[i].start.0 as int, spans[i].end.0 as int))
}

/// The names a command hands to its handler are valid UTF-8.
pub open spec fn command_utf8(c: CommandModel, bytes: Seq<u8>) -> bool {
    match c {
        CommandModel::Model { name, .. } => match name {
            Some(n) => spans_utf8(seq![n], bytes),
            None => true,
        },
        CommandModel::Inputs { inputs, .. } => spans_utf8(inputs, bytes),
        CommandModel::Outputs { outputs, .. } => spans_utf8(outputs, bytes),
        _ => true,
    }
}

/// What handing the command token `token` over the text `bytes` to a
/// handler does: a `.model`, `.inputs` or `.outputs` command goes to the
/// matching handler with the texts of its names, and the result is the
/// handler's; any other command leaves the handler as it was and succeeds.
pub open spec fn command_handled<'a, 'tok, E: BlifEvents<'a, 'tok>>(
    before: E,
    after: E,
    token: Token,
    bytes: Seq<u8>,
    r: Result<(), Error>,
) -> bool {
    match command_spec(token.trivia@, bytes) {
        CommandModel::Model { name, .. } => E::handles_model(
            before,
            after,
            opt_span_text(name, bytes),
            token,
            r,
        ),
        CommandModel::Inputs { inputs, .. } => E::handles_inputs(
            before,
            after,
            span_texts(inputs, bytes),
            token,
            r,
        ),
        CommandModel::Outputs { outputs, .. } => E::handles_outputs(
            before,
            after,
            span_texts(outputs, bytes),
            token,
            r,
        ),
        _ => r is Ok && after == before,
    }
}

/// Handing over an `.outputs` line gives the outputs handler the texts of
/// all the line's arguments, in order, one name per argument, and answers
/// what the handler answered.
pub proof fn lemma_outputs_handed_on<'a, 'tok, E: BlifEvents<'a, 'tok>>(
    before: E,
    after: E,
    token: Token,
    bytes: Seq<u8>,
    r: Result<(), Error>,
)
    requires
        token.trivia@.len() >= 1,
        span_bytes(token.trivia@[0], bytes) == seq![46u8, 111, 117, 116, 112, 117, 116, 115],
    ensures
        command_handled(before, after, token, bytes, r) == E::handles_outputs(
            before,
            after,
            span_texts(token.trivia@.drop_first(), bytes),
            token,
            r,
        ),
        span_texts(token.trivia@.drop_first(), bytes).len() == token.trivia@.len() - 1,
        forall|i: int|
            1 <= i < token.trivia@.len() ==> #[trigger] span_texts(token.trivia@.drop_first(), bytes)[i
                - 1] == decode_utf8(bytes.subrange(token.trivia@[i].start.0 as int, token.trivia@[i].end.0 as int)),
{
    lemma_command_words();
    let w = span_bytes(token.trivia@[0], bytes).drop_first();
    assert(w =~= seq![111u8, 117, 116, 112, 117, 116, 115]);
    assert(w != "inputs".spec_bytes()) by {
        assert(w[0] != "inputs".spec_bytes()[0]);
    }
    assert(command_name_spec(w) == Some(CommandName::Outputs));
}

/// Handing over an `.inputs` line gives the inputs handler the texts of all
/// the line's arguments, in order, one name per argument, and answers what
/// the handler answered.
pub proof fn lemma_inputs_handed_on<'a, 'tok, E: BlifEvents<'a, 'tok>>(
    before: E,
    after: E,
    token: Token,
    bytes: Seq<u8>,
    r: Result<(), Error>,
)
    requires
        token.trivia@.len() >= 1,
        span_bytes(token.trivia@[0], bytes) == seq![46u8, 105, 110, 112, 117, 116, 115],
    ensures
        command_handled(before, after, token, bytes, r) == E::handles_inputs(
            before,
            after,
            span_texts(token.trivia@.drop_first(), bytes),
            token,
            r,
        ),
        span_texts(token.trivia@.drop_first(), bytes).len() == token.trivia@.len() - 1,
        forall|i: int|
            1 <= i < token.trivia@.len() ==> #[trigger] span_texts(token.trivia@.drop_first(), bytes)[i
                - 1] == decode_utf8(bytes.subrange(token.trivia@[i].start.0 as int, token.trivia@[i].end.0 as int)),
{
    lemma_command_words();
    let w = span_bytes(token.trivia@[0], bytes).drop_first();
    assert(w =~= seq![105u8, 110, 112, 117, 116, 115]);
    assert(w != "model".spec_bytes());
    assert(command_name_spec(w) == Some(CommandName::Inputs));
}

/// Handing over a `.model` line gives the model handler the text of its
/// argument, if it has one, and answers what the handler answered.
pub proof fn lemma_model_handed_on<'a, 'tok, E: BlifEvents<'a, 'tok>>(
    before: E,
    after: E,
    token: Token,
    bytes: Seq<u8>,
    r: Result<(), Error>,
)
    requires
        token.trivia@.len() >= 1,
        span_bytes(token.trivia@[0], bytes) == seq![46u8, 109, 111, 100, 101, 108],
    ensures
        command_handled(before, after, token, bytes, r) == E::handles_model(
            before,
            after,
            if token.trivia@.len() >= 2 {
                Some(
                    decode_utf8(
                        bytes.subrange(token.trivia@[1].start.0 as int, token.trivia@[1].end.0 as int),
                    ),
                )
            } else {
                None
            },
            token,
            r,
        ),
{
    lemma_command_words();
    let w = span_bytes(token.trivia@[0], bytes).drop_first();
    assert(w =~= seq![109u8, 111, 100, 101, 108]);
    assert(command_name_spec(w) == Some(CommandName::Model));
}

/// A BLIF file reader.
#[derive(Debug)]
pub struct BlifReader {
    buffer: BlifBuffer,
}

impl BlifReader {
    pub closed spec fn spec_bytes(&self) -> Seq<u8> {
        self.buffer.spec_bytes()
    }

    pub closed spec fn spec_filename(&self) -> Filename {
        self.buffer.spec_filename()
    }

    /// The text of a span.
    fn text_of(&self, span: Span) -> (r: &str)
        requires
            spans_utf8(seq![span], self.spec_bytes()),
        ensures
            r.spec_bytes() == self.spec_bytes().subrange(span.start.0 as int, span.end.0 as int),
            r@ == span_text(span, self.spec_bytes()),
    {
        assert(seq![span][0] == span);
        match utf8_str(self.buffer.view(span)) {
            Some(s) => {
                proof {
                    vstd::utf8::encode_utf8_decode_utf8(s@);
                }
                s
            },
            None => {
                proof {
                    assert(false);
                }
                ""
            },
        }
    }

    fn texts_of(&self, spans: &[Span]) -> (r: Vec<&str>)
        requires
            spans_utf8(spans@, self.spec_bytes()),
        ensures
            r@.len() == spans@.len(),
            forall|i: int|
                0 <= i < r@.len() ==> (#[trigger] r@[i]).spec_bytes() == self.spec_bytes().subrange(
                    spans@[i].start.0 as int,
                    spans@[i].end.0 as int,
                ),
            texts(r@) == span_texts(spans@, self.spec_bytes()),
    {
        let mut v: Vec<&str> = Vec::new();
        let mut i: usize = 0;
        while i < spans.len()
            invariant
                i <= spans@.len(),
                spans_utf8(spans@, self.spec_bytes()),
                v@.len() == i,
                forall|k: int|
                    0 <= k < i ==> (#[trigger] v@[k]).spec_bytes() == self.spec_bytes().subrange(
                        spans@[k].start.0 as int,
                        spans@[k].end.0 as int,
                    ),
                forall|k: int| 0 <= k < i ==> (#[trigger] v@[k])@ == span_text(spans@[k], self.spec_bytes()),
            decreases spans@.len() - i,
        {
            let s = spans[i];
            proof {
                assert(spans_utf8(seq![s], self.spec_bytes())) by {
                    assert(seq![s][0] == spans@[i as int]);
                }
            }
            v.push(self.text_of(s));
            i = i + 1;
        }
        assert(texts(v@) =~= span_texts(spans@, self.spec_bytes()));
        v
    }

    /// Hands the model name to the handler.
    fn parse_model<'a, 'tok, E: BlifEvents<'a, 'tok>>(
        &'a self,
        name: Option<Span>,
        token: &'tok Token,
        events: &mut E,
    ) -> (r: Result<(), Error>)
        requires
            name matches Some(n) ==> spans_utf8(seq![n], self.spec_bytes()),
        ensures
            E::handles_model(
                *old(events),
                *final(events),
                opt_span_text(name, self.spec_bytes()),
                *token,
                r,
            ),
    {
        let name = match name {
            Some(n) => Some(self.text_of(n)),
            None => None,
        };
        events.model(name, token)
    }

    /// Hands the input names to the handler.
    fn parse_inputs<'a, 'tok, E: BlifEvents<'a, 'tok>>(
        &'a self,
        inputs: &[Span],
        token: &'tok Token,
        events: &mut E,
    ) -> (r: Result<(), Error>)
        requires
            spans_utf8(inputs@, self.spec_bytes()),
        ensures
            E::handles_inputs(
                *old(events),
                *final(events),
                span_texts(inputs@, self.spec_bytes()),
                *token,
                r,
            ),
    {
        let inputs = self.texts_of(inputs);
        events.inputs(inputs.as_slice(), token)
    }

    /// Hands the output names to the handler.
    fn parse_outputs<'a, 'tok, E: BlifEvents<'a, 'tok>>(
        &'a self,
        outputs: &[Span],
        token: &'tok Token,
        events: &mut E,
    ) -> (r: Result<(), Error>)
        requires
            spans_utf8(outputs@, self.spec_bytes()),
        ensures
            E::handles_outputs(
                *old(events),
                *final(events),
                span_texts(outputs@, self.spec_bytes()),
                *token,
                r,
            ),
    {
        let outputs = self.texts_of(outputs);
        events.outputs(outputs.as_slice(), token)
    }

    /// A `.names` command; nothing is handed on yet.
    fn parse_names<'a, 'tok, E: BlifEvents<'a, 'tok>>(
        &'a self,
        token: &'tok Token,
        events: &mut E,
    ) -> (r: Result<(), Error>)
        ensures
            r is Ok,
            *final(events) == *old(events),
    {
        Ok(())
    }

    /// A `.latch` command; nothing is handed on yet.
    fn parse_latch<'a, 'tok, E: BlifEvents<'a, 'tok>>(
        &'a self,
        token: &'tok Token,
        events: &mut E,
    ) -> (r: Result<(), Error>)
        ensures
            r is Ok,
            *final(events) == *old(events),
    {
        Ok(())
    }

    /// A `.subckt` command; nothing is handed on yet.
    fn parse_subckt<'a, 'tok, E: BlifEvents<'a, 'tok>>(
        &'a self,
        token: &'tok Token,
        events: &mut E,
    ) -> (r: Result<(), Error>)
        ensures
            r is Ok,
            *final(events) == *old(events),
    {
        Ok(())
    }

    /// A `.end` command; nothing is handed on yet.
    fn parse_end<'a, 'tok, E: BlifEvents<'a, 'tok>>(
        &'a self,
        token: &'tok Token,
        events: &mut E,
    ) -> (r: Result<(), Error>)
        ensures
            r is Ok,
            *final(events) == *old(events),
    {
        Ok(())
    }

    /// Parses a command token and hands it to the handler.
    fn parse_command<'a, 'tok, E: BlifEvents<'a, 'tok>>(
        &'a self,
        token: &'tok Token,
        events: &mut E,
    ) -> (r: Result<(), Error>)
        requires
            token.kind == TokenKind::Command,
            trivia_ok(token.trivia@, self.spec_bytes()),
            command_utf8(command_spec(token.trivia@, self.spec_bytes()), self.spec_bytes()),
        ensures
            command_handled(*old(events), *final(events), *token, self.spec_bytes(), r),
    {
        let command = match Command::parse_trivia(token.trivia.as_slice(), &self.buffer) {
            Ok(c) => c,
            Err(e) => {
                proof {
                    assert(false);
                }
                return Err(e);
            },
        };
        match command {
            Command::Model { name, .. } => self.parse_model(name, token, events),
            Command::Inputs { inputs, .. } => self.parse_inputs(inputs.as_slice(), token, events),
            Command::Outputs { outputs, .. } => self.parse_outputs(outputs.as_slice(), token, events),
            Command::Names { .. } => self.parse_names(token, events),
            Command::Latch { .. } => self.parse_latch(token, events),
            Command::Subckt { .. } => self.parse_subckt(token, events),
            Command::End { .. } => self.parse_end(token, events),
        }
    }

    /// A cube token; nothing is handed on yet.
    fn parse_cube<'a, 'tok, E: BlifEvents<'a, 'tok>>(
        &'a self,
        token: &'tok Token,
        events: &mut E,
    ) -> (r: Result<(), Error>)
        requires
            token.kind == TokenKind::Cube,
        ensures
            r is Ok,
            *final(events) == *old(events),
    {
        Ok(())
    }

    /// Parses a token and hands it to the handler: a `.model`, `.inputs` or
    /// `.outputs` command calls the matching handler once, with the texts of
    /// the names that [`command_spec`] finds, in order, and answers what the
    /// handler answered; any other token leaves the handler as it was and
    /// succeeds.
    pub fn parse_token<'a, 'tok, E: BlifEvents<'a, 'tok>>(
        &'a self,
        token: &'tok Token,
        events: &mut E,
    ) -> (r: Result<(), Error>)
        requires
            token.kind == TokenKind::Command ==> trivia_ok(token.trivia@, self.spec_bytes())
                && command_utf8(command_spec(token.trivia@, self.spec_bytes()), self.spec_bytes()),
        ensures
            token.kind == TokenKind::Cube ==> r is Ok && *final(events) == *old(events),
            token.kind == TokenKind::Command ==> command_handled(
                *old(events),
                *final(events),
                *token,
                self.spec_bytes(),
                r,
            ),
    {
        match token.kind {
            TokenKind::Command => self.parse_command(token, events),
            TokenKind::Cube => self.parse_cube(token, events),
        }
    }

    /// A reader of the bytes read from a file named `filename`.
    pub fn from_reader(bytes: Vec<u8>, filename: Option<&str>) -> (r: Self)
        ensures
            r.spec_bytes() == bytes@,
            names_file_opt(filename, r.spec_filename()),
    {
        let name = match filename {
            Some(f) => Some(f.to_owned()),
            None => None,
        };
        BlifReader { buffer: BlifBuffer::from_bytes(bytes, Filename::from_option(name)) }
    }

    /// A reader of the text `input` from a file named `filename`.
    pub fn from_str(input: &str, filename: Option<&str>) -> (r: Self)
        ensures
            r.spec_bytes() == input.spec_bytes(),
            names_file_opt(filename, r.spec_filename()),
    {
        let name = match filename {
            Some(f) => Some(f.to_owned()),
            None => None,
        };
        BlifReader {
            buffer: BlifBuffer::from_bytes(slice_to_vec(input.as_bytes()), Filename::from_option(name)),
        }
    }

    /// The buffer being read.
    pub fn buffer(&self) -> (r: &BlifBuffer)
        ensures
            r.spec_bytes() == self.spec_bytes(),
    {
        &self.buffer
    }
}

} // verus!
