//! The commands of a BLIF file, parsed from the parts of a command token.

use super::buffer::{BlifBuffer, BytePos, Span};
use super::error::Error;
use super::scanner::{lemma_run_end_bounds, run_end, ByteClass};
use crate::blif::buffer::run_len;
use vstd::prelude::*;
use vstd::slice::slice_subrange;
use vstd::string::StringSliceAdditionalSpecFns;

verus! {

/// A BLIF "cube".
#[derive(Debug, PartialEq)]
pub struct Cube {
    pub input: Vec<Span>,
    pub output: Span,
}

/// An assignment, `lvalue=rvalue`.
#[derive(Clone, Copy, Debug, PartialEq, Eq, Structural)]
pub struct Assignment {
    /// The LHS of the '='.
    pub lvalue: Span,
    /// The RHS of the '='.
    pub rvalue: Span,
}

/// A BLIF command.
#[derive(Debug, PartialEq)]
pub enum Command {
    /// `Model ::= ".model" (S+ model-name)?`
    Model { name: Option<Span>, span: Span },
    /// `Inputs ::= ".inputs" S+ input0 (S+ inputN)*`
    Inputs { inputs: Vec<Span>, span: Span },
    /// `Outputs ::= ".outputs" S+ output0 (S+ outputN)*`
    Outputs { outputs: Vec<Span>, span: Span },
    /// `Names ::= ".names" S+ input0 (S+ inputN)* S+ output`
    Names { inputs: Vec<Span>, output: Span, span: Span },
    /// `Latch ::= ".latch" S+ input S+ output (S+ type S+ ctrl)? (S+ init)?`
    Latch {
        input: Span,
        output: Span,
        ty: Option<Span>,
        ctrl: Option<Span>,
        init: Option<Span>,
        span: Span,
    },
    /// `Subckt ::= ".subckt" S+ model-name S+ formal-actual-list`
    Subckt { name: Span, formal_actual: Vec<Assignment>, span: Span },
    /// `End ::= ".end"`
    End { span: Span },
}

/// A [`Command`] with its lists taken as sequences.
pub enum CommandModel {
    Model { name: Option<Span>, span: Span },
    Inputs { inputs: Seq<Span>, span: Span },
    Outputs { outputs: Seq<Span>, span: Span },
    Names { inputs: Seq<Span>, output: Span, span: Span },
    Latch {
        input: Span,
        output: Span,
        ty: Option<Span>,
        ctrl: Option<Span>,
        init: Option<Span>,
        span: Span,
    },
    Subckt { name: Span, formal_actual: Seq<Assignment>, span: Span },
    End { span: Span },
}

impl View for Command {
    type V = CommandModel;

    open spec fn view(&self) -> CommandModel {
        match self {
            Command::Model { name, span } => CommandModel::Model { name: *name, span: *span },
            Command::Inputs { inputs, span } => CommandModel::Inputs { inputs: inputs@, span: *span },
            Command::Outputs { outputs, span } => CommandModel::Outputs {
                outputs: outputs@,
                span: *span,
            },
            Command::Names { inputs, output, span } => CommandModel::Names {
                inputs: inputs@,
                output: *output,
                span: *span,
            },
            Command::Latch { input, output, ty, ctrl, init, span } => CommandModel::Latch {
                input: *input,
                output: *output,
                ty: *ty,
                ctrl: *ctrl,
                init: *init,
                span: *span,
            },
            Command::Subckt { name, formal_actual, span } => CommandModel::Subckt {
                name: *name,
                formal_actual: formal_actual@,
                span: *span,
            },
            Command::End { span } => CommandModel::End { span: *span },
        }
    }
}

/// The known command names.
#[derive(Clone, Copy, Debug, PartialEq, Eq, Structural)]
pub enum CommandName {
    Model,
    Inputs,
    Outputs,
    Names,
    Latch,
    Subckt,
    End,
}

/// The command a name (without its leading `.`) stands for.
pub open spec fn command_name_spec(name: Seq<u8>) -> Option<CommandName> {
    if name == "model".spec_bytes() {
        Some(CommandName::Model)
    } else if name == "inputs".spec_bytes() {
        Some(CommandName::Inputs)
    } else if name == "outputs".spec_bytes() {
        Some(CommandName::Outputs)
    } else if name == "names".spec_bytes() {
        Some(CommandName::Names)
    } else if name == "latch".spec_bytes() {
        Some(CommandName::Latch)
    } else if name == "subckt".spec_bytes() {
        Some(CommandName::Subckt)
    } else if name == "end".spec_bytes() {
        Some(CommandName::End)
    } else {
        None
    }
}

/// Compares bytes with the bytes of a string.
fn bytes_eq(a: &[u8], b: &str) -> (r: bool)
    ensures
        r == (a@ == b.spec_bytes()),
{
    let y = b.as_bytes();
    if a.len() != y.len() {
        return false;
    }
    let mut i: usize = 0;
    while i < a.len()
        invariant
            y@ == b.spec_bytes(),
            a@.len() == y@.len(),
            i <= a@.len(),
            forall|k: int| 0 <= k < i ==> a@[k] == y@[k],
        decreases a@.len() - i,
    {
        if a[i] != y[i] {
            return false;
        }
        i = i + 1;
    }
    proof {
        assert(a@ =~= y@);
    }
    true
}

fn command_name(name: &[u8]) -> (r: Option<CommandName>)
    ensures
        r == command_name_spec(name@),
{
    if bytes_eq(name, "model") {
        Some(CommandName::Model)
    } else if bytes_eq(name, "inputs") {
        Some(CommandName::Inputs)
    } else if bytes_eq(name, "outputs") {
        Some(CommandName::Outputs)
    } else if bytes_eq(name, "names") {
        Some(CommandName::Names)
    } else if bytes_eq(name, "latch") {
        Some(CommandName::Latch)
    } else if bytes_eq(name, "subckt") {
        Some(CommandName::Subckt)
    } else if bytes_eq(name, "end") {
        Some(CommandName::End)
    } else {
        None
    }
}

/// The span lies within the buffer.
pub open spec fn span_in(s: Span, bytes: Seq<u8>) -> bool {
    s.start.0 <= s.end.0 <= bytes.len()
}

/// The bytes of a span.
pub open spec fn span_bytes(s: Span, bytes: Seq<u8>) -> Seq<u8> {
    bytes.subrange(s.start.0 as int, s.end.0 as int)
}

/// The position of the first `=` in an assignment's bytes.
pub open spec fn needle(s: Span, bytes: Seq<u8>) -> int {
    run_end(span_bytes(s, bytes), 0, ByteClass::Equals, false)
}

/// An assignment span lies in the text and holds a `=`.
pub open spec fn assignment_ok(s: Span, bytes: Seq<u8>) -> bool {
    &&& span_in(s, bytes)
    &&& needle(s, bytes) < span_bytes(s, bytes).len()
}

/// The `lvalue=rvalue` pair of an assignment span, split at its first `=`:
/// the bytes before it, and the bytes after it up to the end of the span;
/// the `=` belongs to neither.
pub open spec fn assignment_spec(s: Span, bytes: Seq<u8>) -> Assignment {
    let n = needle(s, bytes);
    Assignment {
        lvalue: Span { start: s.start, end: BytePos((s.start.0 + n) as usize) },
        rvalue: Span { start: BytePos((s.start.0 + n + 1) as usize), end: s.end },
    }
}

/// The parts of a command token can be parsed without stopping: the name
/// is a known command and the arguments fit it.
pub open spec fn trivia_ok(trivia: Seq<Span>, bytes: Seq<u8>) -> bool {
    &&& trivia.len() >= 1
    &&& span_in(trivia[0], bytes)
    &&& span_bytes(trivia[0], bytes).len() >= 1
    &&& span_bytes(trivia[0], bytes)[0] == 46
    &&& match command_name_spec(span_bytes(trivia[0], bytes).drop_first()) {
        None => false,
        Some(CommandName::Model) => trivia.len() <= 2,
        Some(CommandName::Names) => trivia.len() >= 3,
        Some(CommandName::Latch) => 3 <= trivia.len() <= 6,
        Some(CommandName::Subckt) => trivia.len() >= 2 && forall|i: int|
            2 <= i < trivia.len() ==> assignment_ok(#[trigger] trivia[i], bytes),
        Some(CommandName::End) => trivia.len() == 1,
        _ => true,
    }
}

pub open spec fn span_range(first: Span, last: Span) -> Span {
    Span { start: first.start, end: last.end }
}

/// The command that the parts of a command token stand for.
pub open spec fn command_spec(trivia: Seq<Span>, bytes: Seq<u8>) -> CommandModel {
    let c = trivia[0];
    let args = trivia.drop_first();
    match command_name_spec(span_bytes(c, bytes).drop_first()) {
        Some(CommandName::Model) => {
            let name = if args.len() >= 1 {
                Some(args[0])
            } else {
                None
            };
            let last = if args.len() >= 1 {
                args[0]
            } else {
                c
            };
            CommandModel::Model { name, span: span_range(c, last) }
        },
        Some(CommandName::Inputs) => CommandModel::Inputs {
            inputs: args,
            span: span_range(c, if args.len() >= 1 { args.last() } else { c }),
        },
        Some(CommandName::Outputs) => CommandModel::Outputs {
            outputs: args,
            span: span_range(c, if args.len() >= 1 { args.last() } else { c }),
        },
        Some(CommandName::Names) => CommandModel::Names {
            inputs: args.drop_last(),
            output: args.last(),
            span: span_range(c, args.last()),
        },
        Some(CommandName::Latch) => {
            let (ty, ctrl, init) = if args.len() == 5 {
                (Some(args[2]), Some(args[3]), Some(args[4]))
            } else if args.len() == 4 {
                (Some(args[2]), Some(args[3]), None)
            } else if args.len() == 3 {
                (None, None, Some(args[2]))
            } else {
                (None, None, None)
            };
            CommandModel::Latch {
                input: args[0],
                output: args[1],
                ty,
                ctrl,
                init,
                span: span_range(c, args.last()),
            }
        },
        Some(CommandName::Subckt) => {
            let fa = args.drop_first().map_values(|a: Span| assignment_spec(a, bytes));
            CommandModel::Subckt {
                name: args[0],
                formal_actual: fa,
                span: span_range(c, if fa.len() >= 1 { fa.last().rvalue } else { args[0] }),
            }
        },
        _ => CommandModel::End { span: c },
    }
}

impl Command {
    /// Parses a `.model` line.
    fn parse_model(cmd_name: Span, trivia: &[Span]) -> (r: Result<Self, Error>)
        requires
            trivia@.len() <= 1,
        ensures
            r matches Ok(c) && c@ == (CommandModel::Model {
                name: if trivia@.len() >= 1 {
                    Some(trivia@[0])
                } else {
                    None
                },
                span: span_range(cmd_name, if trivia@.len() >= 1 { trivia@[0] } else { cmd_name }),
            }),
    {
        let model_name = if trivia.len() >= 1 {
            Some(trivia[0])
        } else {
            None
        };
        let last_token = match model_name {
            Some(n) => n,
            None => cmd_name,
        };
        Ok(Command::Model { span: Span::new_token_range(&cmd_name, &last_token), name: model_name })
    }

    fn collect(trivia: &[Span]) -> (r: Vec<Span>)
        ensures
            r@ == trivia@,
    {
        let mut v: Vec<Span> = Vec::new();
        let mut i: usize = 0;
        while i < trivia.len()
            invariant
                i <= trivia@.len(),
                v@ == trivia@.take(i as int),
            decreases trivia@.len() - i,
        {
            v.push(trivia[i]);
            proof {
                assert(trivia@.take(i + 1) =~= trivia@.take(i as int).push(trivia@[i as int]));
            }
            i = i + 1;
        }
        proof {
            assert(trivia@.take(trivia@.len() as int) =~= trivia@);
        }
        v
    }

    /// Parses a `.inputs` line.
    fn parse_inputs(cmd_name: Span, trivia: &[Span]) -> (r: Result<Self, Error>)
        ensures
            r matches Ok(c) && c@ == (CommandModel::Inputs {
                inputs: trivia@,
                span: span_range(cmd_name, if trivia@.len() >= 1 { trivia@.last() } else { cmd_name }),
            }),
    {
        let inputs = Self::collect(trivia);
        let last_token = if inputs.len() >= 1 {
            inputs[inputs.len() - 1]
        } else {
            cmd_name
        };
        Ok(Command::Inputs { span: Span::new_token_range(&cmd_name, &last_token), inputs })
    }

    /// Parses a `.outputs` line.
    fn parse_outputs(cmd_name: Span, trivia: &[Span]) -> (r: Result<Self, Error>)
        ensures
            r matches Ok(c) && c@ == (CommandModel::Outputs {
                outputs: trivia@,
                span: span_range(cmd_name, if trivia@.len() >= 1 { trivia@.last() } else { cmd_name }),
            }),
    {
        let outputs = Self::collect(trivia);
        let last_token = if outputs.len() >= 1 {
            outputs[outputs.len() - 1]
        } else {
            cmd_name
        };
        Ok(Command::Outputs { span: Span::new_token_range(&cmd_name, &last_token), outputs })
    }

    /// Parses a `.names` line: the last argument is the output.
    fn parse_names(cmd_name: Span, trivia: &[Span]) -> (r: Result<Self, Error>)
        requires
            trivia@.len() >= 2,
        ensures
            r matches Ok(c) && c@ == (CommandModel::Names {
                inputs: trivia@.drop_last(),
                output: trivia@.last(),
                span: span_range(cmd_name, trivia@.last()),
            }),
    {
        let mut inputs = Self::collect(trivia);
        let output = inputs.pop().unwrap();
        Ok(Command::Names { span: Span::new_token_range(&cmd_name, &output), inputs, output })
    }

    /// Parses a `.latch` line.
    fn parse_latch(cmd_name: Span, trivia: &[Span]) -> (r: Result<Self, Error>)
        requires
            2 <= trivia@.len() <= 5,
        ensures
            r matches Ok(c) && c@ == (CommandModel::Latch {
                input: trivia@[0],
                output: trivia@[1],
                ty: if trivia@.len() >= 4 {
                    Some(trivia@[2])
                } else {
                    None
                },
                ctrl: if trivia@.len() >= 4 {
                    Some(trivia@[3])
                } else {
                    None
                },
                init: if trivia@.len() == 5 {
                    Some(trivia@[4])
                } else if trivia@.len() == 3 {
                    Some(trivia@[2])
                } else {
                    None
                },
                span: span_range(cmd_name, trivia@.last()),
            }),
    {
        let input = trivia[0];
        let output = trivia[1];
        let n = trivia.len();
        let (ty, ctrl, init) = if n == 5 {
            (Some(trivia[2]), Some(trivia[3]), Some(trivia[4]))
        } else if n == 4 {
            (Some(trivia[2]), Some(trivia[3]), None)
        } else if n == 3 {
            (None, None, Some(trivia[2]))
        } else {
            (None, None, None)
        };
        let last_token = match init {
            Some(i) => i,
            None => match ctrl {
                Some(c) => c,
                None => match ty {
                    Some(t) => t,
                    None => output,
                },
            },
        };
        Ok(
            Command::Latch {
                span: Span::new_token_range(&cmd_name, &last_token),
                input,
                output,
                ty,
                ctrl,
                init,
            },
        )
    }

    /// Parses a `.subckt` line: a model name, then `formal=actual` pairs.
    fn parse_subckt(cmd_name: Span, trivia: &[Span], buffer: &BlifBuffer) -> (r: Result<
        Self,
        Error,
    >)
        requires
            trivia@.len() >= 1,
            forall|i: int|
                1 <= i < trivia@.len() ==> assignment_ok(#[trigger] trivia@[i], buffer.spec_bytes()),
        ensures
            r matches Ok(c) && c@ == ({
                let fa = trivia@.drop_first().map_values(
                    |a: Span| assignment_spec(a, buffer.spec_bytes()),
                );
                CommandModel::Subckt {
                    name: trivia@[0],
                    formal_actual: fa,
                    span: span_range(cmd_name, if fa.len() >= 1 { fa.last().rvalue } else { trivia@[0] }),
                }
            }),
    {
        let model_name = trivia[0];
        let ghost bytes = buffer.spec_bytes();
        let mut formal_actual: Vec<Assignment> = Vec::new();
        let mut i: usize = 1;
        while i < trivia.len()
            invariant
                1 <= i <= trivia@.len(),
                bytes == buffer.spec_bytes(),
                forall|k: int| 1 <= k < trivia@.len() ==> assignment_ok(#[trigger] trivia@[k], bytes),
                formal_actual@ == trivia@.subrange(1, i as int).map_values(
                    |a: Span| assignment_spec(a, bytes),
                ),
            decreases trivia@.len() - i,
        {
            let assignment = trivia[i];
            assert(assignment_ok(trivia@[i as int], bytes));
            let view = buffer.view(assignment);
            proof {
                lemma_run_end_bounds(view@, 0, ByteClass::Equals, false);
            }
            let needle_pos = run_len(view, 0, ByteClass::Equals, false);
            let len = assignment.end_pos().0 - assignment.start_pos().0;
            formal_actual.push(
                Assignment {
                    lvalue: Span::new(assignment.start_pos(), needle_pos),
                    rvalue: Span::new_rebased_range(assignment.start_pos(), needle_pos + 1, len),
                },
            );
            proof {
                assert(trivia@.subrange(1, i + 1) =~= trivia@.subrange(1, i as int).push(
                    trivia@[i as int],
                ));
                assert(formal_actual@ =~= trivia@.subrange(1, i + 1).map_values(
                    |a: Span| assignment_spec(a, bytes),
                ));
            }
            i = i + 1;
        }
        proof {
            assert(trivia@.subrange(1, trivia@.len() as int) =~= trivia@.drop_first());
        }
        let last_token = if formal_actual.len() >= 1 {
            formal_actual[formal_actual.len() - 1].rvalue
        } else {
            model_name
        };
        Ok(
            Command::Subckt {
                span: Span::new_token_range(&cmd_name, &last_token),
                name: model_name,
                formal_actual,
            },
        )
    }

    /// Parses the parts of a command token (see [`command_spec`]); the
    /// first part is the command name.
    pub fn parse_trivia(trivia: &[Span], buffer: &BlifBuffer) -> (r: Result<Self, Error>)
        requires
            trivia_ok(trivia@, buffer.spec_bytes()),
        ensures
            r matches Ok(c) && c@ == command_spec(trivia@, buffer.spec_bytes()),
    {
        let name_extent = trivia[0];
        let cmd_name = buffer.view(name_extent);
        let name = slice_subrange(cmd_name, 1, cmd_name.len());
        proof {
            assert(name@ =~= cmd_name@.drop_first());
        }
        let args = slice_subrange(trivia, 1, trivia.len());
        proof {
            assert(args@ =~= trivia@.drop_first());
        }
        match command_name(name) {
            Some(CommandName::Model) => Self::parse_model(name_extent, args),
            Some(CommandName::Inputs) => Self::parse_inputs(name_extent, args),
            Some(CommandName::Outputs) => Self::parse_outputs(name_extent, args),
            Some(CommandName::Names) => Self::parse_names(name_extent, args),
            Some(CommandName::Latch) => Self::parse_latch(name_extent, args),
            Some(CommandName::Subckt) => {
                proof {
                    assert forall|i: int| 1 <= i < args@.len() implies assignment_ok(
                        #[trigger] args@[i],
                        buffer.spec_bytes(),
                    ) by {
                        assert(args@[i] == trivia@[i + 1]);
                    }
                }
                Self::parse_subckt(name_extent, args, buffer)
            },
            Some(CommandName::End) => Ok(Command::End { span: name_extent }),
            None => {
                proof {
                    assert(false);
                }
                Ok(Command::End { span: name_extent })
            },
        }
    }

    /// The full extent of the command.
    pub fn span(&self) -> (r: &Span)
        ensures
            *r == match self@ {
                CommandModel::Model { span, .. } => span,
                CommandModel::Inputs { span, .. } => span,
                CommandModel::Outputs { span, .. } => span,
                CommandModel::Names { span, .. } => span,
                CommandModel::Latch { span, .. } => span,
                CommandModel::Subckt { span, .. } => span,
                CommandModel::End { span } => span,
            },
    {
        match self {
            Command::Model { span, .. } => span,
            Command::Inputs { span, .. } => span,
            Command::Outputs { span, .. } => span,
            Command::Names { span, .. } => span,
            Command::Latch { span, .. } => span,
            Command::Subckt { span, .. } => span,
            Command::End { span } => span,
        }
    }
}

/// The byte spellings of the command names, in ASCII.
pub proof fn lemma_command_words()
    ensures
        "model".spec_bytes() == seq![109u8, 111, 100, 101, 108],
        "inputs".spec_bytes() == seq![105u8, 110, 112, 117, 116, 115],
        "outputs".spec_bytes() == seq![111u8, 117, 116, 112, 117, 116, 115],
        "names".spec_bytes() == seq![110u8, 97, 109, 101, 115],
        "latch".spec_bytes() == seq![108u8, 97, 116, 99, 104],
        "subckt".spec_bytes() == seq![115u8, 117, 98, 99, 107, 116],
        "end".spec_bytes() == seq![101u8, 110, 100],
{
    broadcast use vstd::string::is_ascii_spec_bytes;

    reveal_strlit("model");
    reveal_strlit("inputs");
    reveal_strlit("outputs");
    reveal_strlit("names");
    reveal_strlit("latch");
    reveal_strlit("subckt");
    reveal_strlit("end");
    assert(vstd::string::is_ascii("model"));
    assert(vstd::string::is_ascii("inputs"));
    assert(vstd::string::is_ascii("outputs"));
    assert(vstd::string::is_ascii("names"));
    assert(vstd::string::is_ascii("latch"));
    assert(vstd::string::is_ascii("subckt"));
    assert(vstd::string::is_ascii("end"));
    assert("model".spec_bytes() =~= seq![109u8, 111, 100, 101, 108]);
    assert("inputs".spec_bytes() =~= seq![105u8, 110, 112, 117, 116, 115]);
    assert("outputs".spec_bytes() =~= seq![111u8, 117, 116, 112, 117, 116, 115]);
    assert("names".spec_bytes() =~= seq![110u8, 97, 109, 101, 115]);
    assert("latch".spec_bytes() =~= seq![108u8, 97, 116, 99, 104]);
    assert("subckt".spec_bytes() =~= seq![115u8, 117, 98, 99, 107, 116]);
    assert("end".spec_bytes() =~= seq![101u8, 110, 100]);
}

/// A `.latch` line reads its arguments by their number: with two, an input
/// and an output; with three, the third is the initial value; with four,
/// the third and fourth are the trigger type and the control; with five,
/// trigger type, control and initial value. The command spans from `.latch`
/// to its last argument.
pub proof fn lemma_latch_arguments(trivia: Seq<Span>, bytes: Seq<u8>)
    requires
        3 <= trivia.len() <= 6,
        span_bytes(trivia[0], bytes) == seq![46u8, 108, 97, 116, 99, 104],
    ensures
        (command_spec(trivia, bytes) matches CommandModel::Latch { input, output, ty, ctrl, init, span }
            && input == trivia[1] && output == trivia[2] && span == (Span {
            start: trivia[0].start,
            end: trivia[trivia.len() - 1].end,
        }) && (trivia.len() == 3 ==> ty is None && ctrl is None && init is None) && (trivia.len()
            == 4 ==> ty is None && ctrl is None && init == Some(trivia[3])) && (trivia.len() == 5
            ==> ty == Some(trivia[3]) && ctrl == Some(trivia[4]) && init is None) && (trivia.len()
            == 6 ==> ty == Some(trivia[3]) && ctrl == Some(trivia[4]) && init == Some(trivia[5]))),
{
    lemma_command_words();
    let w = span_bytes(trivia[0], bytes).drop_first();
    assert(w =~= seq![108u8, 97, 116, 99, 104]);
    assert(w != "model".spec_bytes()) by {
        assert(w[0] != "model".spec_bytes()[0]);
    }
    assert(w != "names".spec_bytes()) by {
        assert(w[0] != "names".spec_bytes()[0]);
    }
    assert(command_name_spec(w) == Some(CommandName::Latch));
    let args = trivia.drop_first();
    assert(args.last() == trivia[trivia.len() - 1]);
}

/// A `.names` line with at least one argument names the inputs of a gate
/// by all its arguments but the last, in order, and its output by the last;
/// the command spans from `.names` to its last argument.
pub proof fn lemma_names_arguments(trivia: Seq<Span>, bytes: Seq<u8>)
    requires
        trivia.len() >= 2,
        span_bytes(trivia[0], bytes) == seq![46u8, 110, 97, 109, 101, 115],
    ensures
        command_spec(trivia, bytes) == (CommandModel::Names {
            inputs: trivia.subrange(1, trivia.len() - 1),
            output: trivia[trivia.len() - 1],
            span: Span { start: trivia[0].start, end: trivia[trivia.len() - 1].end },
        }),
{
    lemma_command_words();
    let w = span_bytes(trivia[0], bytes).drop_first();
    assert(w =~= seq![110u8, 97, 109, 101, 115]);
    assert(w != "model".spec_bytes()) by {
        assert(w[0] != "model".spec_bytes()[0]);
    }
    assert(command_name_spec(w) == Some(CommandName::Names));
    assert(trivia.drop_first().drop_last() =~= trivia.subrange(1, trivia.len() - 1));
}

/// A `.subckt` line names its model by its first argument and holds one
/// assignment per further argument, in order, each split at its first `=`
/// into the bytes before it and the bytes after it; the command spans from
/// `.subckt` to its last argument.
pub proof fn lemma_subckt_arguments(trivia: Seq<Span>, bytes: Seq<u8>)
    requires
        trivia.len() >= 2,
        span_bytes(trivia[0], bytes) == seq![46u8, 115, 117, 98, 99, 107, 116],
        forall|i: int| 2 <= i < trivia.len() ==> assignment_ok(#[trigger] trivia[i], bytes),
    ensures
        (command_spec(trivia, bytes) matches CommandModel::Subckt { name, formal_actual, span }
            && name == trivia[1] && formal_actual.len() == trivia.len() - 2 && span == (Span {
            start: trivia[0].start,
            end: trivia[trivia.len() - 1].end,
        }) && forall|i: int|
            2 <= i < trivia.len() ==> {
                let a = #[trigger] formal_actual[i - 2];
                let n = needle(trivia[i], bytes);
                &&& a.lvalue == (Span { start: trivia[i].start, end: BytePos((trivia[i].start.0 + n) as usize) })
                &&& a.rvalue == (Span { start: BytePos((trivia[i].start.0 + n + 1) as usize), end: trivia[i].end })
                &&& bytes[trivia[i].start.0 + n] == 61
                &&& forall|k: int| trivia[i].start.0 <= k < trivia[i].start.0 + n ==> bytes[k] != 61
            }),
{
    lemma_command_words();
    let w = span_bytes(trivia[0], bytes).drop_first();
    assert(w =~= seq![115u8, 117, 98, 99, 107, 116]);
    assert(w != "inputs".spec_bytes()) by {
        assert(w[0] != "inputs".spec_bytes()[0]);
    }
    assert(command_name_spec(w) == Some(CommandName::Subckt));
    assert forall|i: int| #![trigger trivia[i]] 2 <= i < trivia.len() implies {
        let n = needle(trivia[i], bytes);
        &&& bytes[trivia[i].start.0 + n] == 61
        &&& forall|k: int| trivia[i].start.0 <= k < trivia[i].start.0 + n ==> bytes[k] != 61
    } by {
        let sb = span_bytes(trivia[i], bytes);
        lemma_run_end_bounds(sb, 0, ByteClass::Equals, false);
        let n = needle(trivia[i], bytes);
        assert(bytes[trivia[i].start.0 + n] == sb[n]);
        assert forall|k: int| trivia[i].start.0 <= k < trivia[i].start.0 + n implies bytes[k] != 61 by {
            assert(bytes[k] == sb[k - trivia[i].start.0]);
        }
    }
}

} // verus!
