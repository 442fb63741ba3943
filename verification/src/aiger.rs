//! AIGER file format reader.
//!
//! Reference: <https://fmv.jku.at/aiger/FORMAT-20070427.pdf>
//!
//! The reader is specified by a family of spec functions over the input
//! bytes (`read_all_spec` and its parts); every executable step of the
//! reader is proved to follow them exactly.

use itertools::Itertools;
use vstd::prelude::*;
use crate::text::{append_decimal, char_string, decimal, utf8_text};
use vstd::string::{StringExecFns, StringSliceAdditionalSpecFns};
use vstd::utf8::{decode_utf8, encode_utf8, valid_utf8};

verus! {

/// Why reading an AIGER text failed.
#[derive(Clone, Debug, PartialEq)]
pub enum ReadError {
    /// The first three bytes are neither `aag` nor `aig`.
    UnknownMagic(u8, u8, u8),
    /// The text holds fewer than three bytes.
    MissingMagic,
    /// A digit was expected; holds the byte found instead (`None` at the end).
    ExpectedDigit(Option<u8>),
    /// The decimal number at bytes `start..end` does not fit in a `usize`.
    IntegerOverflow { start: usize, end: usize },
    /// The byte `expected` was expected; `found` holds the byte found (`None` at the end).
    Expected { expected: u8, found: Option<u8> },
    ConstantInput,
    NegatedInput,
    ConstantLatch,
    NegatedLatch,
    ConstantGate,
    NegatedGate,
    MissingInputs { target: usize, actual: usize },
    MissingLatches { target: usize, actual: usize },
    MissingOutputs { target: usize, actual: usize },
    MissingGates { target: usize, actual: usize },
    /// The binary (`aig`) format is not supported.
    BinaryUnsupported,
    /// The header is followed by something other than a newline and a body.
    ExpectedBody,
}

/// An AIGER error.
#[derive(Clone, Debug, PartialEq)]
pub enum Error {
    Read(ReadError),
    Write(String),
}

/// The bytes `b` of an error message can be shown: the magic, a byte where
/// a digit was expected, and the digits of an overflowing number are shown
/// as UTF-8 text.
pub open spec fn message_ok(e: Error, src: Seq<u8>) -> bool {
    match e {
        Error::Read(ReadError::UnknownMagic(a, b, c)) => valid_utf8(seq![a, b, c]),
        Error::Read(ReadError::ExpectedDigit(Some(b))) => valid_utf8(seq![b]),
        Error::Read(ReadError::IntegerOverflow { start, end }) => start <= end <= src.len()
            && valid_utf8(src.subrange(start as int, end as int)),
        _ => true,
    }
}

/// The message of the error `e` found reading `source`.
pub open spec fn message_text(e: Error, source: Seq<char>) -> Seq<char> {
    let src = encode_utf8(source);
    match e {
        Error::Read(r) => match r {
            ReadError::UnknownMagic(a, b, c) => "unknown magic \""@ + decode_utf8(seq![a, b, c])
                + "\""@,
            ReadError::MissingMagic => "expected \"aag\" or \"aig\", not \""@ + source + "\""@,
            ReadError::ExpectedDigit(found) => "expected digit in [0-9], not '"@ + match found {
                Some(b) => decode_utf8(seq![b]),
                None => Seq::empty(),
            } + "'"@,
            ReadError::IntegerOverflow { start, end } => "integer overflow ("@ + decode_utf8(
                src.subrange(start as int, end as int),
            ) + " > "@ + decimal(usize::MAX as nat) + ")"@,
            ReadError::Expected { expected, found } => match found {
                Some(a) => "expected '"@ + seq![expected as char] + "', not '"@ + seq![a as char]
                    + "'"@,
                None => "expected '"@ + seq![expected as char] + "'"@,
            },
            ReadError::ConstantInput => "constant input is invalid"@,
            ReadError::NegatedInput => "negated input is invalid"@,
            ReadError::ConstantLatch => "constant latch is invalid"@,
            ReadError::NegatedLatch => "negated latch is invalid"@,
            ReadError::ConstantGate => "constant gate is invalid"@,
            ReadError::NegatedGate => "negated gate is invalid"@,
            ReadError::MissingInputs { target, actual } => "expected "@ + decimal(target as nat)
                + " inputs (found "@ + decimal(actual as nat) + ")"@,
            ReadError::MissingLatches { target, actual } => "expected "@ + decimal(target as nat)
                + " latches (found "@ + decimal(actual as nat) + ")"@,
            ReadError::MissingOutputs { target, actual } => "expected "@ + decimal(target as nat)
                + " outputs (found "@ + decimal(actual as nat) + ")"@,
            ReadError::MissingGates { target, actual } => "expected "@ + decimal(target as nat)
                + " gates (found "@ + decimal(actual as nat) + ")"@,
            ReadError::BinaryUnsupported => "binary format not yet supported"@,
            ReadError::ExpectedBody => "expected newline followed by body"@,
        },
        Error::Write(m) => m@,
    }
}

/// `"expected {target} {what} (found {actual})"`.
fn missing_message(target: usize, what: &str, actual: usize) -> (r: String)
    ensures
        r@ == "expected "@ + decimal(target as nat) + what@ + decimal(actual as nat) + ")"@,
{
    let mut r = String::from_str("expected ");
    append_decimal(&mut r, target);
    r.append(what);
    append_decimal(&mut r, actual);
    r.append(")");
    r
}

impl Error {
    /// The error's message, for an error found reading `source`.
    pub fn message(&self, source: &str) -> (r: String)
        requires
            message_ok(*self, source.spec_bytes()),
        ensures
            r@ == message_text(*self, source@),
    {
        match self {
            Error::Read(r) => match r {
                ReadError::UnknownMagic(a, b, c) => {
                    let magic = [*a, *b, *c];
                    proof {
                        assert(magic@ =~= seq![*a, *b, *c]);
                    }
                    let mut m = String::from_str("unknown magic \"");
                    m.append(utf8_text(&magic));
                    m.append("\"");
                    m
                },
                ReadError::MissingMagic => {
                    let mut m = String::from_str("expected \"aag\" or \"aig\", not \"");
                    m.append(source);
                    m.append("\"");
                    m
                },
                ReadError::ExpectedDigit(found) => {
                    let mut m = String::from_str("expected digit in [0-9], not '");
                    match found {
                        Some(b) => {
                            let byte = [*b];
                            proof {
                                assert(byte@ =~= seq![*b]);
                            }
                            m.append(utf8_text(&byte));
                        },
                        None => {
                            proof {
                                assert(m@ + Seq::<char>::empty() =~= m@);
                            }
                        },
                    }
                    m.append("'");
                    m
                },
                ReadError::IntegerOverflow { start, end } => {
                    let bytes = source.as_bytes();
                    let digits = vstd::slice::slice_subrange(bytes, *start, *end);
                    let mut m = String::from_str("integer overflow (");
                    m.append(utf8_text(digits));
                    m.append(" > ");
                    append_decimal(&mut m, usize::MAX);
                    m.append(")");
                    m
                },
                ReadError::Expected { expected, found } => {
                    let mut m = String::from_str("expected '");
                    m.append(char_string(*expected as char).as_str());
                    match found {
                        Some(a) => {
                            m.append("', not '");
                            m.append(char_string(*a as char).as_str());
                            m.append("'");
                        },
                        None => {
                            m.append("'");
                        },
                    }
                    m
                },
                ReadError::ConstantInput => String::from_str("constant input is invalid"),
                ReadError::NegatedInput => String::from_str("negated input is invalid"),
                ReadError::ConstantLatch => String::from_str("constant latch is invalid"),
                ReadError::NegatedLatch => String::from_str("negated latch is invalid"),
                ReadError::ConstantGate => String::from_str("constant gate is invalid"),
                ReadError::NegatedGate => String::from_str("negated gate is invalid"),
                ReadError::MissingInputs { target, actual } => {
                    let r = missing_message(*target, " inputs (found ", *actual);
                    proof {
                        assert(r@ =~= message_text(*self, source@));
                    }
                    r
                },
                ReadError::MissingLatches { target, actual } => {
                    let r = missing_message(*target, " latches (found ", *actual);
                    proof {
                        assert(r@ =~= message_text(*self, source@));
                    }
                    r
                },
                ReadError::MissingOutputs { target, actual } => {
                    let r = missing_message(*target, " outputs (found ", *actual);
                    proof {
                        assert(r@ =~= message_text(*self, source@));
                    }
                    r
                },
                ReadError::MissingGates { target, actual } => {
                    let r = missing_message(*target, " gates (found ", *actual);
                    proof {
                        assert(r@ =~= message_text(*self, source@));
                    }
                    r
                },
                ReadError::BinaryUnsupported => String::from_str("binary format not yet supported"),
                ReadError::ExpectedBody => String::from_str("expected newline followed by body"),
            },
            Error::Write(m) => m.clone(),
        }
    }
}

/// The two AIGER encodings.
#[derive(Clone, Copy, Debug, PartialEq, Eq, Structural)]
pub enum AigerFormat {
    Ascii,
    Bin,
}

/// A literal: a variable index shifted left by one, with the lowest bit
/// set when the variable is negated. Literals 0 and 1 are the constants.
#[derive(Clone, Copy, Debug, PartialEq, Eq, Structural)]
pub struct Literal(pub usize);

/// A variable index.
#[derive(Clone, Copy, Debug, PartialEq, Eq, Structural)]
pub struct Variable(pub usize);

/// Whether a literal negates its variable.
#[derive(Clone, Copy, Debug, PartialEq, Eq, Structural)]
pub enum Negated {
    True,
    False,
}

/// A latch: the variable it defines and the literal of its next state.
#[derive(Clone, Copy, Debug, PartialEq, Eq, Structural)]
pub struct Latch(pub Variable, pub Literal);

/// An AND gate: the variable it defines and its two input literals.
#[derive(Clone, Copy, Debug, PartialEq, Eq, Structural)]
pub struct Gate(pub Variable, pub Literal, pub Literal);

impl Literal {
    /// The literal of `var`, negated or not.
    pub fn new_variable(var: Variable, negated: Negated) -> (r: Self)
        requires
            var.0 > 0,
        ensures
            r.0 == (2 * var.0 + (if negated == Negated::True { 1int } else { 0int })) as usize,
    {
        let lsb: usize = match negated {
            Negated::True => 1,
            Negated::False => 0,
        };
        let v = var.0;
        assert((v << 1usize) | lsb == (2 * v + lsb) as usize) by (bit_vector)
            requires
                lsb <= 1,
        ;
        Literal((v << 1usize) | lsb)
    }

    /// The constant literal `c`.
    pub fn new_const(c: bool) -> (r: Self)
        ensures
            r.0 == (if c { 1usize } else { 0usize }),
    {
        if c {
            Literal(1)
        } else {
            Literal(0)
        }
    }

    pub fn to_latch(self, next: Literal) -> (r: Latch)
        ensures
            r == Latch(Variable(self.0 / 2), next),
    {
        Latch(self.to_variable(), next)
    }

    pub fn to_gate(self, param_1: Literal, param_2: Literal) -> (r: Gate)
        ensures
            r == Gate(Variable(self.0 / 2), param_1, param_2),
    {
        Gate(self.to_variable(), param_1, param_2)
    }

    pub fn to_variable(self) -> (r: Variable)
        ensures
            r == Variable(self.0 / 2),
    {
        let v = self.0;
        assert(v >> 1usize == v / 2) by (bit_vector);
        Variable(v >> 1usize)
    }

    pub fn is_const(&self) -> (r: bool)
        ensures
            r == (self.0 < 2),
    {
        self.0 < 2
    }

    pub fn is_negated(&self) -> (r: bool)
        ensures
            r == (self.0 % 2 == 1),
    {
        let v = self.0;
        assert((v & 1usize == 1usize) == (v % 2 == 1)) by (bit_vector);
        v & 1 == 1
    }
}

/// An and-inverter graph.
#[derive(Debug, PartialEq)]
pub struct Aig {
    pub inputs: Vec<Variable>,
    pub latches: Vec<Latch>,
    pub outputs: Vec<Literal>,
    pub gates: Vec<Gate>,
}

/// The contents of an [`Aig`]: inputs, latches, outputs and gates.
pub type AigModel = (Seq<Variable>, Seq<Latch>, Seq<Literal>, Seq<Gate>);

impl View for Aig {
    type V = AigModel;

    open spec fn view(&self) -> AigModel {
        (self.inputs@, self.latches@, self.outputs@, self.gates@)
    }
}

pub open spec fn empty_aig() -> AigModel {
    (Seq::empty(), Seq::empty(), Seq::empty(), Seq::empty())
}

impl Default for Aig {
    fn default() -> (r: Self)
        ensures
            r@ == empty_aig(),
    {
        Aig { inputs: Vec::new(), latches: Vec::new(), outputs: Vec::new(), gates: Vec::new() }
    }
}

/// The header line of an AIGER file.
#[derive(Debug, PartialEq)]
pub struct AigHeader {
    pub format: Option<AigerFormat>,
    pub max_idx: usize,
    pub n_inputs: usize,
    pub n_latches: usize,
    pub n_outputs: usize,
    pub n_gates: usize,
}

impl Default for AigHeader {
    fn default() -> (r: Self)
        ensures
            r == (AigHeader {
                format: None,
                max_idx: 0,
                n_inputs: 0,
                n_latches: 0,
                n_outputs: 0,
                n_gates: 0,
            }),
    {
        AigHeader { format: None, max_idx: 0, n_inputs: 0, n_latches: 0, n_outputs: 0, n_gates: 0 }
    }
}

// ---------------------------------------------------------------------------
// The reader, as spec functions over the input bytes. A cursor is an index
// into the bytes; each function gives its result with the cursor after it.
// ---------------------------------------------------------------------------
pub open spec fn is_digit(b: u8) -> bool {
    48 <= b && b <= 57
}

/// The number of consecutive digits from `cur` on.
pub open spec fn digit_run(src: Seq<u8>, cur: int) -> nat
    decreases src.len() - cur,
{
    if 0 <= cur < src.len() && is_digit(src[cur]) {
        1 + digit_run(src, cur + 1)
    } else {
        0
    }
}

/// The value of a sequence of decimal digits.
pub open spec fn digits_value(s: Seq<u8>) -> nat
    decreases s.len(),
{
    if s.len() == 0 {
        0
    } else {
        digits_value(s.drop_last()) * 10 + (s.last() - 48) as nat
    }
}

pub open spec fn byte_at(src: Seq<u8>, cur: int) -> Option<u8> {
    if 0 <= cur < src.len() {
        Some(src[cur])
    } else {
        None
    }
}

/// Reads a decimal `usize` at `cur`.
pub open spec fn read_usize_spec(src: Seq<u8>, cur: int) -> Result<(usize, int), Error> {
    let n = digit_run(src, cur);
    if n == 0 {
        Err(Error::Read(ReadError::ExpectedDigit(byte_at(src, cur))))
    } else {
        let v = digits_value(src.subrange(cur, cur + n));
        if v <= usize::MAX {
            Ok((v as usize, cur + n))
        } else {
            Err(Error::Read(ReadError::IntegerOverflow { start: cur as usize, end: (cur + n) as usize }))
        }
    }
}

/// Where the cursor stands after reading a `usize` at `cur`: past the digits
/// read, or one byte on where no digit stands at `cur`.
pub open spec fn read_usize_cursor(src: Seq<u8>, cur: int) -> int {
    let n = digit_run(src, cur);
    if n == 0 {
        if 0 <= cur < src.len() {
            cur + 1
        } else {
            cur
        }
    } else {
        cur + n
    }
}

/// Consumes the byte `target` at `cur`; the cursor does not move on failure.
pub open spec fn consume_spec(src: Seq<u8>, cur: int, target: u8) -> (Result<u8, Error>, int) {
    if 0 <= cur < src.len() {
        if src[cur] == target {
            (Ok(target), cur + 1)
        } else {
            (Err(Error::Read(ReadError::Expected { expected: target, found: Some(src[cur]) })), cur)
        }
    } else {
        (Err(Error::Read(ReadError::Expected { expected: target, found: None })), cur)
    }
}

/// Consumes an optional carriage return, then a line feed.
pub open spec fn consume_newline_spec(src: Seq<u8>, cur: int) -> (Result<u8, Error>, int) {
    let c = if 0 <= cur < src.len() && src[cur] == 13 {
        cur + 1
    } else {
        cur
    };
    consume_spec(src, c, 10)
}

/// Consumes a space, then reads a `usize`.
pub open spec fn space_usize_spec(src: Seq<u8>, cur: int) -> Result<(usize, int), Error> {
    match consume_spec(src, cur, 32) {
        (Ok(_), c) => read_usize_spec(src, c),
        (Err(e), _) => Err(e),
    }
}

/// Reads the magic word at the start of the text.
pub open spec fn magic_spec(src: Seq<u8>) -> Result<(AigerFormat, int), Error> {
    if src.len() >= 3 {
        if src[0] == 97 && src[1] == 97 && src[2] == 103 {
            Ok((AigerFormat::Ascii, 3))
        } else if src[0] == 97 && src[1] == 105 && src[2] == 103 {
            Ok((AigerFormat::Bin, 3))
        } else {
            Err(Error::Read(ReadError::UnknownMagic(src[0], src[1], src[2])))
        }
    } else {
        Err(Error::Read(ReadError::MissingMagic))
    }
}

/// Reads the header line: the magic word and five space-separated numbers.
pub open spec fn header_spec(src: Seq<u8>) -> Result<(AigHeader, int), Error> {
    match magic_spec(src) {
        Err(e) => Err(e),
        Ok((format, c0)) => match space_usize_spec(src, c0) {
            Err(e) => Err(e),
            Ok((max_idx, c1)) => match space_usize_spec(src, c1) {
                Err(e) => Err(e),
                Ok((n_inputs, c2)) => match space_usize_spec(src, c2) {
                    Err(e) => Err(e),
                    Ok((n_latches, c3)) => match space_usize_spec(src, c3) {
                        Err(e) => Err(e),
                        Ok((n_outputs, c4)) => match space_usize_spec(src, c4) {
                            Err(e) => Err(e),
                            Ok((n_gates, c5)) => Ok(
                                (
                                    AigHeader {
                                        format: Some(format),
                                        max_idx,
                                        n_inputs,
                                        n_latches,
                                        n_outputs,
                                        n_gates,
                                    },
                                    c5,
                                ),
                            ),
                        },
                    },
                },
            },
        },
    }
}

/// Reads one input line (without its newline).
pub open spec fn input_step(src: Seq<u8>, cur: int) -> Result<(Variable, int), Error> {
    match read_usize_spec(src, cur) {
        Err(e) => Err(e),
        Ok((lit, c)) => if lit < 2 {
            Err(Error::Read(ReadError::ConstantInput))
        } else if lit % 2 == 1 {
            Err(Error::Read(ReadError::NegatedInput))
        } else {
            Ok((Variable(lit / 2), c))
        },
    }
}

/// Reads one latch line (without its newline).
pub open spec fn latch_step(src: Seq<u8>, cur: int) -> Result<(Latch, int), Error> {
    match read_usize_spec(src, cur) {
        Err(e) => Err(e),
        Ok((lit, c)) => if lit < 2 {
            Err(Error::Read(ReadError::ConstantLatch))
        } else if lit % 2 == 1 {
            Err(Error::Read(ReadError::NegatedLatch))
        } else {
            match space_usize_spec(src, c) {
                Err(e) => Err(e),
                Ok((next, c1)) => Ok((Latch(Variable(lit / 2), Literal(next)), c1)),
            }
        },
    }
}

/// Reads one output line (without its newline).
pub open spec fn output_step(src: Seq<u8>, cur: int) -> Result<(Literal, int), Error> {
    match read_usize_spec(src, cur) {
        Err(e) => Err(e),
        Ok((lit, c)) => Ok((Literal(lit), c)),
    }
}

/// Reads one gate line (without its newline).
pub open spec fn gate_step(src: Seq<u8>, cur: int) -> Result<(Gate, int), Error> {
    match read_usize_spec(src, cur) {
        Err(e) => Err(e),
        Ok((lhs, c)) => if lhs < 2 {
            Err(Error::Read(ReadError::ConstantGate))
        } else if lhs % 2 == 1 {
            Err(Error::Read(ReadError::NegatedGate))
        } else {
            match space_usize_spec(src, c) {
                Err(e) => Err(e),
                Ok((rhs1, c1)) => match space_usize_spec(src, c1) {
                    Err(e) => Err(e),
                    Ok((rhs2, c2)) => Ok(
                        (Gate(Variable(lhs / 2), Literal(rhs1), Literal(rhs2)), c2),
                    ),
                },
            }
        },
    }
}

pub open spec fn input_stepper(src: Seq<u8>) -> spec_fn(int) -> Result<(Variable, int), Error> {
    |c: int| input_step(src, c)
}

pub open spec fn latch_stepper(src: Seq<u8>) -> spec_fn(int) -> Result<(Latch, int), Error> {
    |c: int| latch_step(src, c)
}

pub open spec fn output_stepper(src: Seq<u8>) -> spec_fn(int) -> Result<(Literal, int), Error> {
    |c: int| output_step(src, c)
}

pub open spec fn gate_stepper(src: Seq<u8>) -> spec_fn(int) -> Result<(Gate, int), Error> {
    |c: int| gate_step(src, c)
}

/// Reads up to `k` lines with `step`, appending to `acc`. A line that is not
/// followed by a newline ends the section early.
pub open spec fn read_items<T>(
    step: spec_fn(int) -> Result<(T, int), Error>,
    src: Seq<u8>,
    cur: int,
    k: nat,
    acc: Seq<T>,
) -> Result<(Seq<T>, int), Error>
    decreases k,
{
    if k == 0 {
        Ok((acc, cur))
    } else {
        match step(cur) {
            Err(e) => Err(e),
            Ok((x, c1)) => {
                let (nl, c2) = consume_newline_spec(src, c1);
                if nl is Ok {
                    read_items(step, src, c2, (k - 1) as nat, acc.push(x))
                } else {
                    Ok((acc.push(x), c2))
                }
            },
        }
    }
}

/// Reads the body: inputs, latches, outputs and gates, as many of each as the
/// header announces.
pub open spec fn body_spec(src: Seq<u8>, cur: int, h: AigHeader) -> Result<(AigModel, int), Error> {
    match read_items(input_stepper(src), src, cur, h.n_inputs as nat, Seq::empty()) {
        Err(e) => Err(e),
        Ok((ins, c1)) => if ins.len() < h.n_inputs {
            Err(Error::Read(ReadError::MissingInputs { target: h.n_inputs, actual: ins.len() as usize }))
        } else {
            match read_items(latch_stepper(src), src, c1, h.n_latches as nat, Seq::empty()) {
                Err(e) => Err(e),
                Ok((lats, c2)) => if lats.len() < h.n_latches {
                    Err(
                        Error::Read(
                            ReadError::MissingLatches {
                                target: h.n_latches,
                                actual: lats.len() as usize,
                            },
                        ),
                    )
                } else {
                    match read_items(
                        output_stepper(src),
                        src,
                        c2,
                        h.n_outputs as nat,
                        Seq::empty(),
                    ) {
                        Err(e) => Err(e),
                        Ok((outs, c3)) => if outs.len() < h.n_outputs {
                            Err(
                                Error::Read(
                                    ReadError::MissingOutputs {
                                        target: h.n_outputs,
                                        actual: outs.len() as usize,
                                    },
                                ),
                            )
                        } else {
                            match read_items(
                                gate_stepper(src),
                                src,
                                c3,
                                h.n_gates as nat,
                                Seq::empty(),
                            ) {
                                Err(e) => Err(e),
                                Ok((gs, c4)) => if gs.len() < h.n_gates {
                                    Err(
                                        Error::Read(
                                            ReadError::MissingGates {
                                                target: h.n_gates,
                                                actual: gs.len() as usize,
                                            },
                                        ),
                                    )
                                } else {
                                    Ok(((ins, lats, outs, gs), c4))
                                },
                            }
                        },
                    }
                },
            }
        },
    }
}

/// Reads a whole AIGER text. `None` stands for a text with bytes left over
/// after the body and its final newline, on which the reader stops with a
/// panic; otherwise the result.
pub open spec fn read_all_spec(src: Seq<u8>) -> Option<Result<AigModel, Error>> {
    match header_spec(src) {
        Err(e) => Some(Err(e)),
        Ok((h, c)) => if h.format == Some(AigerFormat::Bin) {
            Some(Err(Error::Read(ReadError::BinaryUnsupported)))
        } else {
            let (nl, c1) = consume_newline_spec(src, c);
            if nl is Ok && c1 != src.len() {
                match body_spec(src, c1, h) {
                    Err(e) => Some(Err(e)),
                    Ok((body, c2)) => {
                        let (_, c3) = consume_newline_spec(src, c2);
                        if c3 == src.len() {
                            Some(Ok(body))
                        } else {
                            None
                        }
                    },
                }
            } else if c1 != src.len() {
                Some(Err(Error::Read(ReadError::ExpectedBody)))
            } else {
                Some(Ok(empty_aig()))
            }
        },
    }
}

// ---------------------------------------------------------------------------
// Lemmas
// ---------------------------------------------------------------------------
proof fn lemma_digits_value_step(src: Seq<u8>, start: int, i: int)
    requires
        0 <= start <= i < src.len(),
    ensures
        digits_value(src.subrange(start, i + 1)) == digits_value(src.subrange(start, i)) * 10 + (
        src[i] - 48) as nat,
{
    assert(src.subrange(start, i + 1).drop_last() =~= src.subrange(start, i));
}

proof fn lemma_digits_value_mono(src: Seq<u8>, start: int, i: int, j: int)
    requires
        0 <= start <= i <= j <= src.len(),
    ensures
        digits_value(src.subrange(start, i)) <= digits_value(src.subrange(start, j)),
    decreases j - i,
{
    if i < j {
        lemma_digits_value_mono(src, start, i, j - 1);
        lemma_digits_value_step(src, start, j - 1);
    }
}

proof fn lemma_digit_run_split(src: Seq<u8>, start: int, end: int)
    requires
        0 <= start <= end <= src.len(),
        forall|k: int| start <= k < end ==> is_digit(#[trigger] src[k]),
    ensures
        digit_run(src, start) == (end - start) + digit_run(src, end),
    decreases end - start,
{
    if start < end {
        lemma_digit_run_split(src, start + 1, end);
    }
}

// ---------------------------------------------------------------------------
// Line feeds written as carriage return and line feed
// ---------------------------------------------------------------------------

/// The bytes that stand for `b` once every line feed is written as a
/// carriage return and a line feed.
pub open spec fn crlf_byte(b: u8) -> Seq<u8> {
    if b == 10 {
        seq![13u8, 10u8]
    } else {
        seq![b]
    }
}

/// The text `s` with every line feed written as a carriage return and a
/// line feed.
pub open spec fn crlf_text(s: Seq<u8>) -> Seq<u8>
    decreases s.len(),
{
    if s.len() == 0 {
        Seq::empty()
    } else {
        crlf_text(s.drop_last()) + crlf_byte(s.last())
    }
}

/// Where the byte at `i` of `s` stands in `crlf_text(s)`.
pub open spec fn crlf_pos(s: Seq<u8>, i: int) -> int {
    crlf_text(s.subrange(0, i)).len() as int
}

/// The text holds no carriage return.
pub open spec fn no_carriage_return(s: Seq<u8>) -> bool {
    forall|k: int| 0 <= k < s.len() ==> s[k] != 13
}

/// A successful read at a cursor of `s` (`a`) is matched by the same value,
/// read up to the matching cursor of `crlf_text(s)` (`b`).
spec fn crlf_moved<T>(s: Seq<u8>, a: Result<(T, int), Error>, b: Result<(T, int), Error>) -> bool {
    match a {
        Ok((x, c)) => 0 <= c <= s.len() && b == Ok::<(T, int), Error>((x, crlf_pos(s, c))),
        Err(_) => true,
    }
}

proof fn lemma_crlf_concat(a: Seq<u8>, b: Seq<u8>)
    ensures
        crlf_text(a + b) == crlf_text(a) + crlf_text(b),
    decreases b.len(),
{
    if b.len() == 0 {
        assert(a + b =~= a);
        assert(crlf_text(a) + crlf_text(b) =~= crlf_text(a));
    } else {
        lemma_crlf_concat(a, b.drop_last());
        assert((a + b).drop_last() =~= a + b.drop_last());
        assert((a + b).last() == b.last());
        assert(crlf_text(a) + crlf_text(b) =~= crlf_text(a) + crlf_text(b.drop_last()) + crlf_byte(
            b.last(),
        ));
    }
}

proof fn lemma_crlf_ends(s: Seq<u8>)
    ensures
        crlf_pos(s, 0) == 0,
        crlf_pos(s, s.len() as int) == crlf_text(s).len(),
{
    assert(s.subrange(0, s.len() as int) =~= s);
    assert(s.subrange(0, 0) =~= Seq::<u8>::empty());
}

proof fn lemma_crlf_at(s: Seq<u8>, i: int)
    requires
        0 <= i < s.len(),
    ensures
        crlf_pos(s, i + 1) == crlf_pos(s, i) + crlf_byte(s[i]).len(),
        crlf_pos(s, i + 1) <= crlf_text(s).len(),
        crlf_text(s)[crlf_pos(s, i)] == crlf_byte(s[i])[0],
        s[i] == 10 ==> crlf_text(s)[crlf_pos(s, i) + 1] == 10,
{
    let p = s.subrange(0, i);
    let q = s.subrange(0, i + 1);
    let rest = s.subrange(i + 1, s.len() as int);
    assert(q.drop_last() =~= p);
    assert(q.last() == s[i]);
    assert(crlf_text(q) == crlf_text(p) + crlf_byte(s[i]));
    lemma_crlf_concat(q, rest);
    assert(q + rest =~= s);
    let n = crlf_text(p).len() as int;
    assert(crlf_text(s) == crlf_text(q) + crlf_text(rest));
    assert(crlf_text(s)[n] == crlf_text(q)[n]);
    assert(crlf_text(q)[n] == crlf_byte(s[i])[0]);
    if s[i] == 10 {
        assert(crlf_text(s)[n + 1] == crlf_text(q)[n + 1]);
    }
}

proof fn lemma_crlf_pos_end(s: Seq<u8>, c: int)
    requires
        0 <= c <= s.len(),
    ensures
        0 <= crlf_pos(s, c) <= crlf_text(s).len(),
        crlf_pos(s, c) == crlf_text(s).len() <==> c == s.len(),
{
    lemma_crlf_ends(s);
    if c < s.len() {
        lemma_crlf_at(s, c);
    }
}

proof fn lemma_crlf_digits(s: Seq<u8>, i: int)
    requires
        0 <= i <= s.len(),
    ensures
        i + digit_run(s, i) <= s.len(),
        digit_run(crlf_text(s), crlf_pos(s, i)) == digit_run(s, i),
        crlf_pos(s, i + digit_run(s, i)) == crlf_pos(s, i) + digit_run(s, i),
        crlf_text(s).subrange(crlf_pos(s, i), crlf_pos(s, i) + digit_run(s, i)) == s.subrange(
            i,
            i + digit_run(s, i),
        ),
    decreases s.len() - i,
{
    let t = crlf_text(s);
    let p = crlf_pos(s, i);
    lemma_crlf_pos_end(s, i);
    if i == s.len() {
        assert(t.subrange(p, p) =~= s.subrange(i, i));
    } else {
        lemma_crlf_at(s, i);
        if is_digit(s[i]) {
            lemma_crlf_digits(s, i + 1);
            let n = digit_run(s, i + 1);
            lemma_crlf_pos_end(s, i + 1 + n);
            assert(t[p] == s[i]);
            assert(t.subrange(p, p + 1 + n) =~= seq![s[i]] + t.subrange(p + 1, p + 1 + n));
            assert(s.subrange(i, i + 1 + n) =~= seq![s[i]] + s.subrange(i + 1, i + 1 + n));
        } else {
            assert(!is_digit(t[p]));
            assert(t.subrange(p, p) =~= s.subrange(i, i));
        }
    }
}

proof fn lemma_crlf_read_usize(s: Seq<u8>, i: int)
    requires
        0 <= i <= s.len(),
    ensures
        crlf_moved(s, read_usize_spec(s, i), read_usize_spec(crlf_text(s), crlf_pos(s, i))),
{
    lemma_crlf_digits(s, i);
}

proof fn lemma_crlf_consume(s: Seq<u8>, i: int, target: u8)
    requires
        0 <= i <= s.len(),
        target != 10,
        consume_spec(s, i, target).0 is Ok,
    ensures
        i < s.len(),
        consume_spec(crlf_text(s), crlf_pos(s, i), target) == (Ok::<u8, Error>(target), crlf_pos(s, i + 1)),
{
    lemma_crlf_at(s, i);
}

proof fn lemma_crlf_newline(s: Seq<u8>, i: int)
    requires
        0 <= i <= s.len(),
        no_carriage_return(s),
    ensures
        (consume_newline_spec(crlf_text(s), crlf_pos(s, i)).0 is Ok) == (consume_newline_spec(
            s,
            i,
        ).0 is Ok),
        consume_newline_spec(crlf_text(s), crlf_pos(s, i)).1 == crlf_pos(
            s,
            consume_newline_spec(s, i).1,
        ),
        0 <= consume_newline_spec(s, i).1 <= s.len(),
{
    lemma_crlf_pos_end(s, i);
    if i < s.len() {
        lemma_crlf_at(s, i);
    }
}

proof fn lemma_crlf_space_usize(s: Seq<u8>, i: int)
    requires
        0 <= i <= s.len(),
    ensures
        crlf_moved(s, space_usize_spec(s, i), space_usize_spec(crlf_text(s), crlf_pos(s, i))),
{
    if consume_spec(s, i, 32).0 is Ok {
        lemma_crlf_consume(s, i, 32);
        lemma_crlf_read_usize(s, i + 1);
    }
}

proof fn lemma_crlf_header(s: Seq<u8>)
    ensures
        crlf_moved(s, header_spec(s), header_spec(crlf_text(s))),
{
    let t = crlf_text(s);
    lemma_crlf_ends(s);
    if let Ok((f, c0)) = magic_spec(s) {
        lemma_crlf_at(s, 0);
        lemma_crlf_at(s, 1);
        lemma_crlf_at(s, 2);
        assert(magic_spec(t) == Ok::<(AigerFormat, int), Error>((f, crlf_pos(s, c0))));
        lemma_crlf_space_usize(s, c0);
        if let Ok((_, c1)) = space_usize_spec(s, c0) {
            lemma_crlf_space_usize(s, c1);
            if let Ok((_, c2)) = space_usize_spec(s, c1) {
                lemma_crlf_space_usize(s, c2);
                if let Ok((_, c3)) = space_usize_spec(s, c2) {
                    lemma_crlf_space_usize(s, c3);
                    if let Ok((_, c4)) = space_usize_spec(s, c3) {
                        lemma_crlf_space_usize(s, c4);
                    }
                }
            }
        }
    }
}

proof fn lemma_crlf_steps(s: Seq<u8>, i: int)
    requires
        0 <= i <= s.len(),
    ensures
        crlf_moved(s, input_step(s, i), input_step(crlf_text(s), crlf_pos(s, i))),
        crlf_moved(s, latch_step(s, i), latch_step(crlf_text(s), crlf_pos(s, i))),
        crlf_moved(s, output_step(s, i), output_step(crlf_text(s), crlf_pos(s, i))),
        crlf_moved(s, gate_step(s, i), gate_step(crlf_text(s), crlf_pos(s, i))),
{
    lemma_crlf_read_usize(s, i);
    if let Ok((_, c)) = read_usize_spec(s, i) {
        lemma_crlf_space_usize(s, c);
        if let Ok((_, c1)) = space_usize_spec(s, c) {
            lemma_crlf_space_usize(s, c1);
        }
    }
}

proof fn lemma_crlf_read_items<T>(
    step_s: spec_fn(int) -> Result<(T, int), Error>,
    step_t: spec_fn(int) -> Result<(T, int), Error>,
    s: Seq<u8>,
    i: int,
    k: nat,
    acc: Seq<T>,
)
    requires
        0 <= i <= s.len(),
        no_carriage_return(s),
        forall|c: int|
            0 <= c <= s.len() ==> crlf_moved(s, #[trigger] step_s(c), step_t(crlf_pos(s, c))),
    ensures
        crlf_moved(
            s,
            read_items(step_s, s, i, k, acc),
            read_items(step_t, crlf_text(s), crlf_pos(s, i), k, acc),
        ),
    decreases k,
{
    if k > 0 {
        assert(crlf_moved(s, step_s(i), step_t(crlf_pos(s, i))));
        if let Ok((x, c1)) = step_s(i) {
            lemma_crlf_newline(s, c1);
            let c2 = consume_newline_spec(s, c1).1;
            if consume_newline_spec(s, c1).0 is Ok {
                lemma_crlf_read_items(step_s, step_t, s, c2, (k - 1) as nat, acc.push(x));
            }
        }
    }
}

proof fn lemma_crlf_body(s: Seq<u8>, i: int, h: AigHeader)
    requires
        0 <= i <= s.len(),
        no_carriage_return(s),
    ensures
        crlf_moved(s, body_spec(s, i, h), body_spec(crlf_text(s), crlf_pos(s, i), h)),
{
    let t = crlf_text(s);
    assert forall|c: int| 0 <= c <= s.len() implies crlf_moved(
        s,
        #[trigger] input_stepper(s)(c),
        input_stepper(t)(crlf_pos(s, c)),
    ) by {
        lemma_crlf_steps(s, c);
    }
    assert forall|c: int| 0 <= c <= s.len() implies crlf_moved(
        s,
        #[trigger] latch_stepper(s)(c),
        latch_stepper(t)(crlf_pos(s, c)),
    ) by {
        lemma_crlf_steps(s, c);
    }
    assert forall|c: int| 0 <= c <= s.len() implies crlf_moved(
        s,
        #[trigger] output_stepper(s)(c),
        output_stepper(t)(crlf_pos(s, c)),
    ) by {
        lemma_crlf_steps(s, c);
    }
    assert forall|c: int| 0 <= c <= s.len() implies crlf_moved(
        s,
        #[trigger] gate_stepper(s)(c),
        gate_stepper(t)(crlf_pos(s, c)),
    ) by {
        lemma_crlf_steps(s, c);
    }
    lemma_crlf_read_items(input_stepper(s), input_stepper(t), s, i, h.n_inputs as nat, Seq::empty());
    if let Ok((_, c1)) = read_items(input_stepper(s), s, i, h.n_inputs as nat, Seq::empty()) {
        lemma_crlf_read_items(latch_stepper(s), latch_stepper(t), s, c1, h.n_latches as nat, Seq::empty());
        if let Ok((_, c2)) = read_items(latch_stepper(s), s, c1, h.n_latches as nat, Seq::empty()) {
            lemma_crlf_read_items(
                output_stepper(s),
                output_stepper(t),
                s,
                c2,
                h.n_outputs as nat,
                Seq::empty(),
            );
            if let Ok((_, c3)) = read_items(
                output_stepper(s),
                s,
                c2,
                h.n_outputs as nat,
                Seq::empty(),
            ) {
                lemma_crlf_read_items(
                    gate_stepper(s),
                    gate_stepper(t),
                    s,
                    c3,
                    h.n_gates as nat,
                    Seq::empty(),
                );
            }
        }
    }
}

/// Every line feed of an AIGER text may be written as a carriage return and
/// a line feed: a text without carriage returns that reads as an AIG reads,
/// so rewritten, as the same AIG.
pub proof fn lemma_crlf_reads_same(s: Seq<u8>)
    requires
        no_carriage_return(s),
        read_all_spec(s) matches Some(Ok(_)),
    ensures
        read_all_spec(crlf_text(s)) == read_all_spec(s),
{
    let t = crlf_text(s);
    lemma_crlf_header(s);
    if let Ok((h, c)) = header_spec(s) {
        lemma_crlf_newline(s, c);
        let c1 = consume_newline_spec(s, c).1;
        lemma_crlf_pos_end(s, c1);
        if h.format != Some(AigerFormat::Bin) && consume_newline_spec(s, c).0 is Ok && c1 != s.len() {
            lemma_crlf_body(s, c1, h);
            if let Ok((_, c2)) = body_spec(s, c1, h) {
                lemma_crlf_newline(s, c2);
                lemma_crlf_pos_end(s, consume_newline_spec(s, c2).1);
            }
        }
    }
}

/// Reads the first three bytes as a tuple with `Itertools::next_tuple`: the
/// three bytes in order, or `None` when fewer than three are given.
#[verifier::external_body]
fn next_triple(bytes: &[u8]) -> (r: Option<(u8, u8, u8)>)
    ensures
        r is Some <==> bytes@.len() >= 3,
        r matches Some(t) ==> t == (bytes@[0], bytes@[1], bytes@[2]),
{
    bytes.iter().copied().next_tuple()
}

/// A cursor over the bytes of an AIGER text, with the header and body read
/// so far.
pub struct AigReader<'a> {
    header: AigHeader,
    body: Aig,
    source: &'a [u8],
    cursor: usize,
}

impl<'a> AigReader<'a> {
    /// The bytes being read.
    pub closed spec fn src(&self) -> Seq<u8> {
        self.source@
    }

    /// The position of the next byte to read.
    pub closed spec fn cur(&self) -> int {
        self.cursor as int
    }

    pub closed spec fn wf(&self) -> bool {
        self.cursor <= self.source@.len()
    }

    pub closed spec fn header_counts(&self) -> AigHeader {
        self.header
    }

    /// The body read so far.
    pub closed spec fn body_model(&self) -> AigModel {
        self.body@
    }

    pub fn new(text: &'a str) -> (r: Self)
        ensures
            r.wf(),
            r.src() == text.spec_bytes(),
            r.cur() == 0,
            r.body_model() == empty_aig(),
    {
        AigReader {
            header: AigHeader::default(),
            body: Aig::default(),
            source: text.as_bytes(),
            cursor: 0,
        }
    }

    /// Rewinds the reader and hands out the body read so far.
    pub fn reset(&mut self) -> (r: Aig)
        ensures
            final(self).src() == old(self).src(),
            final(self).cur() == 0,
            final(self).wf(),
            r@ == old(self).body_model(),
    {
        self.cursor = 0;
        self.header = AigHeader::default();
        let mut body = Aig::default();
        std::mem::swap(&mut body, &mut self.body);
        body
    }

    /// The next byte, if any.
    pub fn next(&mut self) -> (r: Option<u8>)
        requires
            old(self).wf(),
        ensures
            final(self).wf(),
            final(self).src() == old(self).src(),
            r == byte_at(old(self).src(), old(self).cur()),
            final(self).cur() == if r is Some {
                old(self).cur() + 1
            } else {
                old(self).cur()
            },
            final(self).header_counts() == old(self).header_counts(),
            final(self).body_model() == old(self).body_model(),
    {
        if self.cursor < self.source.len() {
            let b = self.source[self.cursor];
            self.cursor = self.cursor + 1;
            Some(b)
        } else {
            None
        }
    }

    pub fn read_magic(&mut self) -> (r: Result<AigerFormat, Error>)
        requires
            old(self).wf(),
            old(self).cur() == 0,
        ensures
            final(self).wf(),
            final(self).src() == old(self).src(),
            final(self).header_counts() == old(self).header_counts(),
            final(self).body_model() == old(self).body_model(),
            match r {
                Ok(f) => magic_spec(old(self).src()) == Ok::<_, Error>((f, final(self).cur())),
                Err(e) => magic_spec(old(self).src()) == Err::<(AigerFormat, int), Error>(e),
            },
    {
        let magic = next_triple(self.source);
        self.cursor = if self.source.len() >= 3 {
            3
        } else {
            self.source.len()
        };
        match magic {
            Some((a, b, c)) => {
                if a == 97u8 && b == 97u8 && c == 103u8 {
                    Ok(AigerFormat::Ascii)
                } else if a == 97u8 && b == 105u8 && c == 103u8 {
                    Ok(AigerFormat::Bin)
                } else {
                    Err(Error::Read(ReadError::UnknownMagic(a, b, c)))
                }
            },
            None => Err(Error::Read(ReadError::MissingMagic)),
        }
    }

    pub fn eof(&self) -> (r: bool)
        ensures
            r == (self.cur() == self.src().len()),
    {
        self.cursor == self.source.len()
    }

    pub fn read_usize(&mut self) -> (r: Result<usize, Error>)
        requires
            old(self).wf(),
        ensures
            final(self).wf(),
            final(self).src() == old(self).src(),
            final(self).header_counts() == old(self).header_counts(),
            final(self).body_model() == old(self).body_model(),
            final(self).cur() == read_usize_cursor(old(self).src(), old(self).cur()),
            match r {
                Ok(v) => read_usize_spec(old(self).src(), old(self).cur()) == Ok::<_, Error>(
                    (v, final(self).cur()),
                ),
                Err(e) => read_usize_spec(old(self).src(), old(self).cur()) == Err::<
                    (usize, int),
                    Error,
                >(e),
            },
    {
        let src = self.source;
        let start = self.cursor;
        let mut end = start;
        while end < src.len() && src[end] >= 48u8 && src[end] <= 57u8
            invariant
                start <= end <= src@.len(),
                forall|k: int| start <= k < end ==> is_digit(#[trigger] src@[k]),
            decreases src@.len() - end,
        {
            end = end + 1;
        }
        proof {
            lemma_digit_run_split(src@, start as int, end as int);
        }
        if start == end {
            let invalid = self.next();
            return Err(Error::Read(ReadError::ExpectedDigit(invalid)));
        }
        self.cursor = end;
        let mut number: usize = 0;
        let mut i = start;
        while i < end
            invariant
                start <= i <= end <= src@.len(),
                forall|k: int| start <= k < end ==> is_digit(#[trigger] src@[k]),
                number == digits_value(src@.subrange(start as int, i as int)),
                self.src() == src@,
                self.cur() == end,
                self.wf(),
                self.header_counts() == old(self).header_counts(),
                self.body_model() == old(self).body_model(),
                old(self).src() == src@,
                old(self).cur() == start,
                digit_run(src@, start as int) == end - start,
            decreases end - i,
        {
            proof {
                lemma_digits_value_step(src@, start as int, i as int);
            }
            let digit = (src[i] - 48u8) as usize;
            match number.checked_mul(10) {
                Some(scaled) => match scaled.checked_add(digit) {
                    Some(updated) => {
                        number = updated;
                    },
                    None => {
                        proof {
                            lemma_digits_value_mono(src@, start as int, i + 1, end as int);
                        }
                        return Err(Error::Read(ReadError::IntegerOverflow { start, end }));
                    },
                },
                None => {
                    proof {
                        lemma_digits_value_mono(src@, start as int, i + 1, end as int);
                    }
                    return Err(Error::Read(ReadError::IntegerOverflow { start, end }));
                },
            }
            i = i + 1;
        }
        Ok(number)
    }

    pub fn consume(&mut self, target: u8) -> (r: Result<u8, Error>)
        requires
            old(self).wf(),
        ensures
            final(self).wf(),
            final(self).src() == old(self).src(),
            final(self).header_counts() == old(self).header_counts(),
            final(self).body_model() == old(self).body_model(),
            (r, final(self).cur()) == consume_spec(old(self).src(), old(self).cur(), target),
    {
        let cur = self.cursor;
        match self.next() {
            Some(actual) => {
                if target == actual {
                    Ok(actual)
                } else {
                    self.cursor = cur;
                    Err(Error::Read(ReadError::Expected { expected: target, found: Some(actual) }))
                }
            },
            None => Err(Error::Read(ReadError::Expected { expected: target, found: None })),
        }
    }

    pub fn maybe_consume(&mut self, target: u8)
        requires
            old(self).wf(),
        ensures
            final(self).wf(),
            final(self).src() == old(self).src(),
            final(self).header_counts() == old(self).header_counts(),
            final(self).body_model() == old(self).body_model(),
            final(self).cur() == consume_spec(old(self).src(), old(self).cur(), target).1,
    {
        let _ = self.consume(target);
    }

    pub fn consume_space(&mut self) -> (r: Result<u8, Error>)
        requires
            old(self).wf(),
        ensures
            final(self).wf(),
            final(self).src() == old(self).src(),
            final(self).header_counts() == old(self).header_counts(),
            final(self).body_model() == old(self).body_model(),
            (r, final(self).cur()) == consume_spec(old(self).src(), old(self).cur(), 32),
    {
        self.consume(32u8)
    }

    pub fn consume_newline(&mut self) -> (r: Result<u8, Error>)
        requires
            old(self).wf(),
        ensures
            final(self).wf(),
            final(self).src() == old(self).src(),
            final(self).header_counts() == old(self).header_counts(),
            final(self).body_model() == old(self).body_model(),
            (r, final(self).cur()) == consume_newline_spec(old(self).src(), old(self).cur()),
    {
        self.maybe_consume(13u8);
        self.consume(10u8)
    }

    pub fn read_header(&mut self) -> (r: Result<AigHeader, Error>)
        requires
            old(self).wf(),
            old(self).cur() == 0,
        ensures
            final(self).wf(),
            final(self).src() == old(self).src(),
            final(self).header_counts() == old(self).header_counts(),
            final(self).body_model() == old(self).body_model(),
            match r {
                Ok(h) => header_spec(old(self).src()) == Ok::<_, Error>((h, final(self).cur())),
                Err(e) => header_spec(old(self).src()) == Err::<(AigHeader, int), Error>(e),
            },
    {
        let magic = self.read_magic()?;
        self.consume_space()?;
        let max_idx = self.read_usize()?;
        self.consume_space()?;
        let n_inputs = self.read_usize()?;
        self.consume_space()?;
        let n_latches = self.read_usize()?;
        self.consume_space()?;
        let n_outputs = self.read_usize()?;
        self.consume_space()?;
        let n_gates = self.read_usize()?;
        Ok(AigHeader { format: Some(magic), max_idx, n_inputs, n_latches, n_outputs, n_gates })
    }

    pub fn read_inputs(&mut self) -> (r: Result<Vec<Variable>, Error>)
        requires
            old(self).wf(),
        ensures
            final(self).wf(),
            final(self).src() == old(self).src(),
            final(self).header_counts() == old(self).header_counts(),
            final(self).body_model() == old(self).body_model(),
            match r {
                Ok(v) => read_items(
                    input_stepper(old(self).src()),
                    old(self).src(),
                    old(self).cur(),
                    old(self).header_counts().n_inputs as nat,
                    Seq::empty(),
                ) == Ok::<_, Error>((v@, final(self).cur())),
                Err(e) => read_items(
                    input_stepper(old(self).src()),
                    old(self).src(),
                    old(self).cur(),
                    old(self).header_counts().n_inputs as nat,
                    Seq::empty(),
                ) == Err::<(Seq<Variable>, int), Error>(e),
            },
    {
        let n = self.header.n_inputs;
        let ghost src = self.src();
        let ghost total = read_items(input_stepper(src), src, self.cur(), n as nat, Seq::empty());
        let mut inputs: Vec<Variable> = Vec::with_capacity(n);
        let mut i: usize = 0;
        let mut done = false;
        while i < n && !done
            invariant
                self.wf(),
                self.src() == src,
                old(self).src() == src,
                self.header_counts() == old(self).header_counts(),
                self.body_model() == old(self).body_model(),
                n == old(self).header_counts().n_inputs,
                i <= n,
                total == read_items(input_stepper(src), src, old(self).cur(), n as nat, Seq::empty()),
                !done ==> total == read_items(
                    input_stepper(src),
                    src,
                    self.cur(),
                    (n - i) as nat,
                    inputs@,
                ),
                done ==> total == Ok::<_, Error>((inputs@, self.cur())),
            decreases n - i,
        {
            let lit = Literal(self.read_usize()?);
            if lit.is_const() {
                return Err(Error::Read(ReadError::ConstantInput));
            }
            if lit.is_negated() {
                return Err(Error::Read(ReadError::NegatedInput));
            }
            inputs.push(lit.to_variable());
            i = i + 1;
            if self.consume_newline().is_err() {
                done = true;
            }
        }
        Ok(inputs)
    }

    pub fn read_latches(&mut self) -> (r: Result<Vec<Latch>, Error>)
        requires
            old(self).wf(),
        ensures
            final(self).wf(),
            final(self).src() == old(self).src(),
            final(self).header_counts() == old(self).header_counts(),
            final(self).body_model() == old(self).body_model(),
            match r {
                Ok(v) => read_items(
                    latch_stepper(old(self).src()),
                    old(self).src(),
                    old(self).cur(),
                    old(self).header_counts().n_latches as nat,
                    Seq::empty(),
                ) == Ok::<_, Error>((v@, final(self).cur())),
                Err(e) => read_items(
                    latch_stepper(old(self).src()),
                    old(self).src(),
                    old(self).cur(),
                    old(self).header_counts().n_latches as nat,
                    Seq::empty(),
                ) == Err::<(Seq<Latch>, int), Error>(e),
            },
    {
        let n = self.header.n_latches;
        let ghost src = self.src();
        let ghost total = read_items(latch_stepper(src), src, self.cur(), n as nat, Seq::empty());
        let mut latches: Vec<Latch> = Vec::with_capacity(n);
        let mut i: usize = 0;
        let mut done = false;
        while i < n && !done
            invariant
                self.wf(),
                self.src() == src,
                old(self).src() == src,
                self.header_counts() == old(self).header_counts(),
                self.body_model() == old(self).body_model(),
                n == old(self).header_counts().n_latches,
                i <= n,
                total == read_items(latch_stepper(src), src, old(self).cur(), n as nat, Seq::empty()),
                !done ==> total == read_items(
                    latch_stepper(src),
                    src,
                    self.cur(),
                    (n - i) as nat,
                    latches@,
                ),
                done ==> total == Ok::<_, Error>((latches@, self.cur())),
            decreases n - i,
        {
            let lit = Literal(self.read_usize()?);
            if lit.is_const() {
                return Err(Error::Read(ReadError::ConstantLatch));
            }
            if lit.is_negated() {
                return Err(Error::Read(ReadError::NegatedLatch));
            }
            self.consume_space()?;
            let next = Literal(self.read_usize()?);
            latches.push(lit.to_latch(next));
            i = i + 1;
            if self.consume_newline().is_err() {
                done = true;
            }
        }
        Ok(latches)
    }

    pub fn read_outputs(&mut self) -> (r: Result<Vec<Literal>, Error>)
        requires
            old(self).wf(),
        ensures
            final(self).wf(),
            final(self).src() == old(self).src(),
            final(self).header_counts() == old(self).header_counts(),
            final(self).body_model() == old(self).body_model(),
            match r {
                Ok(v) => read_items(
                    output_stepper(old(self).src()),
                    old(self).src(),
                    old(self).cur(),
                    old(self).header_counts().n_outputs as nat,
                    Seq::empty(),
                ) == Ok::<_, Error>((v@, final(self).cur())),
                Err(e) => read_items(
                    output_stepper(old(self).src()),
                    old(self).src(),
                    old(self).cur(),
                    old(self).header_counts().n_outputs as nat,
                    Seq::empty(),
                ) == Err::<(Seq<Literal>, int), Error>(e),
            },
    {
        let n = self.header.n_outputs;
        let ghost src = self.src();
        let ghost total = read_items(output_stepper(src), src, self.cur(), n as nat, Seq::empty());
        let mut outputs: Vec<Literal> = Vec::with_capacity(n);
        let mut i: usize = 0;
        let mut done = false;
        while i < n && !done
            invariant
                self.wf(),
                self.src() == src,
                old(self).src() == src,
                self.header_counts() == old(self).header_counts(),
                self.body_model() == old(self).body_model(),
                n == old(self).header_counts().n_outputs,
                i <= n,
                total == read_items(output_stepper(src), src, old(self).cur(), n as nat, Seq::empty()),
                !done ==> total == read_items(
                    output_stepper(src),
                    src,
                    self.cur(),
                    (n - i) as nat,
                    outputs@,
                ),
                done ==> total == Ok::<_, Error>((outputs@, self.cur())),
            decreases n - i,
        {
            let lit = Literal(self.read_usize()?);
            outputs.push(lit);
            i = i + 1;
            if self.consume_newline().is_err() {
                done = true;
            }
        }
        Ok(outputs)
    }

    pub fn read_gates(&mut self) -> (r: Result<Vec<Gate>, Error>)
        requires
            old(self).wf(),
        ensures
            final(self).wf(),
            final(self).src() == old(self).src(),
            final(self).header_counts() == old(self).header_counts(),
            final(self).body_model() == old(self).body_model(),
            match r {
                Ok(v) => read_items(
                    gate_stepper(old(self).src()),
                    old(self).src(),
                    old(self).cur(),
                    old(self).header_counts().n_gates as nat,
                    Seq::empty(),
                ) == Ok::<_, Error>((v@, final(self).cur())),
                Err(e) => read_items(
                    gate_stepper(old(self).src()),
                    old(self).src(),
                    old(self).cur(),
                    old(self).header_counts().n_gates as nat,
                    Seq::empty(),
                ) == Err::<(Seq<Gate>, int), Error>(e),
            },
    {
        let n = self.header.n_gates;
        let ghost src = self.src();
        let ghost total = read_items(gate_stepper(src), src, self.cur(), n as nat, Seq::empty());
        let mut gates: Vec<Gate> = Vec::with_capacity(n);
        let mut i: usize = 0;
        let mut done = false;
        while i < n && !done
            invariant
                self.wf(),
                self.src() == src,
                old(self).src() == src,
                self.header_counts() == old(self).header_counts(),
                self.body_model() == old(self).body_model(),
                n == old(self).header_counts().n_gates,
                i <= n,
                total == read_items(gate_stepper(src), src, old(self).cur(), n as nat, Seq::empty()),
                !done ==> total == read_items(
                    gate_stepper(src),
                    src,
                    self.cur(),
                    (n - i) as nat,
                    gates@,
                ),
                done ==> total == Ok::<_, Error>((gates@, self.cur())),
            decreases n - i,
        {
            let lhs = Literal(self.read_usize()?);
            if lhs.is_const() {
                return Err(Error::Read(ReadError::ConstantGate));
            }
            if lhs.is_negated() {
                return Err(Error::Read(ReadError::NegatedGate));
            }
            self.consume_space()?;
            let rhs1 = Literal(self.read_usize()?);
            self.consume_space()?;
            let rhs2 = Literal(self.read_usize()?);
            gates.push(lhs.to_gate(rhs1, rhs2));
            i = i + 1;
            if self.consume_newline().is_err() {
                done = true;
            }
        }
        Ok(gates)
    }

    pub fn read_body(&mut self) -> (r: Result<(), Error>)
        requires
            old(self).wf(),
        ensures
            final(self).wf(),
            final(self).src() == old(self).src(),
            final(self).header_counts() == old(self).header_counts(),
            match r {
                Ok(_) => body_spec(old(self).src(), old(self).cur(), old(self).header_counts())
                    == Ok::<_, Error>((final(self).body_model(), final(self).cur())),
                Err(e) => body_spec(old(self).src(), old(self).cur(), old(self).header_counts())
                    == Err::<(AigModel, int), Error>(e),
            },
    {
        let inputs = self.read_inputs()?;
        if inputs.len() < self.header.n_inputs {
            let target = self.header.n_inputs;
            let actual = inputs.len();
            return Err(Error::Read(ReadError::MissingInputs { target, actual }));
        }
        self.body.inputs = inputs;
        let latches = self.read_latches()?;
        if latches.len() < self.header.n_latches {
            let target = self.header.n_latches;
            let actual = latches.len();
            return Err(Error::Read(ReadError::MissingLatches { target, actual }));
        }
        self.body.latches = latches;
        let outputs = self.read_outputs()?;
        if outputs.len() < self.header.n_outputs {
            let target = self.header.n_outputs;
            let actual = outputs.len();
            return Err(Error::Read(ReadError::MissingOutputs { target, actual }));
        }
        self.body.outputs = outputs;
        let gates = self.read_gates()?;
        if gates.len() < self.header.n_gates {
            let target = self.header.n_gates;
            let actual = gates.len();
            return Err(Error::Read(ReadError::MissingGates { target, actual }));
        }
        self.body.gates = gates;
        Ok(())
    }

    /// Checks the structure of what was read; no check is made yet.
    pub fn ensure_well_formed(&self) -> (r: Result<(), Error>)
        ensures
            r is Ok,
    {
        Ok(())
    }

    /// Reads the whole text. Returns `None` where bytes are left over after
    /// the body and its final newline; otherwise the outcome of reading.
    pub fn read_all_checked(&mut self) -> (r: Option<Result<Aig, Error>>)
        requires
            old(self).wf(),
            old(self).cur() == 0,
            old(self).body_model() == empty_aig(),
        ensures
            match r {
                None => read_all_spec(old(self).src()) is None,
                Some(Ok(a)) => read_all_spec(old(self).src()) == Some(Ok::<_, Error>(a@)),
                Some(Err(e)) => read_all_spec(old(self).src()) == Some(Err::<AigModel, Error>(e)),
            },
    {
        let header = match self.read_header() {
            Ok(h) => h,
            Err(e) => return Some(Err(e)),
        };
        self.header = header;
        match self.header.format {
            Some(AigerFormat::Bin) => {
                return Some(Err(Error::Read(ReadError::BinaryUnsupported)));
            },
            _ => {},
        }
        if self.consume_newline().is_ok() && !self.eof() {
            match self.read_body() {
                Ok(_) => {},
                Err(e) => return Some(Err(e)),
            }
            let _ = self.consume_newline();
        } else if !self.eof() {
            return Some(Err(Error::Read(ReadError::ExpectedBody)));
        }
        if !self.eof() {
            return None;
        }
        match self.header.format {
            Some(AigerFormat::Ascii) => {
                match self.ensure_well_formed() {
                    Ok(_) => {},
                    Err(e) => return Some(Err(e)),
                }
            },
            _ => {},
        }
        Some(Ok(self.reset()))
    }

    /// Reads the whole text; see [`read_all_spec`].
    pub fn read_all(&mut self) -> (r: Result<Aig, Error>)
        requires
            old(self).wf(),
            old(self).cur() == 0,
            old(self).body_model() == empty_aig(),
            read_all_spec(old(self).src()) is Some,
        ensures
            match r {
                Ok(a) => read_all_spec(old(self).src()) == Some(Ok::<_, Error>(a@)),
                Err(e) => read_all_spec(old(self).src()) == Some(Err::<AigModel, Error>(e)),
            },
    {
        match self.read_all_checked() {
            Some(r) => r,
            None => {
                proof {
                    assert(false);
                }
                Err(Error::Read(ReadError::ExpectedBody))
            },
        }
    }
}

impl Aig {
    /// Reads an AIGER text (ASCII format).
    pub fn from_str(text: &str) -> (r: Result<Aig, Error>)
        requires
            read_all_spec(text.spec_bytes()) is Some,
        ensures
            match r {
                Ok(a) => read_all_spec(text.spec_bytes()) == Some(Ok::<_, Error>(a@)),
                Err(e) => read_all_spec(text.spec_bytes()) == Some(Err::<AigModel, Error>(e)),
            },
    {
        let mut reader = AigReader::new(text);
        reader.read_all()
    }

    /// Reads an AIGER text; `None` where [`Aig::from_str`] would stop on
    /// bytes left over after the body.
    pub fn try_from_str(text: &str) -> (r: Option<Result<Aig, Error>>)
        ensures
            match r {
                None => read_all_spec(text.spec_bytes()) is None,
                Some(Ok(a)) => read_all_spec(text.spec_bytes()) == Some(Ok::<_, Error>(a@)),
                Some(Err(e)) => read_all_spec(text.spec_bytes()) == Some(Err::<AigModel, Error>(e)),
            },
    {
        let mut reader = AigReader::new(text);
        reader.read_all_checked()
    }
}

/// The decimal notation of `n`, in ASCII bytes, most significant digit
/// first.
pub open spec fn decimal_digits(n: nat) -> Seq<u8>
    decreases n,
{
    if n < 10 {
        seq![(48 + n) as u8]
    } else {
        decimal_digits(n / 10).push((48 + n % 10) as u8)
    }
}

proof fn lemma_decimal_digits(n: nat)
    ensures
        decimal_digits(n).len() > 0,
        forall|k: int| 0 <= k < decimal_digits(n).len() ==> is_digit(#[trigger] decimal_digits(n)[k]),
        digits_value(decimal_digits(n)) == n,
    decreases n,
{
    let s = decimal_digits(n);
    if n < 10 {
        assert(s.drop_last() =~= Seq::<u8>::empty());
        assert(s.last() == (48 + n) as u8);
        assert(digits_value(s) == digits_value(s.drop_last()) * 10 + (s.last() - 48) as nat);
    } else {
        lemma_decimal_digits(n / 10);
        assert(s.drop_last() =~= decimal_digits(n / 10));
        assert((n / 10) * 10 + n % 10 == n) by (nonlinear_arith);
        assert(s.last() == (48 + n % 10) as u8);
        assert(digits_value(s) == digits_value(s.drop_last()) * 10 + (s.last() - 48) as nat);
        assert forall|k: int| 0 <= k < s.len() implies is_digit(#[trigger] s[k]) by {
            if k < s.len() - 1 {
                assert(s[k] == decimal_digits(n / 10)[k]);
            }
        }
    }
}

proof fn lemma_digit_run_to_end(s: Seq<u8>, cur: int)
    requires
        0 <= cur <= s.len(),
        forall|k: int| cur <= k < s.len() ==> is_digit(#[trigger] s[k]),
    ensures
        digit_run(s, cur) == s.len() - cur,
    decreases s.len() - cur,
{
    if cur < s.len() {
        lemma_digit_run_to_end(s, cur + 1);
    }
}

/// Reading gives back the decimal notation of a number: `n` itself where it
/// fits in a `usize`, with the cursor after its last digit, and an overflow
/// error where it does not.
pub proof fn lemma_read_decimal(n: nat)
    ensures
        n <= usize::MAX ==> read_usize_spec(decimal_digits(n), 0) == Ok::<(usize, int), Error>(
            (n as usize, decimal_digits(n).len() as int),
        ),
        n > usize::MAX ==> read_usize_spec(decimal_digits(n), 0) == Err::<(usize, int), Error>(
            Error::Read(ReadError::IntegerOverflow { start: 0, end: decimal_digits(n).len() as usize }),
        ),
{
    let s = decimal_digits(n);
    lemma_decimal_digits(n);
    lemma_digit_run_to_end(s, 0);
    assert(s.subrange(0, s.len() as int) =~= s);
}

/// Reading at `cur` where the decimal notation of `n` stands there, and no
/// digit after it, gives `n` with the cursor after its last digit.
pub proof fn lemma_read_decimal_at(src: Seq<u8>, cur: int, n: nat)
    requires
        0 <= cur,
        n <= usize::MAX,
        cur + decimal_digits(n).len() <= src.len(),
        src.subrange(cur, cur + decimal_digits(n).len()) == decimal_digits(n),
        cur + decimal_digits(n).len() == src.len() || !is_digit(src[cur + decimal_digits(n).len()]),
    ensures
        read_usize_spec(src, cur) == Ok::<(usize, int), Error>(
            (n as usize, cur + decimal_digits(n).len()),
        ),
{
    let d = decimal_digits(n);
    let e = cur + d.len();
    lemma_decimal_digits(n);
    assert forall|k: int| cur <= k < e implies is_digit(#[trigger] src[k]) by {
        assert(src[k] == src.subrange(cur, e)[k - cur]);
    }
    lemma_digit_run_split(src, cur, e);
    assert(digit_run(src, e) == 0);
}

/// The decimal notation of `a`, a space, and the decimal notation of `b`.
pub open spec fn two_numbers(a: nat, b: nat) -> Seq<u8> {
    decimal_digits(a) + seq![32u8] + decimal_digits(b)
}

/// The decimal notations of `a`, `b` and `c`, each after the first behind a
/// space.
pub open spec fn three_numbers(a: nat, b: nat, c: nat) -> Seq<u8> {
    two_numbers(a, b) + seq![32u8] + decimal_digits(c)
}

/// The bytes at `cur` are `line`, and no digit follows them.
pub open spec fn line_at(src: Seq<u8>, cur: int, line: Seq<u8>) -> bool {
    &&& 0 <= cur
    &&& cur + line.len() <= src.len()
    &&& src.subrange(cur, cur + line.len()) == line
    &&& (cur + line.len() == src.len() || !is_digit(src[cur + line.len()]))
}

proof fn lemma_two_numbers(src: Seq<u8>, cur: int, a: nat, b: nat, rest: Seq<u8>)
    requires
        a <= usize::MAX,
        b <= usize::MAX,
        line_at(src, cur, two_numbers(a, b) + rest),
        rest.len() == 0 || !is_digit(rest[0]),
    ensures
        read_usize_spec(src, cur) == Ok::<(usize, int), Error>((a as usize, cur + decimal_digits(a).len())),
        space_usize_spec(src, cur + decimal_digits(a).len()) == Ok::<(usize, int), Error>(
            (b as usize, cur + two_numbers(a, b).len()),
        ),
{
    let da = decimal_digits(a);
    let db = decimal_digits(b);
    let line = two_numbers(a, b) + rest;
    let e = cur + line.len();
    let sub = src.subrange(cur, e);
    lemma_decimal_digits(a);
    lemma_decimal_digits(b);
    assert(src.subrange(cur, cur + da.len()) =~= da) by {
        assert forall|k: int| 0 <= k < da.len() implies src.subrange(cur, cur + da.len())[k] == da[k] by {
            assert(sub[k] == line[k]);
        }
    }
    assert(src[cur + da.len()] == 32u8) by {
        assert(sub[da.len() as int] == line[da.len() as int]);
    }
    lemma_read_decimal_at(src, cur, a);
    let c1 = cur + da.len() + 1;
    assert(src.subrange(c1, c1 + db.len()) =~= db) by {
        assert forall|k: int| 0 <= k < db.len() implies src.subrange(c1, c1 + db.len())[k] == db[k] by {
            assert(sub[da.len() + 1 + k] == line[da.len() + 1 + k]);
        }
    }
    let e2 = c1 + db.len();
    if e2 < src.len() {
        if rest.len() == 0 {
            assert(e2 == e);
        } else {
            assert(src[e2] == rest[0]) by {
                assert(sub[e2 - cur] == line[e2 - cur]);
            }
        }
    }
    lemma_read_decimal_at(src, c1, b);
}

/// An input line `l` (an even literal of at least 2) reads as the input
/// variable `l / 2`, with the cursor after `l`.
pub proof fn lemma_input_line(src: Seq<u8>, cur: int, l: nat)
    requires
        2 <= l <= usize::MAX,
        l % 2 == 0,
        line_at(src, cur, decimal_digits(l)),
    ensures
        input_step(src, cur) == Ok::<(Variable, int), Error>(
            (Variable((l / 2) as usize), cur + decimal_digits(l).len()),
        ),
{
    lemma_read_decimal_at(src, cur, l);
}

/// An output line `o` reads as the output literal `o`, with the cursor after
/// it.
pub proof fn lemma_output_line(src: Seq<u8>, cur: int, o: nat)
    requires
        o <= usize::MAX,
        line_at(src, cur, decimal_digits(o)),
    ensures
        output_step(src, cur) == Ok::<(Literal, int), Error>(
            (Literal(o as usize), cur + decimal_digits(o).len()),
        ),
{
    lemma_read_decimal_at(src, cur, o);
}

/// A latch line `l n` (an even literal `l` of at least 2, then the literal
/// `n`) reads as the latch of variable `l / 2` whose next state is the
/// literal `n`, with the cursor after `n`.
pub proof fn lemma_latch_line(src: Seq<u8>, cur: int, l: nat, n: nat)
    requires
        2 <= l <= usize::MAX,
        l % 2 == 0,
        n <= usize::MAX,
        line_at(src, cur, two_numbers(l, n)),
    ensures
        latch_step(src, cur) == Ok::<(Latch, int), Error>(
            (Latch(Variable((l / 2) as usize), Literal(n as usize)), cur + two_numbers(l, n).len()),
        ),
{
    assert(two_numbers(l, n) + Seq::<u8>::empty() =~= two_numbers(l, n));
    lemma_two_numbers(src, cur, l, n, Seq::empty());
}

/// A gate line `g a b`, where `g` is an even literal of at least 2, reads as
/// an AND gate of variable `g / 2` whose first input is the literal `a` and
/// whose second input is the literal `b`, with the cursor after `b`.
pub proof fn lemma_gate_line(src: Seq<u8>, cur: int, g: nat, a: nat, b: nat)
    requires
        2 <= g <= usize::MAX,
        g % 2 == 0,
        a <= usize::MAX,
        b <= usize::MAX,
        line_at(src, cur, three_numbers(g, a, b)),
    ensures
        gate_step(src, cur) == Ok::<(Gate, int), Error>(
            (
                Gate(Variable((g / 2) as usize), Literal(a as usize), Literal(b as usize)),
                cur + three_numbers(g, a, b).len(),
            ),
        ),
{
    let rest = seq![32u8] + decimal_digits(b);
    lemma_decimal_digits(b);
    assert(three_numbers(g, a, b) =~= two_numbers(g, a) + rest);
    assert(!is_digit(rest[0]));
    lemma_two_numbers(src, cur, g, a, rest);
    let c1 = cur + two_numbers(g, a).len();
    let line = three_numbers(g, a, b);
    let sub = src.subrange(cur, cur + line.len());
    assert(src[c1] == 32u8) by {
        assert(sub[c1 - cur] == line[c1 - cur]);
    }
    let db = decimal_digits(b);
    assert(src.subrange(c1 + 1, c1 + 1 + db.len()) =~= db) by {
        assert forall|k: int| 0 <= k < db.len() implies src.subrange(c1 + 1, c1 + 1 + db.len())[k] == db[k] by {
            assert(sub[c1 + 1 - cur + k] == line[c1 + 1 - cur + k]);
        }
    }
    lemma_read_decimal_at(src, c1 + 1, b);
}

/// The bytes `t` stand at `c` in `src`.
pub open spec fn has_at(src: Seq<u8>, c: int, t: Seq<u8>) -> bool {
    &&& 0 <= c
    &&& c + t.len() <= src.len()
    &&& src.subrange(c, c + t.len()) == t
}

/// No digit stands at `e` (or `e` is the end of `src`).
pub open spec fn no_digit_at(src: Seq<u8>, e: int) -> bool {
    e == src.len() || !is_digit(src[e])
}

proof fn lemma_has_at_split(src: Seq<u8>, c: int, t: Seq<u8>, u: Seq<u8>)
    requires
        has_at(src, c, t + u),
    ensures
        has_at(src, c, t),
        has_at(src, c + t.len(), u),
{
    let s = src.subrange(c, c + t.len() + u.len());
    assert(src.subrange(c, c + t.len()) =~= t) by {
        assert forall|k: int| 0 <= k < t.len() implies src.subrange(c, c + t.len())[k] == t[k] by {
            assert(s[k] == (t + u)[k]);
        }
    }
    assert(src.subrange(c + t.len(), c + t.len() + u.len()) =~= u) by {
        assert forall|k: int| 0 <= k < u.len() implies src.subrange(c + t.len(), c + t.len() + u.len())[k]
            == u[k] by {
            assert(s[t.len() + k] == (t + u)[t.len() + k]);
        }
    }
}

proof fn lemma_has_at_first(src: Seq<u8>, c: int, t: Seq<u8>)
    requires
        has_at(src, c, t),
        t.len() > 0,
    ensures
        src[c] == t[0],
{
    assert(src.subrange(c, c + t.len())[0] == src[c]);
}

/// A space and then the decimal notation of `n`.
pub open spec fn spaced(n: nat) -> Seq<u8> {
    seq![32u8] + decimal_digits(n)
}

proof fn lemma_space_usize_at(src: Seq<u8>, c: int, n: nat)
    requires
        n <= usize::MAX,
        has_at(src, c, spaced(n)),
        no_digit_at(src, c + spaced(n).len()),
    ensures
        space_usize_spec(src, c) == Ok::<(usize, int), Error>((n as usize, c + spaced(n).len())),
{
    lemma_has_at_split(src, c, seq![32u8], decimal_digits(n));
    lemma_has_at_first(src, c, seq![32u8]);
    lemma_read_decimal_at(src, c + 1, n);
}

/// The header line of an ASCII AIGER text: `aag M I L O A` and a line feed.
pub open spec fn header_text(m: nat, i: nat, l: nat, o: nat, a: nat) -> Seq<u8> {
    seq![97u8, 97, 103] + spaced(m) + spaced(i) + spaced(l) + spaced(o) + spaced(a) + seq![10u8]
}

proof fn lemma_read_header_text(src: Seq<u8>, m: nat, i: nat, l: nat, o: nat, a: nat)
    requires
        m <= usize::MAX,
        i <= usize::MAX,
        l <= usize::MAX,
        o <= usize::MAX,
        a <= usize::MAX,
        has_at(src, 0, header_text(m, i, l, o, a)),
    ensures
        header_spec(src) == Ok::<(AigHeader, int), Error>(
            (
                AigHeader {
                    format: Some(AigerFormat::Ascii),
                    max_idx: m as usize,
                    n_inputs: i as usize,
                    n_latches: l as usize,
                    n_outputs: o as usize,
                    n_gates: a as usize,
                },
                header_text(m, i, l, o, a).len() - 1,
            ),
        ),
{
    let p0 = seq![97u8, 97, 103];
    let x1 = p0 + spaced(m);
    let x2 = x1 + spaced(i);
    let x3 = x2 + spaced(l);
    let x4 = x3 + spaced(o);
    let x5 = x4 + spaced(a);
    lemma_has_at_split(src, 0, x5, seq![10u8]);
    lemma_has_at_split(src, 0, x4, spaced(a));
    lemma_has_at_split(src, 0, x3, spaced(o));
    lemma_has_at_split(src, 0, x2, spaced(l));
    lemma_has_at_split(src, 0, x1, spaced(i));
    lemma_has_at_split(src, 0, p0, spaced(m));
    lemma_has_at_first(src, x1.len() as int, spaced(i));
    lemma_has_at_first(src, x2.len() as int, spaced(l));
    lemma_has_at_first(src, x3.len() as int, spaced(o));
    lemma_has_at_first(src, x4.len() as int, spaced(a));
    lemma_has_at_first(src, x5.len() as int, seq![10u8]);
    assert(src[0] == p0[0] && src[1] == p0[1] && src[2] == p0[2]) by {
        assert(src.subrange(0, 3)[0] == src[0]);
        assert(src.subrange(0, 3)[1] == src[1]);
        assert(src.subrange(0, 3)[2] == src[2]);
    }
    lemma_space_usize_at(src, 3, m);
    lemma_space_usize_at(src, x1.len() as int, i);
    lemma_space_usize_at(src, x2.len() as int, l);
    lemma_space_usize_at(src, x3.len() as int, o);
    lemma_space_usize_at(src, x4.len() as int, a);
}

/// Lines: each text followed by a line feed.
pub open spec fn lines(ts: Seq<Seq<u8>>) -> Seq<u8>
    decreases ts.len(),
{
    if ts.len() == 0 {
        Seq::empty()
    } else {
        ts[0] + seq![10u8] + lines(ts.drop_first())
    }
}

proof fn lemma_read_lines<T>(
    step: spec_fn(int) -> Result<(T, int), Error>,
    src: Seq<u8>,
    cur: int,
    items: Seq<T>,
    ts: Seq<Seq<u8>>,
    acc: Seq<T>,
)
    requires
        ts.len() == items.len(),
        has_at(src, cur, lines(ts)),
        forall|k: int, c: int|
            #![trigger ts[k], step(c)]
            0 <= k < items.len() && has_at(src, c, ts[k]) && no_digit_at(src, c + ts[k].len())
                ==> step(c) == Ok::<(T, int), Error>((items[k], c + ts[k].len())),
    ensures
        read_items(step, src, cur, items.len(), acc) == Ok::<(Seq<T>, int), Error>(
            (acc + items, cur + lines(ts).len()),
        ),
    decreases items.len(),
{
    if items.len() == 0 {
        assert(acc + items =~= acc);
    } else {
        let t0 = ts[0];
        let rest = items.drop_first();
        let rts = ts.drop_first();
        let rl = lines(rts);
        assert(lines(ts) == t0 + seq![10u8] + rl);
        lemma_has_at_split(src, cur, t0 + seq![10u8], rl);
        lemma_has_at_split(src, cur, t0, seq![10u8]);
        lemma_has_at_first(src, cur + t0.len(), seq![10u8]);
        assert(step(cur) == Ok::<(T, int), Error>((items[0], cur + t0.len())));
        assert forall|k: int, c: int|
            #![trigger rts[k], step(c)]
            0 <= k < rest.len() && has_at(src, c, rts[k]) && no_digit_at(src, c + rts[k].len())
                implies step(c) == Ok::<(T, int), Error>((rest[k], c + rts[k].len())) by {
            assert(rest[k] == items[k + 1]);
            assert(rts[k] == ts[k + 1]);
        }
        lemma_read_lines(step, src, cur + t0.len() + 1, rest, rts, acc.push(items[0]));
        assert(acc.push(items[0]) + rest =~= acc + items);
        assert((items.len() - 1) as nat == rest.len());
    }
}

/// The line of an input variable: its literal.
pub open spec fn input_text(v: Variable) -> Seq<u8> {
    decimal_digits((2 * v.0) as nat)
}

/// The line of a latch: its literal and its next-state literal.
pub open spec fn latch_text(l: Latch) -> Seq<u8> {
    two_numbers((2 * l.0.0) as nat, l.1.0 as nat)
}

/// The line of an output: its literal.
pub open spec fn output_text(o: Literal) -> Seq<u8> {
    decimal_digits(o.0 as nat)
}

/// The line of a gate: its literal and its two input literals.
pub open spec fn gate_text(g: Gate) -> Seq<u8> {
    three_numbers((2 * g.0.0) as nat, g.1.0 as nat, g.2.0 as nat)
}

/// The ASCII AIGER text of the graph `a` with the maximum variable index
/// `max`: the header line, then one line per input, latch, output and gate,
/// in order.
pub open spec fn aag_text(max: nat, a: AigModel) -> Seq<u8> {
    header_text(max, a.0.len(), a.1.len(), a.2.len(), a.3.len()) + lines(
        a.0.map_values(|v: Variable| input_text(v)),
    ) + lines(a.1.map_values(|l: Latch| latch_text(l))) + lines(
        a.2.map_values(|o: Literal| output_text(o)),
    ) + lines(a.3.map_values(|g: Gate| gate_text(g)))
}

/// The graph `a` can be written with the maximum index `max`: every number
/// fits in a `usize`, and every variable that inputs, latches and gates
/// define is at least 1.
pub open spec fn aig_writable(max: nat, a: AigModel) -> bool {
    &&& max <= usize::MAX
    &&& a.0.len() <= usize::MAX
    &&& a.1.len() <= usize::MAX
    &&& a.2.len() <= usize::MAX
    &&& a.3.len() <= usize::MAX
    &&& forall|k: int| 0 <= k < a.0.len() ==> 1 <= (#[trigger] a.0[k]).0 && 2 * a.0[k].0 <= usize::MAX
    &&& forall|k: int| 0 <= k < a.1.len() ==> 1 <= (#[trigger] a.1[k]).0.0 && 2 * a.1[k].0.0 <= usize::MAX
    &&& forall|k: int| 0 <= k < a.3.len() ==> 1 <= (#[trigger] a.3[k]).0.0 && 2 * a.3[k].0.0 <= usize::MAX
}

proof fn lemma_read_inputs_text(src: Seq<u8>, c: int, ins: Seq<Variable>)
    requires
        has_at(src, c, lines(ins.map_values(|v: Variable| input_text(v)))),
        forall|k: int| 0 <= k < ins.len() ==> 1 <= (#[trigger] ins[k]).0 && 2 * ins[k].0 <= usize::MAX,
    ensures
        read_items(input_stepper(src), src, c, ins.len(), Seq::empty()) == Ok::<(Seq<Variable>, int), Error>(
            (ins, c + lines(ins.map_values(|v: Variable| input_text(v))).len()),
        ),
{
    let ts = ins.map_values(|v: Variable| input_text(v));
    assert forall|k: int, cc: int|
        #![trigger ts[k], input_stepper(src)(cc)]
        0 <= k < ins.len() && has_at(src, cc, ts[k]) && no_digit_at(src, cc + ts[k].len())
            implies input_stepper(src)(cc) == Ok::<(Variable, int), Error>((ins[k], cc + ts[k].len())) by {
        assert(ts[k] == input_text(ins[k]));
        lemma_input_line(src, cc, (2 * ins[k].0) as nat);
    }
    lemma_read_lines(input_stepper(src), src, c, ins, ts, Seq::empty());
    assert(Seq::<Variable>::empty() + ins =~= ins);
}

proof fn lemma_read_latches_text(src: Seq<u8>, c: int, lats: Seq<Latch>)
    requires
        has_at(src, c, lines(lats.map_values(|l: Latch| latch_text(l)))),
        forall|k: int| 0 <= k < lats.len() ==> 1 <= (#[trigger] lats[k]).0.0 && 2 * lats[k].0.0 <= usize::MAX,
    ensures
        read_items(latch_stepper(src), src, c, lats.len(), Seq::empty()) == Ok::<(Seq<Latch>, int), Error>(
            (lats, c + lines(lats.map_values(|l: Latch| latch_text(l))).len()),
        ),
{
    let ts = lats.map_values(|l: Latch| latch_text(l));
    assert forall|k: int, cc: int|
        #![trigger ts[k], latch_stepper(src)(cc)]
        0 <= k < lats.len() && has_at(src, cc, ts[k]) && no_digit_at(src, cc + ts[k].len())
            implies latch_stepper(src)(cc) == Ok::<(Latch, int), Error>((lats[k], cc + ts[k].len())) by {
        assert(ts[k] == latch_text(lats[k]));
        lemma_latch_line(src, cc, (2 * lats[k].0.0) as nat, lats[k].1.0 as nat);
    }
    lemma_read_lines(latch_stepper(src), src, c, lats, ts, Seq::empty());
    assert(Seq::<Latch>::empty() + lats =~= lats);
}

proof fn lemma_read_outputs_text(src: Seq<u8>, c: int, outs: Seq<Literal>)
    requires
        has_at(src, c, lines(outs.map_values(|o: Literal| output_text(o)))),
    ensures
        read_items(output_stepper(src), src, c, outs.len(), Seq::empty()) == Ok::<(Seq<Literal>, int), Error>(
            (outs, c + lines(outs.map_values(|o: Literal| output_text(o))).len()),
        ),
{
    let ts = outs.map_values(|o: Literal| output_text(o));
    assert forall|k: int, cc: int|
        #![trigger ts[k], output_stepper(src)(cc)]
        0 <= k < outs.len() && has_at(src, cc, ts[k]) && no_digit_at(src, cc + ts[k].len())
            implies output_stepper(src)(cc) == Ok::<(Literal, int), Error>((outs[k], cc + ts[k].len())) by {
        assert(ts[k] == output_text(outs[k]));
        lemma_output_line(src, cc, outs[k].0 as nat);
    }
    lemma_read_lines(output_stepper(src), src, c, outs, ts, Seq::empty());
    assert(Seq::<Literal>::empty() + outs =~= outs);
}

proof fn lemma_read_gates_text(src: Seq<u8>, c: int, gs: Seq<Gate>)
    requires
        has_at(src, c, lines(gs.map_values(|g: Gate| gate_text(g)))),
        forall|k: int| 0 <= k < gs.len() ==> 1 <= (#[trigger] gs[k]).0.0 && 2 * gs[k].0.0 <= usize::MAX,
    ensures
        read_items(gate_stepper(src), src, c, gs.len(), Seq::empty()) == Ok::<(Seq<Gate>, int), Error>(
            (gs, c + lines(gs.map_values(|g: Gate| gate_text(g))).len()),
        ),
{
    let ts = gs.map_values(|g: Gate| gate_text(g));
    assert forall|k: int, cc: int|
        #![trigger ts[k], gate_stepper(src)(cc)]
        0 <= k < gs.len() && has_at(src, cc, ts[k]) && no_digit_at(src, cc + ts[k].len())
            implies gate_stepper(src)(cc) == Ok::<(Gate, int), Error>((gs[k], cc + ts[k].len())) by {
        assert(ts[k] == gate_text(gs[k]));
        lemma_gate_line(src, cc, (2 * gs[k].0.0) as nat, gs[k].1.0 as nat, gs[k].2.0 as nat);
    }
    lemma_read_lines(gate_stepper(src), src, c, gs, ts, Seq::empty());
    assert(Seq::<Gate>::empty() + gs =~= gs);
}

/// The lines of the body of the ASCII AIGER text of `a`.
pub open spec fn body_text(a: AigModel) -> Seq<u8> {
    lines(a.0.map_values(|v: Variable| input_text(v))) + lines(a.1.map_values(|l: Latch| latch_text(l)))
        + lines(a.2.map_values(|o: Literal| output_text(o))) + lines(a.3.map_values(|g: Gate| gate_text(g)))
}

proof fn lemma_read_body_text(src: Seq<u8>, c: int, a: AigModel, h: AigHeader)
    requires
        aig_writable(0, a),
        has_at(src, c, body_text(a)),
        h.n_inputs == a.0.len(),
        h.n_latches == a.1.len(),
        h.n_outputs == a.2.len(),
        h.n_gates == a.3.len(),
    ensures
        body_spec(src, c, h) == Ok::<(AigModel, int), Error>((a, c + body_text(a).len())),
{
    let li = lines(a.0.map_values(|v: Variable| input_text(v)));
    let ll = lines(a.1.map_values(|l: Latch| latch_text(l)));
    let lo = lines(a.2.map_values(|o: Literal| output_text(o)));
    let lg = lines(a.3.map_values(|g: Gate| gate_text(g)));
    lemma_has_at_split(src, c, li + ll + lo, lg);
    lemma_has_at_split(src, c, li + ll, lo);
    lemma_has_at_split(src, c, li, ll);
    lemma_read_inputs_text(src, c, a.0);
    lemma_read_latches_text(src, c + li.len(), a.1);
    lemma_read_outputs_text(src, c + li.len() + ll.len(), a.2);
    lemma_read_gates_text(src, c + li.len() + ll.len() + lo.len(), a.3);
}

proof fn lemma_read_all_parts(src: Seq<u8>, hdr: AigHeader, c: int, a: AigModel)
    requires
        header_spec(src) == Ok::<(AigHeader, int), Error>((hdr, c)),
        hdr.format == Some(AigerFormat::Ascii),
        0 <= c < src.len(),
        src[c] == 10u8,
        body_spec(src, c + 1, hdr) == Ok::<(AigModel, int), Error>((a, src.len() as int)),
        c + 1 == src.len() ==> a == empty_aig(),
    ensures
        read_all_spec(src) == Some(Ok::<AigModel, Error>(a)),
{
    assert(consume_newline_spec(src, c) == (Ok::<u8, Error>(10u8), c + 1));
}

proof fn lemma_no_lines<T>(items: Seq<T>, ts: Seq<Seq<u8>>)
    requires
        ts.len() == items.len(),
        lines(ts).len() == 0,
    ensures
        items =~= Seq::<T>::empty(),
{
}

/// Reading gives back what was written: the ASCII AIGER text of a graph
/// (see [`aag_text`]) reads as that graph, its inputs, latches (each with
/// its next-state literal), outputs and gates in order.
#[verifier::spinoff_prover]
#[verifier::rlimit(80)]
pub proof fn lemma_read_written(max: nat, a: AigModel)
    requires
        aig_writable(max, a),
    ensures
        read_all_spec(aag_text(max, a)) == Some(Ok::<AigModel, Error>(a)),
{
    let src = aag_text(max, a);
    let h = header_text(max, a.0.len(), a.1.len(), a.2.len(), a.3.len());
    let body = body_text(a);
    assert(src =~= h + body);
    assert(has_at(src, 0, h + body)) by {
        assert(src.subrange(0, src.len() as int) =~= src);
    }
    lemma_has_at_split(src, 0, h, body);
    lemma_read_header_text(src, max, a.0.len(), a.1.len(), a.2.len(), a.3.len());
    let c = h.len() - 1;
    assert(src[c] == 10u8) by {
        assert(h[c] == 10u8);
        assert(src.subrange(0, h.len() as int)[c] == src[c]);
    }
    let hdr = AigHeader {
        format: Some(AigerFormat::Ascii),
        max_idx: max as usize,
        n_inputs: a.0.len() as usize,
        n_latches: a.1.len() as usize,
        n_outputs: a.2.len() as usize,
        n_gates: a.3.len() as usize,
    };
    lemma_read_body_text(src, c + 1, a, hdr);
    if c + 1 == src.len() {
        let li = lines(a.0.map_values(|v: Variable| input_text(v)));
        let ll = lines(a.1.map_values(|l: Latch| latch_text(l)));
        let lo = lines(a.2.map_values(|o: Literal| output_text(o)));
        let lg = lines(a.3.map_values(|g: Gate| gate_text(g)));
        lemma_no_lines(a.0, a.0.map_values(|v: Variable| input_text(v)));
        lemma_no_lines(a.1, a.1.map_values(|l: Latch| latch_text(l)));
        lemma_no_lines(a.2, a.2.map_values(|o: Literal| output_text(o)));
        lemma_no_lines(a.3, a.3.map_values(|g: Gate| gate_text(g)));
    }
    lemma_read_all_parts(src, hdr, c, a);
}

} // verus!
