use vts::aiger::{Aig, AigReader, Error, Gate, Latch, Literal, Negated, ReadError, Variable};

const RADIX: u32 = 10;

#[test]
fn test_empty() {
    assert_eq!(Aig::from_str("aag 0 0 0 0 0").unwrap(), Aig::default());
    assert_eq!(Aig::from_str("aag 0 0 0 0 0\n").unwrap(), Aig::default());
}

#[test]
fn test_read_usize() {
    assert_eq!(AigReader::new("42").read_usize().unwrap(), 42);
    let usize_max = format!("{}", usize::MAX);
    assert_eq!(AigReader::new(&usize_max).read_usize().unwrap(), usize::MAX);
    let mut usize_max_plus_one = usize_max.clone();
    let ones = usize_max_plus_one.pop().unwrap().to_digit(RADIX).unwrap();
    assert!(ones < 9);
    usize_max_plus_one.push(char::from_digit(ones + 1, RADIX).unwrap());
    assert!(AigReader::new(&usize_max_plus_one).read_usize().is_err());
}

#[test]
fn test_read_const() {
    let aig_true = Aig::from_str("aag 0 0 0 1 0\n1").unwrap();
    assert_eq!(aig_true.inputs.len(), 0);
    assert_eq!(aig_true.latches.len(), 0);
    assert_eq!(aig_true.outputs[0], Literal::new_const(true));
    let aig_false = Aig::from_str("aag 0 0 0 1 0\n0").unwrap();
    assert_eq!(aig_false.inputs.len(), 0);
    assert_eq!(aig_false.latches.len(), 0);
    assert_eq!(aig_false.outputs[0], Literal::new_const(false));
}

#[test]
fn test_read_buffer() {
    let aig_buffer = Aig::from_str("aag 1 1 0 1 0\n2\n2").unwrap();
    assert_eq!(aig_buffer.inputs[0], Variable(1));
    assert_eq!(
        aig_buffer.outputs[0],
        Literal::new_variable(Variable(1), Negated::False)
    );
    let aig_inverter = Aig::from_str("aag 1 1 0 1 0\n2\n3").unwrap();
    assert_eq!(aig_inverter.inputs[0], Variable(1));
    assert_eq!(
        aig_inverter.outputs[0],
        Literal::new_variable(Variable(1), Negated::True)
    );
}

#[test]
fn test_read_gate() {
    let aig_and = Aig::from_str("aag 3 2 0 1 1\n2\n4\n6\n6 2 4").unwrap();
    let input_0 = Variable(1);
    let input_1 = Variable(2);
    let output = Variable(3);
    assert_eq!(aig_and.inputs[0], input_0);
    assert_eq!(aig_and.inputs[1], input_1);
    assert_eq!(
        aig_and.outputs[0],
        Literal::new_variable(output, Negated::False)
    );
    assert_eq!(
        aig_and.gates[0],
        Gate(
            output,
            Literal::new_variable(input_0, Negated::False),
            Literal::new_variable(input_1, Negated::False)
        )
    );
    let aig_or = Aig::from_str("aag 3 2 0 1 1\n2\n4\n7\n6 3 5").unwrap();
    let input_0 = Variable(1);
    let input_1 = Variable(2);
    let output = Variable(3);
    assert_eq!(aig_or.inputs[0], input_0);
    assert_eq!(aig_or.inputs[1], input_1);
    assert_eq!(
        aig_or.outputs[0],
        Literal::new_variable(output, Negated::True)
    );
    assert_eq!(
        aig_or.gates[0],
        Gate(
            output,
            Literal::new_variable(input_0, Negated::True),
            Literal::new_variable(input_1, Negated::True)
        )
    );
}

#[test]
fn test_read_adder() {
    let aig_adder =
        Aig::from_str("aag 7 2 0 2 3\n2\n4\n6\n12\n6 13 15\n12 2 4\n14 3 5").unwrap();
    let input_0 = Variable(1);
    let input_1 = Variable(2);
    let output_0 = Variable(3);
    let output_1 = Variable(6);
    let temp = Variable(7);
    assert_eq!(aig_adder.inputs[0], input_0);
    assert_eq!(aig_adder.inputs[1], input_1);
    assert_eq!(
        aig_adder.outputs[0],
        Literal::new_variable(output_0, Negated::False)
    );
    assert_eq!(
        aig_adder.outputs[1],
        Literal::new_variable(output_1, Negated::False)
    );
    assert_eq!(
        aig_adder.gates[0],
        Gate(
            output_0,
            Literal::new_variable(output_1, Negated::True),
            Literal::new_variable(temp, Negated::True)
        )
    );
    assert_eq!(
        aig_adder.gates[1],
        Gate(
            output_1,
            Literal::new_variable(input_0, Negated::False),
            Literal::new_variable(input_1, Negated::False),
        )
    );
    assert_eq!(
        aig_adder.gates[2],
        Gate(
            temp,
            Literal::new_variable(input_0, Negated::True),
            Literal::new_variable(input_1, Negated::True),
        )
    );
}

#[test]
fn test_read_latch() {
    let aig_latch = Aig::from_str("aag 1 0 1 2 0\n2 3\n2\n3").unwrap();
    let output = Variable(1);
    assert_eq!(
        aig_latch.latches[0],
        Latch(output, Literal::new_variable(output, Negated::True))
    );
    assert_eq!(
        aig_latch.outputs[0],
        Literal::new_variable(output, Negated::False)
    );
    assert_eq!(
        aig_latch.outputs[1],
        Literal::new_variable(output, Negated::True)
    );
}

fn read_err(text: &str) -> ReadError {
    match Aig::from_str(text) {
        Err(Error::Read(e)) => e,
        other => panic!("expected a read error, got {:?}", other),
    }
}

#[test]
fn test_read_errors() {
    assert_eq!(read_err("ab"), ReadError::MissingMagic);
    assert_eq!(read_err("xyz 0"), ReadError::UnknownMagic(b'x', b'y', b'z'));
    assert_eq!(read_err("aig 0 0 0 0 0"), ReadError::BinaryUnsupported);
    assert_eq!(
        read_err("aag 0 0 0 0"),
        ReadError::Expected { expected: b' ', found: None }
    );
    assert_eq!(read_err("aagx"), ReadError::Expected { expected: b' ', found: Some(b'x') });
    assert_eq!(read_err("aag 0 0 0 0 x"), ReadError::ExpectedDigit(Some(b'x')));
    assert_eq!(read_err("aag 1 1 0 0 0\n0"), ReadError::ConstantInput);
    assert_eq!(read_err("aag 1 1 0 0 0\n3"), ReadError::NegatedInput);
    assert_eq!(read_err("aag 1 0 1 0 0\n1 2"), ReadError::ConstantLatch);
    assert_eq!(read_err("aag 1 0 1 0 0\n3 2"), ReadError::NegatedLatch);
    assert_eq!(read_err("aag 1 0 0 0 1\n0 2 2"), ReadError::ConstantGate);
    assert_eq!(read_err("aag 1 0 0 0 1\n5 2 2"), ReadError::NegatedGate);
    assert_eq!(
        read_err("aag 2 2 0 0 0\n2"),
        ReadError::MissingInputs { target: 2, actual: 1 }
    );
    assert_eq!(
        read_err("aag 2 0 2 0 0\n2 2"),
        ReadError::MissingLatches { target: 2, actual: 1 }
    );
    assert_eq!(
        read_err("aag 2 0 0 2 0\n2"),
        ReadError::MissingOutputs { target: 2, actual: 1 }
    );
    assert_eq!(
        read_err("aag 2 0 0 0 2\n2 2 2"),
        ReadError::MissingGates { target: 2, actual: 1 }
    );
    assert_eq!(read_err("aag 0 0 0 0 0 junk"), ReadError::ExpectedBody);
    assert_eq!(
        read_err("aag 0 0 0 0 99999999999999999999999"),
        ReadError::IntegerOverflow { start: 12, end: 35 }
    );
}

fn message(text: &str) -> String {
    match Aig::from_str(text) {
        Err(e) => e.message(text),
        Ok(_) => panic!("expected an error"),
    }
}

#[test]
fn test_error_messages() {
    assert_eq!(message("ab"), r#"expected "aag" or "aig", not "ab""#);
    assert_eq!(message("xyz 0"), r#"unknown magic "xyz""#);
    assert_eq!(message("aig 0 0 0 0 0"), "binary format not yet supported");
    assert_eq!(message("aag 0 0 0 0"), "expected ' '");
    assert_eq!(message("aagx"), "expected ' ', not 'x'");
    assert_eq!(message("aag 0 0 0 0 x"), "expected digit in [0-9], not 'x'");
    assert_eq!(message("aag 0 0 0 0 "), "expected digit in [0-9], not ''");
    assert_eq!(message("aag 1 1 0 0 0\n0"), "constant input is invalid");
    assert_eq!(message("aag 1 0 1 0 0\n3 2"), "negated latch is invalid");
    assert_eq!(message("aag 2 2 0 0 0\n2"), "expected 2 inputs (found 1)");
    assert_eq!(message("aag 2 0 0 0 2\n2 2 2"), "expected 2 gates (found 1)");
    assert_eq!(message("aag 0 0 0 0 0 junk"), "expected newline followed by body");
    assert_eq!(
        message("aag 0 0 0 0 99999999999999999999999"),
        "integer overflow (99999999999999999999999 > 18446744073709551615)"
    );
    assert_eq!(Error::Write("disk full".to_string()).message(""), "disk full");
}

#[test]
fn test_trailing_bytes_are_refused_before_reading() {
    assert!(Aig::try_from_str("aag 0 0 0 1 0\n1\n2").is_none());
    assert!(Aig::try_from_str("aag 0 0 0 1 0\n1\n").is_some());
}

#[test]
fn test_carriage_return_newlines() {
    let aig = Aig::from_str("aag 1 1 0 1 0\r\n2\r\n3\r\n").unwrap();
    assert_eq!(aig.inputs, vec![Variable(1)]);
    assert_eq!(aig.outputs, vec![Literal(3)]);
}

#[test]
fn test_literal_helpers() {
    assert_eq!(Literal(7).to_variable(), Variable(3));
    assert!(Literal(7).is_negated());
    assert!(!Literal(6).is_negated());
    assert!(Literal(1).is_const());
    assert!(!Literal(2).is_const());
    assert_eq!(Literal(4).to_latch(Literal(5)), Latch(Variable(2), Literal(5)));
    assert_eq!(Literal(4).to_gate(Literal(2), Literal(3)), Gate(Variable(2), Literal(2), Literal(3)));
    assert_eq!(Literal::new_variable(Variable(5), Negated::True), Literal(11));
}

#[test]
fn test_read_decimal_round_trip() {
    for n in [0usize, 7, 10, 99, 12345, usize::MAX / 10, usize::MAX] {
        let text = n.to_string();
        let mut reader = AigReader::new(&text);
        assert_eq!(reader.read_usize().unwrap(), n);
        assert!(reader.eof());
    }
}

#[test]
fn test_read_usize_cursor() {
    let mut reader = AigReader::new("x5");
    assert!(reader.read_usize().is_err());
    assert_eq!(reader.next(), Some(b'5'));
    let mut reader = AigReader::new("0012 7");
    assert_eq!(reader.read_usize().unwrap(), 12);
    assert_eq!(reader.next(), Some(b' '));
    let mut reader = AigReader::new("");
    assert!(reader.read_usize().is_err());
    assert_eq!(reader.next(), None);
}

#[test]
fn test_crlf_reads_like_lf() {
    let lf = "aag 5 2 1 1 1\n2\n4\n6 11\n10\n10 6 4\n";
    let crlf = lf.replace('\n', "\r\n");
    assert_eq!(Aig::from_str(&crlf).unwrap(), Aig::from_str(lf).unwrap());
    assert_eq!(Aig::from_str(lf).unwrap().gates, vec![Gate(Variable(5), Literal(6), Literal(4))]);
}
