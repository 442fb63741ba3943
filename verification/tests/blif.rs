use vts::blif::buffer::{BlifBuffer, BytePos, Span};
use vts::blif::command::Command;
use vts::blif::error::{Error, Filename, SourceLocation};
use vts::blif::reader::{BlifEvents, BlifReader};
use vts::blif::token::{Token, TokenKind, Tokenizer};

const NETLIST: &str = ".model top\n.inputs a b c\n.outputs d\n.names a b c d\n000 1\n.end\n";

fn test_buffer(contents: &str) -> BlifBuffer {
    let mut buffer = BlifBuffer::new_str(contents);
    buffer.filename = Filename::Test;
    buffer
}

fn check_loc(buffer: &BlifBuffer, pos: usize, line: usize, column: usize) {
    assert_eq!(
        buffer.calculate_location(BytePos(pos)),
        SourceLocation { line, column, filename: Filename::Test }
    );
}

fn span(start: usize, end: usize) -> Span {
    Span { start: BytePos(start), end: BytePos(end) }
}

fn tokens(buffer: &BlifBuffer) -> Vec<Token> {
    let mut tokenizer = Tokenizer::new_preprocess(buffer);
    let mut out = Vec::new();
    while let Some(token) = tokenizer.next() {
        out.push(token.unwrap());
    }
    out
}

#[test]
fn test_calculate_location() {
    let buffer = test_buffer(NETLIST);
    check_loc(&buffer, 0, 1, 1);
    check_loc(&buffer, 9, 1, 10);
    check_loc(&buffer, 10, 1, 11);
    check_loc(&buffer, 11, 2, 1);
    check_loc(&buffer, 25, 3, 1);
    assert_eq!(buffer.len(), 62);
    check_loc(&buffer, 60, 6, 4);

    let buffer = test_buffer("\na");
    check_loc(&buffer, 0, 1, 1);
    check_loc(&buffer, 1, 2, 1);
}

#[test]
fn test_filename_from_string() {
    assert_eq!(Filename::from_string("-".to_string()), Filename::Stdin);
    assert_eq!(Filename::from_string("<stdin>".to_string()), Filename::Stdin);
    assert_eq!(Filename::from_string("<unknown>".to_string()), Filename::Unknown);
    assert_eq!(
        Filename::from_string("top.blif".to_string()),
        Filename::Generic("top.blif".to_string())
    );
    assert_eq!(Filename::from_option(None), Filename::Unknown);
    assert_eq!(Filename::Generic("a.blif".to_string()).get_path(), Some("a.blif"));
    assert_eq!(Filename::Stdin.get_path(), None);
    assert_eq!(Filename::default(), Filename::Unknown);
}

#[test]
fn test_tokenize_netlist() {
    let buffer = test_buffer(NETLIST);
    let tokens = tokens(&buffer);
    let kinds: Vec<TokenKind> = tokens.iter().map(|t| t.kind).collect();
    assert_eq!(
        kinds,
        vec![
            TokenKind::Command,
            TokenKind::Command,
            TokenKind::Command,
            TokenKind::Command,
            TokenKind::Cube,
            TokenKind::Command,
        ]
    );
    assert_eq!(tokens[0].trivia, vec![span(0, 6), span(7, 10)]);
    assert_eq!(tokens[0].extent, span(0, 10));
    assert_eq!(tokens[4].trivia, vec![span(51, 54), span(55, 56)]);
    assert_eq!(tokens[5].trivia, vec![span(57, 61)]);
}

#[test]
fn test_tokenize_skips_comments() {
    let buffer = test_buffer("# a comment\n.end\n");
    let tokens = tokens(&buffer);
    assert_eq!(tokens.len(), 1);
    assert_eq!(tokens[0].kind, TokenKind::Command);
    assert_eq!(tokens[0].trivia, vec![span(12, 16)]);
}

#[test]
fn test_parse_commands() {
    let buffer = test_buffer(NETLIST);
    let tokens = tokens(&buffer);
    match Command::parse_trivia(&tokens[0].trivia, &buffer).unwrap() {
        Command::Model { name, span: s } => {
            assert_eq!(name, Some(span(7, 10)));
            assert_eq!(s, span(0, 10));
        }
        other => panic!("not a model: {:?}", other),
    }
    match Command::parse_trivia(&tokens[1].trivia, &buffer).unwrap() {
        Command::Inputs { inputs, .. } => {
            assert_eq!(inputs, vec![span(19, 20), span(21, 22), span(23, 24)]);
        }
        other => panic!("not inputs: {:?}", other),
    }
    match Command::parse_trivia(&tokens[3].trivia, &buffer).unwrap() {
        Command::Names { inputs, output, .. } => {
            assert_eq!(inputs, vec![span(43, 44), span(45, 46), span(47, 48)]);
            assert_eq!(output, span(49, 50));
        }
        other => panic!("not names: {:?}", other),
    }
    let end = Command::parse_trivia(&tokens[5].trivia, &buffer).unwrap();
    assert_eq!(end, Command::End { span: span(57, 61) });
    assert_eq!(end.span(), &span(57, 61));
}

#[derive(Default)]
struct Recorder {
    model: Option<String>,
    inputs: Vec<String>,
    outputs: Vec<String>,
}

impl<'a, 'tok> BlifEvents<'a, 'tok> for Recorder {
    fn model(&mut self, name: Option<&'a str>, _token: &'tok Token) -> Result<(), Error> {
        self.model = name.map(str::to_string);
        Ok(())
    }

    fn inputs(&mut self, inputs: &[&'a str], _token: &'tok Token) -> Result<(), Error> {
        self.inputs = inputs.iter().map(|s| s.to_string()).collect();
        Ok(())
    }

    fn outputs(&mut self, outputs: &[&'a str], _token: &'tok Token) -> Result<(), Error> {
        self.outputs = outputs.iter().map(|s| s.to_string()).collect();
        Ok(())
    }
}

#[test]
fn test_reader_hands_names_to_events() {
    let reader = BlifReader::from_str(NETLIST, Some("top.blif"));
    let tokens = tokens(reader.buffer());
    let mut recorder = Recorder::default();
    for token in &tokens {
        reader.parse_token(token, &mut recorder).unwrap();
    }
    assert_eq!(recorder.model.as_deref(), Some("top"));
    assert_eq!(recorder.inputs, vec!["a", "b", "c"]);
    assert_eq!(recorder.outputs, vec!["d"]);
    assert_eq!(
        reader.buffer().filename,
        Filename::Generic("top.blif".to_string())
    );
}

#[test]
fn test_reader_without_events() {
    let reader = BlifReader::from_reader(NETLIST.as_bytes().to_vec(), Some("-"));
    let tokens = tokens(reader.buffer());
    for token in &tokens {
        assert!(reader.parse_token(token, &mut ()).is_ok());
    }
    assert_eq!(reader.buffer().filename, Filename::Stdin);
    assert_eq!(reader.buffer().len(), 62);
}

#[test]
fn test_display_locations() {
    assert_eq!(Filename::Generic("top.blif".to_string()).display(), "top.blif");
    assert_eq!(Filename::Generic("my top.blif".to_string()).display(), "\"my top.blif\"");
    assert_eq!(Filename::Generic("tab\there".to_string()).display(), "\"tab\there\"");
    assert_eq!(Filename::Stdin.display(), "<stdin>");
    assert_eq!(Filename::Unknown.display(), "<unknown>");
    let loc = SourceLocation { filename: Filename::Test, line: 3, column: 14 };
    assert_eq!(loc.display(), "<test>:3:14");
    let loc = SourceLocation { filename: Filename::Stdin, line: 1207, column: 0 };
    assert_eq!(loc.display(), "<stdin>:1207:0");
    let buffer = test_buffer(NETLIST);
    assert_eq!(buffer.calculate_location(BytePos(60)).display(), "<test>:6:4");
}

#[test]
fn test_parse_subckt_assignments() {
    let buffer = test_buffer(".subckt sub a=x bb=yy\n");
    let tokens = tokens(&buffer);
    match Command::parse_trivia(&tokens[0].trivia, &buffer).unwrap() {
        Command::Subckt { name, formal_actual, span: s } => {
            assert_eq!(buffer.view(name), b"sub");
            assert_eq!(formal_actual.len(), 2);
            assert_eq!(buffer.view(formal_actual[0].lvalue), b"a");
            assert_eq!(buffer.view(formal_actual[0].rvalue), b"x");
            assert_eq!(buffer.view(formal_actual[1].lvalue), b"bb");
            assert_eq!(buffer.view(formal_actual[1].rvalue), b"yy");
            assert_eq!(s, span(0, 21));
        }
        other => panic!("not a subckt: {:?}", other),
    }
}
