//! BLIF errors and source locations.

use crate::text::{append_decimal, decimal, str_eq};
use vstd::prelude::*;
use vstd::string::StringExecFns;

verus! {

/// A BLIF parsing error.
#[derive(Clone, Debug, PartialEq)]
pub enum ParseError {
    Unknown(String),
}

/// Generic, known and unknown file names.
#[derive(Clone, Debug, PartialEq, Eq)]
pub enum Filename {
    /// A generic file name, expected to be a valid path (see [`Filename::get_path`]).
    Generic(String),
    /// Standard input.
    Stdin,
    /// An unknown source.
    Unknown,
    /// A test.
    Test,
}

/// A location in BLIF text.
#[derive(Clone, Debug, PartialEq, Eq)]
pub struct SourceLocation {
    /// The source file name.
    pub filename: Filename,
    /// 1-based line number.
    pub line: usize,
    /// 1-based column offset.
    pub column: usize,
}

/// A BLIF parsing error, with the location where it was found.
#[derive(Clone, Debug, PartialEq)]
pub struct TaggedParseError {
    pub error: ParseError,
    pub location: SourceLocation,
}

/// A BLIF error.
#[derive(Debug, PartialEq)]
pub enum Error {
    Parse(TaggedParseError),
    /// An I/O error, by its message.
    IO(String),
    Unknown(String),
}

impl Default for Filename {
    fn default() -> (r: Self)
        ensures
            r == Filename::Unknown,
    {
        Filename::Unknown
    }
}

/// The file name that a given name stands for.
pub open spec fn filename_of(name: String) -> Filename {
    if name@ == "-"@ || name@ == "<stdin>"@ {
        Filename::Stdin
    } else if name@ == "<unknown>"@ {
        Filename::Unknown
    } else {
        Filename::Generic(name)
    }
}

/// `f` is the file name that the text `name` stands for.
pub open spec fn names_file(name: Seq<char>, f: Filename) -> bool {
    if name == "-"@ || name == "<stdin>"@ {
        f == Filename::Stdin
    } else if name == "<unknown>"@ {
        f == Filename::Unknown
    } else {
        f matches Filename::Generic(s) && s@ == name
    }
}

/// `f` is the file name for an optional file name text: unknown if there is none.
pub open spec fn names_file_opt(name: Option<&str>, f: Filename) -> bool {
    match name {
        Some(n) => names_file(n@, f),
        None => f == Filename::Unknown,
    }
}

/// Two file names are the same: of the same kind, with the same text.
pub open spec fn same_filename(a: Filename, b: Filename) -> bool {
    match (a, b) {
        (Filename::Generic(x), Filename::Generic(y)) => x@ == y@,
        _ => a == b,
    }
}

impl Filename {
    /// A copy of the file name.
    pub fn copy(&self) -> (r: Self)
        ensures
            same_filename(r, *self),
    {
        match self {
            Filename::Generic(f) => Filename::Generic(f.clone()),
            Filename::Stdin => Filename::Stdin,
            Filename::Unknown => Filename::Unknown,
            Filename::Test => Filename::Test,
        }
    }

    /// The file name as a path (given by its text), if it is a generic file
    /// name.
    pub fn get_path(&self) -> (r: Option<&str>)
        ensures
            self matches Filename::Generic(f) ==> (r matches Some(p) && p@ == f@),
            !(self is Generic) ==> r is None,
    {
        match self {
            Filename::Generic(filename) => Some(filename.as_str()),
            _ => None,
        }
    }

    /// The file name that `filename` stands for: `-` and `<stdin>` stand
    /// for standard input, `<unknown>` for an unknown source.
    pub fn from_string(filename: String) -> (r: Self)
        ensures
            r == filename_of(filename),
    {
        if str_eq(filename.as_str(), "-") || str_eq(filename.as_str(), "<stdin>") {
            Filename::Stdin
        } else if str_eq(filename.as_str(), "<unknown>") {
            Filename::Unknown
        } else {
            Filename::Generic(filename)
        }
    }

    /// The file name that `filename` stands for, unknown if there is none.
    pub fn from_option(filename: Option<String>) -> (r: Self)
        ensures
            filename matches Some(f) ==> r == filename_of(f),
            filename is None ==> r == Filename::Unknown,
    {
        match filename {
            Some(f) => Self::from_string(f),
            None => Filename::Unknown,
        }
    }
}

/// A white-space character: one with the Unicode `White_Space` property,
/// as `char::is_whitespace` documents it.
pub open spec fn white_space(c: char) -> bool {
    ||| '\u{9}' <= c <= '\u{d}'
    ||| c == ' '
    ||| c == '\u{85}'
    ||| c == '\u{a0}'
    ||| c == '\u{1680}'
    ||| '\u{2000}' <= c <= '\u{200a}'
    ||| c == '\u{2028}'
    ||| c == '\u{2029}'
    ||| c == '\u{202f}'
    ||| c == '\u{205f}'
    ||| c == '\u{3000}'
}

/// Whether `c` is a white-space character (see [`white_space`]).
pub fn is_white_space(c: char) -> (r: bool)
    ensures
        r == white_space(c),
{
    ('\u{9}' <= c && c <= '\u{d}') || c == ' ' || c == '\u{85}' || c == '\u{a0}' || c
        == '\u{1680}' || ('\u{2000}' <= c && c <= '\u{200a}') || c == '\u{2028}' || c
        == '\u{2029}' || c == '\u{202f}' || c == '\u{205f}' || c == '\u{3000}'
}

/// How a file name is shown: a generic name as it is, in double quotes if
/// it holds white space; the others by a name in angle brackets.
pub open spec fn filename_text(f: Filename) -> Seq<char> {
    match f {
        Filename::Generic(s) => if exists|i: int| 0 <= i < s@.len() && white_space(#[trigger] s@[i]) {
            seq!['"'] + s@ + seq!['"']
        } else {
            s@
        },
        Filename::Stdin => "<stdin>"@,
        Filename::Unknown => "<unknown>"@,
        Filename::Test => "<test>"@,
    }
}

/// How a location is shown: `file:line:column`.
pub open spec fn location_text(l: SourceLocation) -> Seq<char> {
    filename_text(l.filename) + seq![':'] + decimal(l.line as nat) + seq![':'] + decimal(
        l.column as nat,
    )
}

impl Filename {
    /// The file name as it is shown (see [`filename_text`]).
    pub fn display(&self) -> (r: String)
        ensures
            r@ == filename_text(*self),
    {
        match self {
            Filename::Generic(filename) => {
                let mut quoted = false;
                for c in it: filename.as_str().chars()
                    invariant
                        it.seq() == filename@,
                        quoted == exists|i: int| 0 <= i < it.index() && white_space(#[trigger] filename@[i]),
                    ensures
                        quoted == exists|i: int| 0 <= i < filename@.len() && white_space(#[trigger] filename@[i]),
                {
                    proof {
                        assert(c == filename@[it.index() as int]);
                    }
                    if is_white_space(c) {
                        quoted = true;
                    }
                }
                if quoted {
                    let q = "\"";
                    proof {
                        reveal_strlit("\"");
                        assert(q@ =~= seq!['"']);
                    }
                    let mut r = String::from_str(q);
                    r.append(filename.as_str());
                    r.append(q);
                    r
                } else {
                    filename.clone()
                }
            },
            Filename::Stdin => {
                let r = "<stdin>";
                r.to_owned()
            },
            Filename::Unknown => {
                let r = "<unknown>";
                r.to_owned()
            },
            Filename::Test => {
                let r = "<test>";
                r.to_owned()
            },
        }
    }
}

impl SourceLocation {
    /// The location as it is shown (see [`location_text`]).
    pub fn display(&self) -> (r: String)
        ensures
            r@ == location_text(*self),
    {
        let colon = ":";
        proof {
            reveal_strlit(":");
            assert(colon@ =~= seq![':']);
        }
        let mut r = self.filename.display();
        r.append(colon);
        append_decimal(&mut r, self.line);
        r.append(colon);
        append_decimal(&mut r, self.column);
        r
    }
}

impl Error {
    /// A parsing error found at `location`.
    pub fn new_parse(err: ParseError, location: SourceLocation) -> (r: Self)
        ensures
            r == Error::Parse(TaggedParseError { error: err, location }),
    {
        Error::Parse(TaggedParseError { error: err, location })
    }
}

/// Tags a parsing result with a location.
pub fn location<T>(r: Result<T, ParseError>, loc: SourceLocation) -> (out: Result<T, Error>)
    ensures
        r matches Ok(v) ==> out == Ok::<T, Error>(v),
        r matches Err(e) ==> out == Err::<T, Error>(
            Error::Parse(TaggedParseError { error: e, location: loc }),
        ),
{
    match r {
        Ok(v) => Ok(v),
        Err(e) => Err(Error::new_parse(e, loc)),
    }
}

} // verus!
