//! The decisions of the command-line front end: command names and the
//! checks made on file names before any tool runs.

use crate::text::str_eq;
use vstd::prelude::*;

verus! {

/// Why a design-entry command could not run.
#[derive(Debug, PartialEq)]
pub enum DesignEntryError {
    /// The input file does not exist.
    FileNotFound(String),
    /// The input file's format could not be guessed.
    UnknownFileFormat,
    /// Reading from or writing to a pipe (`-`) needs tools that read from
    /// memory.
    RequiresAbcYosysReadString,
}

/// The design-entry subcommands.
#[derive(Debug, PartialEq)]
pub enum DesignEntryCommand {
    Check { input_filename: String },
    LutMap { input_filename: String, output_filename: Option<String>, k_lut: usize },
}

impl DesignEntryCommand {
    /// The name the subcommand is invoked by.
    pub fn name(&self) -> (r: &'static str)
        ensures
            self is Check ==> r@ == "check"@,
            self is LutMap ==> r@ == "lutmap"@,
    {
        match self {
            DesignEntryCommand::Check { .. } => "check",
            DesignEntryCommand::LutMap { .. } => "lutmap",
        }
    }
}

/// The top-level commands.
#[derive(Debug, PartialEq)]
pub enum Command {
    DesignEntry { command: DesignEntryCommand },
}

impl Command {
    /// The name the command is invoked by.
    pub fn name(&self) -> (r: &'static str)
        ensures
            r@ == "design-entry"@,
    {
        match self {
            Command::DesignEntry { .. } => "design-entry",
        }
    }
}

/// Refuses the file name `-`, which stands for a pipe.
pub fn check_file_is_not_pipe(filename: Option<&str>) -> (r: Result<(), DesignEntryError>)
    ensures
        (filename matches Some(f) && f@ == "-"@) ==> r == Err::<(), DesignEntryError>(
            DesignEntryError::RequiresAbcYosysReadString,
        ),
        !(filename matches Some(f) && f@ == "-"@) ==> r is Ok,
{
    match filename {
        Some(f) => {
            if str_eq(f, "-") {
                Err(DesignEntryError::RequiresAbcYosysReadString)
            } else {
                Ok(())
            }
        },
        None => Ok(()),
    }
}

/// The output file name of `lutmap`: the one given, or `-` (standard output).
pub fn lutmap_output_filename(output_filename: &Option<String>) -> (r: String)
    ensures
        output_filename matches Some(f) ==> r@ == f@,
        output_filename is None ==> r@ == "-"@,
{
    match output_filename {
        Some(f) => f.clone(),
        None => "-".to_owned(),
    }
}

} // verus!
