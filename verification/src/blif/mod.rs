//! A reader for the Berkeley Logic Interchange Format (BLIF).

pub mod buffer;
pub mod command;
pub mod error;
pub mod reader;
pub mod scanner;
pub mod token;
