//! The wire protocol: one command per text line, fields separated by `:`.

pub mod command;

pub use command::{Command, CommandView, ParseError};
