//! What ends a run of the engine other than by going on.

use vstd::prelude::*;
use vstd::string::*;
use crate::text::{decimal, decimal_of, string_of};

verus! {

/// The fatal outcomes of a step. Soft errors (a failed read, a bad number)
/// make the instruction pointer reflect and are not reported.
#[derive(Debug, Clone, PartialEq, Eq)]
pub enum FungeError {
    /// A value does not fit the integer it is needed in.
    Casting,
    /// An input token held no character.
    Input,
    /// The name is no Befunge version.
    Version(String),
    /// The program ended, with this exit code.
    Quit(i32),
    /// An instruction pointer found no instruction on its path.
    Stuck,
    /// Iterations were nested deeper than the engine follows.
    Nesting,
}

impl FungeError {
    /// The text of the message.
    pub open spec fn text(self) -> Seq<char> {
        match self {
            FungeError::Casting => "Could not convert from primitive."@,
            FungeError::Input => "Invalid input."@,
            FungeError::Version(v) => "Unrecognized version: "@ + v@,
            FungeError::Quit(code) => "Funge exited with return code "@ + decimal(code as int)
                + "."@,
            FungeError::Stuck => "No instruction on the path of the instruction pointer."@,
            FungeError::Nesting => "Iteration nested too deep."@,
        }
    }

    /// The message for a person.
    pub fn message(&self) -> (s: String)
        ensures
            s@ == self.text(),
    {
        match self {
            FungeError::Casting => String::from_str("Could not convert from primitive."),
            FungeError::Input => String::from_str("Invalid input."),
            FungeError::Version(v) => String::from_str("Unrecognized version: ").concat(
                v.as_str(),
            ),
            FungeError::Quit(code) => {
                let number = string_of(&decimal_of(*code as i128));
                String::from_str("Funge exited with return code ").concat(number.as_str()).concat(
                    ".",
                )
            },
            FungeError::Stuck => String::from_str(
                "No instruction on the path of the instruction pointer.",
            ),
            FungeError::Nesting => String::from_str("Iteration nested too deep."),
        }
    }
}

} // verus!
