//! Errors reported while reading a program.

use vstd::prelude::*;

use crate::text::{decimal, push_decimal};

verus! {

/// An I/O failure of the input or output stream, carried through unchanged.
#[verifier::external_type_specification]
#[verifier::external_body]
pub struct ExIoError(std::io::Error);

/// A program whose brackets do not pair up.
#[derive(Debug, Clone, Copy, PartialEq, Eq, Structural)]
pub enum SyntaxError {
    /// A `]` at `position` (a token index) closes no open `[`.
    UnmatchedLoopRightBracket { position: usize },
    /// The `[` at `position` (a token index), the first of the brackets that
    /// are still open at the end of the program, is never closed.
    UnmatchedLoopLeftBracket { position: usize },
}

/// What can stop a program; its pointer message reads "will go out out of
/// bounds".
#[derive(Debug)]
pub enum RuntimeError {
    /// `<` at cell 0 or `>` past the last cell.
    MemoryPointerOutOfBounds { pc: usize, pointer: usize },
    /// Memory access outside the tape.
    MemoryAccessOutOfBounds { cell: usize, tape_size: usize },
    /// Program counter outside the program.
    InstructionFetch { pc: usize },
    /// I/O failure on the input or output stream.
    Io(std::io::Error),
}

impl RuntimeError {
    /// The error's message.
    pub fn to_string(&self) -> (s: String)
        ensures
            match self {
                RuntimeError::MemoryPointerOutOfBounds { pc, pointer } => s@ == "memory pointer "@
                    + decimal(*pointer as nat) + " will go out out of bounds at pc="@ + decimal(*pc as nat),
                RuntimeError::MemoryAccessOutOfBounds { cell, tape_size } => s@
                    == "memory access at cell="@ + decimal(*cell as nat) + " while tape size is "@
                    + decimal(*tape_size as nat),
                RuntimeError::InstructionFetch { pc } => s@ == "failed to fetch instruction at pc="@
                    + decimal(*pc as nat),
                RuntimeError::Io(e) => exists|t: String|
                    vstd::string::to_string_from_display_ensures::<std::io::Error>(e, t) && s@
                        == "io error: "@ + t@,
            },
    {
        match self {
            RuntimeError::MemoryPointerOutOfBounds { pc, pointer } => {
                let mut s = String::from_str("memory pointer ");
                push_decimal(&mut s, *pointer);
                s.append(" will go out out of bounds at pc=");
                push_decimal(&mut s, *pc);
                s
            },
            RuntimeError::MemoryAccessOutOfBounds { cell, tape_size } => {
                let mut s = String::from_str("memory access at cell=");
                push_decimal(&mut s, *cell);
                s.append(" while tape size is ");
                push_decimal(&mut s, *tape_size);
                s
            },
            RuntimeError::InstructionFetch { pc } => {
                let mut s = String::from_str("failed to fetch instruction at pc=");
                push_decimal(&mut s, *pc);
                s
            },
            RuntimeError::Io(e) => {
                let t = e.to_string();
                let mut s = String::from_str("io error: ");
                s.append(t.as_str());
                s
            },
        }
    }

    /// The I/O error underneath, for an I/O failure.
    pub fn source(&self) -> (r: Option<&std::io::Error>)
        ensures
            match self {
                RuntimeError::Io(e) => r == Some(e),
                _ => r is None,
            },
    {
        match self {
            RuntimeError::Io(e) => Some(e),
            _ => None,
        }
    }
}


} // verus!
