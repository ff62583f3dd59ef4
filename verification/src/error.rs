use vstd::prelude::*;

verus! {

/// A lexical error with the place it was found.
#[derive(Clone, PartialEq, Debug)]
pub struct Error {
    pub kind: ErrorKind,
}

impl Error {
    pub fn new(kind: ErrorKind) -> (e: Error)
        ensures
            e.kind == kind,
    {
        Error { kind }
    }
}

/// A source position: a 1-based line and the index of the offending
/// character.
#[derive(Clone, Copy, PartialEq, Eq, Structural, Debug)]
pub struct Position {
    pub line: usize,
    pub char: usize,
}

impl Position {
    pub fn new(line: usize, char: usize) -> (p: Position)
        ensures
            p == (Position { line, char }),
    {
        Position { line, char }
    }
}

#[derive(Clone, Copy, PartialEq, Eq, Structural, Debug)]
pub enum ErrorKind {
    UnterminatedComment(Position),
    UnterminatedString(Position),
    UnexpectedCharacter(Position),
}

} // verus!
