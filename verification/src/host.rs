//! What the engine asks of its host, and what the host answers.
//!
//! The engine reads no file, starts no process and waits for no input. An
//! instruction that needs one of these names a `Request`; the host performs
//! it and hands the `Reply` to the engine, which then runs the instruction.

use vstd::prelude::*;
use crate::text::rows;

verus! {

/// Something only the host can do.
#[derive(Debug)]
pub enum Request {
    /// Read one line of input.
    Line,
    /// Read the file of this name.
    Read(Vec<char>),
    /// Write this text (second) to the file of this name (first).
    Write(Vec<char>, Vec<char>),
    /// Run the command whose words these are, the program first.
    Run(Vec<Vec<char>>),
}

/// `Request`, as a mathematical value.
pub enum Ask {
    Line,
    Read(Seq<char>),
    Write(Seq<char>, Seq<char>),
    Run(Seq<Seq<char>>),
}

impl View for Request {
    type V = Ask;

    open spec fn view(&self) -> Ask {
        match self {
            Request::Line => Ask::Line,
            Request::Read(name) => Ask::Read(name@),
            Request::Write(name, text) => Ask::Write(name@, text@),
            Request::Run(words) => Ask::Run(rows(words@)),
        }
    }
}

/// The host's answer to a request.
#[derive(Debug)]
pub enum Reply {
    /// The line read, with its line ending; `None` at the end of input.
    Line(Option<Vec<char>>),
    /// The bytes of the file; `None` when it could not be read.
    File(Option<Vec<u8>>),
    /// Whether the file was written.
    Written(bool),
    /// The exit code of the process, where it has one, and what it wrote to
    /// its standard output; `None` when it could not be started.
    Ran(Option<(Option<i32>, Vec<u8>)>),
}

/// `Reply`, as a mathematical value.
pub enum Answer {
    Line(Option<Seq<char>>),
    File(Option<Seq<u8>>),
    Written(bool),
    Ran(Option<(Option<i32>, Seq<u8>)>),
}

impl View for Reply {
    type V = Answer;

    open spec fn view(&self) -> Answer {
        match self {
            Reply::Line(None) => Answer::Line(None),
            Reply::Line(Some(text)) => Answer::Line(Some(text@)),
            Reply::File(None) => Answer::File(None),
            Reply::File(Some(bytes)) => Answer::File(Some(bytes@)),
            Reply::Written(ok) => Answer::Written(*ok),
            Reply::Ran(None) => Answer::Ran(None),
            Reply::Ran(Some((code, out))) => Answer::Ran(Some((*code, out@))),
        }
    }
}

/// The answers of a vector of replies.
pub open spec fn answers(v: Seq<Reply>) -> Seq<Answer> {
    Seq::new(v.len(), |i: int| v[i]@)
}

fn copy_bytes(v: &Vec<u8>) -> (r: Vec<u8>)
    ensures
        r@ == v@,
{
    let mut r: Vec<u8> = Vec::new();
    let mut i: usize = 0;
    while i < v.len()
        invariant
            i <= v.len(),
            r@ == v@.take(i as int),
        decreases v.len() - i,
    {
        r.push(v[i]);
        i = i + 1;
        assert(v@.take(i as int) == v@.take(i - 1).push(v@[i - 1]));
    }
    assert(v@.take(v.len() as int) == v@);
    r
}

impl Reply {
    /// A reply that says the same.
    pub fn duplicate(&self) -> (r: Self)
        ensures
            r@ == self@,
    {
        match self {
            Reply::Line(None) => Reply::Line(None),
            Reply::Line(Some(text)) => Reply::Line(Some(crate::text::copy_chars(text))),
            Reply::File(None) => Reply::File(None),
            Reply::File(Some(bytes)) => Reply::File(Some(copy_bytes(bytes))),
            Reply::Written(ok) => Reply::Written(*ok),
            Reply::Ran(None) => Reply::Ran(None),
            Reply::Ran(Some((code, out))) => Reply::Ran(Some((*code, copy_bytes(out)))),
        }
    }
}

/// A date and a time of day.
#[derive(Clone, Copy, Debug, PartialEq, Eq, Structural)]
pub struct Moment {
    pub year: i32,
    pub month: u32,
    pub day: u32,
    pub hour: u32,
    pub minute: u32,
    pub second: u32,
}

} // verus!
