//! The errors that compiling option definitions and matching arguments can raise.

use vstd::prelude::*;
use vstd::string::*;

verus! {

/// The reason for which a call was given up.
#[derive(Clone, Copy, Debug, PartialEq, Eq, Structural)]
pub enum ErrorKind {
    /// An argument names an option that was never defined.
    InvalidArgument,
    /// An option lacks its value, or a required argument was never given.
    MissingArgument,
    /// An option definition contradicts itself.
    OptionFormat,
    /// A bare argument was given after every required argument had its value.
    ExtraArgument,
}

impl ErrorKind {
    /// The sentence that opens the message of an error of this kind.
    pub open spec fn text(self) -> Seq<char> {
        match self {
            ErrorKind::InvalidArgument => "An invalid option was passed to the program:"@,
            ErrorKind::MissingArgument => "A required argument is missing:"@,
            ErrorKind::OptionFormat => "An option was defined in the wrong format:"@,
            ErrorKind::ExtraArgument => "An unexpected argument was passed to the program:"@,
        }
    }

    pub fn description(&self) -> (text: String)
        ensures
            text@ == self.text(),
    {
        match *self {
            ErrorKind::InvalidArgument => String::from_str(
                "An invalid option was passed to the program:",
            ),
            ErrorKind::MissingArgument => String::from_str("A required argument is missing:"),
            ErrorKind::OptionFormat => String::from_str(
                "An option was defined in the wrong format:",
            ),
            ErrorKind::ExtraArgument => String::from_str(
                "An unexpected argument was passed to the program:",
            ),
        }
    }
}

/// What an [`Error`] stands for: its kind and the name or text that caused it.
pub struct Failure {
    pub kind: ErrorKind,
    pub offender: Seq<char>,
}

impl Failure {
    /// The message shown for this failure: the kind's sentence, a space, the offender.
    pub open spec fn message(self) -> Seq<char> {
        self.kind.text() + " "@ + self.offender
    }
}

/// A failure together with its readable message.
#[derive(Debug)]
pub struct Error {
    kind: ErrorKind,
    offender: String,
    desc: String,
}

impl View for Error {
    type V = Failure;

    closed spec fn view(&self) -> Failure {
        Failure { kind: self.kind, offender: self.offender@ }
    }
}

impl Error {
    #[verifier::type_invariant]
    spec fn message_is_current(&self) -> bool {
        self.desc@ == self@.message()
    }

    pub fn new(kind: ErrorKind, offender: String) -> (error: Error)
        ensures
            error@ == (Failure { kind, offender: offender@ }),
    {
        let mut desc = kind.description();
        desc.append(" ");
        desc.append(offender.as_str());
        Error { kind, offender, desc }
    }

    pub fn kind(&self) -> (kind: ErrorKind)
        ensures
            kind == self@.kind,
    {
        self.kind
    }

    pub fn offender(&self) -> (offender: &str)
        ensures
            offender@ == self@.offender,
    {
        self.offender.as_str()
    }

    /// The whole message, as [`Failure::message`] spells it.
    pub fn description(&self) -> (message: &str)
        ensures
            message@ == self@.message(),
    {
        proof {
            use_type_invariant(self);
        }
        self.desc.as_str()
    }
}

} // verus!
