//! Errors of the protocol layer.
use vstd::prelude::*;

verus! {

/// What can go wrong while handling a message.
#[derive(Debug)]
pub enum Error {
    /// The message does not follow the grammar.
    ParseError,
    /// The name is already taken.
    HashCollision,
    /// The command is not one that the server knows.
    UnknownCommand(String),
    /// The user is not on the channel.
    NotOnChannel(String),
    /// The user may not send to the channel.
    CannotSendToChan(String),
}

/// The mathematical value of an error: its variant and the text it carries.
pub enum ErrorView {
    ParseError,
    HashCollision,
    UnknownCommand(Seq<char>),
    NotOnChannel(Seq<char>),
    CannotSendToChan(Seq<char>),
}

impl View for Error {
    type V = ErrorView;

    open spec fn view(&self) -> ErrorView {
        match self {
            Error::ParseError => ErrorView::ParseError,
            Error::HashCollision => ErrorView::HashCollision,
            Error::UnknownCommand(s) => ErrorView::UnknownCommand(s@),
            Error::NotOnChannel(s) => ErrorView::NotOnChannel(s@),
            Error::CannotSendToChan(s) => ErrorView::CannotSendToChan(s@),
        }
    }
}

impl PartialEq for Error {
    fn eq(&self, other: &Self) -> (res: bool) {
        match self {
            Error::ParseError => match other {
                Error::ParseError => true,
                _ => false,
            },
            Error::HashCollision => match other {
                Error::HashCollision => true,
                _ => false,
            },
            Error::UnknownCommand(a) => match other {
                Error::UnknownCommand(b) => *a == *b,
                _ => false,
            },
            Error::NotOnChannel(a) => match other {
                Error::NotOnChannel(b) => *a == *b,
                _ => false,
            },
            Error::CannotSendToChan(a) => match other {
                Error::CannotSendToChan(b) => *a == *b,
                _ => false,
            },
        }
    }
}

impl vstd::std_specs::cmp::PartialEqSpecImpl for Error {
    open spec fn obeys_eq_spec() -> bool {
        true
    }

    open spec fn eq_spec(&self, other: &Self) -> bool {
        self@ == other@
    }
}

} // verus!
