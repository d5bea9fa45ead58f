//! A client connection's pair of line buffers, and the commands a client
//! sends.
use crate::buffer::{spec_extract, BufferView, MessageBuffer};
use crate::buffer::lossy_utf8;
use crate::irc::rfc_defs::MAX_MSG_SIZE;
use vstd::prelude::*;

verus! {

/// A command from a client, with its arguments.
#[derive(Debug)]
pub enum Command {
    /// `#channel`
    Join(String),
    /// `#channel`, part message
    Part(String, Option<String>),
    /// destination (user or channel), message
    Message(String, String),
    /// the chosen nickname
    Nick(String),
    /// the chosen user name
    User(String),
    /// quit message
    Quit(String),
}

/// The two buffers of a connection.
pub struct IOView {
    pub out_buffer: BufferView,
    pub in_buffer: BufferView,
}

/// A connection's output buffer (to the client) and input buffer (from it).
pub struct IO {
    out_buffer: MessageBuffer,
    in_buffer: MessageBuffer,
}

impl View for IO {
    type V = IOView;

    closed spec fn view(&self) -> IOView {
        IOView { out_buffer: self.out_buffer@, in_buffer: self.in_buffer@ }
    }
}

impl IO {
    /// Both buffers in working order.
    pub open spec fn well_formed(v: IOView) -> bool {
        MessageBuffer::well_formed(v.out_buffer) && MessageBuffer::well_formed(v.in_buffer)
    }

    /// Two empty buffers.
    pub fn new() -> (res: IO)
        ensures
            Self::well_formed(res@),
            res@.out_buffer.index == 0,
            res@.in_buffer.index == 0,
            res@.out_buffer.data == Seq::new(MAX_MSG_SIZE as nat, |i: int| 0u8),
            res@.in_buffer.data == Seq::new(MAX_MSG_SIZE as nat, |i: int| 0u8),
    {
        IO { out_buffer: MessageBuffer::new(), in_buffer: MessageBuffer::new() }
    }

    /// Takes the first complete line out of the output buffer (or, without
    /// one, gives the text it holds; see `MessageBuffer::extract_ln`).
    pub fn end_of_line(&mut self) -> (res: Option<String>)
        requires
            Self::well_formed(old(self)@),
        ensures
            Self::well_formed(final(self)@),
            final(self)@.out_buffer == spec_extract(old(self)@.out_buffer).1,
            final(self)@.in_buffer == old(self)@.in_buffer,
            res matches Some(line) && line@ == lossy_utf8(spec_extract(old(self)@.out_buffer).0),
    {
        self.out_buffer.extract_ln()
    }
}

} // verus!
