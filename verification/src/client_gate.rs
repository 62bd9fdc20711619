//! Whether a client still takes requests. Once closed, every request is refused with a
//! `ClientClosed` error, and so is a second close; a close that could not finish reopens
//! the client so that it can be tried again.
use vstd::prelude::*;
use crate::error::{code_value, ErrorView, InnerErrorCode, MeowError};

verus! {

/// The open-or-closed state of a client.
#[derive(Debug)]
pub struct ClientGate {
    closed: bool,
}

impl View for ClientGate {
    /// Whether the client is closed.
    type V = bool;

    closed spec fn view(&self) -> bool {
        self.closed
    }
}

/// The message of the error a closed client answers with.
pub open spec fn closed_message() -> Seq<char> {
    "meow client is already closed"@
}

/// What a client in state `closed` answers to a request: nothing when open, the
/// `ClientClosed` error when closed.
pub open spec fn gate_refusal(closed: bool) -> Option<ErrorView> {
    if closed {
        Some(ErrorView { code: code_value(InnerErrorCode::ClientClosed), msg: closed_message(), source: None })
    } else {
        None
    }
}

/// Whether `r` is the answer `gate_refusal(closed)` describes.
pub open spec fn answers(r: Result<(), MeowError>, closed: bool) -> bool {
    match gate_refusal(closed) {
        None => r is Ok,
        Some(ev) => r matches Err(e) && e@ == ev,
    }
}

fn closed_error() -> (e: MeowError)
    ensures
        e@ == gate_refusal(true).unwrap(),
{
    MeowError::from_code_str(InnerErrorCode::ClientClosed, "meow client is already closed")
}

impl ClientGate {
    /// An open client.
    pub fn new() -> (g: ClientGate)
        ensures
            !g@,
    {
        ClientGate { closed: false }
    }

    pub fn is_closed(&self) -> (b: bool)
        ensures
            b == self@,
    {
        self.closed
    }

    /// Lets a request through when open; refuses it when closed.
    pub fn ensure_open(&self) -> (r: Result<(), MeowError>)
        ensures
            answers(r, self@),
    {
        if self.closed {
            Err(closed_error())
        } else {
            Ok(())
        }
    }

    /// Starts closing: an open client becomes closed; a closed one refuses.
    pub fn begin_close(&mut self) -> (r: Result<(), MeowError>)
        ensures
            final(self)@,
            answers(r, old(self)@),
    {
        if self.closed {
            Err(closed_error())
        } else {
            self.closed = true;
            Ok(())
        }
    }

    /// Undoes a close that could not finish, so that it can be tried again.
    pub fn reopen(&mut self)
        ensures
            !final(self)@,
    {
        self.closed = false;
    }
}

/// A close succeeds exactly when the client was open; after it (whatever its answer) the
/// client is closed, and a later request or close is refused with the `ClientClosed`
/// error.
pub proof fn law_close_is_final(was_closed: bool, close_answer: Result<(), MeowError>, later_answer: Result<(), MeowError>)
    requires
        answers(close_answer, was_closed),
        answers(later_answer, true),
    ensures
        close_answer is Ok <==> !was_closed,
        later_answer matches Err(e) && e@.code == code_value(InnerErrorCode::ClientClosed)
            && e@.msg == closed_message(),
{
}

} // verus!
