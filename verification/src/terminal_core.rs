//! Terminal error values and order request/response records.
use vstd::prelude::*;

verus! {

/// An error reported to the terminal: a machine-readable code and a message.
#[derive(Debug, Clone, PartialEq, Eq)]
pub struct TerminalError {
    code: String,
    message: String,
}

impl TerminalError {
    /// The error code.
    pub closed spec fn code_text(&self) -> Seq<char> {
        self.code@
    }

    /// The error message.
    pub closed spec fn message_text(&self) -> Seq<char> {
        self.message@
    }

    pub fn new(code: &str, message: &str) -> (r: Self)
        ensures
            r.code_text() == code@,
            r.message_text() == message@,
    {
        Self { code: code.to_owned(), message: message.to_owned() }
    }

    pub fn code(&self) -> (r: &str)
        ensures
            r@ == self.code_text(),
    {
        self.code.as_str()
    }

    pub fn message(&self) -> (r: &str)
        ensures
            r@ == self.message_text(),
    {
        self.message.as_str()
    }
}

/// Request to cancel an order of an account.
#[derive(Debug, Clone, PartialEq, Eq)]
pub struct CancelOrderRequest {
    pub account_id: String,
}

/// Outcome of an order action.
#[derive(Debug, Clone, PartialEq, Eq)]
pub struct OrderActionResult {
    pub order_id: String,
    pub status: String,
}

} // verus!
