//! The failures that a provider reports.
use crate::text::join;
use vstd::prelude::*;
use vstd::string::*;

verus! {

/// A provider failure.
#[derive(Debug)]
pub enum Error {
    /// A request or an input that cannot be served, with the reason.
    Msg(String),
    /// A surface that the provider refuses rather than silently drops.
    Unsupported(String),
    /// The run was cancelled.
    Canceled,
}

impl Error {
    /// The error carries the message `text`.
    pub open spec fn says(&self, text: Seq<char>) -> bool {
        self matches Error::Msg(m) && m@ == text
    }

    /// The error refuses a surface with the message `text`.
    pub open spec fn refuses(&self, text: Seq<char>) -> bool {
        self matches Error::Unsupported(m) && m@ == text
    }

    pub open spec fn text(&self) -> Seq<char> {
        match *self {
            Error::Msg(m) => m@,
            Error::Unsupported(m) => "unsupported: "@ + m@,
            Error::Canceled => "canceled"@,
        }
    }

    /// The error in words.
    pub fn message(&self) -> (r: String)
        ensures
            r@ == self.text(),
    {
        match self {
            Error::Msg(m) => m.clone(),
            Error::Unsupported(m) => join("unsupported: ", m.as_str()),
            Error::Canceled => String::from_str("canceled"),
        }
    }
}

} // verus!
