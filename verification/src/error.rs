//! The errors of the library.
use crate::text;
use vstd::prelude::*;

verus! {

/// What went wrong, with the words that describe it.
#[derive(Debug)]
pub enum HuddleError {
    Identity(String),
    Storage(String),
    Network(String),
    Session(String),
    Serialization(String),
    Io(String),
    Other(String),
}

/// An error, as contracts speak of it.
pub enum ErrorView {
    Identity(Seq<char>),
    Storage(Seq<char>),
    Network(Seq<char>),
    Session(Seq<char>),
    Serialization(Seq<char>),
    Io(Seq<char>),
    Other(Seq<char>),
}

impl View for HuddleError {
    type V = ErrorView;

    open spec fn view(&self) -> ErrorView {
        match self {
            HuddleError::Identity(s) => ErrorView::Identity(s@),
            HuddleError::Storage(s) => ErrorView::Storage(s@),
            HuddleError::Network(s) => ErrorView::Network(s@),
            HuddleError::Session(s) => ErrorView::Session(s@),
            HuddleError::Serialization(s) => ErrorView::Serialization(s@),
            HuddleError::Io(s) => ErrorView::Io(s@),
            HuddleError::Other(s) => ErrorView::Other(s@),
        }
    }
}

impl ErrorView {
    /// The message that a user sees: the kind of error, then its words.
    pub open spec fn text(self) -> Seq<char> {
        match self {
            ErrorView::Identity(s) => "identity error: "@ + s,
            ErrorView::Storage(s) => "storage error: "@ + s,
            ErrorView::Network(s) => "network error: "@ + s,
            ErrorView::Session(s) => "session error: "@ + s,
            ErrorView::Serialization(s) => "serialization error: "@ + s,
            ErrorView::Io(s) => "io error: "@ + s,
            ErrorView::Other(s) => s,
        }
    }
}

impl HuddleError {
    /// The message that a user sees.
    pub fn message(&self) -> (r: String)
        ensures
            r@ == self@.text(),
    {
        match self {
            HuddleError::Identity(s) => text::join2("identity error: ", s.as_str()),
            HuddleError::Storage(s) => text::join2("storage error: ", s.as_str()),
            HuddleError::Network(s) => text::join2("network error: ", s.as_str()),
            HuddleError::Session(s) => text::join2("session error: ", s.as_str()),
            HuddleError::Serialization(s) => text::join2("serialization error: ", s.as_str()),
            HuddleError::Io(s) => text::join2("io error: ", s.as_str()),
            HuddleError::Other(s) => s.clone(),
        }
    }
}

/// `HuddleError::Session` with these words.
pub fn session_error(words: &str) -> (r: HuddleError)
    ensures
        r@ == ErrorView::Session(words@),
{
    HuddleError::Session(text::owned(words))
}

/// `HuddleError::Other` with these words.
pub fn other_error(words: &str) -> (r: HuddleError)
    ensures
        r@ == ErrorView::Other(words@),
{
    HuddleError::Other(text::owned(words))
}

/// A result by its view: what it holds by its view, or the error by its view.
pub open spec fn result_view<T: View>(r: Result<T, HuddleError>) -> Result<T::V, ErrorView> {
    match r {
        Ok(v) => Ok(v@),
        Err(e) => Err(e@),
    }
}

} // verus!
