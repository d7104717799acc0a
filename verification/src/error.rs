//! The one error type of the crate.

use vstd::prelude::*;

verus! {

/// What can go wrong between asking the exchange for a page and handing out a
/// trade.
#[derive(Debug, PartialEq, Eq)]
pub enum Error {
    /// The exchange answered, and its `error` list was not empty: the
    /// messages, in the order they were sent.
    KrakenError(Vec<String>),
    /// The request never got an answer: connection, DNS or timeout.
    APIError(String),
    /// The body was not JSON, or not of the expected shape.
    JSONError(String),
    /// A field that has to be a number was not one.
    ParseError(String),
}

/// An [`Error`] as a mathematical value.
pub enum ErrorView {
    Kraken(Seq<Seq<char>>),
    Api(Seq<char>),
    Json(Seq<char>),
    Parse(Seq<char>),
}

/// The texts of a sequence of strings.
pub open spec fn texts(v: Seq<String>) -> Seq<Seq<char>> {
    Seq::new(v.len(), |i: int| v[i]@)
}

impl View for Error {
    type V = ErrorView;

    open spec fn view(&self) -> ErrorView {
        match self {
            Error::KrakenError(messages) => ErrorView::Kraken(texts(messages@)),
            Error::APIError(message) => ErrorView::Api(message@),
            Error::JSONError(message) => ErrorView::Json(message@),
            Error::ParseError(message) => ErrorView::Parse(message@),
        }
    }
}

/// A copy of a list of strings.
pub fn clone_strings(v: &Vec<String>) -> (r: Vec<String>)
    ensures
        texts(r@) == texts(v@),
{
    let mut r: Vec<String> = Vec::new();
    let mut i: usize = 0;
    while i < v.len()
        invariant
            i <= v.len(),
            r.len() == i,
            forall|j: int| 0 <= j < i ==> r[j]@ == v[j]@,
        decreases v.len() - i,
    {
        r.push(v[i].clone());
        i += 1;
    }
    assert(texts(r@) =~= texts(v@));
    r
}

impl Clone for Error {
    fn clone(&self) -> (r: Self)
        ensures
            r@ == self@,
    {
        match self {
            Error::KrakenError(messages) => Error::KrakenError(clone_strings(messages)),
            Error::APIError(message) => Error::APIError(message.clone()),
            Error::JSONError(message) => Error::JSONError(message.clone()),
            Error::ParseError(message) => Error::ParseError(message.clone()),
        }
    }
}

impl Error {
    /// The line shown to a user for any error of this crate.
    pub fn to_string(&self) -> (r: String)
        ensures
            r@ == "Library error"@,
    {
        String::from_str("Library error")
    }
}

} // verus!
