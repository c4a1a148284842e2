//! Error types of the library.
//!
//! Infrastructure failures and integrity anomalies are carried as plain
//! descriptions; the view of an error is the description text.

use vstd::prelude::*;

verus! {

/// A general error of the library, carrying a description.
#[derive(Debug)]
pub struct Error {
    desc: String,
}

impl View for Error {
    type V = Seq<char>;

    closed spec fn view(&self) -> Seq<char> {
        self.desc@
    }
}

impl Error {
    pub fn new(desc: &str) -> (r: Error)
        ensures
            r@ == desc@,
    {
        Error { desc: desc.to_owned() }
    }

    /// The description the error was built with.
    pub fn message(&self) -> (r: &str)
        ensures
            r@ == self@,
    {
        self.desc.as_str()
    }
}

/// An error of the credential store: a failed transaction, a rejected
/// insert, or an arithmetic limit hit while aggregating.
#[derive(Debug)]
pub struct DbError {
    desc: String,
}

impl View for DbError {
    type V = Seq<char>;

    closed spec fn view(&self) -> Seq<char> {
        self.desc@
    }
}

impl DbError {
    pub fn new(desc: &str) -> (r: DbError)
        ensures
            r@ == desc@,
    {
        DbError { desc: desc.to_owned() }
    }

    /// The description the error was built with.
    pub fn message(&self) -> (r: &str)
        ensures
            r@ == self@,
    {
        self.desc.as_str()
    }
}

} // verus!
