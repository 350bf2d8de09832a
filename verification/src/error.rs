//! The one error that every operation of the library reports.
use vstd::prelude::*;
use vstd::string::*;

use crate::text::{flatten_lines, on_one_line};

verus! {

/// A failure, carried as the message that explains it.
#[derive(Debug, PartialEq, Eq)]
pub enum ConvertError {
    Wrapped(String),
}

impl View for ConvertError {
    type V = Seq<char>;

    /// The message of the error.
    open spec fn view(&self) -> Seq<char> {
        match self {
            ConvertError::Wrapped(message) => message@,
        }
    }
}

impl Clone for ConvertError {
    fn clone(&self) -> (r: Self)
        ensures
            r == *self,
    {
        match self {
            ConvertError::Wrapped(message) => ConvertError::Wrapped(message.clone()),
        }
    }
}

impl From<String> for ConvertError {
    /// The error with the given message.
    fn from(value: String) -> (e: Self) {
        ConvertError::Wrapped(value)
    }
}

impl vstd::std_specs::convert::FromSpecImpl<String> for ConvertError {
    open spec fn obeys_from_spec() -> bool {
        true
    }

    open spec fn from_spec(value: String) -> Self {
        ConvertError::Wrapped(value)
    }
}

impl ConvertError {
    /// The error for a document that does not have the expected structure.
    pub fn corrupted_docx_file() -> (e: Self)
        ensures
            e@ == "Corrupted .docx file"@,
    {
        ConvertError::Wrapped("Corrupted .docx file".to_owned())
    }

    /// The error whose message is `prefix` followed by `key`.
    pub fn with_key(prefix: &str, key: &str) -> (e: Self)
        ensures
            e@ == prefix@ + key@,
    {
        let mut message = prefix.to_owned();
        message.append(key);
        ConvertError::Wrapped(message)
    }

    /// What `to_string` shows of the error: a fixed prefix, then the message on one line.
    pub open spec fn display_text(self) -> Seq<char> {
        "Error occurred: "@ + on_one_line(self@)
    }

    /// The error as one line of text for the user.
    pub fn to_string(&self) -> (r: String)
        ensures
            r@ == self.display_text(),
    {
        let mut out = "Error occurred: ".to_owned();
        match self {
            ConvertError::Wrapped(message) => {
                let flat = flatten_lines(message.as_str());
                out.append(flat.as_str());
            },
        }
        out
    }
}

/// Whether `r` is the outcome that `expected` describes: the same value, or an error with
/// the same message.
pub open spec fn is_outcome<T: View>(r: Result<T, ConvertError>, expected: Result<T::V, Seq<char>>)
    -> bool {
    match r {
        Ok(value) => expected == Ok::<T::V, Seq<char>>(value@),
        Err(e) => expected == Err::<T::V, Seq<char>>(e@),
    }
}

} // verus!
