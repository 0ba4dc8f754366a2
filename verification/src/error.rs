//! The errors of the store.

use vstd::prelude::*;
use vstd::std_specs::convert::FromSpecImpl;

verus! {

/// `serde_json::Error`, carried as it is: nothing is known of what it holds.
#[verifier::external_type_specification]
#[verifier::external_body]
pub struct ExJsonError(serde_json::Error);

/// `std::io::Error`, carried as it is: nothing is known of what it holds.
#[verifier::external_type_specification]
#[verifier::external_body]
pub struct ExIoError(std::io::Error);

/// What can go wrong in an operation on the store.
#[derive(Debug)]
pub enum KvsErrors {
    /// The key is not in the store. An expected outcome of `remove`.
    KeyNotFound(),
    /// A record could not be written as text, or a line of the log is the
    /// text of no record.
    Serde(serde_json::Error),
    /// The log could not be opened, read or appended to.
    IO(std::io::Error),
    /// Anything else.
    GeneralError,
}

/// The result of an operation on the store.
pub type KvsResult<T> = Result<T, KvsErrors>;

/// `serde::de::Error::custom` for `serde_json::Error`: an error of that crate
/// that carries `msg`. Nothing is claimed of it.
#[verifier::external_body]
pub(crate) fn malformed(msg: &str) -> (e: serde_json::Error) {
    <serde_json::Error as serde::de::Error>::custom(msg)
}

impl From<serde_json::Error> for KvsErrors {
    fn from(e: serde_json::Error) -> (r: KvsErrors) {
        KvsErrors::Serde(e)
    }
}

impl FromSpecImpl<serde_json::Error> for KvsErrors {
    open spec fn obeys_from_spec() -> bool {
        true
    }

    open spec fn from_spec(e: serde_json::Error) -> KvsErrors {
        KvsErrors::Serde(e)
    }
}

impl From<std::io::Error> for KvsErrors {
    fn from(e: std::io::Error) -> (r: KvsErrors) {
        KvsErrors::IO(e)
    }
}

impl FromSpecImpl<std::io::Error> for KvsErrors {
    open spec fn obeys_from_spec() -> bool {
        true
    }

    open spec fn from_spec(e: std::io::Error) -> KvsErrors {
        KvsErrors::IO(e)
    }
}

} // verus!
