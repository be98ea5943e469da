//! The failures that the library reports.

use vstd::prelude::*;
use vstd::string::*;

verus! {

/// Why an operation did not succeed.
#[derive(Debug, PartialEq, Eq)]
pub enum Error {
    /// A TXT key or value cannot be encoded: the key is empty or holds the
    /// delimiter, the attribute is longer than one segment may be, or the
    /// bytes read are not the encoding of a record.
    EncodingError,
    /// The key that the operation names is not in the record.
    NotFoundError,
    /// The daemon refused a request on the session or on the group as a whole.
    DaemonError { message: String },
    /// The daemon refused one record while it was being staged.
    RegistrationError { code: i32, message: String },
}

impl Error {
    /// The text of the failure, as a sequence of characters.
    pub open spec fn spec_message(&self) -> Seq<char> {
        match self {
            Error::EncodingError => "invalid TXT record attribute"@,
            Error::NotFoundError => "no such key in TXT record"@,
            Error::DaemonError { message } => message@,
            Error::RegistrationError { code, message } => message@,
        }
    }

    /// A description for the user: a fixed text for the local failures, the
    /// text that came with the daemon's answer for the others.
    pub fn message(&self) -> (text: String)
        ensures
            text@ == self.spec_message(),
    {
        match self {
            Error::EncodingError => String::from_str("invalid TXT record attribute"),
            Error::NotFoundError => String::from_str("no such key in TXT record"),
            Error::DaemonError { message } => message.clone(),
            Error::RegistrationError { code: _, message } => message.clone(),
        }
    }
}

/// Whether `e` is a refusal of the daemon with the description `text`.
pub open spec fn is_daemon_error(e: Error, text: Seq<char>) -> bool {
    e matches Error::DaemonError { message } && message@ == text
}

/// Whether `e` is the refusal of a record with the daemon's code `code` and
/// the description `text`.
pub open spec fn is_registration_error(e: Error, code: i32, text: Seq<char>) -> bool {
    e matches Error::RegistrationError { code: c, message } && c == code && message@ == text
}

/// The text `prefix: detail`, which describes a request that the daemon refused.
pub open spec fn spec_describe(prefix: Seq<char>, detail: Seq<char>) -> Seq<char> {
    prefix + ": "@ + detail
}

/// Joins what was attempted and the daemon's own text into one description.
pub fn describe(prefix: &str, detail: &str) -> (text: String)
    ensures
        text@ == spec_describe(prefix@, detail@),
{
    let mut text = String::from_str(prefix);
    text.append(": ");
    text.append(detail);
    text
}

} // verus!
