//! What can go wrong with a microVM.

use crate::text::decimal_text;
#[allow(unused_imports)]
use crate::text::decimal;
use vstd::prelude::*;
use vstd::string::StringExecFns;
#[allow(unused_imports)]
use vstd::string::to_string_from_display_ensures;

verus! {

#[verifier::external_type_specification]
#[verifier::external_body]
pub struct ExIoError(std::io::Error);

#[derive(Debug)]
pub enum VmError {
    /// An operation of the system failed.
    Io(std::io::Error),
    /// The API server answered with a status other than success.
    Http { status: u16, body: String },
    /// Something that was waited for did not come.
    Timeout(&'static str),
}

impl From<std::io::Error> for VmError {
    fn from(e: std::io::Error) -> (error: Self) {
        VmError::Io(e)
    }
}

impl vstd::std_specs::convert::FromSpecImpl<std::io::Error> for VmError {
    open spec fn obeys_from_spec() -> bool {
        true
    }

    open spec fn from_spec(e: std::io::Error) -> Self {
        VmError::Io(e)
    }
}

/// The text that an error of the system describes itself with. It comes from the operating system
/// or from whoever made the error.
fn io_error_text(e: &std::io::Error) -> (text: String)
    ensures
        to_string_from_display_ensures(e, text),
{
    e.to_string()
}

/// The message for a failed operation of the system that describes itself as `text`.
pub fn io_error_message(text: &str) -> (message: String)
    ensures
        message@ == "io error: "@ + text@,
{
    "io error: ".to_owned().concat(text)
}

impl VmError {
    /// The message for people.
    pub fn message(&self) -> (message: String)
        ensures
            match self {
                VmError::Io(e) => "io error: "@.is_prefix_of(message@) && exists|text: String|
                    #[trigger] to_string_from_display_ensures(e, text) && message@ == "io error: "@
                        + text@,
                VmError::Http { status, body } => message@ == "http error "@ + decimal(
                    *status as nat,
                ) + ": "@ + body@,
                VmError::Timeout(what) => message@ == "timed out waiting for "@ + what@,
            },
    {
        match self {
            VmError::Io(e) => {
                let text = io_error_text(e);
                io_error_message(text.as_str())
            },
            VmError::Http { status, body } => {
                let mut message = "http error ".to_owned();
                message.append(decimal_text(*status as u64).as_str());
                message.append(": ");
                message.append(body.as_str());
                message
            },
            VmError::Timeout(what) => "timed out waiting for ".to_owned().concat(what),
        }
    }
}

} // verus!
