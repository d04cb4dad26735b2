//! The error type shared by the engines.

use vstd::prelude::*;
use vstd::string::*;

verus! {

/// Why an operation was refused. Each variant carries a message for the
/// reader; callers decide by the variant.
#[derive(Debug)]
pub enum Error {
    /// A swap, a time step or an anyon index that the braid engine cannot use.
    BraidingError(String),
    /// A fusion schedule whose outcome encodes no qubits.
    FusionError(String),
    /// A state or an engine that cannot be built from what was given.
    ConstructionError(String),
    /// Anything else.
    Other(String),
}

impl Error {
    /// The message that the error carries.
    pub open spec fn message(self) -> Seq<char> {
        match self {
            Error::BraidingError(msg) => msg@,
            Error::FusionError(msg) => msg@,
            Error::ConstructionError(msg) => msg@,
            Error::Other(msg) => msg@,
        }
    }

    /// The words that name the variant in front of the message.
    pub open spec fn prefix(self) -> Seq<char> {
        match self {
            Error::BraidingError(_) => "Braiding Error: "@,
            Error::FusionError(_) => "Fusion Error: "@,
            Error::ConstructionError(_) => "Construction Error: "@,
            Error::Other(_) => "Other Error: "@,
        }
    }

    /// Renders the error as its kind followed by its message.
    pub fn to_string(&self) -> (text: String)
        ensures
            text@ == self.prefix() + self.message(),
    {
        let mut text = String::new();
        match self {
            Error::BraidingError(msg) => {
                text.append("Braiding Error: ");
                text.append(msg.as_str());
            },
            Error::FusionError(msg) => {
                text.append("Fusion Error: ");
                text.append(msg.as_str());
            },
            Error::ConstructionError(msg) => {
                text.append("Construction Error: ");
                text.append(msg.as_str());
            },
            Error::Other(msg) => {
                text.append("Other Error: ");
                text.append(msg.as_str());
            },
        }
        text
    }
}

} // verus!
