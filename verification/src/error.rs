//! The errors of the library.

use vstd::prelude::*;
use vstd::string::StringExecFns;

verus! {

/// What went wrong, with a message for the user.
#[derive(Debug)]
pub enum Error {
    /// The command line could not be understood.
    Cli(String),
    /// The configuration or the credentials could not be loaded.
    Config(String),
    /// A repository could not be acquired.
    Git(String),
    /// A file could not be read or written.
    Io(String),
}

/// The mathematical value of an [`Error`].
pub enum ErrorModel {
    Cli(Seq<char>),
    Config(Seq<char>),
    Git(Seq<char>),
    Io(Seq<char>),
}

impl View for Error {
    type V = ErrorModel;

    open spec fn view(&self) -> ErrorModel {
        match self {
            Error::Cli(msg) => ErrorModel::Cli(msg@),
            Error::Config(msg) => ErrorModel::Config(msg@),
            Error::Git(msg) => ErrorModel::Git(msg@),
            Error::Io(msg) => ErrorModel::Io(msg@),
        }
    }
}

impl DeepView for Error {
    type V = ErrorModel;

    open spec fn deep_view(&self) -> ErrorModel {
        self@
    }
}

impl Error {
    /// The message that the error carries.
    pub open spec fn message(&self) -> Seq<char> {
        match self {
            Error::Cli(msg) => msg@,
            Error::Config(msg) => msg@,
            Error::Git(msg) => msg@,
            Error::Io(msg) => msg@,
        }
    }

    /// The words that introduce the message of each kind of error.
    pub open spec fn label(&self) -> Seq<char> {
        match self {
            Error::Cli(_) => "CLI error: "@,
            Error::Config(_) => "Configuration error: "@,
            Error::Git(_) => "Git error: "@,
            Error::Io(_) => "IO error: "@,
        }
    }

    /// The error as text: its label, then its message.
    pub fn to_string(&self) -> (r: String)
        ensures
            r@ == self.label() + self.message(),
    {
        match self {
            Error::Cli(msg) => String::from_str("CLI error: ").concat(msg.as_str()),
            Error::Config(msg) => String::from_str("Configuration error: ").concat(msg.as_str()),
            Error::Git(msg) => String::from_str("Git error: ").concat(msg.as_str()),
            Error::Io(msg) => String::from_str("IO error: ").concat(msg.as_str()),
        }
    }
}

} // verus!
