//! The error kinds that the pipeline can produce.

use vstd::prelude::*;

verus! {

/// Errors produced while enumerating, decoding, filtering or rendering a
/// dataset.
#[derive(Debug, PartialEq, Eq)]
pub enum Error {
    /// A file could not be decoded as a dataset file; holds the offending
    /// path and the decoder's message.
    Parquet(String, String),
    /// The dataset root resolved to no files at all, so no schema or
    /// metadata can be known; holds the root path.
    InvalidParquet(String),
    /// Failure while writing to the output sink.
    IO(String),
    /// An invalid filter pattern; holds the pattern error message.
    Filter(String),
    /// A malformed command-line value; holds the argument's name or value.
    InvalidArgument(String),
}

impl Error {
    /// The user-visible message for this error.
    pub fn message(&self) -> (r: String)
        ensures
            r@ == self.message_spec(),
    {
        match self {
            Error::Parquet(path, msg) => {
                let mut s = path.clone();
                s.append(" >>> ");
                s.append(msg.as_str());
                s
            },
            Error::InvalidParquet(path) => {
                let mut s = String::from_str("Invalid parquet: ");
                s.append(path.as_str());
                s
            },
            Error::IO(msg) => {
                let mut s = String::from_str("IO error: ");
                s.append(msg.as_str());
                s
            },
            Error::Filter(msg) => {
                let mut s = String::from_str("Filter error: ");
                s.append(msg.as_str());
                s
            },
            Error::InvalidArgument(name) => {
                let mut s = String::from_str("Invalid argument: ");
                s.append(name.as_str());
                s
            },
        }
    }

    /// An equal error value, for handing out while keeping the original.
    pub fn duplicate(&self) -> (r: Error)
        ensures
            r == *self,
    {
        match self {
            Error::Parquet(path, msg) => Error::Parquet(path.clone(), msg.clone()),
            Error::InvalidParquet(path) => Error::InvalidParquet(path.clone()),
            Error::IO(msg) => Error::IO(msg.clone()),
            Error::Filter(msg) => Error::Filter(msg.clone()),
            Error::InvalidArgument(name) => Error::InvalidArgument(name.clone()),
        }
    }

    /// What `message` returns, as a sequence of characters.
    pub open spec fn message_spec(&self) -> Seq<char> {
        match self {
            Error::Parquet(path, msg) => path@ + " >>> "@ + msg@,
            Error::InvalidParquet(path) => "Invalid parquet: "@ + path@,
            Error::IO(msg) => "IO error: "@ + msg@,
            Error::Filter(msg) => "Filter error: "@ + msg@,
            Error::InvalidArgument(name) => "Invalid argument: "@ + name@,
        }
    }
}

/// Whether an error arises from the dataset or the sink rather than from
/// a command's own arguments.
pub open spec fn dataset_error(e: Error) -> bool {
    match e {
        Error::Parquet(_, _) => true,
        Error::InvalidParquet(_) => true,
        Error::IO(_) => true,
        Error::Filter(_) => false,
        Error::InvalidArgument(_) => false,
    }
}

} // verus!
