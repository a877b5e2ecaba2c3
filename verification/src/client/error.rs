//! What can go wrong for a client.

use crate::client::text::{decimal, decimal_text};
use vstd::prelude::*;
use vstd::string::*;

verus! {

/// Why an operation of the client failed.
#[derive(Debug)]
pub enum Error {
    NoManagerAddress,
    ManagerUnavailable(String),
    PartitionUnavailable(u32),
    UnknownWorker(String),
    WorkerRequest { node_id: String, reason: String },
    Timeout,
    InvalidSystemTime,
    TtlOverflow,
}

/// What an [`Error`] says.
pub enum ErrorView {
    NoManagerAddress,
    ManagerUnavailable(Seq<char>),
    PartitionUnavailable(u32),
    UnknownWorker(Seq<char>),
    WorkerRequest { node_id: Seq<char>, reason: Seq<char> },
    Timeout,
    InvalidSystemTime,
    TtlOverflow,
}

impl View for Error {
    type V = ErrorView;

    open spec fn view(&self) -> ErrorView {
        match self {
            Error::NoManagerAddress => ErrorView::NoManagerAddress,
            Error::ManagerUnavailable(reasons) => ErrorView::ManagerUnavailable(reasons@),
            Error::PartitionUnavailable(id) => ErrorView::PartitionUnavailable(*id),
            Error::UnknownWorker(id) => ErrorView::UnknownWorker(id@),
            Error::WorkerRequest { node_id, reason } => ErrorView::WorkerRequest {
                node_id: node_id@,
                reason: reason@,
            },
            Error::Timeout => ErrorView::Timeout,
            Error::InvalidSystemTime => ErrorView::InvalidSystemTime,
            Error::TtlOverflow => ErrorView::TtlOverflow,
        }
    }
}

impl ErrorView {
    /// The error in words.
    pub open spec fn message(self) -> Seq<char> {
        match self {
            ErrorView::NoManagerAddress => "at least one manager address is required"@,
            ErrorView::ManagerUnavailable(reasons) =>
                "could not connect to any configured manager: "@ + reasons,
            ErrorView::PartitionUnavailable(id) => "cluster has no mapping for partition "@
                + decimal_text(id as nat),
            ErrorView::UnknownWorker(id) => "cluster state references unknown worker "@ + id,
            ErrorView::WorkerRequest { node_id, reason } => "worker "@ + node_id
                + " request failed: "@ + reason,
            ErrorView::Timeout => "operation timed out"@,
            ErrorView::InvalidSystemTime => "system clock is before the Unix epoch"@,
            ErrorView::TtlOverflow => "TTL is too large"@,
        }
    }
}

impl Error {
    /// The error in words.
    pub fn message(&self) -> (text: String)
        ensures
            text@ == self@.message(),
    {
        match self {
            Error::NoManagerAddress => String::from_str("at least one manager address is required"),
            Error::ManagerUnavailable(reasons) => String::from_str(
                "could not connect to any configured manager: ",
            ).concat(reasons.as_str()),
            Error::PartitionUnavailable(id) => String::from_str(
                "cluster has no mapping for partition ",
            ).concat(decimal(*id).as_str()),
            Error::UnknownWorker(id) => String::from_str(
                "cluster state references unknown worker ",
            ).concat(id.as_str()),
            Error::WorkerRequest { node_id, reason } => String::from_str("worker ").concat(
                node_id.as_str(),
            ).concat(" request failed: ").concat(reason.as_str()),
            Error::Timeout => String::from_str("operation timed out"),
            Error::InvalidSystemTime => String::from_str("system clock is before the Unix epoch"),
            Error::TtlOverflow => String::from_str("TTL is too large"),
        }
    }
}

} // verus!
