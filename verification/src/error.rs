//! What can keep a hosts file from being patched.

use vstd::prelude::*;
use vstd::string::*;

verus! {

/// A container that cannot be patched.
#[derive(Debug)]
pub enum DockerError {
    /// The container of this identity has no name to address it by.
    NoName(String),
    /// The container of this identity gave no hosts file.
    NoHost(String),
}

/// Mathematical model of a [`DockerError`].
pub enum DockerErrorView {
    /// No name to address the container by.
    NoName(Seq<char>),
    /// No hosts file.
    NoHost(Seq<char>),
}

impl View for DockerError {
    type V = DockerErrorView;

    open spec fn view(&self) -> DockerErrorView {
        match self {
            DockerError::NoName(id) => DockerErrorView::NoName(id@),
            DockerError::NoHost(id) => DockerErrorView::NoHost(id@),
        }
    }
}

/// The message of an error.
pub open spec fn error_message(error: DockerErrorView) -> Seq<char> {
    match error {
        DockerErrorView::NoName(id) => "container "@ + id + " has no name, cannot fetch from it"@,
        DockerErrorView::NoHost(id) => "container "@ + id + " has no /etc/hosts file"@,
    }
}

impl DockerError {
    /// The message of the error.
    pub fn to_string(&self) -> (message: String)
        ensures
            message@ == error_message(self@),
    {
        let mut message = String::from_str("container ");
        match self {
            DockerError::NoName(id) => {
                message.append(id.as_str());
                message.append(" has no name, cannot fetch from it");
            },
            DockerError::NoHost(id) => {
                message.append(id.as_str());
                message.append(" has no /etc/hosts file");
            },
        }
        message
    }
}

/// Why the hosts file of a container was not rewritten.
#[derive(Debug)]
pub enum PatchError {
    /// The container cannot be patched.
    Docker(DockerError),
    /// The hosts file could not be fetched, read out of its archive or
    /// written back; the message says why.
    Transport(String),
}

/// Mathematical model of a [`PatchError`].
pub enum PatchErrorView {
    /// The container cannot be patched.
    Docker(DockerErrorView),
    /// The hosts file could not be fetched, read or written back.
    Transport(Seq<char>),
}

impl View for PatchError {
    type V = PatchErrorView;

    open spec fn view(&self) -> PatchErrorView {
        match self {
            PatchError::Docker(error) => PatchErrorView::Docker(error@),
            PatchError::Transport(message) => PatchErrorView::Transport(message@),
        }
    }
}

impl PatchError {
    /// The message of the error.
    pub fn to_string(&self) -> (message: String)
        ensures
            message@ == (match self@ {
                PatchErrorView::Docker(error) => error_message(error),
                PatchErrorView::Transport(message) => message,
            }),
    {
        match self {
            PatchError::Docker(error) => error.to_string(),
            PatchError::Transport(message) => message.clone(),
        }
    }
}

/// Why a cycle ended early.
#[derive(Debug)]
pub enum TickError {
    /// The runtime could not be polled; the message says why. What is
    /// retained would drift from what exists, so the process is to end.
    Poll(String),
    /// A hosts file could not be patched. The rest of the cycle is dropped;
    /// the next cycle starts as usual.
    Patch(PatchError),
}

impl TickError {
    /// The message of the error.
    pub fn to_string(&self) -> (message: String)
        ensures
            message@ == (match self {
                TickError::Poll(reason) => reason@,
                TickError::Patch(PatchError::Docker(error)) => error_message(error@),
                TickError::Patch(PatchError::Transport(reason)) => reason@,
            }),
    {
        match self {
            TickError::Poll(reason) => reason.clone(),
            TickError::Patch(error) => error.to_string(),
        }
    }

    /// Whether the process is to end.
    pub fn is_fatal(&self) -> (fatal: bool)
        ensures
            fatal == (self is Poll),
    {
        match self {
            TickError::Poll(_) => true,
            TickError::Patch(_) => false,
        }
    }
}

} // verus!
