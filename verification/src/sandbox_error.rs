//! What can go wrong with a sandbox.

use vstd::prelude::*;
use vstd::string::*;

verus! {

/// The name of one sandbox.
#[derive(Debug)]
pub struct SandboxId(pub String);

#[derive(Debug)]
pub enum SandboxError {
    CreationFailed(String),
    NotFound(SandboxId),
    IsolationFailed(String),
    SpawnFailed(String),
    Io(String),
    Unsupported(String),
}

#[verifier::ext_equal]
pub ghost enum SandboxErrorView {
    CreationFailed(Seq<char>),
    NotFound(Seq<char>),
    IsolationFailed(Seq<char>),
    SpawnFailed(Seq<char>),
    Io(Seq<char>),
    Unsupported(Seq<char>),
}

impl View for SandboxError {
    type V = SandboxErrorView;

    open spec fn view(&self) -> SandboxErrorView {
        match self {
            SandboxError::CreationFailed(s) => SandboxErrorView::CreationFailed(s@),
            SandboxError::NotFound(id) => SandboxErrorView::NotFound(id.0@),
            SandboxError::IsolationFailed(s) => SandboxErrorView::IsolationFailed(s@),
            SandboxError::SpawnFailed(s) => SandboxErrorView::SpawnFailed(s@),
            SandboxError::Io(s) => SandboxErrorView::Io(s@),
            SandboxError::Unsupported(s) => SandboxErrorView::Unsupported(s@),
        }
    }
}

impl SandboxErrorView {
    /// The error in words.
    pub open spec fn message(self) -> Seq<char> {
        match self {
            SandboxErrorView::CreationFailed(s) => "sandbox creation failed: "@ + s,
            SandboxErrorView::NotFound(id) => "sandbox not found: "@ + id,
            SandboxErrorView::IsolationFailed(s) => "isolation setup failed: "@ + s,
            SandboxErrorView::SpawnFailed(s) => "process spawn failed: "@ + s,
            SandboxErrorView::Io(s) => "io error: "@ + s,
            SandboxErrorView::Unsupported(s) => "platform not supported: "@ + s,
        }
    }
}

impl SandboxError {
    /// The error in words.
    pub fn message(&self) -> (s: String)
        ensures
            s@ == self@.message(),
    {
        match self {
            SandboxError::CreationFailed(s) => "sandbox creation failed: ".to_owned().concat(
                s.as_str(),
            ),
            SandboxError::NotFound(id) => "sandbox not found: ".to_owned().concat(id.0.as_str()),
            SandboxError::IsolationFailed(s) => "isolation setup failed: ".to_owned().concat(
                s.as_str(),
            ),
            SandboxError::SpawnFailed(s) => "process spawn failed: ".to_owned().concat(s.as_str()),
            SandboxError::Io(s) => "io error: ".to_owned().concat(s.as_str()),
            SandboxError::Unsupported(s) => "platform not supported: ".to_owned().concat(
                s.as_str(),
            ),
        }
    }
}

/// The outcome of a step with nothing to hand back.
pub open spec fn outcome_view(r: Result<(), SandboxError>) -> Result<(), SandboxErrorView> {
    match r {
        Ok(()) => Ok(()),
        Err(e) => Err(e@),
    }
}

/// Each error says what kind it is and why.
pub proof fn law_sandbox_errors_in_words(reason: Seq<char>)
    ensures
        SandboxErrorView::CreationFailed(reason).message() == "sandbox creation failed: "@ + reason,
        SandboxErrorView::NotFound(reason).message() == "sandbox not found: "@ + reason,
        SandboxErrorView::IsolationFailed(reason).message() == "isolation setup failed: "@ + reason,
        SandboxErrorView::SpawnFailed(reason).message() == "process spawn failed: "@ + reason,
        SandboxErrorView::Io(reason).message() == "io error: "@ + reason,
        SandboxErrorView::Unsupported(reason).message() == "platform not supported: "@ + reason,
{
}

} // verus!
