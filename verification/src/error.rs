//! The error type shared by the library.

use vstd::prelude::*;
use crate::text::owned;

verus! {

/// Errors of the agent core. Each carries a human-readable detail.
#[derive(Debug)]
pub enum AgentCoreError {
    InvalidInput(String),
    InvalidConfig(String),
    NotFound(String),
    PermissionDenied(String),
    Recoverable(String),
    Fatal(String),
    Serialization(serde_json::Error),
}

pub type AgentCoreResult<T> = Result<T, AgentCoreError>;

/// The display text of an error, without its detail for serialization errors.
pub open spec fn error_prefix(e: &AgentCoreError) -> Seq<char> {
    match e {
        AgentCoreError::InvalidInput(_) => "invalid input: "@,
        AgentCoreError::InvalidConfig(_) => "invalid configuration: "@,
        AgentCoreError::NotFound(_) => "not found: "@,
        AgentCoreError::PermissionDenied(_) => "permission denied: "@,
        AgentCoreError::Recoverable(_) => "recoverable error: "@,
        AgentCoreError::Fatal(_) => "fatal error: "@,
        AgentCoreError::Serialization(_) => "serialization error: "@,
    }
}

pub open spec fn error_detail(e: &AgentCoreError) -> Option<Seq<char>> {
    match e {
        AgentCoreError::InvalidInput(s) => Some(s@),
        AgentCoreError::InvalidConfig(s) => Some(s@),
        AgentCoreError::NotFound(s) => Some(s@),
        AgentCoreError::PermissionDenied(s) => Some(s@),
        AgentCoreError::Recoverable(s) => Some(s@),
        AgentCoreError::Fatal(s) => Some(s@),
        AgentCoreError::Serialization(_) => None,
    }
}

/// serde_json's `Display` for its error (the message and position it reports). Nothing is
/// stated of the text: it is read from an opaque error value.
#[verifier::external_body]
pub(crate) fn serde_error_text(e: &serde_json::Error) -> String {
    e.to_string()
}

impl AgentCoreError {
    /// The error's display text: its kind's prefix followed by its detail.
    pub fn describe(&self) -> (r: String)
        ensures
            error_detail(self) matches Some(d) ==> r@ == error_prefix(self) + d,
            error_detail(self) is None ==> r@.len() >= error_prefix(self).len() && r@.subrange(0, error_prefix(self).len() as int) == error_prefix(self),
    {
        let (prefix, detail) = match self {
            AgentCoreError::InvalidInput(s) => ("invalid input: ", s.clone()),
            AgentCoreError::InvalidConfig(s) => ("invalid configuration: ", s.clone()),
            AgentCoreError::NotFound(s) => ("not found: ", s.clone()),
            AgentCoreError::PermissionDenied(s) => ("permission denied: ", s.clone()),
            AgentCoreError::Recoverable(s) => ("recoverable error: ", s.clone()),
            AgentCoreError::Fatal(s) => ("fatal error: ", s.clone()),
            AgentCoreError::Serialization(e) => ("serialization error: ", serde_error_text(e)),
        };
        let mut r = owned(prefix);
        r.append(detail.as_str());
        proof {
            assert(r@.subrange(0, prefix@.len() as int) =~= prefix@);
        }
        r
    }

    pub fn is_recoverable(&self) -> (r: bool)
        ensures
            r == (self is Recoverable),
    {
        match self {
            AgentCoreError::Recoverable(_) => true,
            _ => false,
        }
    }
}

} // verus!
