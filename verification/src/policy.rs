//! Sandbox policies and the restricted vocabulary they are written in.

use vstd::prelude::*;
use crate::error::AgentError;
use crate::text::{ascii_lowered, same_text, to_ascii_lower, trim, trimmed};

verus! {

/// What a session may touch.
#[derive(Debug, Clone, Copy, PartialEq, Eq, Structural)]
pub enum SandboxPolicy {
    /// Nothing may be written.
    ReadOnly,
    /// The workspace may be written; the network only where the flag says so.
    WorkspaceWrite { network_access: bool },
    /// No restriction at all.
    DangerFullAccess,
}

/// How much reasoning a model is asked to spend.
#[derive(Debug, Clone, Copy, PartialEq, Eq, Structural)]
pub enum ReasoningEffort {
    Minimal,
    Low,
    Medium,
    High,
}

/// A policy text as it is compared with the vocabulary: without the white
/// space at its ends, in lower case.
pub open spec fn normalized(value: Seq<char>) -> Seq<char> {
    ascii_lowered(trimmed(value))
}

/// The vocabulary: the policy that a normalized word stands for, if any.
pub open spec fn policy_named(word: Seq<char>) -> Option<SandboxPolicy> {
    if word == "read-only"@ || word == "readonly"@ {
        Some(SandboxPolicy::ReadOnly)
    } else if word == "danger-full-access"@ || word == "dangerfullaccess"@ {
        Some(SandboxPolicy::DangerFullAccess)
    } else if word == "workspace-write"@ || word == "workspacewrite"@ {
        Some(SandboxPolicy::WorkspaceWrite { network_access: false })
    } else if word == "workspace-write+network"@ || word == "workspace-write-network"@ || word
        == "workspace-write:network"@ || word == "workspacewrite+network"@ {
        Some(SandboxPolicy::WorkspaceWrite { network_access: true })
    } else {
        None
    }
}

/// Reads a sandbox policy. The text is trimmed and put in lower case, then
/// looked up in the vocabulary; a text that is no word of it is an error
/// that carries the text as it was looked up.
pub fn parse_permissions_policy(value: &str) -> (r: Result<SandboxPolicy, AgentError>)
    ensures
        match r {
            Ok(policy) => policy_named(normalized(value@)) == Some(policy),
            Err(e) => policy_named(normalized(value@)) is None && (e matches AgentError::UnknownPermissions {
                value: word,
            } && word@ == normalized(value@)),
        },
{
    let cut = trim(value);
    let word = to_ascii_lower(cut.as_str());
    let w = word.as_str();
    if same_text(w, "read-only") || same_text(w, "readonly") {
        Ok(SandboxPolicy::ReadOnly)
    } else if same_text(w, "danger-full-access") || same_text(w, "dangerfullaccess") {
        Ok(SandboxPolicy::DangerFullAccess)
    } else if same_text(w, "workspace-write") || same_text(w, "workspacewrite") {
        Ok(SandboxPolicy::WorkspaceWrite { network_access: false })
    } else if same_text(w, "workspace-write+network") || same_text(w, "workspace-write-network")
        || same_text(w, "workspace-write:network") || same_text(w, "workspacewrite+network") {
        Ok(SandboxPolicy::WorkspaceWrite { network_access: true })
    } else {
        Err(AgentError::UnknownPermissions { value: word })
    }
}

} // verus!
