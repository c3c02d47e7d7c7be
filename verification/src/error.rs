//! What can go wrong when an agent definition is checked or read.

use vstd::prelude::*;
use vstd::string::StringExecFns;
use crate::text::{ascii_lowered, to_ascii_lower};

verus! {

/// A failure of one agent definition. None of them stops a bulk load: the
/// loader degrades to fewer definitions and goes on.
#[derive(Debug, PartialEq, Eq)]
pub enum AgentError {
    /// The definition has neither an inline prompt nor a prompt file.
    MissingPrompt,
    /// The definition has both an inline prompt and a prompt file.
    ConflictingPrompt,
    /// A prompt was asked of a definition that names none.
    NoPrompt,
    /// The prompt file does not resolve to a place inside the trusted roots.
    OutsideTrustedRoots,
    /// The text is no word of the sandbox-policy vocabulary. `value` is the
    /// text as it was compared: trimmed and in lower case.
    UnknownPermissions { value: String },
    /// The permissions override of a definition is no word of the
    /// vocabulary. `value` is the override with the white space at its ends
    /// removed.
    InvalidPermissions { value: String },
    /// The prompt file at `path` could not be read as text.
    UnreadablePrompt { path: String, cause: String },
}

impl AgentError {
    /// The text of the message that describes the failure.
    pub open spec fn message_text(self) -> Seq<char> {
        match self {
            AgentError::MissingPrompt => "Agent configuration must have either 'prompt' or 'prompt_file'"@,
            AgentError::ConflictingPrompt => "Agent configuration should have either 'prompt' or 'prompt_file', not both"@,
            AgentError::NoPrompt => "No prompt or prompt_file specified"@,
            AgentError::OutsideTrustedRoots => "Security error: Prompt file must be within project .codex or ~/.codex directory"@,
            AgentError::UnknownPermissions { value } => "unknown permissions value '"@ + value@
                + "'"@,
            AgentError::InvalidPermissions { value } => "invalid permissions override '"@ + value@
                + "': unknown permissions value '"@ + ascii_lowered(value@) + "'"@,
            AgentError::UnreadablePrompt { path, cause } => "Cannot read prompt file '"@ + path@
                + "': "@ + cause@,
        }
    }

    /// Whether the failure is a breach of the trust boundary.
    pub open spec fn is_security(self) -> bool {
        self is OutsideTrustedRoots
    }

    /// The message that describes the failure.
    pub fn message(&self) -> (out: String)
        ensures
            out@ == self.message_text(),
    {
        match self {
            AgentError::MissingPrompt => String::from_str(
                "Agent configuration must have either 'prompt' or 'prompt_file'",
            ),
            AgentError::ConflictingPrompt => String::from_str(
                "Agent configuration should have either 'prompt' or 'prompt_file', not both",
            ),
            AgentError::NoPrompt => String::from_str("No prompt or prompt_file specified"),
            AgentError::OutsideTrustedRoots => String::from_str(
                "Security error: Prompt file must be within project .codex or ~/.codex directory",
            ),
            AgentError::UnknownPermissions { value } => {
                let mut out = String::from_str("unknown permissions value '");
                out.append(value.as_str());
                out.append("'");
                out
            },
            AgentError::InvalidPermissions { value } => {
                let lowered = to_ascii_lower(value.as_str());
                let mut out = String::from_str("invalid permissions override '");
                out.append(value.as_str());
                out.append("': unknown permissions value '");
                out.append(lowered.as_str());
                out.append("'");
                out
            },
            AgentError::UnreadablePrompt { path, cause } => {
                let mut out = String::from_str("Cannot read prompt file '");
                out.append(path.as_str());
                out.append("': ");
                out.append(cause.as_str());
                out
            },
        }
    }
}

} // verus!
