//! Agent definitions: what one holds, when it is valid, and what its
//! overrides mean.

use crate::error::AgentError;
use crate::paths::{join_path, joined};
use crate::policy::{normalized, parse_permissions_policy, policy_named, ReasoningEffort, SandboxPolicy};
use crate::text::{ascii_lowered, lemma_trimmed_twice, same_text, to_ascii_lower, trim, trimmed};
use vstd::prelude::*;

verus! {

/// One agent definition.
///
/// A definition is written with either an inline prompt or the path of a
/// file that holds the prompt. Every other field is an override: absent, it
/// leaves the value of the surrounding context in place.
#[derive(Debug, Clone, PartialEq, Eq)]
pub struct AgentConfig {
    /// The system prompt.
    pub prompt: Option<String>,
    /// The path of a file that holds the system prompt.
    pub prompt_file: Option<String>,
    /// The tools the agent may use.
    pub tools: Option<Vec<String>>,
    /// The model the agent runs on.
    pub model: Option<String>,
    /// The reasoning effort asked of the model.
    pub reasoning_effort: Option<ReasoningEffort>,
    /// The sandbox policy, as text.
    pub permissions: Option<String>,
}

/// An agent definition as plain values.
pub struct AgentConfigView {
    pub prompt: Option<Seq<char>>,
    pub prompt_file: Option<Seq<char>>,
    pub tools: Option<Seq<Seq<char>>>,
    pub model: Option<Seq<char>>,
    pub reasoning_effort: Option<ReasoningEffort>,
    pub permissions: Option<Seq<char>>,
}

/// An optional string as an optional sequence of characters.
pub open spec fn text_of(s: Option<String>) -> Option<Seq<char>> {
    match s {
        Some(t) => Some(t@),
        None => None,
    }
}

/// An optional string slice as an optional sequence of characters.
pub open spec fn slice_text_of(s: Option<&str>) -> Option<Seq<char>> {
    match s {
        Some(t) => Some(t@),
        None => None,
    }
}

/// An optional list of strings as an optional sequence of sequences.
pub open spec fn list_of(s: Option<Vec<String>>) -> Option<Seq<Seq<char>>> {
    match s {
        Some(v) => Some(Seq::new(v@.len(), |i: int| v@[i]@)),
        None => None,
    }
}

impl View for AgentConfig {
    type V = AgentConfigView;

    open spec fn view(&self) -> AgentConfigView {
        AgentConfigView {
            prompt: text_of(self.prompt),
            prompt_file: text_of(self.prompt_file),
            tools: list_of(self.tools),
            model: text_of(self.model),
            reasoning_effort: self.reasoning_effort,
            permissions: text_of(self.permissions),
        }
    }
}

/// The verdict on a definition: it must name its prompt in exactly one of
/// the two ways.
pub open spec fn verdict(cfg: AgentConfigView) -> Result<(), AgentError> {
    if cfg.prompt is None && cfg.prompt_file is None {
        Err(AgentError::MissingPrompt)
    } else if cfg.prompt is Some && cfg.prompt_file is Some {
        Err(AgentError::ConflictingPrompt)
    } else {
        Ok(())
    }
}

/// The model a definition asks for: its model text without the white space
/// at its ends, and none where nothing is left of it.
pub open spec fn model_choice(model: Option<Seq<char>>) -> Option<Seq<char>> {
    match model {
        Some(m) => if trimmed(m).len() == 0 {
            None
        } else {
            Some(trimmed(m))
        },
        None => None,
    }
}

/// Whether a permissions text asks for no override: it is blank, or the
/// word `inherit` in any mix of upper and lower case.
pub open spec fn inherits(raw: Seq<char>) -> bool {
    trimmed(raw).len() == 0 || ascii_lowered(trimmed(raw)) == "inherit"@
}

/// The policy that a permissions override asks for. `Ok(None)` says that
/// the context's policy stays; `Err` carries the trimmed text that is no
/// word of the vocabulary.
pub open spec fn policy_choice(permissions: Option<Seq<char>>) -> Result<
    Option<SandboxPolicy>,
    Seq<char>,
> {
    match permissions {
        None => Ok(None),
        Some(raw) => if inherits(raw) {
            Ok(None)
        } else {
            match policy_named(ascii_lowered(trimmed(raw))) {
                Some(p) => Ok(Some(p)),
                None => Err(trimmed(raw)),
            }
        },
    }
}

/// The path of the file to read for a definition's prompt: none where the
/// prompt is inline or no file is named; otherwise the file's path, taken
/// relative to `dir` where one is given.
pub open spec fn prompt_path(cfg: AgentConfigView, dir: Option<Seq<char>>) -> Option<Seq<char>> {
    if cfg.prompt is Some {
        None
    } else {
        match cfg.prompt_file {
            Some(f) => Some(
                match dir {
                    Some(d) => joined(d, f),
                    None => f,
                },
            ),
            None => None,
        }
    }
}

impl AgentConfig {
    /// Checks that the definition names its prompt in exactly one way.
    pub fn validate(&self) -> (r: Result<(), AgentError>)
        ensures
            r == verdict(self@),
    {
        if self.prompt.is_none() && self.prompt_file.is_none() {
            return Err(AgentError::MissingPrompt);
        }
        if self.prompt.is_some() && self.prompt_file.is_some() {
            return Err(AgentError::ConflictingPrompt);
        }
        Ok(())
    }

    /// The path of the file to read for the prompt, if one has to be read.
    pub fn prompt_file_path(&self, agents_dir: Option<&str>) -> (r: Option<String>)
        ensures
            text_of(r) == prompt_path(self@, slice_text_of(agents_dir)),
    {
        if self.prompt.is_some() {
            return None;
        }
        match &self.prompt_file {
            Some(f) => match agents_dir {
                Some(d) => Some(join_path(d, f.as_str())),
                None => Some(f.clone()),
            },
            None => None,
        }
    }

    /// The effective prompt. An inline prompt is returned as it is. Where a
    /// file is named instead, `read` is what reading the file at
    /// `prompt_file_path` gave: its text is returned and kept as the
    /// definition's prompt, and a failure comes back as an error that names
    /// the path and the cause. A definition that names no prompt at all is
    /// an error.
    pub fn get_prompt(&mut self, agents_dir: Option<&str>, read: Result<String, String>) -> (r:
        Result<String, AgentError>)
        ensures
            match (old(self)@.prompt, old(self)@.prompt_file) {
                (Some(p), _) => final(self)@ == old(self)@ && (r matches Ok(t) && t@ == p),
                (None, Some(f)) => match read {
                    Ok(text) => (r matches Ok(t) && t@ == text@) && final(self)@ == (AgentConfigView {
                        prompt: Some(text@),
                        ..old(self)@
                    }),
                    Err(cause) => final(self)@ == old(self)@ && (r matches Err(
                        AgentError::UnreadablePrompt { path, cause: c },
                    ) && Some(path@) == prompt_path(old(self)@, slice_text_of(agents_dir)) && c@
                        == cause@),
                },
                (None, None) => final(self)@ == old(self)@ && r == Err::<String, AgentError>(
                    AgentError::NoPrompt,
                ),
            },
    {
        if let Some(p) = &self.prompt {
            return Ok(p.clone());
        }
        match self.prompt_file_path(agents_dir) {
            Some(path) => match read {
                Ok(text) => {
                    let out = text.clone();
                    self.prompt = Some(text);
                    Ok(out)
                },
                Err(cause) => Err(AgentError::UnreadablePrompt { path, cause }),
            },
            None => Err(AgentError::NoPrompt),
        }
    }

    /// The sandbox policy that the definition asks for, if any. A blank
    /// override and the word `inherit` ask for none; any other text must be
    /// a word of the policy vocabulary.
    pub fn permissions_policy(&self) -> (r: Result<Option<SandboxPolicy>, AgentError>)
        ensures
            match policy_choice(self@.permissions) {
                Ok(choice) => r == Ok::<Option<SandboxPolicy>, AgentError>(choice),
                Err(text) => r matches Err(AgentError::InvalidPermissions { value }) && value@
                    == text,
            },
    {
        let raw = match &self.permissions {
            Some(raw) => raw,
            None => {
                return Ok(None);
            },
        };
        let cut = trim(raw.as_str());
        let lowered = to_ascii_lower(cut.as_str());
        if cut.as_str().is_empty() || same_text(lowered.as_str(), "inherit") {
            return Ok(None);
        }
        proof {
            lemma_trimmed_twice(raw@);
            assert(normalized(cut@) == ascii_lowered(trimmed(raw@)));
        }
        match parse_permissions_policy(cut.as_str()) {
            Ok(policy) => Ok(Some(policy)),
            Err(_) => Err(AgentError::InvalidPermissions { value: cut }),
        }
    }

    /// The model that the definition asks for, without the white space at
    /// its ends; none where the definition names none or only white space.
    pub fn model_override(&self) -> (r: Option<String>)
        ensures
            text_of(r) == model_choice(self@.model),
    {
        match &self.model {
            Some(m) => {
                let cut = trim(m.as_str());
                if cut.as_str().is_empty() {
                    None
                } else {
                    Some(cut)
                }
            },
            None => None,
        }
    }

    /// The reasoning effort that the definition asks for.
    pub fn reasoning_effort_override(&self) -> (r: Option<ReasoningEffort>)
        ensures
            r == self@.reasoning_effort,
    {
        self.reasoning_effort
    }
}

} // verus!
