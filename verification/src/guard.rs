//! The trust boundary: which files a configuration may name.
//!
//! A prompt file is read only if its canonical path lies within the root
//! that the definition came from or within the personal root. The caller
//! resolves paths against the file system; the decision is taken here.

use crate::agent::text_of;
use crate::error::AgentError;
use crate::paths::{join_path, joined, path_within, within};
use vstd::prelude::*;

verus! {

/// The directory of the configuration below a home directory.
pub open spec fn config_dir_of(home: Seq<char>) -> Seq<char> {
    joined(home, ".codex"@)
}

/// The home directory of the current user, where it is known and is valid
/// text.
///
/// Trusted: `dirs::home_dir`, which reads `HOME` and falls back to the
/// system's user database. Nothing is claimed of what it finds.
#[verifier::external_body]
fn home_dir_text() -> (home: Option<String>) {
    match dirs::home_dir() {
        Some(path) => path.into_os_string().into_string().ok(),
        None => None,
    }
}

/// The personal root that belongs to a home directory: the configuration
/// directory below it, and none where no home directory is known.
pub fn personal_root_under(home: Option<&str>) -> (root: Option<String>)
    ensures
        text_of(root) == match home {
            Some(h) => Some(config_dir_of(h@)),
            None => None::<Seq<char>>,
        },
{
    match home {
        Some(h) => Some(join_path(h, ".codex")),
        None => None,
    }
}

/// The personal root of the current user. Whatever the system says of the
/// home directory, the root is the configuration directory below it, and
/// there is none where the home directory is unknown.
pub fn personal_root() -> (root: Option<String>)
    ensures
        root matches Some(r) ==> exists|home: Seq<char>| r@ == config_dir_of(home),
{
    let home = home_dir_text();
    match &home {
        Some(h) => personal_root_under(Some(h.as_str())),
        None => None,
    }
}

/// The directory of the personal agent definitions: the configuration
/// directory below the home directory named by `home`, or by `user_profile`
/// where `home` is not set.
pub fn get_agents_directory(home: Option<&str>, user_profile: Option<&str>) -> (dir: Option<
    String,
>)
    ensures
        text_of(dir) == match (home, user_profile) {
            (Some(h), _) => Some(config_dir_of(h@)),
            (None, Some(p)) => Some(config_dir_of(p@)),
            (None, None) => None::<Seq<char>>,
        },
{
    match home {
        Some(h) => personal_root_under(Some(h)),
        None => personal_root_under(user_profile),
    }
}

/// The two directories below which a prompt file may lie.
#[derive(Debug, Clone, PartialEq, Eq)]
pub struct TrustedRoots {
    /// The root that the definitions came from.
    pub base: String,
    /// The personal root, where there is one.
    pub personal: Option<String>,
}

/// The form of a root that containment is tested against: its canonical
/// form where the file system gave one, else the root as it was written.
pub open spec fn effective_root(literal: Seq<char>, canonical: Option<Seq<char>>) -> Seq<char> {
    match canonical {
        Some(c) => c,
        None => literal,
    }
}

impl TrustedRoots {
    /// Whether `path` lies within one of the two roots.
    pub open spec fn admits(&self, path: Seq<char>) -> bool {
        within(path, self.base@) || (self.personal matches Some(p) && within(path, p@))
    }

    /// The trusted roots for definitions that came from `base_dir`. Each
    /// root is taken in its canonical form where the file system gave one,
    /// and as it was written where it gave none.
    pub fn new(
        base_dir: &str,
        base_canonical: Option<String>,
        personal_dir: Option<String>,
        personal_canonical: Option<String>,
    ) -> (roots: TrustedRoots)
        ensures
            roots.base@ == effective_root(base_dir@, text_of(base_canonical)),
            text_of(roots.personal) == match personal_dir {
                Some(p) => Some(effective_root(p@, text_of(personal_canonical))),
                None => None::<Seq<char>>,
            },
    {
        let base = match base_canonical {
            Some(c) => c,
            None => base_dir.to_owned(),
        };
        let personal = match personal_dir {
            Some(p) => match personal_canonical {
                Some(c) => Some(c),
                None => Some(p),
            },
            None => None,
        };
        TrustedRoots { base, personal }
    }

    /// Whether `path` lies within one of the two roots.
    pub fn contains(&self, path: &str) -> (r: bool)
        ensures
            r == self.admits(path@),
    {
        if path_within(path, self.base.as_str()) {
            return true;
        }
        match &self.personal {
            Some(p) => path_within(path, p.as_str()),
            None => false,
        }
    }

    /// Decides whether a prompt file may be read. `canonical` is what the
    /// file system gave for the requested path: its canonical form, or
    /// nothing where it could not be resolved. The path is admitted, and
    /// handed back, exactly if it was resolved and lies within one of the
    /// roots; every other request is a breach of the trust boundary.
    pub fn validate_prompt_path(&self, canonical: Option<String>) -> (r: Result<
        String,
        AgentError,
    >)
        ensures
            match canonical {
                Some(p) => if self.admits(p@) {
                    r == Ok::<String, AgentError>(p)
                } else {
                    r == Err::<String, AgentError>(AgentError::OutsideTrustedRoots)
                },
                None => r == Err::<String, AgentError>(AgentError::OutsideTrustedRoots),
            },
    {
        match canonical {
            Some(p) => if self.contains(p.as_str()) {
                Ok(p)
            } else {
                Err(AgentError::OutsideTrustedRoots)
            },
            None => Err(AgentError::OutsideTrustedRoots),
        }
    }
}

/// The path that a prompt-file request stands for before it is resolved
/// against the file system: the request itself where it is absolute, else
/// the request below `base_dir`.
pub fn prompt_candidate(base_dir: &str, prompt_file: &str) -> (path: String)
    ensures
        path@ == joined(base_dir@, prompt_file@),
{
    join_path(base_dir, prompt_file)
}

} // verus!
