//! Layered resolution of named agents and prompt documents.
//!
//! Agents and prompts are defined in a project directory and in a personal
//! directory. Definitions of the project win over personal ones, and every
//! path that a definition names is admitted only inside the trusted roots.

pub mod agent;
pub mod agent_popup;
pub mod context;
pub mod custom_prompts;
pub mod error;
pub mod guard;
pub mod layers;
pub mod loader;
pub mod paths;
pub mod policy;
pub mod registry;
pub mod text;
