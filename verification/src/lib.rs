//! Conditioned secret access for sandboxed agents: the verified core.

pub mod args;
pub mod aws;
pub mod client;
pub mod clock;
pub mod config;
pub mod daemon;
pub mod duration;
pub mod env_file;
pub mod gate;
pub mod guarantees;
pub mod outcomes;
pub mod paths;
pub mod peer;
pub mod proto;
pub mod redaction;
pub mod release;
pub mod service;
pub mod skill;
pub mod source;
pub mod state;
pub mod text;
pub mod vars;
