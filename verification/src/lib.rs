//! The `vk dev` workflow: what a workspace's configuration says, the plan it resolves to, and
//! the decisions taken around the environment that plan boots.
//!
//! Every function here works on plain values. What has to be read from the host (files, the
//! process environment, locks) is handed in, and what has to be done to it is handed back.

pub mod boot;
pub mod carried;
pub mod cli;
pub mod config;
pub mod describe;
pub mod devcontainer;
pub mod digest;
pub mod discover;
pub mod draft;
pub mod editor;
pub mod endpoints;
pub mod entries;
pub mod envfile;
pub mod hooks;
pub mod identity;
pub mod init;
pub mod jsonc;
pub mod laws;
pub mod layers;
pub mod list;
pub mod loaded;
pub mod names;
pub mod path;
pub mod plan;
pub mod planjson;
pub mod planning;
pub mod prune;
pub mod redact;
pub mod render;
pub mod resolve;
pub mod runargs;
pub mod shape;
pub mod shell;
pub mod stages;
pub mod text;
pub mod translate;
pub mod units;
pub mod validate;
pub mod value;
pub mod vars;
