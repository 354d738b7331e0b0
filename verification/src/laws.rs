//! What holds of the operations as a whole: each law says what a result must satisfy in terms of
//! what was handed in.

pub mod accept;
pub mod act;
pub mod carry;
pub mod config;
pub mod deal;
pub mod draft;
pub mod drift;
pub mod editor;
pub mod find;
pub mod hooks;
pub mod import;
pub mod init;
pub mod json;
pub mod jsonc;
pub mod keep;
pub mod list;
pub mod names;
pub mod plan;
pub mod prune;
pub mod reach;
pub mod run;
pub mod say;
pub mod secret;
pub mod show;
pub mod store;
pub mod table;
pub mod units;
pub mod vars;
pub mod words;
