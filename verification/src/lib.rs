//! Ratect's engine core: the decisions behind running Batect-style tasks in
//! Docker, written so that each one carries a checked contract.

pub mod engine;
pub mod exit_code;
pub mod expressions;
pub mod git_include;
pub mod include_trust;
pub mod interrupt;
pub mod labels;
pub mod panic_hook;
pub mod proc_net;
pub mod proxy;
pub mod registry_auth;
pub mod resources;
pub mod schema;
pub mod ssh_agent;
pub mod text;
pub mod text_map;
pub mod utf8;
pub mod schema_forms;
