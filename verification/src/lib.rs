//! Verified core of the VK scheduling and workspace services: bounded
//! execution permissions, the durable capacity controller, goal progress
//! guards and the pure helpers behind the HTTP compatibility routes.
use vstd::prelude::*;

pub mod agent_events;
pub mod approvals;
pub mod board;
pub mod lease;
pub mod log_storage;
pub mod log_stream;
pub mod logs;
pub mod text;
pub mod ids;
pub mod json;
pub mod capacity;
pub mod compat;
pub mod controller;
pub mod controller_laws;
pub mod frontend;
pub mod goal_session;
pub mod goals;
pub mod guard;
pub mod projects;
pub mod notify;
pub mod order;
pub mod policy;
pub mod preferences;
pub mod queue;
pub mod saved_messages;
pub mod scheduling;
pub mod subagents;
pub mod systemd;
pub mod turns;
pub mod workspaces;
pub mod write_buffer;

verus! {

} // verus!
