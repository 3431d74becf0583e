//! Verified core of a tool that makes a fresh git worktree immediately usable.

pub mod bytes;
pub mod config;
pub mod detect;
pub mod digits;
pub mod discover;
pub mod envmap;
pub mod exec;
pub mod fsops;
pub mod herdr;
pub mod hook;
pub mod job;
pub mod json;
pub mod order;
pub mod ostext;
pub mod paths;
pub mod pieces;
pub mod pipeline;
pub mod planner;
pub mod rules;
pub mod shellenv;
pub mod text;
pub mod ui;
