//! ODM Workspace rules: paths, config maps, pins, membership, gitignore block, doctor checks,
//! worktree slots, agent packs, Progen notes, actions and every rendering of their results.

use vstd::prelude::*;

pub mod actions;
pub mod agent_pack;
pub mod cli;
pub mod commands;
pub mod config;
pub mod doctor;
pub mod error;
pub mod generate;
pub mod git;
pub mod gitignore;
pub mod lifecycle;
pub mod membership;
pub mod names;
pub mod paths;
pub mod progen;
pub mod sorting;
pub mod status;
pub mod text;
pub mod worktree;

verus! {

} // verus!
