//! The command line as values: what the `odm` program is asked to do.

use vstd::prelude::*;

use crate::commands::GlobalOut;

verus! {

/// Parsed command line.
#[derive(Debug, Clone)]
pub struct Cli {
    /// Workspace root (must contain `.odm/odm.config.yaml`).
    pub root: Option<String>,
    /// Machine-readable JSON on stdout.
    pub json: bool,
    /// Progen scope (`--progen`, repeatable).
    pub progen: Vec<String>,
    pub command: Commands,
}

/// Top-level commands.
#[derive(Debug, Clone)]
pub enum Commands {
    /// Bootstrap a new Workspace.
    Init { path: Option<String>, no_git: bool, interactive: bool },
    /// Materialize managed entries and fetch.
    Sync { names: Vec<String> },
    /// Pin file apply / status.
    Pin { cmd: PinCmd },
    /// Workspace snapshot.
    Status,
    /// ODM-side health checks.
    Doctor { fix: bool },
    /// Project lifecycle.
    Project { cmd: ProjectCmd },
    /// Progen lifecycle and store.
    Progen { cmd: ProgenCmd },
    /// Search notes across the Progen scope.
    Find { query: Option<String> },
    /// List Actions, or run one.
    Run { name: Option<String>, project: Option<String>, wt: Option<String>, args: Vec<String> },
    /// List Generators, or materialize one.
    Generate { name: Option<String>, dest: Option<String>, force: bool },
    /// Agent packs and agent start.
    Agent { cmd: AgentCmd },
}

/// `odm agent` subcommands.
#[derive(Debug, Clone)]
pub enum AgentCmd {
    /// Agent packs.
    Pack { cmd: PackCmd },
    /// One-shot agent start in a Project (or worktree slot) directory.
    Start { project: Option<String>, wt: Option<String>, program_args: Vec<String> },
    /// Context work-package prompt (not implemented).
    Prompt,
}

/// `odm pin` subcommands.
#[derive(Debug, Clone)]
pub enum PinCmd {
    /// Checkout pinned revs as detached HEAD.
    Apply { names: Vec<String>, force: bool },
    /// Compare pin file vs current HEAD.
    Status { names: Vec<String> },
}

/// `odm project` subcommands.
#[derive(Debug, Clone)]
pub enum ProjectCmd {
    List,
    Add {
        name: String,
        path: String,
        url: Option<String>,
        branch: Option<String>,
        type_: Option<String>,
        no_clone: bool,
    },
    Rm { name: String, delete: bool, force: bool },
    Info { name: String },
    Git { name: String, wt: Option<String>, git_args: Vec<String> },
    /// Worktree slots (list/add/rm/prune; not wired on the command line).
    Worktree { args: Vec<String> },
}

/// `odm progen` subcommands.
#[derive(Debug, Clone)]
pub enum ProgenCmd {
    List,
    Add { name: String, path: String, url: Option<String>, branch: Option<String>, no_clone: bool },
    Rm { name: String, delete: bool, force: bool },
    Info { name: String },
    /// Rebuild the note index of one Progen (`--progen`) or of all.
    Reindex,
    /// Store-side checks.
    Doctor,
}

/// `odm pack` subcommands.
#[derive(Debug, Clone)]
pub enum PackCmd {
    List,
    Install { source: String, home: String, force: bool },
    Link { source: String, home: String, force: bool },
    Rm { name: String },
}

/// Whether a command works inside an existing Workspace (all but `init`).
pub fn needs_workspace(c: &Commands) -> (b: bool)
    ensures
        b == !(c is Init),
{
    match c {
        Commands::Init { .. } => false,
        _ => true,
    }
}

/// The output mode the command line selects.
pub fn global_out(cli: &Cli) -> (o: GlobalOut)
    ensures
        o.json == cli.json,
{
    GlobalOut { json: cli.json }
}

} // verus!
