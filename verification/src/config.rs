//! Workspace config model: named Projects, Progens, groups, Actions and Generators.

use vstd::prelude::*;

use crate::names::NameMap;

verus! {

/// A Project declared in the Workspace config.
#[derive(Debug, Clone)]
pub struct ProjectEntry {
    /// Path relative to the Workspace root.
    pub path: String,
    /// Clone url; `Some` makes the Project managed.
    pub url: Option<String>,
    pub branch: Option<String>,
    pub type_: Option<String>,
}

impl ProjectEntry {
    /// Managed = has a clone url.
    pub fn is_managed(&self) -> (b: bool)
        ensures
            b == self.url.is_some(),
    {
        self.url.is_some()
    }
}

/// A Progen (notes store) declared in the Workspace config.
#[derive(Debug, Clone)]
pub struct ProgenEntry {
    pub path: String,
    pub url: Option<String>,
    pub branch: Option<String>,
}

impl ProgenEntry {
    /// Managed = has a clone url.
    pub fn is_managed(&self) -> (b: bool)
        ensures
            b == self.url.is_some(),
    {
        self.url.is_some()
    }
}

/// A Generator: a local template directory and/or a remote url.
#[derive(Debug, Clone)]
pub struct GeneratorDef {
    pub template: Option<String>,
    pub url: Option<String>,
}

/// One shell task of an Action.
#[derive(Debug, Clone)]
pub struct ActionTask {
    pub run: String,
    /// Working directory relative to the Workspace root.
    pub dir: Option<String>,
}

/// An Action: tasks run in order, stopping at the first failure.
#[derive(Debug, Clone)]
pub struct ActionDef {
    pub tasks: Vec<ActionTask>,
}

/// The `.odm/odm.config.yaml` content.
#[derive(Debug)]
pub struct WorkspaceConfig {
    pub projects: NameMap<ProjectEntry>,
    pub progens: NameMap<ProgenEntry>,
    /// Group name -> member Progen names.
    pub progen_groups: NameMap<Vec<String>>,
    /// `None` means enabled.
    pub manage_gitignore: Option<bool>,
}

/// Whether the managed `.gitignore` block is maintained (default on).
pub open spec fn spec_manage_gitignore(c: &WorkspaceConfig) -> bool {
    c.manage_gitignore != Some(false)
}

impl WorkspaceConfig {
    /// Empty config with gitignore management on.
    pub fn new() -> (c: Self)
        ensures
            c.projects.keys().len() == 0,
            c.progens.keys().len() == 0,
            c.progen_groups.keys().len() == 0,
            c.manage_gitignore is None,
    {
        WorkspaceConfig {
            projects: NameMap::new(),
            progens: NameMap::new(),
            progen_groups: NameMap::new(),
            manage_gitignore: None,
        }
    }

    /// Whether the managed `.gitignore` block is maintained.
    pub fn manage_gitignore(&self) -> (b: bool)
        ensures
            b == spec_manage_gitignore(self),
    {
        match self.manage_gitignore {
            Some(false) => false,
            _ => true,
        }
    }
}

/// A loaded Workspace: root, config, Actions and Generators.
#[derive(Debug)]
pub struct Workspace {
    /// Absolute Workspace root.
    pub root: String,
    pub config: WorkspaceConfig,
    pub actions: NameMap<ActionDef>,
    pub generators: NameMap<GeneratorDef>,
}

} // verus!
