//! The git-worktree workflow: planning a session's worktree and judging the
//! outcomes of the git commands the host runs.
//!
//! The host observes git — whether the directory is in a repository, which
//! of `main` and `master` exist, and how `fetch` and `worktree add` ended —
//! and the functions here turn those observations into the worktree plan,
//! the session metadata, or the exact failure message.

use vstd::prelude::*;

use crate::config::Config;
use crate::paths::join_path;
use crate::status::StatusLevel;
use crate::status::StatusMessage;
use crate::util::basename_of;
use crate::util::str_basename;
use vstd::string::StrSliceExecFns;

verus! {

/// Metadata for a session a workflow prepared.
#[derive(Debug)]
pub struct SessionMetadata {
    pub path: String,
}

/// What the host observed from git before planning.
#[derive(Debug)]
pub struct GitProbe {
    /// `git rev-parse --show-toplevel`, when it succeeded.
    pub toplevel: Option<String>,
    /// Whether `git rev-parse --verify main` succeeded.
    pub main_exists: bool,
    /// Whether `git rev-parse --verify master` succeeded.
    pub master_exists: bool,
}

/// The plan for one worktree: what to fetch and where to add.
#[derive(Debug)]
pub struct WorktreePlan {
    pub repo_name: String,
    pub branch: String,
    pub worktree_path: String,
}

/// Workflow that creates a git worktree for each session.
pub struct WorktreeWorkflow;

impl WorktreeWorkflow {
    /// The workflow's name, used in its failure messages.
    pub fn name(&self) -> (r: &'static str)
        ensures
            r@ == "worktree"@,
    {
        "worktree"
    }

    /// A failure of this workflow, displayed under its name.
    pub fn error(log_message: String) -> (m: StatusMessage)
        ensures
            m.level == StatusLevel::Error,
            m.display_message@ == "Workflow worktree failed"@,
            m.log_message == log_message,
    {
        StatusMessage::err("Workflow worktree failed".to_owned(), log_message)
    }

    /// Plan the worktree from what git showed: the repository name is the
    /// toplevel's last component, the base branch is `main` when it exists
    /// and `master` otherwise, and the worktree lives under the configured
    /// worktrees directory at `repo/session`. Fails exactly when there is
    /// no repository, the toplevel has no final component, or neither
    /// branch exists.
    pub fn pre_session_plan(
        &self,
        session_name: &str,
        config: &Config,
        probe: &GitProbe,
    ) -> (r: Result<WorktreePlan, StatusMessage>)
        ensures
            match r {
                Ok(plan) => {
                    &&& probe.toplevel is Some
                    &&& basename_of((probe.toplevel->0)@).len() > 0
                    &&& plan.repo_name@ == basename_of((probe.toplevel->0)@)
                    &&& (probe.main_exists || probe.master_exists)
                    &&& plan.branch@ == (if probe.main_exists {
                        "main"@
                    } else {
                        "master"@
                    })
                    &&& plan.worktree_path@ == config.workflows_path@ + seq!['/']
                        + plan.repo_name@ + seq!['/'] + session_name@
                },
                Err(m) => {
                    &&& (probe.toplevel is None || basename_of((probe.toplevel->0)@).len()
                        == 0 || (!probe.main_exists && !probe.master_exists))
                    &&& m.level == StatusLevel::Error
                },
            },
    {
        let toplevel = match &probe.toplevel {
            Some(t) => t,
            None => {
                return Err(
                    Self::error("not in a git repository".to_owned()),
                );
            }
        };
        let repo_name = str_basename(toplevel.as_str());
        if repo_name.as_str().unicode_len() == 0 {
            return Err(
                Self::error(
                    "could not determine repository name from path".to_owned(),
                ),
            );
        }
        let branch: String;
        if probe.main_exists {
            branch = "main".to_owned();
        } else if probe.master_exists {
            branch = "master".to_owned();
        } else {
            return Err(
                Self::error("could not find main or master branch".to_owned()),
            );
        }
        let repo_dir = join_path(config.workflows_path.as_str(), repo_name.as_str());
        let worktree_path = join_path(repo_dir.as_str(), session_name);
        proof {
            assert(worktree_path@ =~= config.workflows_path@ + seq!['/']
                + basename_of((probe.toplevel->0)@) + seq!['/'] + session_name@);
        }
        Ok(WorktreePlan { repo_name, branch, worktree_path })
    }

    /// Judge the git commands the host ran for a plan: a failed fetch or a
    /// failed `worktree add` yields the workflow failure carrying the
    /// command's stderr; otherwise the session's metadata names the planned
    /// path.
    pub fn pre_session_complete(
        &self,
        plan: &WorktreePlan,
        fetch_ok: bool,
        fetch_stderr: &str,
        add_ok: bool,
        add_stderr: &str,
    ) -> (r: Result<SessionMetadata, StatusMessage>)
        ensures
            match r {
                Ok(m) => fetch_ok && add_ok && m.path == plan.worktree_path,
                Err(m) => {
                    &&& !(fetch_ok && add_ok)
                    &&& m.level == StatusLevel::Error
                    &&& (!fetch_ok ==> m.log_message@ == "git fetch origin "@ + plan.branch@
                        + " failed: "@ + fetch_stderr@)
                    &&& (fetch_ok && !add_ok ==> m.log_message@
                        == "git worktree add failed: "@ + add_stderr@)
                },
            },
    {
        if !fetch_ok {
            let msg = "git fetch origin ".to_owned().concat(plan.branch.as_str()).concat(
                " failed: ",
            ).concat(fetch_stderr);
            proof {
                assert(msg@ =~= "git fetch origin "@ + plan.branch@ + " failed: "@
                    + fetch_stderr@);
            }
            return Err(Self::error(msg));
        }
        if !add_ok {
            let msg = "git worktree add failed: ".to_owned().concat(add_stderr);
            return Err(Self::error(msg));
        }
        Ok(SessionMetadata { path: plan.worktree_path.clone() })
    }
}

} // verus!
