//! Shepherd: a verified session-orchestration core for a terminal session
//! manager.
//!
//! The crate models the manager's state and decisions — session lifecycle,
//! the shell-pane multiplexer, per-repository session history, configuration,
//! mouse-scroll interception, the modal input router, and the git-worktree
//! workflow planning — as plain data with contracts. The unverifiable edges
//! (PTY spawning, threads, drawing, file and process I/O) live outside the
//! library and act only on the values these functions compute.

pub mod util;
pub mod paths;
pub mod history;
pub mod config;
pub mod mouse;
pub mod session;
pub mod pair;
pub mod multiplexer;
pub mod dialogs;
pub mod status;
pub mod selector;
pub mod cleanup;
pub mod manager;
pub mod workflow;
pub mod events;
pub mod json;

pub use history::RecentSession;
pub use history::SessionHistory;
