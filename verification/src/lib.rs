//! Herd: the decision logic of a desktop companion that manages Linear tickets
//! across Git worktrees, each with its own background agent session.
//!
//! Every module here is plain computation with a contract; talking to Git,
//! the file system, the network and the windowing toolkit is left to callers.

pub mod text;
pub mod worktree;
pub mod keychain;
pub mod keyed;
pub mod db;
pub mod github;
pub mod linear;
pub mod pty;
pub mod services;
