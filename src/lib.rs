//! Keeps chosen application packages injected into the system partition.
//!
//! The library holds the decisions of the daemon: the declared package sets,
//! the difference between what is declared and what was last applied, the
//! per-package state machine that drives mounting and unmounting, and the
//! reading of the package manager's and the kernel's textual answers.
//! Running commands, issuing mount system calls and waiting for file events
//! are left to the caller.

pub mod config;
pub mod laws;
pub mod mounts;
pub mod pass;
pub mod plan;
pub mod reconciler;
pub mod resolve;

pub use config::{App, Config, ConfigError, Role};
pub use mounts::{is_mounted, is_mounted_in, overlay_options, target_path};
pub use pass::{unmount_result, Action, Event, MountError, Outcome, Pass, Stage};
pub use plan::{plan, Applied, Change, Task};
pub use reconciler::Reconciler;
pub use resolve::{package_dir, package_path_from_capture, parse_package_path};
