//! Dispatch: start an isolated line of work in a git worktree of its own.

pub mod naming;
pub mod run;
pub mod targets;
pub mod worktrees;

pub use naming::{derive_dispatch_paths, sanitize_name, DispatchPaths};
pub use run::{
    handle_dispatch, shape_override_of, Dispatch, DispatchAction, DispatchEvent, DispatchResult,
    DispatchShape, SpawnKind, SpawnRequest, SpawnShapeOverride, WorktreeCreation,
};
pub use targets::{
    available_orchestrations, render_available_targets, resolve_orchestration_name, ModeConfig,
    OrchestrationConfig, ProjectConfig, RoleConfig,
};
pub use worktrees::{
    new_worktree_registry, record_worktree, take_worktree, RemovalPolicy, WorktreeEntry,
    WorktreeRegistry,
};
