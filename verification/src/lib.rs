//! forja: collapses repetitive git sequences into single, safe commands.
//!
//! The library holds the logic of every command: validation of a parsed
//! `forja.toml`, the checks and steps of `sync` and `cleanup`, the diff and
//! writes of `setup`, and the diagnostics of `doctor`. Each flow is a
//! function from the outcomes of the commands it has run so far to what it
//! does next; a driver sends each command it asks for to a
//! [`CommandRunner`] and feeds the answer back.
pub mod cleanup;
pub mod cli;
pub mod config;
pub mod doctor;
pub mod error;
pub mod exec;
pub mod patterns;
pub mod setup;
pub mod show;
pub mod sync;
pub mod template;
pub mod text;

pub use cleanup::{
    cleanup_needs_answer, cleanup_should_delete, delete_branches, deleted_message, is_confirmation,
    plan_cleanup, render_cleanup_plan, CleanupPlan, DeleteOutcome,
};
pub use cli::{Cli, Command};
pub use config::schema::{RawConfig, RawFlowConfig, RawGitAliases, RawGitConfig, TomlValue};
pub use config::{
    load_config, load_flow_config, validate_config, ConfigFile, FlowConfig, ForjaConfig, GitConfig,
    LoadOutcome, Strategy,
};
pub use doctor::{render_report, run_checks, CheckResult, CheckStatus, DoctorReport};
pub use error::{ForjaError, ValidationError, ValidationErrors};
pub use exec::{CommandOutcome, CommandRequest, CommandRunner, RunResult};
pub use setup::{
    applied_message, apply_plan, compute_plan, render_setup_plan, setup_action, ApplyOutcome,
    GitConfigChange, SetupAction, SetupPlan,
};
pub use show::render_show;
pub use sync::{
    execute_sync, plan_sync, render_sync_plan, sync_should_execute, synced_message, SyncOutcome, SyncPlan,
};
pub use template::{check_init_target, DEFAULT_TEMPLATE};
