//! Checks which versions of pipeline tasks repositories use.
//!
//! Pipeline files declare tasks as `task: <name>@<version>`. A run scans the
//! pipeline files of a list of repositories, holds every declaration against
//! a registry of accepted versions, and accumulates what it finds: tasks
//! that a repository does not use, versions that the registry does not
//! list, and tasks that the registry does not know.
//!
//! The library decides and computes; it reads no file, runs no program and
//! prints nothing. Whoever drives it performs the actions that
//! [`analyzer::PipelineRun`] and [`git_manager::GitSession`] ask for and
//! reports their outcomes, and writes the report where it belongs.
//!
//! * [`line_parser`] reads one line, [`scanner`] a whole file.
//! * [`version`] compares versions as dotted numbers.
//! * [`config`] and [`yaml_parser`] hold and read the registry.
//! * [`task_issues`] accumulates the findings of a run.
//! * [`analyzer`] is the analysis of repositories as a state machine;
//!   [`worked_runs`] follows runs through it.
//! * [`report`] computes the figures of the report and lays out its text.
//! * [`collector`] collects declarations with a regular expression.
//! * [`cli`], [`git_manager`], [`utils`] and [`error`] serve the command
//!   line tool.
//! * [`text`], [`format`] and [`string_map`] are the ground that the others
//!   stand on.

pub mod analyzer;
pub mod cli;
pub mod collector;
pub mod config;
pub mod error;
pub mod format;
pub mod git_manager;
pub mod line_parser;
pub mod report;
pub mod scanner;
pub mod string_map;
pub mod task_issues;
pub mod task_types;
pub mod text;
pub mod utils;
pub mod version;
pub mod worked_runs;
pub mod yaml_parser;

pub use analyzer::analyze_pipelines;
pub use cli::Cli;
pub use collector::{CollectedTask, TaskImplementationCollector};
pub use config::{Config, Credentials};
pub use git_manager::GitManager;
pub use line_parser::{parse_task_definition, TaskDefinition};
pub use task_issues::TaskIssues;
pub use task_types::{SupportedTask, TaskImplementation, TaskValidState};
pub use utils::sanitize_file_path;
pub use version::VersionCompare;
