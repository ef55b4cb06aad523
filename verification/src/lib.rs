#![allow(non_snake_case)]

pub mod cli;
pub mod config;
pub mod errors;
pub mod helpers;
pub mod init;
pub mod laws;
pub mod load;
pub mod plan;
pub mod properties;
pub mod run;
pub mod text;

pub use config::{CommandString, Config, DependencyAdd, RunCommand, Template, Var};
pub use errors::{commandExecuteError, InitError, LoadError, ReplaceError, RunError, ValidationError};
pub use helpers::{getCommandArgs, isVerbose, passFlags, replaceVars, replaceVarsPanics, substitute, validateConfig, Substituted};
pub use plan::{Execution, ExecutionView};
pub use run::{runCmd, runCmdPanics, runFailure, RunPlan};
pub use init::{copyStep, initFailure, initTemplate, initTemplatePanics, renderVarFile, renderVarFilePanics, InitAction, InitActionView};
pub use cli::{initFlags, parseMode, Mode};
pub use load::{collectTemplates, TemplateCandidate};
