//! The command execution and job-control engine of an interactive shell:
//! a quote-aware tokenizer, the pipeline parser, environment expansion,
//! alias resolution, the job table and the foreground-state machine that
//! answers terminal-control signals. Every function here states its
//! behaviour in its contract and is verified against it; spawning
//! processes, signals and terminal ownership are left to the caller.

pub mod alias;
pub mod args;
pub mod builtins;
pub mod command;
pub mod env;
pub mod jobs;
pub mod models;
pub mod plain;
pub mod signals;
pub mod text;
pub mod tokenizer;
pub mod tty;
