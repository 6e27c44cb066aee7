//! Exports of 1C configurations, extensions and additional processors into files
//! under version control: the commands that are run, the texts that are read and
//! written, and the decisions in between.

#![allow(unused_imports)]

pub mod bases_config;
pub mod cli;
pub mod codec;
pub mod command_builder;
pub mod config;
pub mod dcs;
pub mod error;
pub mod eventlog_watcher;
pub mod export;
pub mod extension_run;
pub mod form_events;
pub mod git_push;
pub mod gui;
pub mod json;
pub mod logging;
pub mod mcp_client;
pub mod mdxml;
pub mod paths;
pub mod processings;
pub mod runner;
pub mod sorting;
pub mod sql_discovery;
pub mod sql_signals;
pub mod state;
pub mod state_db;
pub mod storage_mapping;
pub mod strmap;
pub mod text;
