//! Polaris keeps local copies of market snapshots in step with a remote catalog.
//!
//! This crate is the logic of the command line tool and its terminal browser: what is asked of the
//! server and what its answers mean, where snapshots are stored and how they get there, which are
//! missing, what is printed, and what the keys of the browser do. Files, network and terminal are left
//! to the program around it.

pub mod api;
pub mod auth;
pub mod calendar;
pub mod cli;
pub mod collections;
pub mod commands;
pub mod config;
pub mod digest;
pub mod error;
pub mod layout;
pub mod materialize;
pub mod order;
pub mod output;
pub mod path;
pub mod planner;
pub mod staging;
pub mod syncer;
pub mod text;
pub mod tui;
