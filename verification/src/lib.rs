//! The decisions of the Linux Subsystem Layer, a manager of guest distributions
//! that run in kernel namespaces.

pub mod accounts;
pub mod action;
pub mod boot;
pub mod calls;
pub mod cli;
pub mod config;
pub mod distro;
pub mod encoding;
pub mod ending;
pub mod interview;
pub mod layers;
pub mod listing;
pub mod network;
pub mod output;
pub mod path;
pub mod provision;
pub mod runtime;
pub mod session;
pub mod task;
pub mod terminal;
pub mod text;
pub mod world;
