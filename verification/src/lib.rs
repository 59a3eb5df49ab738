//! BenSSH: the logic of a terminal VPS manager with an AI-assisted SSH mode.

pub mod text;
pub mod terminal;
pub mod ai;
pub mod keys;
pub mod advice;
pub mod config;
pub mod shell;
pub mod remote;
pub mod ui;
pub mod manager;
pub mod session;
