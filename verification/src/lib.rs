//! Verified text logic of a command-line manager for PowerShell functions
//! and variables kept in a module file and a profile file.

pub mod cli;
pub mod clipboard;
pub mod functions;
pub mod lines;
pub mod pattern;
pub mod profile;
pub mod text;
pub mod variables;
