//! A small library for maintaining named proxy lists: per-list text files
//! that track site entries in two states, pending and allowed.
//!
//! The library holds the pure part of the tool: splitting and normalizing a
//! comma-separated site string into the text appended to a pending list,
//! parsing a command line into a command, resolving a list name to its two
//! file paths, and the content transformation performed when a pending list
//! is promoted to allowed. Reading and writing the files themselves is left
//! to the surrounding program.

pub mod commands;
pub mod sites;
pub mod text;
