//! Library core of an SSH connection manager: the server and key inventory,
//! the argument lists handed to OpenSSH tools, the parsing of their output,
//! and the decisions of the diagnostic and key rotation workflows.

pub mod text;
pub mod model;
pub mod registry;
pub mod clock;
pub mod paths;
pub mod args;
pub mod ssh;
pub mod agent;
pub mod cli;
pub mod doctor;
pub mod display;
pub mod keyops;
