//! The decisions of `doit`, which executes commands as root with configurable
//! authorization.
//!
//! A configuration file grants users one of three levels: a password every
//! time, no password, or a number of password-free uses between two
//! authentications. The library reads that file, verifies passwords, keeps the
//! counters, checks the files that it relies on and builds the environment of
//! the command; [`session`] puts these together into one invocation. Whatever
//! touches the machine (files, terminal, user IDs, processes) is left to the
//! caller, who performs what a phase asks for and reports the outcome.
//!
//! [`guarantees`] states what holds of every invocation: above all, that no
//! command is executed for a user who was not authorised.
pub mod config;
pub mod cost;
pub mod counter;
pub mod counter_file;
pub mod environment;
pub mod guarantees;
pub mod password;
pub mod permissions;
pub mod session;
pub mod text;
