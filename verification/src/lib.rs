//! Sidecar lifecycle library for the AgentsView desktop shell.
//!
//! The shell launches a single backend server process (the sidecar), waits
//! for it to announce readiness, and kills it on shutdown. This crate holds
//! the verified core of that lifecycle: environment resolution with merge
//! precedence, the override-file and login-shell output parsers, the
//! ready-line and readiness-response validators, and the state machines
//! that bound the login-shell probe and arbitrate the startup outcome.
pub mod bytestr;
pub mod env_file;
pub mod env_merge;
pub mod lifecycle;
pub mod login_shell;
pub mod numfmt;
pub mod readiness;
pub mod startup;
pub mod supervisor;
