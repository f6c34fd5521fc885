//! Running a program politely: under a scheduling niceness and an
//! out-of-memory adjustment that a configuration gives for it.
//!
//! The settings of a launch are resolved by alias. An alias other than the
//! reserved one names a record of the local configuration ([`store`]). The
//! reserved alias asks for dynamic resolution ([`resolver`]): a remote
//! configuration ([`remote`]) is consulted when it is due, and a fallback
//! ([`oracle`]) decides where nothing is recorded. Both configurations are
//! texts of records of one grammar ([`config`]). The launch itself
//! ([`launcher`]) and the report on a running process ([`status`]) are
//! decided here and carried out by the caller: this library reads no file,
//! fetches nothing and makes no system call.

pub mod config;
pub mod launcher;
pub mod mapping;
pub mod number;
pub mod oracle;
pub mod remote;
pub mod resolver;
pub mod status;
pub mod store;
pub mod text;
