//! The first generation of the tool: one report of log lines per operation.
//!
//! Each operation here reads the machine, acts, and writes down what it did.
//! The reading and acting happen around these functions; what they decide —
//! which entries to act on, and what the report says — is here.

pub mod homebrew;
pub mod launch;
pub mod login;
pub mod scanner;
pub mod sysinfo;
pub mod system;
pub mod trash;
pub mod utils;
