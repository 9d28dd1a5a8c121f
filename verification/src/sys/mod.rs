//! What the operating system tells the tool, and what the tool asks of it.

pub mod cmd;
pub mod fsx;
pub mod machine;
