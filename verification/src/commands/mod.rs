//! The subcommands of the tool.

pub mod enumerate;
pub mod ls;
