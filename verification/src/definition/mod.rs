//! Go-to-definition.

pub mod latex_cmd;
