//! The decisions behind each command.
pub mod checkhealth;
pub mod list;
pub mod remove;
pub mod take;
