//! Statements and the parts they are made of.

pub mod parts;
pub mod remove;
pub mod update;
