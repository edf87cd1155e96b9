//! Tab naming for a terminal multiplexer: each tab gets a short label taken
//! from the binary running in it, its git workspace or its folder.

pub mod text;
pub mod path;
pub mod formatter;
pub mod validation;
pub mod manifest;
pub mod bin_parser;
pub mod parent_seek;
pub mod resolver;
pub mod messages;
pub mod worker;
pub mod plugin;
