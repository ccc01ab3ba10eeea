//! Core of a local notes preview server: a directory index of relative file
//! paths, a store of Markdown files rendered to HTML once at startup, and a
//! line-based responder that maps a requested path prefix to either a single
//! rendered document or a generated listing page.

pub mod args;
pub mod config;
pub mod index;
pub mod paths;
pub mod render;
pub mod server;
pub mod status;
pub mod text;
