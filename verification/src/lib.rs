//! Verified core of a remote headless-IDE workspace server.
pub mod cli;
pub mod json;
pub mod lsp;
pub mod mcp;
pub mod nix;
pub mod server;
pub mod table;
pub mod text;
pub mod tools;
pub mod watch;
