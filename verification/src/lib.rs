//! A manager for tool-provider subprocesses that speak line-framed JSON-RPC
//! over their standard streams. The library holds the rules: how requests
//! are numbered and matched to replies, how launch templates are resolved,
//! how the registry of servers grows. The surrounding program performs the
//! input and output.

pub mod client;
pub mod config;
pub mod encoding;
pub mod error;
pub mod extensions;
pub mod json;
pub mod manager;
pub mod text;
pub mod webview;
