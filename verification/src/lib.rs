//! The verified cores of a terminal workstation backend: a persistent
//! terminal-session multiplexer and a Language Server Protocol client
//! broker.
//!
//! The daemon side owns shell sessions keyed by caller-supplied ids,
//! bounds each session's scroll-back, fans output out to attached clients,
//! and speaks a newline-delimited JSON command protocol whose writer and
//! parser are proved inverse to each other. The broker side frames
//! JSON-RPC messages with a length header, correlates requests with their
//! responses through fresh monotonic ids, tracks per-document versions,
//! and flattens the protocol's union-shaped replies for its callers.
//!
//! The surrounding process performs the I/O — sockets, pseudo-terminals,
//! child processes — and hands the results to these modules as plain
//! values; every decision about what the bytes mean and what to do next is
//! made, and verified, here.

pub mod json;
pub mod protocol;
pub mod lsp_codec;
pub mod lsp_docs;
pub mod lsp_transport;
pub mod lsp_pending;
pub mod lsp_protocol;
pub mod registry;
pub mod server;
pub mod session;
