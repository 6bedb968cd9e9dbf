//! `mdfwob mcp`: a read-only [Model Context Protocol](https://modelcontextprotocol.io) server.
//!
//! A second front end onto the same analysis engine the command line drives, aimed at callers that
//! are language models rather than a terminal. The server is read-only by construction: it exposes
//! no write path, no downloader, and confines every file it opens to its root directory.
use vstd::prelude::*;

pub mod dto;
pub mod root;
pub mod server;

verus! {

/// What `mdfwob mcp` is started with.
#[derive(Debug)]
pub struct McpArgs {
    /// Directory the server may read. Defaults to the config's output_dir, else the current
    /// directory. Symbols resolve to `<ROOT>/<SYMBOL>.fwob`.
    pub root: Option<String>,
    /// Optional CONFIG.toml supplying analysis defaults (output_dir, session, timezone).
    pub config: Option<String>,
    /// Default session window (HH:MM-HH:MM) for tools that do not override it.
    pub session: Option<String>,
    /// Default exchange timezone (IANA name). Default America/New_York.
    pub tz: Option<String>,
}

} // verus!
