//! Port allocation bookkeeping: version checks for self-update, the merge of
//! the editor configuration that registers the MCP server, the live-status
//! view of projects and ports, the kill escalation protocol and the resolution
//! of the directories where data, sockets and state live.

pub mod collections;
pub mod json;
pub mod mcp_config;
pub mod paths;
pub mod self_update;
pub mod status;
pub mod text;
pub mod types;
pub mod version;
