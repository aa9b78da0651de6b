//! The records that travel between the backend, the CLI and the UI, and the
//! rows of the project database that the status view is built from.

use vstd::prelude::*;

verus! {

/// A project row as stored: a name, an optional directory and the inclusive
/// port range `[range_start, range_end]` it owns.
#[derive(Debug, Clone, PartialEq, Eq)]
pub struct Project {
    pub id: i64,
    pub name: String,
    pub path: Option<String>,
    pub range_start: i64,
    pub range_end: i64,
    pub created_at: String,
}

/// A registered `(project, service, port)` row.
#[derive(Debug, Clone, PartialEq, Eq)]
pub struct Port {
    pub id: i64,
    pub project_id: i64,
    pub service: String,
    pub port: i64,
    pub created_at: String,
}

/// A project together with its registered ports.
#[derive(Debug, Clone, PartialEq, Eq)]
pub struct ProjectWithPorts {
    pub project: Project,
    pub ports: Vec<Port>,
}

/// A port row inside a project, enriched with live status from the host scanner.
#[derive(Debug, Clone, PartialEq, Eq)]
pub struct PortStatus {
    pub id: i64,
    pub project_id: i64,
    pub service: String,
    pub port: i64,
    pub active: bool,
    pub process: Option<String>,
    pub pid: Option<i64>,
    pub created_at: String,
}

/// A project with its assigned range and the live status of every port.
#[derive(Debug, Clone, PartialEq, Eq)]
pub struct ProjectStatus {
    pub id: i64,
    pub name: String,
    pub path: Option<String>,
    pub range_start: i64,
    pub range_end: i64,
    pub created_at: String,
    pub ports: Vec<PortStatus>,
}

/// A TCP port currently in LISTEN on the host.
#[derive(Debug, Clone, PartialEq, Eq)]
pub struct ActivePort {
    pub port: i64,
    pub process: String,
    pub pid: i64,
}

/// Result of a kill attempt against a single PID.
///
/// `DockerStopped` and `DockerError` belong to the wire format that clients
/// share: they name the outcome of stopping the Docker container behind a
/// port whose listener is Docker's port-forwarding proxy. The kill escalation
/// of this library never gives them.
#[derive(Debug, Clone, Copy, PartialEq, Eq, Structural)]
pub enum KillOutcome {
    /// Process exited after SIGTERM within the grace period.
    Terminated,
    /// Process survived SIGTERM and was force-killed with SIGKILL.
    Killed,
    /// No process found listening on the port at kill time.
    NotActive,
    /// kill(2) returned EPERM - the process belongs to another user.
    PermissionDenied,
    DockerStopped,
    DockerError,
}

/// One entry returned by `kill_project`: the registered port that was active
/// and the outcome of attempting to kill its process.
#[derive(Debug, Clone, Copy, PartialEq, Eq, Structural)]
pub struct KillEntry {
    pub port: i64,
    pub outcome: KillOutcome,
}

/// Inclusive range bounds returned by `next_range`.
#[derive(Debug, Clone, Copy, PartialEq, Eq, Structural)]
pub struct RangeBounds {
    pub range_start: i64,
    pub range_end: i64,
}

/// Current global configuration snapshot. Values are returned as strings to
/// match the SQLite column type (the backend stores everything as TEXT).
#[derive(Debug, Clone, PartialEq, Eq)]
pub struct ConfigSnapshot {
    pub base_port: String,
    pub range_size: String,
}

/// A remote-backend catalogue row, returned by `get_remote_backend`. Exists
/// in the wire types so the CLI can ask the Mac socket for a backend's
/// `local_socket_path` and then point its own `Client` at that path. The
/// CLI does not open tunnels itself; that stays with the Mac UI.
#[derive(Debug, Clone, PartialEq, Eq)]
pub struct RemoteBackend {
    pub id: i64,
    pub name: String,
    pub ssh_alias: String,
    pub remote_socket_path: String,
    pub local_socket_path: String,
    pub auto_forward_enabled: bool,
    pub created_at: String,
}

/// Snapshot of the current MCP install state, for `portsage mcp status`.
#[derive(Debug, Clone, PartialEq, Eq)]
pub struct McpStatus {
    pub mcp_dir: String,
    pub files_present: bool,
    pub uv_available: bool,
    pub registered_global: bool,
    pub registered_project_cwd: bool,
    pub skill_installed: bool,
    pub allowlist_has_portsage: bool,
}

/// Paths touched by an MCP install, so the CLI can print a summary.
#[derive(Debug, Clone, PartialEq, Eq)]
pub struct InstallReport {
    pub mcp_dir: String,
    pub claude_config: String,
    pub skill_file: String,
    pub settings_file: String,
}

/// What an MCP uninstall removed.
#[derive(Debug, Clone, Copy, PartialEq, Eq, Structural)]
pub struct UninstallReport {
    pub unregistered_global: bool,
    pub unregistered_project: bool,
    pub skill_removed: bool,
    pub permissions_removed: usize,
    pub files_removed: bool,
}

} // verus!
