# portsage

The verified core of portsage, a port allocator for local development: each
project owns a port range, its services register ports in it, and a scanner
reports which ports are listening.

`src/` is the library, proved with Verus:

- `version` — parsing release versions (`v0.11.0`) into numeric components,
  exactly as `u64::from_str` reads each piece, and ordering them; laws on the
  order (swap, reflexivity, transitivity, leading `v`) and the round trip of
  numbers joined by dots.
- `self_update` — the release query's outcome, the release tag read from the
  answer's text, the Homebrew upgrade steps, error messages.
- `json` — the JSON document model with object member access (reads give
  `null` for absent members; writes turn `null` into an object), and the
  parse of JSON text through serde_json.
- `mcp_config` — registering the MCP server in the coding agent's
  configuration, granting and revoking its tool permissions, the
  parse-or-refuse policy for those files (from their text), and the outcome
  of `uv sync`; laws: registered after register,
  register and grant are idempotent, uninstall after install restores both
  files.
- `status` — the live status of projects and ports, kill target selection, the
  SIGTERM / grace / SIGKILL escalation as a state machine, port-ordered
  results, browser URLs, configuration documents.
- `paths` — data, runtime, state and socket paths per platform (paths held
  as OS-string bytes) and the precedence of socket overrides; the choice of
  MCP directory.
- `collections`, `text`, `types` — stable ordering by port, text helpers, and
  the records exchanged with the UI and CLI.

`app/` is the command line around it: processes, files, the network query,
the zip archive, serde forms of the records.
