use portsage::json::{get, Json};
use portsage::mcp_config::{
    existing_or_empty, grant_tools, is_server_registered, parse_config, parse_existing_or_empty,
    register_server, revoke_tools, server_entry, server_registered_in, tool_names,
    unregister_server, uv_sync_result, CliMcpError, ConfigRead,
};
use portsage::self_update::CommandRun;

fn from_json(j: &Json) -> serde_json::Value {
    match j {
        Json::Null => serde_json::Value::Null,
        Json::Bool(b) => serde_json::Value::Bool(*b),
        Json::Number(n) => serde_json::Value::Number(n.parse().unwrap()),
        Json::Str(s) => serde_json::Value::String(s.clone()),
        Json::Array(items) => serde_json::Value::Array(items.iter().map(from_json).collect()),
        Json::Object(members) => {
            let mut map = serde_json::Map::new();
            for (k, v) in members {
                map.insert(k.clone(), from_json(v));
            }
            serde_json::Value::Object(map)
        }
    }
}

/// The document of the text `text`, parsed as the library parses a file.
fn doc(text: &str) -> Json {
    parse_config(text).unwrap()
}

/// What reading a file with the text `text` gives.
fn file(text: &str) -> Option<Result<String, String>> {
    Some(Ok(text.to_string()))
}

fn value(text: &str) -> serde_json::Value {
    serde_json::from_str(text).unwrap()
}

#[test]
fn parse_existing_or_empty_returns_empty_object_when_file_missing() {
    let result = parse_existing_or_empty(None, "/tmp/x/missing.json").unwrap();
    assert_eq!(from_json(&result), value("{}"));
}

#[test]
fn parse_existing_or_empty_parses_valid_json() {
    let read = file(r#"{"mcpServers": {"foo": {"command": "bar"}}}"#);
    let result = from_json(&parse_existing_or_empty(read, "/tmp/x/config.json").unwrap());
    assert_eq!(result["mcpServers"]["foo"]["command"], "bar");
}

#[test]
fn parse_existing_or_empty_bails_on_malformed_json() {
    let path = "/tmp/x/broken.json";
    let err = match parse_existing_or_empty(file("{ this is not valid json"), path) {
        Err(e) => e,
        Ok(_) => panic!("malformed JSON was accepted"),
    };
    assert!(err.contains("appears to be corrupt"), "expected 'corrupt' message, got: {err}");
    assert!(err.contains("Refusing to overwrite"), "expected refusal message, got: {err}");
    assert!(err.contains(path), "expected the path to be mentioned in the error, got: {err}");
}

#[test]
fn parse_existing_or_empty_handles_empty_file_as_corrupt() {
    let err = match parse_existing_or_empty(file(""), "/tmp/x/empty.json") {
        Err(e) => e,
        Ok(_) => panic!("empty file was accepted"),
    };
    assert!(err.contains("appears to be corrupt"));
}

#[test]
fn parse_existing_or_empty_accepts_empty_object() {
    let result = parse_existing_or_empty(file("{}"), "/tmp/x/empty-obj.json").unwrap();
    assert_eq!(from_json(&result), value("{}"));
}

#[test]
fn unreadable_file_reports_the_read_error() {
    let err = match existing_or_empty(ConfigRead::Unreadable("permission denied".into()), "/x") {
        Err(e) => e,
        Ok(_) => panic!("unreadable file was accepted"),
    };
    assert_eq!(err, "permission denied");
}

#[test]
fn corrupt_message_is_exact() {
    let err = match existing_or_empty(ConfigRead::Malformed("EOF at line 1".into()), "/h/.agent.json") {
        Err(e) => e,
        Ok(_) => panic!(),
    };
    assert_eq!(
        err,
        "/h/.agent.json appears to be corrupt and cannot be parsed: EOF at line 1. Refusing to \
         overwrite. Fix or back up the file manually before retrying."
    );
}

#[test]
fn server_entry_is_the_uv_command() {
    let e = from_json(&server_entry("/opt/mcp"));
    assert_eq!(
        e,
        value(r#"{"type": "stdio", "command": "uv", "args": ["--directory", "/opt/mcp", "run", "python", "server.py"]}"#)
    );
}

#[test]
fn register_keeps_other_servers_and_settings() {
    let cfg = doc(r#"{"theme": "dark", "mcpServers": {"foo": {"command": "bar"}}}"#);
    let out = from_json(&register_server(cfg, "/opt/mcp"));
    assert_eq!(out["theme"], "dark");
    assert_eq!(out["mcpServers"]["foo"]["command"], "bar");
    assert_eq!(out["mcpServers"]["portsage"]["command"], "uv");
    assert_eq!(out["mcpServers"]["portsage"]["args"][1], "/opt/mcp");
}

#[test]
fn register_into_null_and_empty() {
    let out = register_server(Json::Null, "/m");
    assert!(is_server_registered(&out));
    let out = from_json(&register_server(doc(r#"{"mcpServers": null}"#), "/m"));
    assert_eq!(out["mcpServers"]["portsage"]["type"], "stdio");
}

#[test]
fn registered_after_register_and_not_after_unregister() {
    let cfg = doc(r#"{"mcpServers": {"foo": {"command": "bar"}}}"#);
    assert!(!is_server_registered(&cfg));
    let cfg = register_server(cfg, "/m");
    assert!(is_server_registered(&cfg));
    let cfg = unregister_server(cfg);
    assert!(!is_server_registered(&cfg));
    assert_eq!(from_json(&cfg), value(r#"{"mcpServers": {"foo": {"command": "bar"}}}"#));
}

#[test]
fn register_twice_is_register_once() {
    let once = from_json(&register_server(doc(r#"{"a": 1}"#), "/m"));
    let twice = from_json(&register_server(register_server(doc(r#"{"a": 1}"#), "/m"), "/m"));
    assert_eq!(once, twice);
}

#[test]
fn unregister_adds_null_servers_when_missing() {
    let out = from_json(&unregister_server(doc(r#"{"x": true}"#)));
    assert_eq!(out, value(r#"{"x": true, "mcpServers": null}"#));
    let out = from_json(&unregister_server(doc(r#"{"mcpServers": 3}"#)));
    assert_eq!(out, value(r#"{"mcpServers": 3}"#));
}

#[test]
fn check_reads_portsage_object_only() {
    let cfg = doc(r#"{"mcpServers": {"portsage": "not an object"}}"#);
    assert!(!is_server_registered(&cfg));
    let cfg = doc(r#"[1, 2]"#);
    assert!(!is_server_registered(&cfg));
}

fn allow_of(s: &Json) -> serde_json::Value {
    from_json(s)["permissions"]["allow"].clone()
}

#[test]
fn grant_appends_missing_tools_and_keeps_user_entries() {
    let s = doc(
        r#"{"permissions": {"allow": ["Bash(ls)", 7, "mcp__portsage__list_all"], "deny": ["x"]}}"#,
    );
    let out = grant_tools(s);
    assert_eq!(
        allow_of(&out),
        value(
            r#"["Bash(ls)", "mcp__portsage__list_all", "mcp__portsage__reserve_range",
                "mcp__portsage__register_port", "mcp__portsage__release_project",
                "mcp__portsage__scan_active"]"#
        )
    );
    assert_eq!(from_json(&out)["permissions"]["deny"], value(r#"["x"]"#));
}

#[test]
fn grant_is_idempotent() {
    let once = grant_tools(doc(r#"{}"#));
    let first = allow_of(&once);
    let twice = grant_tools(once);
    assert_eq!(allow_of(&twice), first);
    assert_eq!(first.as_array().unwrap().len(), tool_names().len());
}

#[test]
fn revoke_after_grant_restores_user_entries() {
    let s = doc(r#"{"permissions": {"allow": ["Bash(ls)", "Read"]}}"#);
    let out = revoke_tools(grant_tools(s));
    assert_eq!(allow_of(&out), value(r#"["Bash(ls)", "Read"]"#));
}

#[test]
fn revoke_keeps_non_strings_and_adds_null_allow_when_missing() {
    let s = doc(r#"{"permissions": {"allow": [1, "mcp__portsage__x", "keep"]}}"#);
    assert_eq!(allow_of(&revoke_tools(s)), value(r#"[1, "keep"]"#));
    let s = doc(r#"{}"#);
    assert_eq!(from_json(&revoke_tools(s)), value(r#"{"permissions": {"allow": null}}"#));
}

#[test]
fn members_are_found_by_name() {
    let j = doc(r#"{"a": {"b": "c"}}"#);
    assert!(get(&j, "a").is_some());
    assert!(get(&j, "b").is_none());
    assert!(get(&Json::Null, "a").is_none());
}

#[test]
fn grant_twice_is_grant_once_on_documents() {
    let start = r#"{"permissions": {"allow": ["Read", 3], "deny": []}, "model": "x"}"#;
    let once = from_json(&grant_tools(doc(start)));
    let twice = from_json(&grant_tools(grant_tools(doc(start))));
    assert_eq!(once, twice);
}

#[test]
fn install_then_uninstall_restores_both_files() {
    let config = r#"{"theme": "dark", "mcpServers": {"foo": {"command": "bar"}}}"#;
    let settings = r#"{"permissions": {"allow": ["Bash(ls)", "Read"], "deny": ["x"]}, "env": {}}"#;
    let c = unregister_server(register_server(doc(config), "/m"));
    assert_eq!(from_json(&c), value(config));
    let s = revoke_tools(grant_tools(doc(settings)));
    assert_eq!(from_json(&s), value(settings));
}

#[test]
fn parsed_documents_keep_every_member() {
    let j = doc(r#"{"a": [1, 2.5, null, true], "b": {"c": "d"}}"#);
    assert_eq!(from_json(&j), value(r#"{"a": [1, 2.5, null, true], "b": {"c": "d"}}"#));
}

#[test]
fn parse_config_reports_the_parser_message() {
    let err = parse_config("{ nope").unwrap_err();
    let expected = serde_json::from_str::<serde_json::Value>("{ nope").unwrap_err().to_string();
    assert_eq!(err, expected);
}

#[test]
fn malformed_file_message_carries_the_parser_message() {
    let parser = serde_json::from_str::<serde_json::Value>("[1,").unwrap_err().to_string();
    let err = parse_existing_or_empty(file("[1,"), "/h/s.json").unwrap_err();
    assert_eq!(
        err,
        format!(
            "/h/s.json appears to be corrupt and cannot be parsed: {parser}. Refusing to \
             overwrite. Fix or back up the file manually before retrying."
        )
    );
}

#[test]
fn read_error_passes_through() {
    let err = parse_existing_or_empty(Some(Err("denied".into())), "/h/s.json").unwrap_err();
    assert_eq!(err, "denied");
}

#[test]
fn registration_read_from_text() {
    assert_eq!(server_registered_in(r#"{"mcpServers": {"portsage": {}}}"#), Ok(true));
    assert_eq!(server_registered_in(r#"{"mcpServers": {"other": {}}}"#), Ok(false));
    assert!(server_registered_in("not json").is_err());
}

#[test]
fn uv_sync_outcomes() {
    assert!(matches!(uv_sync_result(CommandRun::Missing), Err(CliMcpError::UvNotFound)));
    let ok = CommandRun::Exited { success: true, stdout: vec![], stderr: b"warn".to_vec() };
    assert!(uv_sync_result(ok).is_ok());
    let failed = CommandRun::Exited { success: false, stdout: vec![], stderr: b"no lock\xff".to_vec() };
    match uv_sync_result(failed) {
        Err(CliMcpError::UvSyncFailed { stderr }) => assert_eq!(stderr, "no lock\u{FFFD}"),
        _ => panic!("expected UvSyncFailed"),
    }
    let io = std::io::Error::new(std::io::ErrorKind::PermissionDenied, "denied");
    assert!(matches!(uv_sync_result(CommandRun::Failed(io)), Err(CliMcpError::Io(_))));
}

#[test]
fn uv_error_messages() {
    assert_eq!(
        CliMcpError::UvNotFound.describe(),
        "uv is not installed. Install it: curl -LsSf https://astral.sh/uv/install.sh | sh"
    );
    assert_eq!(CliMcpError::UvSyncFailed { stderr: "boom".into() }.describe(), "uv sync failed: boom");
}
