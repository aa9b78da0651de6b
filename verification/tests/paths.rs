use portsage::paths::{
    choose_mcp_dir, data_dir_in, db_path, install_dir, join, mcp_config_dir_in, resolve_socket_path,
    runtime_dir_in, socket_path, socket_path_in, socket_path_with, state_dir_in, McpDirChoice, Platform,
};
use std::path::Path;

fn here() -> Platform {
    Platform { linux: true, euid: 1000 }
}

fn b(s: &str) -> Vec<u8> {
    s.as_bytes().to_vec()
}

fn text(v: Vec<u8>) -> String {
    String::from_utf8(v).unwrap()
}

#[test]
fn install_dir_is_under_data_dir() {
    let d = text(install_dir());
    let d = Path::new(&d);
    assert_eq!(d.file_name().and_then(|s| s.to_str()), Some("mcp"));
    assert_eq!(
        d.parent()
            .and_then(|p| p.file_name())
            .and_then(|s| s.to_str()),
        Some("portsage")
    );
}

#[test]
fn resolve_socket_path_prefers_argv_override() {
    let p = b("/tmp/explicit.sock");
    assert_eq!(resolve_socket_path(here(), Some(p.clone()), None), p);
    assert_eq!(resolve_socket_path(here(), Some(p.clone()), Some(b("/tmp/from-env.sock"))), p);
}

#[test]
fn resolve_socket_path_uses_env_when_no_argv() {
    let got = resolve_socket_path(here(), None, Some(b("/tmp/from-env.sock")));
    assert_eq!(got, b("/tmp/from-env.sock"));
}

#[test]
fn resolve_socket_path_falls_back_to_default_socket() {
    let got = resolve_socket_path(here(), None, None);
    assert_eq!(got, socket_path(here()));
}

#[test]
fn db_path_ends_in_portsage_db() {
    let p = text(db_path());
    let p = Path::new(&p);
    assert_eq!(p.file_name().and_then(|s| s.to_str()), Some("portsage.db"));
    assert_eq!(
        p.parent()
            .and_then(|p| p.file_name())
            .and_then(|s| s.to_str()),
        Some("portsage")
    );
}

#[test]
fn socket_path_ends_in_portsage_sock() {
    // macOS, where the socket always sits in the data directory; on Linux the
    // name depends on whether the environment has a runtime directory (see
    // `socket_path_follows_platform`).
    let p = text(socket_path(Platform { linux: false, euid: 0 }));
    let p = Path::new(&p);
    assert_eq!(p.file_name().and_then(|s| s.to_str()), Some("portsage.sock"));
}

#[test]
fn join_puts_one_separator() {
    assert_eq!(join(&b("/a/b"), &b("c")), b("/a/b/c"));
    assert_eq!(join(&b("/a/b/"), &b("c")), b("/a/b/c"));
    assert_eq!(join(&b(""), &b("c")), b("c"));
    assert_eq!(join(&b("/"), &b("c")), b("/c"));
    for (base, name) in [("/a/b", "c"), ("/a/b/", "c"), ("x", "y.db")] {
        assert_eq!(text(join(&b(base), &b(name))), Path::new(base).join(name).to_str().unwrap());
    }
}

#[test]
fn join_keeps_bytes_that_are_no_utf8() {
    let base = vec![b'/', 0xff, 0xfe];
    assert_eq!(join(&base, &b("portsage")), vec![b'/', 0xff, 0xfe, b'/', b'p', b'o', b'r', b't', b's', b'a', b'g', b'e']);
    assert_eq!(data_dir_in(Some(base.clone())), join(&base, &b("portsage")));
}

#[test]
fn data_dir_defaults_to_current_directory() {
    assert_eq!(data_dir_in(None), b("./portsage"));
    assert_eq!(data_dir_in(Some(b("/home/u/.local/share"))), b("/home/u/.local/share/portsage"));
}

#[test]
fn runtime_dir_follows_platform() {
    let linux = Platform { linux: true, euid: 501 };
    let mac = Platform { linux: false, euid: 501 };
    assert_eq!(runtime_dir_in(linux, Some(b("/run/user/501")), b("/data/portsage")), b("/run/user/501/portsage"));
    assert_eq!(runtime_dir_in(linux, None, b("/data/portsage")), b("/tmp"));
    assert_eq!(runtime_dir_in(mac, Some(b("/run/user/501")), b("/data/portsage")), b("/data/portsage"));
}

#[test]
fn socket_path_follows_platform() {
    let linux = Platform { linux: true, euid: 501 };
    let mac = Platform { linux: false, euid: 501 };
    assert_eq!(
        socket_path_in(linux, Some(b("/run/user/501")), b("/d/portsage")),
        b("/run/user/501/portsage/portsage.sock")
    );
    assert_eq!(socket_path_in(linux, None, b("/d/portsage")), b("/tmp/portsage-501.sock"));
    assert_eq!(socket_path_in(Platform { linux: true, euid: 0 }, None, b("/d")), b("/tmp/portsage-0.sock"));
    assert_eq!(
        socket_path_in(Platform { linux: true, euid: u32::MAX }, None, b("/d")),
        b("/tmp/portsage-4294967295.sock")
    );
    assert_eq!(socket_path_in(mac, Some(b("/run/user/501")), b("/d/portsage")), b("/d/portsage/portsage.sock"));
}

#[test]
fn state_dir_follows_platform() {
    let linux = Platform { linux: true, euid: 0 };
    let mac = Platform { linux: false, euid: 0 };
    assert_eq!(state_dir_in(linux, Some(b("/s")), b("/d/portsage")), b("/s/portsage"));
    assert_eq!(state_dir_in(linux, None, b("/d/portsage")), b("/d/portsage"));
    assert_eq!(state_dir_in(mac, Some(b("/s")), b("/d/portsage")), b("/d/portsage"));
}

#[test]
fn socket_override_precedence() {
    let d = b("/default.sock");
    assert_eq!(socket_path_with(Some(b("/a")), Some(b("/e")), d.clone()), b("/a"));
    assert_eq!(socket_path_with(None, Some(b("/e")), d.clone()), b("/e"));
    assert_eq!(socket_path_with(None, None, d.clone()), b("/default.sock"));
}

#[test]
fn mcp_dir_prefers_bundled_then_config_then_nearest_dev() {
    assert_eq!(choose_mcp_dir(true, true, &vec![true]), McpDirChoice::CopyBundled);
    assert_eq!(choose_mcp_dir(false, true, &vec![true]), McpDirChoice::UseConfig);
    assert_eq!(choose_mcp_dir(false, false, &vec![false, true, true]), McpDirChoice::UseDev(1));
    assert_eq!(choose_mcp_dir(false, false, &vec![false, false]), McpDirChoice::NotFound);
    assert_eq!(mcp_config_dir_in(Some(b("/cfg"))), b("/cfg/portsage/mcp"));
    assert_eq!(mcp_config_dir_in(None), b("./portsage/mcp"));
}
