//! Where files live: the data directory (database, MCP files), the runtime
//! directory (the Unix socket) and the state directory, per platform, and the
//! precedence of socket overrides. A path is held as the bytes of its
//! operating-system string, so that no directory name is altered on the way.
//!
//! macOS keeps everything under the data directory
//! (`~/Library/Application Support/portsage/`). Linux follows XDG: data under
//! `$XDG_DATA_HOME/portsage`, the socket at
//! `$XDG_RUNTIME_DIR/portsage/portsage.sock` (or `/tmp/portsage-<uid>.sock`
//! without a runtime directory, so that users of one machine do not collide),
//! state under `$XDG_STATE_HOME/portsage`.

use vstd::prelude::*;
use vstd::string::*;
use vstd::utf8::{is_ascii_chars, is_ascii_chars_encode_utf8};
use crate::text::{decimal, int_text, lemma_nat_digits_ascii, nat_digits};

verus! {

/// The bytes of ASCII text.
pub open spec fn ascii_bytes(s: Seq<char>) -> Seq<u8> {
    s.map_values(|c: char| c as u8)
}

/// The byte `/`.
pub open spec fn slash() -> u8 {
    47u8
}

/// `base` joined with the relative component `name`, as `Path::join` does
/// on Unix: a `/` between them unless `base` is empty or ends with one.
pub open spec fn path_join(base: Seq<u8>, name: Seq<u8>) -> Seq<u8> {
    if base.len() == 0 || base.last() == slash() {
        base + name
    } else {
        base + seq![slash()] + name
    }
}

/// The bytes of the ASCII text `s`.
fn ascii_of(s: &str) -> (r: Vec<u8>)
    requires
        is_ascii_chars(s@),
    ensures
        r@ == ascii_bytes(s@),
{
    proof {
        is_ascii_chars_encode_utf8(s@);
    }
    let r = s.as_bytes_vec();
    assert(r@ =~= ascii_bytes(s@));
    r
}

/// `base` joined with the relative component `name`.
pub fn join(base: &Vec<u8>, name: &Vec<u8>) -> (r: Vec<u8>)
    requires
        name@.len() == 0 || name@[0] != slash(),
    ensures
        r@ == path_join(base@, name@),
{
    let mut r: Vec<u8> = Vec::new();
    let mut i: usize = 0;
    while i < base.len()
        invariant
            i <= base@.len(),
            r@ == base@.subrange(0, i as int),
        decreases base.len() - i,
    {
        r.push(base[i]);
        i = i + 1;
    }
    assert(base@.subrange(0, i as int) == base@);
    let n = base.len();
    if !(n == 0 || base[n - 1] == 47u8) {
        r.push(47u8);
    }
    let ghost start = r@;
    let mut j: usize = 0;
    while j < name.len()
        invariant
            j <= name@.len(),
            r@ == start + name@.subrange(0, j as int),
        decreases name.len() - j,
    {
        r.push(name[j]);
        j = j + 1;
    }
    assert(name@.subrange(0, j as int) == name@);
    r
}

/// What the platform is: Linux or not, and the effective user id.
#[derive(Debug, Clone, Copy, PartialEq, Eq, Structural)]
pub struct Platform {
    pub linux: bool,
    pub euid: u32,
}

/// The platform's data directory (`dirs::data_dir`), as the bytes of its
/// OS string. It depends on the platform and the environment; nothing is
/// stated of it.
#[verifier::external_body]
fn platform_data_dir() -> (r: Option<Vec<u8>>) {
    dirs::data_dir().map(|p| p.into_os_string().into_encoded_bytes())
}

/// The platform's runtime directory (`dirs::runtime_dir`), as the bytes of
/// its OS string. It depends on the platform and the environment; nothing is
/// stated of it.
#[verifier::external_body]
fn platform_runtime_dir() -> (r: Option<Vec<u8>>) {
    dirs::runtime_dir().map(|p| p.into_os_string().into_encoded_bytes())
}

/// The platform's state directory (`dirs::state_dir`), as the bytes of its
/// OS string. It depends on the platform and the environment; nothing is
/// stated of it.
#[verifier::external_body]
fn platform_state_dir() -> (r: Option<Vec<u8>>) {
    dirs::state_dir().map(|p| p.into_os_string().into_encoded_bytes())
}

/// The platform's configuration directory (`dirs::config_dir`), as the
/// bytes of its OS string. It depends on the platform and the environment;
/// nothing is stated of it.
#[verifier::external_body]
fn platform_config_dir() -> (r: Option<Vec<u8>>) {
    dirs::config_dir().map(|p| p.into_os_string().into_encoded_bytes())
}

/// `base` or, when there is none, the current directory `.`.
pub open spec fn or_current(base: Option<Vec<u8>>) -> Seq<u8> {
    match base {
        Some(b) => b@,
        None => ascii_bytes("."@),
    }
}

/// The file and directory names used here, as bytes.
fn name(s: &str) -> (r: Vec<u8>)
    requires
        is_ascii_chars(s@),
        s@.len() > 0,
        s@[0] != '/',
    ensures
        r@ == ascii_bytes(s@),
        r@.len() > 0,
        r@[0] != slash(),
{
    let r = ascii_of(s);
    assert(r@[0] == s@[0] as u8);
    assert(s@[0] as u8 != 47u8);
    r
}

proof fn lemma_names()
    ensures
        is_ascii_chars("."@),
        is_ascii_chars("portsage"@),
        "portsage"@.len() > 0 && "portsage"@[0] != '/',
        is_ascii_chars("portsage.db"@),
        "portsage.db"@.len() > 0 && "portsage.db"@[0] != '/',
        is_ascii_chars("portsage.sock"@),
        "portsage.sock"@.len() > 0 && "portsage.sock"@[0] != '/',
        is_ascii_chars("mcp"@),
        "mcp"@.len() > 0 && "mcp"@[0] != '/',
        is_ascii_chars("/tmp"@),
{
    reveal_strlit(".");
    reveal_strlit("portsage");
    reveal_strlit("portsage.db");
    reveal_strlit("portsage.sock");
    reveal_strlit("mcp");
    reveal_strlit("/tmp");
}

/// The data directory under the platform directory `base`:
/// `<base or .>/portsage`.
pub open spec fn data_dir_spec(base: Option<Vec<u8>>) -> Seq<u8> {
    path_join(or_current(base), ascii_bytes("portsage"@))
}

/// The data directory under the platform directory `base`.
pub fn data_dir_in(base: Option<Vec<u8>>) -> (r: Vec<u8>)
    ensures
        r@ == data_dir_spec(base),
{
    proof {
        lemma_names();
    }
    let b = match base {
        Some(b) => b,
        None => ascii_of("."),
    };
    join(&b, &name("portsage"))
}

/// Data directory: where the SQLite database lives.
pub fn data_dir() -> (r: Vec<u8>)
    ensures
        exists|base: Option<Vec<u8>>| r@ == #[trigger] data_dir_spec(base),
{
    let base = platform_data_dir();
    let ghost b = base;
    let r = data_dir_in(base);
    assert(r@ == data_dir_spec(b));
    r
}

/// Where the SQLite database file lives: `<data dir>/portsage.db`.
pub fn db_path() -> (r: Vec<u8>)
    ensures
        exists|base: Option<Vec<u8>>| r@ == path_join(#[trigger] data_dir_spec(base), ascii_bytes("portsage.db"@)),
{
    proof {
        lemma_names();
    }
    let d = data_dir();
    let ghost b = choose|base: Option<Vec<u8>>| d@ == #[trigger] data_dir_spec(base);
    let r = join(&d, &name("portsage.db"));
    assert(r@ == path_join(data_dir_spec(b), ascii_bytes("portsage.db"@)));
    r
}

/// Where the embedded MCP files get written: `<data dir>/mcp`. Same path as
/// the GUI install uses, so both target the same directory.
pub fn install_dir() -> (r: Vec<u8>)
    ensures
        exists|base: Option<Vec<u8>>| r@ == path_join(#[trigger] data_dir_spec(base), ascii_bytes("mcp"@)),
{
    proof {
        lemma_names();
    }
    let d = data_dir();
    let ghost b = choose|base: Option<Vec<u8>>| d@ == #[trigger] data_dir_spec(base);
    let r = join(&d, &name("mcp"));
    assert(r@ == path_join(data_dir_spec(b), ascii_bytes("mcp"@)));
    r
}

/// The socket of user `euid` when Linux has no runtime directory:
/// `/tmp/portsage-<euid>.sock`.
pub open spec fn tmp_socket(euid: u32) -> Seq<u8> {
    ascii_bytes("/tmp/portsage-"@ + int_text(euid as int) + ".sock"@)
}

/// Runtime directory: where the Unix socket lives. On Linux
/// `<runtime>/portsage`, or `/tmp` (where the fallback socket lies) without
/// a runtime directory; elsewhere the data directory `data`.
pub open spec fn runtime_dir_spec(platform: Platform, runtime: Option<Vec<u8>>, data: Seq<u8>) -> Seq<u8> {
    if platform.linux {
        match runtime {
            Some(rt) => path_join(rt@, ascii_bytes("portsage"@)),
            None => ascii_bytes("/tmp"@),
        }
    } else {
        data
    }
}

/// The default socket: `<runtime dir>/portsage.sock`, or, on Linux without a
/// runtime directory, `/tmp/portsage-<euid>.sock`.
pub open spec fn socket_path_spec(platform: Platform, runtime: Option<Vec<u8>>, data: Seq<u8>) -> Seq<u8> {
    if platform.linux && runtime is None {
        tmp_socket(platform.euid)
    } else {
        path_join(runtime_dir_spec(platform, runtime, data), ascii_bytes("portsage.sock"@))
    }
}

/// The runtime directory, from the platform's runtime directory and the data
/// directory.
pub fn runtime_dir_in(platform: Platform, runtime: Option<Vec<u8>>, data_dir: Vec<u8>) -> (r: Vec<u8>)
    ensures
        r@ == runtime_dir_spec(platform, runtime, data_dir@),
{
    proof {
        lemma_names();
    }
    if platform.linux {
        match runtime {
            Some(rt) => join(&rt, &name("portsage")),
            None => ascii_of("/tmp"),
        }
    } else {
        data_dir
    }
}

/// The runtime directory of this platform.
pub fn runtime_dir(platform: Platform) -> (r: Vec<u8>)
    ensures
        exists|runtime: Option<Vec<u8>>, base: Option<Vec<u8>>|
            r@ == #[trigger] runtime_dir_spec(platform, runtime, data_dir_spec(base)),
{
    let rt = if platform.linux {
        platform_runtime_dir()
    } else {
        None
    };
    let ghost rtg = rt;
    let d = data_dir();
    let ghost b = choose|base: Option<Vec<u8>>| d@ == #[trigger] data_dir_spec(base);
    let r = runtime_dir_in(platform, rt, d);
    assert(r@ == runtime_dir_spec(platform, rtg, data_dir_spec(b)));
    r
}

/// `/tmp/portsage-<euid>.sock` as bytes.
fn tmp_socket_of(euid: u32) -> (r: Vec<u8>)
    ensures
        r@ == tmp_socket(euid),
{
    let mut t = String::from_str("/tmp/portsage-");
    let d = decimal(euid as i64);
    t.append(d.as_str());
    t.append(".sock");
    proof {
        reveal_strlit("/tmp/portsage-");
        reveal_strlit(".sock");
        lemma_nat_digits_ascii(euid as nat);
        assert(int_text(euid as int) == nat_digits(euid as nat));
        let whole = "/tmp/portsage-"@ + int_text(euid as int) + ".sock"@;
        assert(t@ == whole);
        assert forall|i: int| 0 <= i < whole.len() implies '\0' <= #[trigger] whole[i] <= '\u{7f}' by {
            let a = "/tmp/portsage-"@;
            let n = int_text(euid as int);
            if i < a.len() {
                assert(whole[i] == a[i]);
            } else if i < a.len() + n.len() {
                assert(whole[i] == n[i - a.len()]);
            } else {
                assert(whole[i] == ".sock"@[i - a.len() - n.len()]);
            }
        }
    }
    ascii_of(t.as_str())
}

/// The default socket, from the platform's runtime directory and the data
/// directory.
pub fn socket_path_in(platform: Platform, runtime: Option<Vec<u8>>, data_dir: Vec<u8>) -> (r: Vec<u8>)
    ensures
        r@ == socket_path_spec(platform, runtime, data_dir@),
{
    proof {
        lemma_names();
    }
    if platform.linux && runtime.is_none() {
        tmp_socket_of(platform.euid)
    } else {
        let dir = runtime_dir_in(platform, runtime, data_dir);
        join(&dir, &name("portsage.sock"))
    }
}

/// Default location of the Unix socket. The headless server may override
/// this; see [`resolve_socket_path`].
pub fn socket_path(platform: Platform) -> (r: Vec<u8>)
    ensures
        exists|runtime: Option<Vec<u8>>, base: Option<Vec<u8>>|
            r@ == #[trigger] socket_path_spec(platform, runtime, data_dir_spec(base)),
{
    let rt = if platform.linux {
        platform_runtime_dir()
    } else {
        None
    };
    let ghost rtg = rt;
    let d = data_dir();
    let ghost b = choose|base: Option<Vec<u8>>| d@ == #[trigger] data_dir_spec(base);
    let r = socket_path_in(platform, rt, d);
    assert(r@ == socket_path_spec(platform, rtg, data_dir_spec(b)));
    r
}

/// State directory (logs, caches): on Linux `<state>/portsage`, falling back
/// to the data directory `data`; elsewhere the data directory.
pub open spec fn state_dir_spec(platform: Platform, state: Option<Vec<u8>>, data: Seq<u8>) -> Seq<u8> {
    match (platform.linux, state) {
        (true, Some(s)) => path_join(s@, ascii_bytes("portsage"@)),
        _ => data,
    }
}

/// The state directory, from the platform's state directory and the data
/// directory.
pub fn state_dir_in(platform: Platform, state: Option<Vec<u8>>, data_dir: Vec<u8>) -> (r: Vec<u8>)
    ensures
        r@ == state_dir_spec(platform, state, data_dir@),
{
    proof {
        lemma_names();
    }
    if platform.linux {
        match state {
            Some(s) => join(&s, &name("portsage")),
            None => data_dir,
        }
    } else {
        data_dir
    }
}

/// The state directory of this platform.
pub fn state_dir(platform: Platform) -> (r: Vec<u8>)
    ensures
        exists|state: Option<Vec<u8>>, base: Option<Vec<u8>>|
            r@ == #[trigger] state_dir_spec(platform, state, data_dir_spec(base)),
{
    let st = if platform.linux {
        platform_state_dir()
    } else {
        None
    };
    let ghost stg = st;
    let d = data_dir();
    let ghost b = choose|base: Option<Vec<u8>>| d@ == #[trigger] data_dir_spec(base);
    let r = state_dir_in(platform, st, d);
    assert(r@ == state_dir_spec(platform, stg, data_dir_spec(b)));
    r
}

/// The socket path with overrides applied, highest first: the `--socket`
/// argument, then the `PORTSAGE_SOCKET` environment value, then `default`.
pub fn socket_path_with(argv_override: Option<Vec<u8>>, env_override: Option<Vec<u8>>, default: Vec<u8>) -> (r:
    Vec<u8>)
    ensures
        r@ == match (argv_override, env_override) {
            (Some(a), _) => a@,
            (None, Some(e)) => e@,
            (None, None) => default@,
        },
{
    match argv_override {
        Some(a) => a,
        None => match env_override {
            Some(e) => e,
            None => default,
        },
    }
}

/// Resolve the socket path with overrides applied: the `--socket` argument,
/// then the `PORTSAGE_SOCKET` value, then the platform's default socket.
pub fn resolve_socket_path(platform: Platform, argv_override: Option<Vec<u8>>, env_override: Option<Vec<u8>>) -> (r:
    Vec<u8>)
    ensures
        argv_override matches Some(a) ==> r@ == a@,
        argv_override is None && env_override is Some ==> r@ == env_override->0@,
        argv_override is None && env_override is None ==> exists|runtime: Option<Vec<u8>>, base: Option<Vec<u8>>|
            r@ == #[trigger] socket_path_spec(platform, runtime, data_dir_spec(base)),
{
    match argv_override {
        Some(a) => a,
        None => match env_override {
            Some(e) => e,
            None => socket_path(platform),
        },
    }
}

/// The directory for the MCP files beside the configuration:
/// `<config dir or .>/portsage/mcp`.
pub fn mcp_config_dir_in(config: Option<Vec<u8>>) -> (r: Vec<u8>)
    ensures
        r@ == path_join(path_join(or_current(config), ascii_bytes("portsage"@)), ascii_bytes("mcp"@)),
{
    proof {
        lemma_names();
    }
    let c = match config {
        Some(c) => c,
        None => ascii_of("."),
    };
    let base = join(&c, &name("portsage"));
    join(&base, &name("mcp"))
}

/// The MCP directory beside this platform's configuration.
pub fn mcp_config_dir() -> (r: Vec<u8>)
    ensures
        exists|config: Option<Vec<u8>>|
            r@ == path_join(path_join(#[trigger] or_current(config), ascii_bytes("portsage"@)), ascii_bytes("mcp"@)),
{
    let c = platform_config_dir();
    let ghost cg = c;
    let r = mcp_config_dir_in(c);
    assert(r@ == path_join(path_join(or_current(cg), ascii_bytes("portsage"@)), ascii_bytes("mcp"@)));
    r
}

/// Which MCP directory the app uses.
#[derive(Debug, Clone, Copy, PartialEq, Eq, Structural)]
pub enum McpDirChoice {
    /// Copy the bundled files over the configuration directory and use it.
    CopyBundled,
    /// Use the configuration directory as it is.
    UseConfig,
    /// Use the `mcp` directory beside the ancestor of the executable at this
    /// position (nearest first).
    UseDev(usize),
    /// No MCP files anywhere.
    NotFound,
}

/// `r` is the choice of MCP directory: the bundled resources when they hold
/// the server (so that upgrades reach users with an older copy), else an
/// existing copy in the configuration directory, else the nearest ancestor of
/// the executable with an `mcp/server.py`, else none.
pub open spec fn is_mcp_dir_choice(r: McpDirChoice, bundled: bool, config: bool, dev: Seq<bool>) -> bool {
    if bundled {
        r == McpDirChoice::CopyBundled
    } else if config {
        r == McpDirChoice::UseConfig
    } else {
        match r {
            McpDirChoice::UseDev(i) => i < dev.len() && dev[i as int] && forall|j: int|
                0 <= j < i ==> !dev[j],
            McpDirChoice::NotFound => forall|j: int| 0 <= j < dev.len() ==> !dev[j],
            _ => false,
        }
    }
}

/// Chooses the MCP directory from whether the bundled resources and the
/// configuration directory hold `server.py`, and, for each ancestor of the
/// executable, nearest first, whether it holds `mcp/server.py`.
pub fn choose_mcp_dir(bundled_has_server: bool, config_has_server: bool, dev_has_server: &Vec<bool>) -> (r:
    McpDirChoice)
    ensures
        is_mcp_dir_choice(r, bundled_has_server, config_has_server, dev_has_server@),
{
    if bundled_has_server {
        return McpDirChoice::CopyBundled;
    }
    if config_has_server {
        return McpDirChoice::UseConfig;
    }
    let mut i: usize = 0;
    while i < dev_has_server.len()
        invariant
            !bundled_has_server,
            !config_has_server,
            i <= dev_has_server@.len(),
            forall|j: int| 0 <= j < i ==> !dev_has_server@[j],
        decreases dev_has_server.len() - i,
    {
        if dev_has_server[i] {
            return McpDirChoice::UseDev(i);
        }
        i = i + 1;
    }
    McpDirChoice::NotFound
}

/// The files copied from the bundled resources, each only where it exists.
pub fn bundled_mcp_files() -> (r: Vec<&'static str>)
    ensures
        r@.map_values(|s: &str| s@) == seq!["server.py"@, "pyproject.toml"@, "SKILL.md"@],
{
    let r = vec!["server.py", "pyproject.toml", "SKILL.md"];
    assert(r@.map_values(|s: &str| s@) =~= seq!["server.py"@, "pyproject.toml"@, "SKILL.md"@]);
    r
}

} // verus!
