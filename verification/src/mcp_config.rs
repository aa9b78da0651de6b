//! The edits that register the portsage MCP server with the coding agent and
//! grant or revoke its tool permissions, on the parsed JSON of the agent's
//! configuration file and of its settings file, and the read policy for those
//! files: a missing file counts as an empty object, a malformed one is
//! refused.

use vstd::prelude::*;
use crate::json::{
    Json, are_strs, get, json_lookup, json_parse, member, parse_json_text, member_is_object, set_member, settable, str_items,
    string_items, take_member, remove_member, well_keyed,
};
use crate::collections::reversed;
use crate::self_update::{CommandRun, io_error_text, lossy_decode, lossy_text};
use crate::text::{has_prefix, same_text, starts_with};

verus! {

broadcast use vstd::string::group_string_axioms;

/// The tools of the portsage MCP server that the editor is allowed to call.
pub open spec fn portsage_tools() -> Seq<Seq<char>> {
    seq![
        "mcp__portsage__list_all"@,
        "mcp__portsage__reserve_range"@,
        "mcp__portsage__register_port"@,
        "mcp__portsage__release_project"@,
        "mcp__portsage__scan_active"@,
    ]
}

/// The prefix shared by the names of all portsage tools.
pub open spec fn tool_prefix() -> Seq<char> {
    "mcp__portsage__"@
}

/// `cur` followed by each of `tools`, in order, that is not in it yet.
pub open spec fn merge_allow(cur: Seq<Seq<char>>, tools: Seq<Seq<char>>) -> Seq<Seq<char>>
    decreases tools.len(),
{
    if tools.len() == 0 {
        cur
    } else {
        let next = if cur.contains(tools[0]) {
            cur
        } else {
            cur.push(tools[0])
        };
        merge_allow(next, tools.drop_first())
    }
}

/// The command line that starts the server from `dir`.
pub open spec fn server_args(dir: Seq<char>) -> Seq<Seq<char>> {
    seq!["--directory"@, dir, "run"@, "python"@, "server.py"@]
}

/// `e` is the editor's entry for the portsage server installed in `dir`:
/// `{"type": "stdio", "command": "uv", "args": [...]}` and nothing else.
pub open spec fn is_server_entry(e: Json, dir: Seq<char>) -> bool {
    &&& e is Object
    &&& well_keyed(e)
    &&& json_lookup(e, "type"@) matches Some(Json::Str(t)) && t@ == "stdio"@
    &&& json_lookup(e, "command"@) matches Some(Json::Str(c)) && c@ == "uv"@
    &&& json_lookup(e, "args"@) matches Some(Json::Array(a)) && are_strs(a@, server_args(dir))
    &&& forall|k: Seq<char>|
        k != "type"@ && k != "command"@ && k != "args"@ ==> #[trigger] json_lookup(e, k) is None
}

/// `after` is `before` with member `outer` replaced by an object whose
/// members are those of `before.outer` but for member `inner`, for which
/// `inner_ok` holds.
pub open spec fn replaces_nested(
    before: Json,
    after: Json,
    outer: Seq<char>,
    inner: Seq<char>,
    inner_ok: spec_fn(Option<Json>) -> bool,
) -> bool {
    &&& after is Object
    &&& forall|k: Seq<char>| k != outer ==> #[trigger] json_lookup(after, k) == json_lookup(before, k)
    &&& json_lookup(after, outer) matches Some(o) && {
        &&& o is Object
        &&& forall|k: Seq<char>|
            k != inner ==> #[trigger] json_lookup(o, k) == json_lookup(member(before, outer), k)
        &&& inner_ok(json_lookup(o, inner))
    }
}

/// `after` is the editor configuration `before` with the portsage server,
/// installed in `dir`, registered under `mcpServers`.
pub open spec fn registers_server(before: Json, after: Json, dir: Seq<char>) -> bool {
    replaces_nested(
        before,
        after,
        "mcpServers"@,
        "portsage"@,
        |v: Option<Json>| v matches Some(e) && is_server_entry(e, dir),
    )
}

/// The portsage server is registered in the editor configuration `cfg`.
pub open spec fn server_registered(cfg: Json) -> bool {
    member(member(cfg, "mcpServers"@), "portsage"@) is Object
}

/// `after` is `before` with the portsage server taken out of `mcpServers`.
/// A member `mcpServers` that is missing is added as `null`; one that is no
/// object is left as it is.
pub open spec fn unregisters_server(before: Json, after: Json) -> bool {
    let servers = member(before, "mcpServers"@);
    &&& after is Object
    &&& forall|k: Seq<char>|
        k != "mcpServers"@ ==> #[trigger] json_lookup(after, k) == json_lookup(before, k)
    &&& if servers is Object {
        json_lookup(after, "mcpServers"@) matches Some(o) && {
            &&& o is Object
            &&& json_lookup(o, "portsage"@) is None
            &&& forall|k: Seq<char>|
                k != "portsage"@ ==> #[trigger] json_lookup(o, k) == json_lookup(servers, k)
        }
    } else {
        json_lookup(after, "mcpServers"@) == Some(servers)
    }
}

/// The allowed tools that the settings `s` list: the strings of
/// `permissions.allow` when it is an array, else none.
pub open spec fn existing_allow(s: Json) -> Seq<Seq<char>> {
    match member(member(s, "permissions"@), "allow"@) {
        Json::Array(items) => str_items(items@),
        _ => Seq::empty(),
    }
}

/// `after` is the settings `before` with every portsage tool allowed.
pub open spec fn grants_tools(before: Json, after: Json) -> bool {
    replaces_nested(
        before,
        after,
        "permissions"@,
        "allow"@,
        |v: Option<Json>|
            v matches Some(Json::Array(items)) && are_strs(
                items@,
                merge_allow(existing_allow(before), portsage_tools()),
            ),
    )
}

/// An item of the allow list that revoking keeps: anything but a string
/// naming a portsage tool.
pub open spec fn kept_on_revoke(item: Json) -> bool {
    match item {
        Json::Str(s) => !starts_with(s@, tool_prefix()),
        _ => true,
    }
}

/// `after` is the settings `before` with every portsage tool taken out of
/// `permissions.allow`, when that is an array; a missing `permissions` or
/// `allow` is added as `null` on the way, as a write through them does.
pub open spec fn revokes_tools(before: Json, after: Json) -> bool {
    let allow = member(member(before, "permissions"@), "allow"@);
    replaces_nested(
        before,
        after,
        "permissions"@,
        "allow"@,
        |v: Option<Json>|
            match allow {
                Json::Array(items) => v matches Some(Json::Array(kept)) && kept@ == items@.filter(
                    |x: Json| kept_on_revoke(x),
                ),
                _ => v == Some(allow),
            },
    )
}

/// A string item.
fn text_item(s: &str) -> (r: Json)
    ensures
        r matches Json::Str(t) && t@ == s@,
{
    Json::Str(String::from_str(s))
}

/// The names of the portsage tools.
pub fn tool_names() -> (r: Vec<&'static str>)
    ensures
        r@.map_values(|s: &str| s@) == portsage_tools(),
{
    let r = vec![
        "mcp__portsage__list_all",
        "mcp__portsage__reserve_range",
        "mcp__portsage__register_port",
        "mcp__portsage__release_project",
        "mcp__portsage__scan_active",
    ];
    assert(r@.map_values(|s: &str| s@) =~= portsage_tools());
    r
}

/// The editor's entry for the portsage server installed in `dir`.
pub fn server_entry(dir: &str) -> (e: Json)
    ensures
        is_server_entry(e, dir@),
{
    let mut args: Vec<Json> = Vec::new();
    args.push(text_item("--directory"));
    args.push(text_item(dir));
    args.push(text_item("run"));
    args.push(text_item("python"));
    args.push(text_item("server.py"));
    assert(are_strs(args@, server_args(dir@)));
    let e1 = set_member(Json::Null, "type", text_item("stdio"));
    let e2 = set_member(e1, "command", text_item("uv"));
    let ghost a = Json::Array(args);
    let e3 = set_member(e2, "args", Json::Array(args));
    proof {
        reveal_strlit("type");
        reveal_strlit("command");
        reveal_strlit("args");
        assert("command"@.len() != "args"@.len());
        assert("type"@[0] != "args"@[0]);
        assert("type"@.len() != "command"@.len());
        assert(json_lookup(e3, "args"@) == Some(a));
        assert(json_lookup(e3, "command"@) == json_lookup(e2, "command"@));
        assert(json_lookup(e3, "type"@) == json_lookup(e2, "type"@));
        assert(json_lookup(e2, "type"@) == json_lookup(e1, "type"@));
    }
    e3
}

/// Registers the portsage server installed in `mcp_dir` in the editor
/// configuration `cfg` (`cfg["mcpServers"]["portsage"] = entry`).
pub fn register_server(cfg: Json, mcp_dir: &str) -> (r: Json)
    requires
        settable(cfg),
        settable(member(cfg, "mcpServers"@)),
    ensures
        registers_server(cfg, r, mcp_dir@),
        well_keyed(cfg) ==> well_keyed(r),
        well_keyed(member(cfg, "mcpServers"@)) ==> well_keyed(member(r, "mcpServers"@)),
{
    let (top, servers) = take_member(cfg, "mcpServers");
    let entry = server_entry(mcp_dir);
    let ghost e = entry;
    let servers2 = set_member(servers, "portsage", entry);
    let ghost s2 = servers2;
    let r = set_member(top, "mcpServers", servers2);
    assert(json_lookup(r, "mcpServers"@) == Some(s2));
    assert(json_lookup(s2, "portsage"@) == Some(e));
    r
}

/// Whether the editor configuration `cfg` registers the portsage server
/// (`cfg["mcpServers"]["portsage"]` is an object).
pub fn is_server_registered(cfg: &Json) -> (r: bool)
    ensures
        r == server_registered(*cfg),
{
    match get(cfg, "mcpServers") {
        Some(servers) => member_is_object(servers, "portsage"),
        None => false,
    }
}

/// Takes the portsage server out of the editor configuration `cfg`
/// (`cfg["mcpServers"].as_object_mut()` then `remove("portsage")`).
pub fn unregister_server(cfg: Json) -> (r: Json)
    requires
        settable(cfg),
    ensures
        unregisters_server(cfg, r),
        well_keyed(cfg) ==> well_keyed(r),
        well_keyed(member(cfg, "mcpServers"@)) ==> well_keyed(member(r, "mcpServers"@)),
{
    let (top, servers) = take_member(cfg, "mcpServers");
    let servers2 = match servers {
        Json::Object(es) => remove_member(Json::Object(es), "portsage"),
        other => other,
    };
    let ghost s2 = servers2;
    let r = set_member(top, "mcpServers", servers2);
    assert(json_lookup(r, "mcpServers"@) == Some(s2));
    r
}

/// Whether `list` holds a string equal to `s`.
fn list_has(list: &Vec<String>, s: &str) -> (r: bool)
    ensures
        r == list@.map_values(|t: String| t@).contains(s@),
{
    let ghost view = list@.map_values(|t: String| t@);
    let mut i: usize = 0;
    while i < list.len()
        invariant
            view == list@.map_values(|t: String| t@),
            i <= list.len(),
            forall|j: int| 0 <= j < i ==> view[j] != s@,
        decreases list.len() - i,
    {
        if same_text(list[i].as_str(), s) {
            assert(view[i as int] == s@);
            return true;
        }
        i = i + 1;
    }
    false
}

/// `merge_allow` over `tools` from position `i` on.
proof fn lemma_merge_step(cur: Seq<Seq<char>>, tools: Seq<Seq<char>>, i: int)
    requires
        0 <= i < tools.len(),
    ensures
        merge_allow(cur, tools.subrange(i, tools.len() as int)) == merge_allow(
            if cur.contains(tools[i]) {
                cur
            } else {
                cur.push(tools[i])
            },
            tools.subrange(i + 1, tools.len() as int),
        ),
{
    let rest = tools.subrange(i, tools.len() as int);
    assert(rest[0] == tools[i]);
    assert(rest.drop_first() == tools.subrange(i + 1, tools.len() as int));
}

/// Allows every portsage tool in the settings `settings`: the strings of
/// `permissions.allow` stay in order, each missing tool is appended, and the
/// list is written back (`settings["permissions"]["allow"] = list`).
pub fn grant_tools(settings: Json) -> (r: Json)
    requires
        settable(settings),
        settable(member(settings, "permissions"@)),
    ensures
        grants_tools(settings, r),
        well_keyed(settings) ==> well_keyed(r),
        well_keyed(member(settings, "permissions"@)) ==> well_keyed(member(r, "permissions"@)),
{
    let (top, perms) = take_member(settings, "permissions");
    let (perms1, allow) = take_member(perms, "allow");
    let mut list: Vec<String> = match &allow {
        Json::Array(items) => string_items(items),
        _ => Vec::new(),
    };
    let ghost start = list@.map_values(|t: String| t@);
    assert(start == existing_allow(settings));
    let tools = tool_names();
    let ghost tv = tools@.map_values(|s: &str| s@);
    let mut i: usize = 0;
    assert(tv.subrange(0, tv.len() as int) == tv);
    while i < tools.len()
        invariant
            tv == tools@.map_values(|s: &str| s@),
            i <= tools.len(),
            merge_allow(list@.map_values(|t: String| t@), tv.subrange(i as int, tv.len() as int))
                == merge_allow(start, tv),
        decreases tools.len() - i,
    {
        let t = tools[i];
        proof {
            lemma_merge_step(list@.map_values(|t: String| t@), tv, i as int);
        }
        let ghost before = list@;
        if !list_has(&list, t) {
            list.push(String::from_str(t));
            assert(list@.map_values(|t: String| t@) =~= before.map_values(|t: String| t@).push(tv[i as int]));
        }
        i = i + 1;
    }
    assert(tv.subrange(i as int, tv.len() as int) == Seq::<Seq<char>>::empty());
    let ghost merged = list@.map_values(|t: String| t@);
    let mut items: Vec<Json> = Vec::new();
    let mut j: usize = 0;
    while j < list.len()
        invariant
            merged == list@.map_values(|t: String| t@),
            j <= list.len(),
            are_strs(items@, merged.subrange(0, j as int)),
        decreases list.len() - j,
    {
        items.push(text_item(list[j].as_str()));
        j = j + 1;
    }
    assert(merged.subrange(0, j as int) == merged);
    let ghost new_allow = Json::Array(items);
    let perms2 = set_member(perms1, "allow", Json::Array(items));
    let ghost p2 = perms2;
    let r = set_member(top, "permissions", perms2);
    assert(json_lookup(r, "permissions"@) == Some(p2));
    assert(json_lookup(p2, "allow"@) == Some(new_allow));
    r
}

/// Takes every portsage tool out of `permissions.allow` in the settings
/// `settings`, when that is an array (`retain` of the items that are no
/// string starting with `mcp__portsage__`).
pub fn revoke_tools(settings: Json) -> (r: Json)
    requires
        settable(settings),
        settable(member(settings, "permissions"@)),
    ensures
        revokes_tools(settings, r),
        well_keyed(settings) ==> well_keyed(r),
        well_keyed(member(settings, "permissions"@)) ==> well_keyed(member(r, "permissions"@)),
{
    let (top, perms) = take_member(settings, "permissions");
    let (perms1, allow) = take_member(perms, "allow");
    let allow2 = match allow {
        Json::Array(items) => {
            let mut kept: Vec<Json> = Vec::new();
            let ghost all = items@;
            let n = items.len();
            let mut back = reversed(items);
            let mut i: usize = 0;
            proof {
                reveal_with_fuel(Seq::<_>::filter, 1);
                assert(all.subrange(0, 0).len() == 0);
            }
            while back.len() > 0
                invariant
                    n == all.len(),
                    i + back@.len() == all.len(),
                    forall|t: int| 0 <= t < back@.len() ==> back@[t] == all[all.len() - 1 - t],
                    kept@ == all.subrange(0, i as int).filter(|x: Json| kept_on_revoke(x)),
                decreases back.len(),
            {
                let e = back.pop().unwrap();
                assert(e == all[i as int]);
                let keep = match &e {
                    Json::Str(s) => !has_prefix(s.as_str(), "mcp__portsage__"),
                    _ => true,
                };
                assert(all.subrange(0, i + 1).drop_last() == all.subrange(0, i as int));
                assert(keep == kept_on_revoke(e));
                proof {
                    reveal_with_fuel(Seq::<_>::filter, 1);
                    assert(all.subrange(0, i + 1).last() == e);
                }
                if keep {
                    kept.push(e);
                }
                assert(kept@ == all.subrange(0, i + 1).filter(|x: Json| kept_on_revoke(x)));
                i = i + 1;
            }
            assert(all.subrange(0, i as int) == all);
            Json::Array(kept)
        },
        other => other,
    };
    let ghost a2 = allow2;
    let perms2 = set_member(perms1, "allow", allow2);
    let ghost p2 = perms2;
    let r = set_member(top, "permissions", perms2);
    assert(json_lookup(r, "permissions"@) == Some(p2));
    assert(json_lookup(p2, "allow"@) == Some(a2));
    r
}

/// Revoking takes out of `permissions.allow` exactly the strings that begin
/// with `mcp__portsage__`: every other item, the tools of other servers
/// among them, stays, in its order.
pub proof fn law_revoke_removes_only_portsage(before: Json, after: Json, items: Vec<Json>)
    requires
        revokes_tools(before, after),
        member(member(before, "permissions"@), "allow"@) == Json::Array(items),
    ensures
        member(member(after, "permissions"@), "allow"@) matches Json::Array(kept) && kept@
            == items@.filter(
            |x: Json| !(x matches Json::Str(s) && s@.len() >= 15 && s@.subrange(0, 15) == "mcp__portsage__"@),
        ),
{
    reveal_strlit("mcp__portsage__");
    let o = json_lookup(after, "permissions"@)->0;
    assert(member(after, "permissions"@) == o);
    let v = json_lookup(o, "allow"@)->0;
    assert(member(o, "allow"@) == v);
    let f1 = |x: Json| kept_on_revoke(x);
    let f2 = |x: Json| !(x matches Json::Str(s) && s@.len() >= 15 && s@.subrange(0, 15) == "mcp__portsage__"@);
    assert(f1 =~= f2);
}

/// What came of reading one of the editor's JSON files.
pub enum ConfigRead {
    /// There is no file at the path.
    Missing,
    /// The file is there but could not be read; the error's text.
    Unreadable(String),
    /// The file was read but is no JSON; the parser's message.
    Malformed(String),
    /// The file holds this JSON.
    Parsed(Json),
}

/// The message that refuses to overwrite the malformed file at `path`.
pub open spec fn corrupt_message(path: Seq<char>, reason: Seq<char>) -> Seq<char> {
    path + " appears to be corrupt and cannot be parsed: "@ + reason
        + ". Refusing to overwrite. Fix or back up the file manually before retrying."@
}

/// The JSON to start an edit from, given what reading the file at `path`
/// gave: an empty object when there is no file, the document when it parses,
/// and an error otherwise, so that a broken file is never overwritten.
pub fn existing_or_empty(read: ConfigRead, path: &str) -> (r: Result<Json, String>)
    ensures
        match read {
            ConfigRead::Missing => r matches Ok(Json::Object(es)) && es@.len() == 0,
            ConfigRead::Unreadable(e) => r matches Err(m) && m@ == e@,
            ConfigRead::Malformed(e) => r matches Err(m) && m@ == corrupt_message(path@, e@),
            ConfigRead::Parsed(j) => r == Ok::<Json, String>(j),
        },
{
    match read {
        ConfigRead::Missing => Ok(Json::Object(Vec::new())),
        ConfigRead::Unreadable(e) => Err(e),
        ConfigRead::Malformed(e) => {
            let mut m = String::from_str(path);
            m.append(" appears to be corrupt and cannot be parsed: ");
            m.append(e.as_str());
            m.append(
                ". Refusing to overwrite. Fix or back up the file manually before retrying.",
            );
            Err(m)
        },
        ConfigRead::Parsed(j) => Ok(j),
    }
}


/// The JSON to start an edit from, given what reading the file at `path`
/// gave (`None` when there is no file, else the text or the read error's
/// text): an empty object when there is no file, the document when the text
/// parses, and an error otherwise, so that a broken file is never
/// overwritten.
pub fn parse_existing_or_empty(content: Option<Result<String, String>>, path: &str) -> (r: Result<
    Json,
    String,
>)
    ensures
        match content {
            None => r matches Ok(Json::Object(es)) && es@.len() == 0,
            Some(Err(e)) => r matches Err(m) && m@ == e@,
            Some(Ok(t)) => match json_parse(t@) {
                Ok(j) => r == Ok::<Json, String>(j),
                Err(why) => r matches Err(m) && m@ == corrupt_message(path@, why),
            },
        },
{
    let read = match content {
        None => ConfigRead::Missing,
        Some(Err(e)) => ConfigRead::Unreadable(e),
        Some(Ok(t)) => match parse_json_text(t.as_str()) {
            Ok(j) => ConfigRead::Parsed(j),
            Err((_, why)) => ConfigRead::Malformed(why),
        },
    };
    existing_or_empty(read, path)
}

/// The JSON document that a configuration file's text `text` holds, or
/// serde_json's message when it holds none.
pub fn parse_config(text: &str) -> (r: Result<Json, String>)
    ensures
        match json_parse(text@) {
            Ok(j) => r == Ok::<Json, String>(j),
            Err(why) => r matches Err(m) && m@ == why,
        },
        r matches Ok(j) ==> well_keyed(j) && forall|k: Seq<char>| well_keyed(#[trigger] member(j, k)),
{
    match parse_json_text(text) {
        Ok(j) => Ok(j),
        Err((_, why)) => Err(why),
    }
}

/// Whether the editor configuration whose text is `text` registers the
/// portsage server, or serde_json's message when the text is no JSON.
pub fn server_registered_in(text: &str) -> (r: Result<bool, String>)
    ensures
        match json_parse(text@) {
            Ok(j) => r == Ok::<bool, String>(server_registered(j)),
            Err(why) => r matches Err(m) && m@ == why,
        },
{
    match parse_config(text) {
        Ok(j) => Ok(is_server_registered(&j)),
        Err(m) => Err(m),
    }
}

/// `merge_allow(cur, tools)` begins with `cur`.
proof fn lemma_merge_prefix(cur: Seq<Seq<char>>, tools: Seq<Seq<char>>)
    ensures
        merge_allow(cur, tools).len() >= cur.len(),
        merge_allow(cur, tools).subrange(0, cur.len() as int) == cur,
    decreases tools.len(),
{
    if tools.len() > 0 {
        let next = if cur.contains(tools[0]) {
            cur
        } else {
            cur.push(tools[0])
        };
        lemma_merge_prefix(next, tools.drop_first());
        assert(next.subrange(0, cur.len() as int) == cur);
        assert(merge_allow(cur, tools).subrange(0, cur.len() as int) == merge_allow(
            next,
            tools.drop_first(),
        ).subrange(0, next.len() as int).subrange(0, cur.len() as int));
    }
}

/// What `merge_allow(cur, tools)` holds: the items of `cur` and of `tools`.
proof fn lemma_merge_contains(cur: Seq<Seq<char>>, tools: Seq<Seq<char>>)
    ensures
        forall|x: Seq<char>|
            #[trigger] merge_allow(cur, tools).contains(x) <==> (cur.contains(x) || tools.contains(x)),
    decreases tools.len(),
{
    if tools.len() > 0 {
        let next = if cur.contains(tools[0]) {
            cur
        } else {
            cur.push(tools[0])
        };
        lemma_merge_contains(next, tools.drop_first());
        assert forall|x: Seq<char>| #[trigger] merge_allow(cur, tools).contains(x) <==> (cur.contains(x)
            || tools.contains(x)) by {
            assert(merge_allow(cur, tools) == merge_allow(next, tools.drop_first()));
            if next.contains(x) && !cur.contains(x) {
                assert(x == tools[0]);
                assert(tools.contains(x));
            }
            if cur.contains(x) {
                let i = choose|i: int| 0 <= i < cur.len() && cur[i] == x;
                assert(next[i] == x);
            }
            if tools.contains(x) {
                let i = choose|i: int| 0 <= i < tools.len() && tools[i] == x;
                if i == 0 {
                    if !cur.contains(x) {
                        assert(next[cur.len() as int] == x);
                    }
                } else {
                    assert(tools.drop_first()[i - 1] == x);
                }
            }
            if tools.drop_first().contains(x) {
                let i = choose|i: int| 0 <= i < tools.drop_first().len() && tools.drop_first()[i] == x;
                assert(tools[i + 1] == x);
            }
        }
    }
}

/// Merging tools that are all there already changes nothing.
proof fn lemma_merge_noop(cur: Seq<Seq<char>>, tools: Seq<Seq<char>>)
    requires
        forall|i: int| 0 <= i < tools.len() ==> cur.contains(#[trigger] tools[i]),
    ensures
        merge_allow(cur, tools) == cur,
    decreases tools.len(),
{
    if tools.len() > 0 {
        assert(cur.contains(tools[0]));
        assert forall|i: int| 0 <= i < tools.drop_first().len() implies cur.contains(
            #[trigger] tools.drop_first()[i],
        ) by {
            assert(tools.drop_first()[i] == tools[i + 1]);
        }
        lemma_merge_noop(cur, tools.drop_first());
    }
}

/// Granting again what was granted changes nothing: merging the tools into a
/// list that they were merged into gives the same list.
pub proof fn law_merge_allow_idempotent(cur: Seq<Seq<char>>, tools: Seq<Seq<char>>)
    ensures
        merge_allow(merge_allow(cur, tools), tools) == merge_allow(cur, tools),
{
    lemma_merge_contains(cur, tools);
    assert forall|i: int| 0 <= i < tools.len() implies merge_allow(cur, tools).contains(
        #[trigger] tools[i],
    ) by {
        assert(tools.contains(tools[i]));
    }
    lemma_merge_noop(merge_allow(cur, tools), tools);
}

/// Granting keeps every entry the user had, in order and in front, and allows
/// every tool; it adds nothing else.
pub proof fn law_merge_allow_keeps_and_covers(cur: Seq<Seq<char>>, tools: Seq<Seq<char>>)
    ensures
        merge_allow(cur, tools).subrange(0, cur.len() as int) == cur,
        forall|i: int| 0 <= i < tools.len() ==> merge_allow(cur, tools).contains(#[trigger] tools[i]),
        forall|x: Seq<char>|
            #[trigger] merge_allow(cur, tools).contains(x) ==> cur.contains(x) || tools.contains(x),
{
    lemma_merge_prefix(cur, tools);
    lemma_merge_contains(cur, tools);
    assert forall|i: int| 0 <= i < tools.len() implies merge_allow(cur, tools).contains(
        #[trigger] tools[i],
    ) by {
        assert(tools.contains(tools[i]));
    }
}

/// Granting leaves `permissions.allow` a list of strings that begins with
/// the strings the user had and allows each of the five portsage tools by
/// name.
pub proof fn law_grant_allows_each_tool(before: Json, after: Json)
    requires
        grants_tools(before, after),
    ensures
        member(member(after, "permissions"@), "allow"@) matches Json::Array(items) && exists|
            texts: Seq<Seq<char>>,
        | {
            &&& are_strs(items@, texts)
            &&& texts.subrange(0, existing_allow(before).len() as int) == existing_allow(before)
            &&& texts.contains("mcp__portsage__list_all"@)
            &&& texts.contains("mcp__portsage__reserve_range"@)
            &&& texts.contains("mcp__portsage__register_port"@)
            &&& texts.contains("mcp__portsage__release_project"@)
            &&& texts.contains("mcp__portsage__scan_active"@)
        },
{
    let o = json_lookup(after, "permissions"@)->0;
    assert(member(after, "permissions"@) == o);
    let v = json_lookup(o, "allow"@)->0;
    assert(member(o, "allow"@) == v);
    let texts = merge_allow(existing_allow(before), portsage_tools());
    law_merge_allow_keeps_and_covers(existing_allow(before), portsage_tools());
    assert(texts.contains(portsage_tools()[0]));
    assert(texts.contains(portsage_tools()[1]));
    assert(texts.contains(portsage_tools()[2]));
    assert(texts.contains(portsage_tools()[3]));
    assert(texts.contains(portsage_tools()[4]));
}

/// Once the server is registered, the registration check finds it.
pub proof fn law_registered_after_register(before: Json, after: Json, dir: Seq<char>)
    requires
        registers_server(before, after, dir),
    ensures
        server_registered(after),
{
}

/// After unregistering, the registration check no longer finds the server.
pub proof fn law_unregistered_after_unregister(before: Json, after: Json)
    requires
        unregisters_server(before, after),
    ensures
        !server_registered(after),
{
}

/// Registering a second time states nothing new: the result is, against the
/// configuration before the first registration, a registration again.
pub proof fn law_register_idempotent(before: Json, mid: Json, after: Json, dir: Seq<char>)
    requires
        registers_server(before, mid, dir),
        registers_server(mid, after, dir),
    ensures
        registers_server(before, after, dir),
{
    let s1 = member(mid, "mcpServers"@);
    let s2 = member(after, "mcpServers"@);
    assert forall|k: Seq<char>| k != "portsage"@ implies #[trigger] json_lookup(s2, k) == json_lookup(
        member(before, "mcpServers"@),
        k,
    ) by {
        assert(json_lookup(s2, k) == json_lookup(s1, k));
    }
}

/// Unregistering after registering leaves the server unregistered and every
/// other server as it was before the registration.
pub proof fn law_unregister_undoes_register(before: Json, mid: Json, after: Json, dir: Seq<char>)
    requires
        registers_server(before, mid, dir),
        unregisters_server(mid, after),
    ensures
        !server_registered(after),
        forall|k: Seq<char>|
            k != "portsage"@ ==> #[trigger] json_lookup(member(after, "mcpServers"@), k)
                == json_lookup(member(before, "mcpServers"@), k),
        forall|k: Seq<char>|
            k != "mcpServers"@ ==> #[trigger] json_lookup(after, k) == json_lookup(before, k),
{
    let s = member(mid, "mcpServers"@);
    assert(s is Object);
    assert forall|k: Seq<char>| k != "portsage"@ implies #[trigger] json_lookup(
        member(after, "mcpServers"@),
        k,
    ) == json_lookup(member(before, "mcpServers"@), k) by {
        assert(json_lookup(member(after, "mcpServers"@), k) == json_lookup(s, k));
    }
}

/// Each portsage tool starts with the portsage prefix.
proof fn lemma_tools_prefixed()
    ensures
        forall|i: int| 0 <= i < portsage_tools().len() ==> starts_with(
            #[trigger] portsage_tools()[i],
            tool_prefix(),
        ),
{
    reveal_strlit("mcp__portsage__");
    reveal_strlit("mcp__portsage__list_all");
    reveal_strlit("mcp__portsage__reserve_range");
    reveal_strlit("mcp__portsage__register_port");
    reveal_strlit("mcp__portsage__release_project");
    reveal_strlit("mcp__portsage__scan_active");
    let p = tool_prefix();
    assert("mcp__portsage__list_all"@.subrange(0, p.len() as int) =~= p);
    assert("mcp__portsage__reserve_range"@.subrange(0, p.len() as int) =~= p);
    assert("mcp__portsage__register_port"@.subrange(0, p.len() as int) =~= p);
    assert("mcp__portsage__release_project"@.subrange(0, p.len() as int) =~= p);
    assert("mcp__portsage__scan_active"@.subrange(0, p.len() as int) =~= p);
}

/// The entries that revoking keeps: those that do not start with the prefix.
pub open spec fn unprefixed(x: Seq<char>) -> bool {
    !starts_with(x, tool_prefix())
}

/// Merging prefixed tools into a list changes nothing among its unprefixed
/// entries.
proof fn lemma_merge_filter(cur: Seq<Seq<char>>, tools: Seq<Seq<char>>)
    requires
        forall|i: int| 0 <= i < tools.len() ==> starts_with(#[trigger] tools[i], tool_prefix()),
    ensures
        merge_allow(cur, tools).filter(|x: Seq<char>| unprefixed(x)) == cur.filter(
            |x: Seq<char>| unprefixed(x),
        ),
    decreases tools.len(),
{
    if tools.len() > 0 {
        let next = if cur.contains(tools[0]) {
            cur
        } else {
            cur.push(tools[0])
        };
        assert forall|i: int| 0 <= i < tools.drop_first().len() implies starts_with(
            #[trigger] tools.drop_first()[i],
            tool_prefix(),
        ) by {
            assert(tools.drop_first()[i] == tools[i + 1]);
        }
        lemma_merge_filter(next, tools.drop_first());
        reveal_with_fuel(Seq::<_>::filter, 1);
        if !cur.contains(tools[0]) {
            assert(next.drop_last() == cur);
            assert(!unprefixed(next.last()));
        }
    }
}

/// Revoking keeps exactly the items that are no prefixed string, so string
/// items that `are_strs` describes go to the unprefixed texts.
proof fn lemma_filter_strs(items: Seq<Json>, texts: Seq<Seq<char>>)
    requires
        are_strs(items, texts),
    ensures
        are_strs(
            items.filter(|x: Json| kept_on_revoke(x)),
            texts.filter(|x: Seq<char>| unprefixed(x)),
        ),
    decreases items.len(),
{
    reveal_with_fuel(Seq::<_>::filter, 1);
    if items.len() > 0 {
        let a = items.drop_last();
        let b = texts.drop_last();
        assert(are_strs(a, b)) by {
            assert forall|i: int| 0 <= i < a.len() implies (#[trigger] a[i] matches Json::Str(s) && s@
                == b[i]) by {
                assert(a[i] == items[i]);
                assert(items[i] matches Json::Str(s) && s@ == texts[i]);
            }
        }
        lemma_filter_strs(a, b);
        assert(items[items.len() - 1] matches Json::Str(s) && s@ == texts[texts.len() - 1]);
        assert(kept_on_revoke(items.last()) == unprefixed(texts.last()));
        let fa = a.filter(|x: Json| kept_on_revoke(x));
        let fb = b.filter(|x: Seq<char>| unprefixed(x));
        if kept_on_revoke(items.last()) {
            assert(are_strs(fa.push(items.last()), fb.push(texts.last()))) by {
                assert forall|i: int| 0 <= i < fa.len() + 1 implies (#[trigger] fa.push(
                    items.last(),
                )[i] matches Json::Str(s) && s@ == fb.push(texts.last())[i]) by {
                    if i < fa.len() {
                        assert(fa[i] matches Json::Str(s) && s@ == fb[i]);
                    }
                }
            }
        }
    }
}

/// Revoking after granting leaves the user's own allow list: the strings it
/// had, but for those naming a portsage tool, in their order; no item names a
/// portsage tool any more.
pub proof fn law_revoke_undoes_grant(before: Json, mid: Json, after: Json)
    requires
        grants_tools(before, mid),
        revokes_tools(mid, after),
    ensures
        member(member(after, "permissions"@), "allow"@) matches Json::Array(items) && are_strs(
            items@,
            existing_allow(before).filter(|x: Seq<char>| unprefixed(x)),
        ),
        forall|k: Seq<char>|
            k != "permissions"@ ==> #[trigger] json_lookup(after, k) == json_lookup(before, k),
{
    let p = member(mid, "permissions"@);
    let allow = member(p, "allow"@);
    let m = merge_allow(existing_allow(before), portsage_tools());
    assert(allow matches Json::Array(items) && are_strs(items@, m));
    lemma_tools_prefixed();
    lemma_merge_filter(existing_allow(before), portsage_tools());
    if let Json::Array(items) = allow {
        lemma_filter_strs(items@, m);
    }
}

/// The texts of string items are the texts they were built from.
proof fn lemma_str_items_of_strs(items: Seq<Json>, texts: Seq<Seq<char>>)
    requires
        are_strs(items, texts),
    ensures
        str_items(items) == texts,
    decreases items.len(),
{
    if items.len() > 0 {
        let a = items.drop_last();
        let b = texts.drop_last();
        assert(are_strs(a, b)) by {
            assert forall|i: int| 0 <= i < a.len() implies (#[trigger] a[i] matches Json::Str(s) && s@
                == b[i]) by {
                assert(a[i] == items[i]);
                assert(items[i] matches Json::Str(s) && s@ == texts[i]);
            }
        }
        lemma_str_items_of_strs(a, b);
        assert(items[items.len() - 1] matches Json::Str(s) && s@ == texts[texts.len() - 1]);
        assert(texts == b.push(texts.last()));
    }
}

/// Granting the tools a second time states nothing new: the result is,
/// against the settings before the first grant, a grant again.
pub proof fn law_grant_idempotent(before: Json, mid: Json, after: Json)
    requires
        grants_tools(before, mid),
        grants_tools(mid, after),
    ensures
        grants_tools(before, after),
{
    let p = member(mid, "permissions"@);
    let m = merge_allow(existing_allow(before), portsage_tools());
    if let Json::Array(items) = member(p, "allow"@) {
        lemma_str_items_of_strs(items@, m);
    }
    assert(existing_allow(mid) == m);
    law_merge_allow_idempotent(existing_allow(before), portsage_tools());
    let p2 = member(after, "permissions"@);
    assert forall|k: Seq<char>| k != "allow"@ implies #[trigger] json_lookup(p2, k) == json_lookup(
        member(before, "permissions"@),
        k,
    ) by {
        assert(json_lookup(p2, k) == json_lookup(p, k));
    }
}

/// Installing then uninstalling leaves the agent configuration as it was,
/// when the server was not registered before: every top-level member, and
/// every member of `mcpServers`, has its old value.
pub proof fn law_uninstall_restores_config(before: Json, mid: Json, after: Json, dir: Seq<char>)
    requires
        before is Object,
        member(before, "mcpServers"@) is Object,
        json_lookup(member(before, "mcpServers"@), "portsage"@) is None,
        registers_server(before, mid, dir),
        unregisters_server(mid, after),
    ensures
        forall|k: Seq<char>|
            k != "mcpServers"@ ==> #[trigger] json_lookup(after, k) == json_lookup(before, k),
        json_lookup(before, "mcpServers"@) is Some,
        json_lookup(after, "mcpServers"@) matches Some(o) && o is Object && forall|k: Seq<char>|
            #[trigger] json_lookup(o, k) == json_lookup(member(before, "mcpServers"@), k),
{
    law_unregister_undoes_register(before, mid, after, dir);
    let o = member(after, "mcpServers"@);
    assert(json_lookup(after, "mcpServers"@) == Some(o));
    assert forall|k: Seq<char>| #[trigger] json_lookup(o, k) == json_lookup(
        member(before, "mcpServers"@),
        k,
    ) by {
        if k != "portsage"@ {
            assert(json_lookup(member(after, "mcpServers"@), k) == json_lookup(
                member(before, "mcpServers"@),
                k,
            ));
        }
    }
}

/// Entries that are all unprefixed are kept whole by the filter.
proof fn lemma_filter_keeps_unprefixed(texts: Seq<Seq<char>>)
    requires
        forall|i: int| 0 <= i < texts.len() ==> unprefixed(#[trigger] texts[i]),
    ensures
        texts.filter(|x: Seq<char>| unprefixed(x)) == texts,
    decreases texts.len(),
{
    reveal_with_fuel(Seq::<_>::filter, 1);
    if texts.len() > 0 {
        let a = texts.drop_last();
        assert forall|i: int| 0 <= i < a.len() implies unprefixed(#[trigger] a[i]) by {
            assert(a[i] == texts[i]);
        }
        lemma_filter_keeps_unprefixed(a);
        assert(unprefixed(texts[texts.len() - 1]));
        assert(texts == a.push(texts.last()));
    }
}

/// Granting then revoking leaves the settings as they were, when the allow
/// list held only strings and none of a portsage tool: every top-level
/// member and every member of `permissions` but `allow` has its old value,
/// and `allow` holds the same strings in the same order.
pub proof fn law_revoke_restores_settings(before: Json, mid: Json, after: Json)
    requires
        before is Object,
        member(before, "permissions"@) is Object,
        member(member(before, "permissions"@), "allow"@) matches Json::Array(items) && forall|i: int|
            0 <= i < items@.len() ==> (#[trigger] items@[i] matches Json::Str(s) && !starts_with(
                s@,
                tool_prefix(),
            )),
        grants_tools(before, mid),
        revokes_tools(mid, after),
    ensures
        forall|k: Seq<char>|
            k != "permissions"@ ==> #[trigger] json_lookup(after, k) == json_lookup(before, k),
        json_lookup(after, "permissions"@) matches Some(p) && p is Object && forall|k: Seq<char>|
            k != "allow"@ ==> #[trigger] json_lookup(p, k) == json_lookup(member(before, "permissions"@), k),
        member(member(after, "permissions"@), "allow"@) matches Json::Array(now) && (member(
            member(before, "permissions"@),
            "allow"@,
        ) matches Json::Array(was) && are_strs(now@, str_items(was@)) && are_strs(
            was@,
            str_items(was@),
        )),
{
    law_revoke_undoes_grant(before, mid, after);
    if let Json::Array(items) = member(member(before, "permissions"@), "allow"@) {
        let texts = Seq::new(items@.len(), |i: int| match items@[i] {
            Json::Str(s) => s@,
            _ => Seq::empty(),
        });
        assert(are_strs(items@, texts));
        lemma_str_items_of_strs(items@, texts);
        assert forall|i: int| 0 <= i < texts.len() implies unprefixed(#[trigger] texts[i]) by {
            assert(items@[i] matches Json::Str(s) && !starts_with(s@, tool_prefix()));
        }
        lemma_filter_keeps_unprefixed(texts);
        assert(existing_allow(before) == texts);
    }
    let p = member(after, "permissions"@);
    assert(json_lookup(after, "permissions"@) == Some(p));
    let pm = member(mid, "permissions"@);
    assert forall|k: Seq<char>| k != "allow"@ implies #[trigger] json_lookup(p, k) == json_lookup(
        member(before, "permissions"@),
        k,
    ) by {
        assert(json_lookup(p, k) == json_lookup(pm, k));
    }
}


/// Why setting up the MCP server from the command line failed.
pub enum CliMcpError {
    /// An I/O error of the shared MCP setup.
    Io(std::io::Error),
    /// `uv` is not on PATH.
    UvNotFound,
    /// `uv sync` exited with failure; its stderr.
    UvSyncFailed { stderr: String },
}

impl CliMcpError {
    /// The message shown for this error.
    pub fn describe(&self) -> (r: String)
        ensures
            match self {
                CliMcpError::Io(_) => true,
                CliMcpError::UvNotFound => r@
                    == "uv is not installed. Install it: curl -LsSf https://astral.sh/uv/install.sh | sh"@,
                CliMcpError::UvSyncFailed { stderr } => r@ == "uv sync failed: "@ + stderr@,
            },
    {
        match self {
            CliMcpError::Io(e) => io_error_text(e),
            CliMcpError::UvNotFound => String::from_str(
                "uv is not installed. Install it: curl -LsSf https://astral.sh/uv/install.sh | sh",
            ),
            CliMcpError::UvSyncFailed { stderr } => {
                let mut r = String::from_str("uv sync failed: ");
                r.append(stderr.as_str());
                r
            },
        }
    }
}

/// What running `uv sync --quiet` in the MCP directory comes to: done when it
/// exited with success, `UvNotFound` when `uv` is not on PATH, the I/O error
/// when it could not start, and its stderr (lossily decoded) when it failed.
pub fn uv_sync_result(run: CommandRun) -> (r: Result<(), CliMcpError>)
    ensures
        match run {
            CommandRun::Missing => r matches Err(CliMcpError::UvNotFound),
            CommandRun::Failed(e) => r matches Err(CliMcpError::Io(x)) && x == e,
            CommandRun::Exited { success, stdout: _, stderr } => if success {
                r is Ok
            } else {
                r matches Err(CliMcpError::UvSyncFailed { stderr: t }) && t@ == lossy_decode(stderr@)
            },
        },
{
    match run {
        CommandRun::Missing => Err(CliMcpError::UvNotFound),
        CommandRun::Failed(e) => Err(CliMcpError::Io(e)),
        CommandRun::Exited { success, stdout: _, stderr } => {
            if success {
                Ok(())
            } else {
                Err(CliMcpError::UvSyncFailed { stderr: lossy_text(&stderr) })
            }
        },
    }
}

} // verus!
