//! The live status view of projects and ports, the choice of what to kill,
//! the escalation protocol that kills a process (SIGTERM, a grace period,
//! then SIGKILL), and the small answers that the UI commands give.

use vstd::prelude::*;
use vstd::utf8::is_ascii_chars;
use std::collections::{HashMap, HashSet};
use crate::collections::{ByPort, law_sorted_by_port, reversed, sort_by_port, sorted_by_port};
use crate::json::{Json, json_lookup, set_member};
use crate::self_update::{lossy_decode, lossy_text};
use crate::text::{contains_text, decimal, has_text, int_text, occurs_at};
use crate::types::{
    ActivePort, KillEntry, KillOutcome, Port, PortStatus, Project, ProjectStatus, ProjectWithPorts,
};

verus! {

/// The last listener on `port` in `active`: the one a map keyed by port,
/// filled in order, ends up holding.
pub open spec fn last_listener(active: Seq<ActivePort>, port: i64) -> Option<ActivePort>
    decreases active.len(),
{
    if active.len() == 0 {
        None
    } else if active.last().port == port {
        Some(active.last())
    } else {
        last_listener(active.drop_last(), port)
    }
}

/// `ps` is the row `p` with the live status that `active` gives its port.
pub open spec fn port_status_of(ps: PortStatus, p: Port, active: Seq<ActivePort>) -> bool {
    &&& ps.id == p.id
    &&& ps.project_id == p.project_id
    &&& ps.service == p.service
    &&& ps.port == p.port
    &&& ps.created_at == p.created_at
    &&& match last_listener(active, p.port) {
        Some(a) => ps.active && (ps.process matches Some(name) && name@ == a.process@) && ps.pid
            == Some(a.pid),
        None => !ps.active && ps.process is None && ps.pid is None,
    }
}

/// `s` is the project `p`, its metadata unchanged and each of its ports, in
/// order, with the live status that `active` gives it.
pub open spec fn project_status_of(s: ProjectStatus, p: ProjectWithPorts, active: Seq<ActivePort>) -> bool {
    &&& s.id == p.project.id
    &&& s.name == p.project.name
    &&& s.path == p.project.path
    &&& s.range_start == p.project.range_start
    &&& s.range_end == p.project.range_end
    &&& s.created_at == p.project.created_at
    &&& s.ports@.len() == p.ports@.len()
    &&& forall|j: int| 0 <= j < s.ports@.len() ==> port_status_of(#[trigger] s.ports@[j], p.ports@[j], active)
}

/// `m` maps each port to the position of the last listener on it in
/// `active`, and holds no other port.
pub open spec fn indexes_last_listeners(m: Map<i64, usize>, active: Seq<ActivePort>) -> bool {
    forall|port: i64|
        match #[trigger] last_listener(active, port) {
            Some(a) => m.contains_key(port) && m[port] < active.len() && active[m[port] as int] == a,
            None => !m.contains_key(port),
        }
}

/// Port to the position of the last listener on it: listeners inserted in
/// order, so a later one on the same port replaces an earlier one.
fn last_listener_map(active: &[ActivePort]) -> (m: HashMap<i64, usize>)
    ensures
        indexes_last_listeners(m@, active@),
{
    broadcast use vstd::std_specs::hash::group_hash_axioms;

    let mut m: HashMap<i64, usize> = HashMap::new();
    let mut i: usize = 0;
    assert(indexes_last_listeners(m@, active@.subrange(0, 0)));
    while i < active.len()
        invariant
            i <= active@.len(),
            indexes_last_listeners(m@, active@.subrange(0, i as int)),
        decreases active.len() - i,
    {
        let ghost before = m@;
        let ghost pre = active@.subrange(0, i as int);
        let ghost next = active@.subrange(0, i + 1);
        assert(next.drop_last() == pre);
        assert(next.last() == active@[i as int]);
        m.insert(active[i].port, i);
        assert forall|port: i64| match #[trigger] last_listener(next, port) {
            Some(a) => m@.contains_key(port) && m@[port] < next.len() && next[m@[port] as int] == a,
            None => !m@.contains_key(port),
        } by {
            if port != active@[i as int].port {
                assert(last_listener(next, port) == last_listener(pre, port));
                if let Some(a) = last_listener(pre, port) {
                    assert(next[before[port] as int] == pre[before[port] as int]);
                }
            }
        }
        i = i + 1;
    }
    assert(active@.subrange(0, i as int) == active@);
    m
}

/// The live status of one registered port.
fn status_of_port(p: Port, active: &[ActivePort], last: &HashMap<i64, usize>) -> (r: PortStatus)
    requires
        indexes_last_listeners(last@, active@),
    ensures
        port_status_of(r, p, active@),
{
    broadcast use vstd::std_specs::hash::group_hash_axioms;

    let Port { id, project_id, service, port, created_at } = p;
    assert(match last_listener(active@, port) {
        Some(a) => last@.contains_key(port) && last@[port] < active@.len() && active@[last@[port] as int] == a,
        None => !last@.contains_key(port),
    });
    match last.get(&port) {
        Some(i) => {
            let i = *i;
            PortStatus {
                active: true,
                process: Some(active[i].process.clone()),
                pid: Some(active[i].pid),
                id,
                project_id,
                service,
                port,
                created_at,
            }
        },
        None => PortStatus {
            active: false,
            process: None,
            pid: None,
            id,
            project_id,
            service,
            port,
            created_at,
        },
    }
}

/// The projects, in order, each with the live status of its ports: a port is
/// active when some listener in `active_ports` holds it, and then carries
/// that listener's process name and PID (the last one listed, when several
/// hold it). Listeners on ports that no project registers are ignored.
pub fn enrich_with_status(projects: Vec<ProjectWithPorts>, active_ports: &[ActivePort]) -> (r: Vec<
    ProjectStatus,
>)
    ensures
        r@.len() == projects@.len(),
        forall|i: int|
            0 <= i < r@.len() ==> project_status_of(#[trigger] r@[i], projects@[i], active_ports@),
{
    let last = last_listener_map(active_ports);
    let ghost all = projects@;
    let n = projects.len();
    let mut rest = reversed(projects);
    let mut out: Vec<ProjectStatus> = Vec::new();
    while rest.len() > 0
        invariant
            indexes_last_listeners(last@, active_ports@),
            n == all.len(),
            out@.len() + rest@.len() == n,
            forall|t: int| 0 <= t < rest@.len() ==> rest@[t] == all[n - 1 - t],
            forall|i: int| 0 <= i < out@.len() ==> project_status_of(#[trigger] out@[i], all[i], active_ports@),
        decreases rest.len(),
    {
        let pwp = rest.pop().unwrap();
        assert(pwp == all[out@.len() as int]);
        let ProjectWithPorts { project, ports } = pwp;
        let ghost port_rows = ports@;
        let m = ports.len();
        let mut prest = reversed(ports);
        let mut statuses: Vec<PortStatus> = Vec::new();
        while prest.len() > 0
            invariant
                indexes_last_listeners(last@, active_ports@),
                m == port_rows.len(),
                statuses@.len() + prest@.len() == m,
                forall|t: int| 0 <= t < prest@.len() ==> prest@[t] == port_rows[m - 1 - t],
                forall|j: int|
                    0 <= j < statuses@.len() ==> port_status_of(
                        #[trigger] statuses@[j],
                        port_rows[j],
                        active_ports@,
                    ),
            decreases prest.len(),
        {
            let p = prest.pop().unwrap();
            assert(p == port_rows[statuses@.len() as int]);
            let ps = status_of_port(p, active_ports, &last);
            statuses.push(ps);
        }
        let Project { id, name, path, range_start, range_end, created_at } = project;
        out.push(
            ProjectStatus { id, name, path, range_start, range_end, created_at, ports: statuses },
        );
    }
    out
}

/// The lowercase form of `s`, by the Unicode rules that `str::to_lowercase`
/// applies.
pub uninterp spec fn lowercase(s: Seq<char>) -> Seq<char>;

/// ASCII text lowercased: `A` to `Z` become `a` to `z`, every other
/// character stays.
pub open spec fn ascii_lowered(s: Seq<char>) -> Seq<char> {
    s.map_values(|c: char| if 65 <= (c as u32) && (c as u32) <= 90 {
        ((c as u32) + 32) as char
    } else {
        c
    })
}

/// `str::to_lowercase`: the result is named `lowercase` of the argument. On
/// ASCII text the Unicode lowercase mapping is the ASCII one; on other text
/// it is not stated.
#[verifier::external_body]
fn to_lowercase(s: &str) -> (r: String)
    ensures
        r@ == lowercase(s@),
        is_ascii_chars(s@) ==> r@ == ascii_lowered(s@),
{
    s.to_lowercase()
}

/// The lowercased stderr of `kill` tells of a refused permission.
pub open spec fn says_not_permitted(lowered: Seq<char>) -> bool {
    contains_text(lowered, "operation not permitted"@) || contains_text(lowered, "not permitted"@)
}

/// A refused permission is recognised wherever `not permitted` stands in
/// the lowercased text, whatever comes before or after it.
pub proof fn law_not_permitted_anywhere(p: Seq<char>, q: Seq<char>)
    ensures
        says_not_permitted(p + "not permitted"@ + q),
{
    reveal_strlit("not permitted");
    let s = p + "not permitted"@ + q;
    assert(s.subrange(p.len() as int, p.len() as int + 13) =~= "not permitted"@);
    assert(occurs_at(s, "not permitted"@, p.len() as int));
}

/// A refused permission is recognised only where `not permitted` stands in
/// the lowercased text.
pub proof fn law_not_permitted_only_when_said(s: Seq<char>)
    requires
        says_not_permitted(s),
    ensures
        exists|p: Seq<char>, q: Seq<char>| s == p + "not permitted"@ + q,
{
    reveal_strlit("not permitted");
    reveal_strlit("operation not permitted");
    let i: int = if contains_text(s, "not permitted"@) {
        choose|i: int| occurs_at(s, "not permitted"@, i)
    } else {
        let k = choose|k: int| occurs_at(s, "operation not permitted"@, k);
        assert(s.subrange(k + 10, k + 23) =~= s.subrange(k, k + 23).subrange(10, 23));
        assert("operation not permitted"@.subrange(10, 23) =~= "not permitted"@);
        k + 10
    };
    assert(occurs_at(s, "not permitted"@, i));
    let p = s.subrange(0, i);
    let q = s.subrange(i + 13, s.len() as int);
    assert(s =~= p + "not permitted"@ + q);
}

/// Whether the already lowercased `lowered` says that the permission was refused.
pub fn mentions_not_permitted(lowered: &str) -> (r: bool)
    ensures
        r == says_not_permitted(lowered@),
{
    has_text(lowered, "operation not permitted") || has_text(lowered, "not permitted")
}

/// Whether the stderr of `kill` says that the permission was refused, in
/// any letter case (the wording of macOS and of Linux alike).
pub fn is_permission_error(stderr: &str) -> (r: bool)
    ensures
        r == says_not_permitted(lowercase(stderr@)),
        is_ascii_chars(stderr@) ==> r == says_not_permitted(ascii_lowered(stderr@)),
{
    let s = to_lowercase(stderr);
    mentions_not_permitted(s.as_str())
}

/// How long a process gets to exit after SIGTERM before SIGKILL, in
/// milliseconds: 2 seconds is the empirical sweet spot, enough for
/// Postgres-class daemons to flush and exit cleanly, short enough that the
/// UI does not feel stuck.
pub const KILL_GRACE_MS: u64 = 2000;

/// Where a kill stands: what the protocol waits for next.
#[derive(Debug, Clone, Copy, PartialEq, Eq, Structural)]
pub enum KillPhase {
    /// SIGTERM was asked for.
    AwaitTerm,
    /// SIGTERM was delivered; the grace period runs.
    AwaitGrace,
    /// The grace period is over; whether the process lives was asked.
    AwaitProbe,
    /// SIGKILL was asked for.
    AwaitKill,
    /// The kill is over with this outcome.
    Done(KillOutcome),
}

/// What to do next.
#[derive(Debug, Clone, Copy, PartialEq, Eq, Structural)]
pub enum KillAction {
    /// Run `kill -TERM <pid>`.
    SignalTerm,
    /// Sleep for the grace period, `millis` milliseconds.
    WaitGrace { millis: u64 },
    /// Run `kill -0 <pid>`.
    Probe,
    /// Run `kill -KILL <pid>`.
    SignalKill,
    /// Stop: the kill is over.
    Finish(KillOutcome),
}

/// What came of the last action.
pub enum KillEvent {
    /// The signal command ran and succeeded.
    Sent,
    /// The signal command ran and failed, with these bytes on stderr.
    Refused(Vec<u8>),
    /// The signal command could not be run.
    Unavailable,
    /// The grace period is over.
    Waited,
    /// The probe ran and succeeded: the process still lives.
    Alive,
    /// The probe failed or could not run: the process is gone.
    Gone,
}

/// The step from `phase` on `event`: the next phase and what to do.
pub open spec fn kill_next(phase: KillPhase, event: KillEvent) -> (KillPhase, KillAction) {
    match (phase, event) {
        (KillPhase::AwaitTerm, KillEvent::Sent) => (KillPhase::AwaitGrace, KillAction::WaitGrace { millis: KILL_GRACE_MS }),
        (KillPhase::AwaitTerm, KillEvent::Refused(e)) => {
            let o = if says_not_permitted(lowercase(lossy_decode(e@))) {
                KillOutcome::PermissionDenied
            } else {
                KillOutcome::NotActive
            };
            (KillPhase::Done(o), KillAction::Finish(o))
        },
        (KillPhase::AwaitTerm, KillEvent::Unavailable) => (
            KillPhase::Done(KillOutcome::PermissionDenied),
            KillAction::Finish(KillOutcome::PermissionDenied),
        ),
        (KillPhase::AwaitGrace, KillEvent::Waited) => (KillPhase::AwaitProbe, KillAction::Probe),
        (KillPhase::AwaitProbe, KillEvent::Alive) => (KillPhase::AwaitKill, KillAction::SignalKill),
        (KillPhase::AwaitProbe, KillEvent::Gone) => (
            KillPhase::Done(KillOutcome::Terminated),
            KillAction::Finish(KillOutcome::Terminated),
        ),
        (KillPhase::AwaitKill, KillEvent::Sent) => (
            KillPhase::Done(KillOutcome::Killed),
            KillAction::Finish(KillOutcome::Killed),
        ),
        (KillPhase::AwaitKill, KillEvent::Refused(e)) => {
            let o = if says_not_permitted(lowercase(lossy_decode(e@))) {
                KillOutcome::PermissionDenied
            } else {
                KillOutcome::Terminated
            };
            (KillPhase::Done(o), KillAction::Finish(o))
        },
        (KillPhase::AwaitKill, KillEvent::Unavailable) => (
            KillPhase::Done(KillOutcome::PermissionDenied),
            KillAction::Finish(KillOutcome::PermissionDenied),
        ),
        (p, _) => (p, awaited_action(p)),
    }
}

/// The action that `phase` waits on.
pub open spec fn awaited_action(phase: KillPhase) -> KillAction {
    match phase {
        KillPhase::AwaitTerm => KillAction::SignalTerm,
        KillPhase::AwaitGrace => KillAction::WaitGrace { millis: KILL_GRACE_MS },
        KillPhase::AwaitProbe => KillAction::Probe,
        KillPhase::AwaitKill => KillAction::SignalKill,
        KillPhase::Done(o) => KillAction::Finish(o),
    }
}

/// How a kill starts: SIGTERM first.
pub fn kill_start() -> (r: (KillPhase, KillAction))
    ensures
        r == (KillPhase::AwaitTerm, KillAction::SignalTerm),
{
    (KillPhase::AwaitTerm, KillAction::SignalTerm)
}

/// One step of the kill escalation. A SIGTERM that is refused ends the kill:
/// refused for permission, or else because the process is gone already. After
/// a delivered SIGTERM and the grace period, a process that is gone counts as
/// terminated and one that lives gets SIGKILL; a SIGKILL refused for another
/// reason than permission means it died in between. A command that cannot be
/// run at all counts as refused permission. An event that the phase does not
/// wait for asks again for what it waits for.
pub fn kill_step(phase: KillPhase, event: KillEvent) -> (r: (KillPhase, KillAction))
    ensures
        r == kill_next(phase, event),
{
    match (phase, event) {
        (KillPhase::AwaitTerm, KillEvent::Sent) => (KillPhase::AwaitGrace, KillAction::WaitGrace { millis: KILL_GRACE_MS }),
        (KillPhase::AwaitTerm, KillEvent::Refused(e)) => {
            let o = if is_permission_error(lossy_text(&e).as_str()) {
                KillOutcome::PermissionDenied
            } else {
                KillOutcome::NotActive
            };
            (KillPhase::Done(o), KillAction::Finish(o))
        },
        (KillPhase::AwaitTerm, KillEvent::Unavailable) => (
            KillPhase::Done(KillOutcome::PermissionDenied),
            KillAction::Finish(KillOutcome::PermissionDenied),
        ),
        (KillPhase::AwaitGrace, KillEvent::Waited) => (KillPhase::AwaitProbe, KillAction::Probe),
        (KillPhase::AwaitProbe, KillEvent::Alive) => (KillPhase::AwaitKill, KillAction::SignalKill),
        (KillPhase::AwaitProbe, KillEvent::Gone) => (
            KillPhase::Done(KillOutcome::Terminated),
            KillAction::Finish(KillOutcome::Terminated),
        ),
        (KillPhase::AwaitKill, KillEvent::Sent) => (
            KillPhase::Done(KillOutcome::Killed),
            KillAction::Finish(KillOutcome::Killed),
        ),
        (KillPhase::AwaitKill, KillEvent::Refused(e)) => {
            let o = if is_permission_error(lossy_text(&e).as_str()) {
                KillOutcome::PermissionDenied
            } else {
                KillOutcome::Terminated
            };
            (KillPhase::Done(o), KillAction::Finish(o))
        },
        (KillPhase::AwaitKill, KillEvent::Unavailable) => (
            KillPhase::Done(KillOutcome::PermissionDenied),
            KillAction::Finish(KillOutcome::PermissionDenied),
        ),
        (p, _) => {
            let a = match p {
                KillPhase::AwaitTerm => KillAction::SignalTerm,
                KillPhase::AwaitGrace => KillAction::WaitGrace { millis: KILL_GRACE_MS },
                KillPhase::AwaitProbe => KillAction::Probe,
                KillPhase::AwaitKill => KillAction::SignalKill,
                KillPhase::Done(o) => KillAction::Finish(o),
            };
            (p, a)
        },
    }
}

/// The phase after `events`, starting from `phase`.
pub open spec fn kill_run(phase: KillPhase, events: Seq<KillEvent>) -> KillPhase
    decreases events.len(),
{
    if events.len() == 0 {
        phase
    } else {
        kill_run(kill_next(phase, events[0]).0, events.drop_first())
    }
}

/// Once over, a kill stays over.
proof fn lemma_done_stays(o: KillOutcome, events: Seq<KillEvent>)
    ensures
        kill_run(KillPhase::Done(o), events) == KillPhase::Done(o),
    decreases events.len(),
{
    if events.len() > 0 {
        lemma_done_stays(o, events.drop_first());
    }
}

/// A kill that did not start with a Docker outcome never gets one.
proof fn lemma_no_docker(phase: KillPhase, events: Seq<KillEvent>)
    requires
        phase != KillPhase::Done(KillOutcome::DockerStopped),
        phase != KillPhase::Done(KillOutcome::DockerError),
    ensures
        kill_run(phase, events) != KillPhase::Done(KillOutcome::DockerStopped),
        kill_run(phase, events) != KillPhase::Done(KillOutcome::DockerError),
    decreases events.len(),
{
    if events.len() > 0 {
        lemma_no_docker(kill_next(phase, events[0]).0, events.drop_first());
    }
}

/// A kill escalates to SIGKILL only for a process that outlived the grace
/// period: from any phase short of SIGKILL it ends `Killed` only after the
/// probe found the process alive; it never ends with a Docker outcome; and
/// once over, it stays over.
pub proof fn law_killed_only_after_alive(phase: KillPhase, events: Seq<KillEvent>)
    requires
        phase != KillPhase::AwaitKill,
        phase != KillPhase::Done(KillOutcome::Killed),
    ensures
        kill_run(phase, events) == KillPhase::Done(KillOutcome::Killed) ==> exists|i: int|
            0 <= i < events.len() && #[trigger] events[i] is Alive,
        phase is Done ==> kill_run(phase, events) == phase,
        !(phase is Done) ==> kill_run(phase, events) != KillPhase::Done(KillOutcome::DockerStopped)
            && kill_run(phase, events) != KillPhase::Done(KillOutcome::DockerError),
    decreases events.len(),
{
    if let KillPhase::Done(o) = phase {
        lemma_done_stays(o, events);
    } else {
        lemma_no_docker(phase, events);
    }
    if events.len() > 0 {
        let next = kill_next(phase, events[0]).0;
        if next == KillPhase::AwaitKill {
            assert(events[0] is Alive);
        } else {
            law_killed_only_after_alive(next, events.drop_first());
            if kill_run(phase, events) == KillPhase::Done(KillOutcome::Killed) {
                let i = choose|i: int|
                    0 <= i < events.drop_first().len() && #[trigger] events.drop_first()[i] is Alive;
                assert(events[i + 1] is Alive);
            }
        }
    }
}

/// The PID of the first listener on `port`, if any (a fresh scan decides what
/// to kill).
pub fn listener_pid(active: &Vec<ActivePort>, port: i64) -> (r: Option<i64>)
    ensures
        match r {
            Some(pid) => exists|i: int|
                0 <= i < active@.len() && active@[i].port == port && active@[i].pid == pid && forall|j: int|
                    0 <= j < i ==> active@[j].port != port,
            None => forall|i: int| 0 <= i < active@.len() ==> active@[i].port != port,
        },
{
    let mut i: usize = 0;
    while i < active.len()
        invariant
            i <= active@.len(),
            forall|j: int| 0 <= j < i ==> active@[j].port != port,
        decreases active.len() - i,
    {
        if active[i].port == port {
            return Some(active[i].pid);
        }
        i = i + 1;
    }
    None
}

/// The message for a project id that no project has.
pub open spec fn missing_project_message(id: i64) -> Seq<char> {
    "project "@ + int_text(id as int) + " not found"@
}

/// The first project in `projects` with this id.
pub open spec fn project_at(projects: Seq<ProjectWithPorts>, id: i64, i: int) -> bool {
    &&& 0 <= i < projects.len()
    &&& projects[i].project.id == id
    &&& forall|j: int| 0 <= j < i ==> projects[j].project.id != id
}

/// `port` is registered to project `p`.
pub open spec fn registers_port(p: ProjectWithPorts, port: i64) -> bool {
    exists|j: int| 0 <= j < p.ports@.len() && p.ports@[j].port == port
}

/// The listeners of `active` that stand on a port of project `p`, in order.
pub open spec fn project_listeners(p: ProjectWithPorts, active: Seq<ActivePort>) -> Seq<ActivePort> {
    active.filter(|a: ActivePort| registers_port(p, a.port))
}

/// Where the first project with id `id` stands.
fn project_index(projects: &Vec<ProjectWithPorts>, id: i64) -> (r: Option<usize>)
    ensures
        match r {
            Some(i) => project_at(projects@, id, i as int),
            None => forall|i: int| 0 <= i < projects@.len() ==> projects@[i].project.id != id,
        },
{
    let mut i: usize = 0;
    while i < projects.len()
        invariant
            i <= projects@.len(),
            forall|j: int| 0 <= j < i ==> projects@[j].project.id != id,
        decreases projects.len() - i,
    {
        if projects[i].project.id == id {
            return Some(i);
        }
        i = i + 1;
    }
    None
}

/// The listeners to kill for project `project_id`: those of `active` whose
/// port the project registers, in order; an error naming the id when no
/// project has it.
pub fn kill_targets(projects: &Vec<ProjectWithPorts>, project_id: i64, active: Vec<ActivePort>) -> (r:
    Result<Vec<ActivePort>, String>)
    ensures
        match r {
            Ok(targets) => exists|i: int|
                project_at(projects@, project_id, i) && targets@ == project_listeners(projects@[i], active@),
            Err(m) => m@ == missing_project_message(project_id) && forall|i: int|
                0 <= i < projects@.len() ==> projects@[i].project.id != project_id,
        },
{
    broadcast use vstd::std_specs::hash::group_hash_axioms;

    let found = project_index(projects, project_id);
    if found.is_none() {
        let mut m = String::from_str("project ");
        let d = decimal(project_id);
        m.append(d.as_str());
        m.append(" not found");
        return Err(m);
    }
    let i = found.unwrap();
    let ghost p = projects@[i as int];
    let ports = &projects[i].ports;
    let mut registered: HashSet<i64> = HashSet::new();
    let mut j: usize = 0;
    while j < ports.len()
        invariant
            *ports == p.ports,
            j <= ports@.len(),
            forall|x: i64| registered@.contains(x) <==> exists|t: int| 0 <= t < j && p.ports@[t].port == x,
        decreases ports.len() - j,
    {
        registered.insert(ports[j].port);
        assert forall|x: i64| registered@.contains(x) implies exists|t: int| 0 <= t < j + 1 && p.ports@[t].port == x by {
            if x == ports@[j as int].port {
                assert(p.ports@[j as int].port == x);
            }
        }
        j = j + 1;
    }
    let ghost all = active@;
    let n = active.len();
    let mut rest = reversed(active);
    let mut out: Vec<ActivePort> = Vec::new();
    let mut k: usize = 0;
    proof {
        reveal_with_fuel(Seq::<_>::filter, 1);
        assert(all.subrange(0, 0).len() == 0);
    }
    while rest.len() > 0
        invariant
            n == all.len(),
            k + rest@.len() == n,
            p == projects@[i as int],
            forall|x: i64| registered@.contains(x) <==> registers_port(p, x),
            forall|t: int| 0 <= t < rest@.len() ==> rest@[t] == all[n - 1 - t],
            out@ == all.subrange(0, k as int).filter(|a: ActivePort| registers_port(p, a.port)),
        decreases rest.len(),
    {
        let a = rest.pop().unwrap();
        assert(a == all[k as int]);
        let found = registered.contains(&a.port);
        assert(found == registers_port(p, a.port));
        proof {
            reveal_with_fuel(Seq::<_>::filter, 1);
            assert(all.subrange(0, k + 1).drop_last() == all.subrange(0, k as int));
            assert(all.subrange(0, k + 1).last() == a);
        }
        if found {
            out.push(a);
        }
        k = k + 1;
    }
    assert(all.subrange(0, k as int) == all);
    Ok(out)
}

impl ByPort for KillEntry {
    open spec fn port_of(&self) -> i64 {
        self.port
    }

    fn port_key(&self) -> (r: i64) {
        self.port
    }
}

impl ByPort for ActivePort {
    open spec fn port_of(&self) -> i64 {
        self.port
    }

    fn port_key(&self) -> (r: i64) {
        self.port
    }
}

impl ByPort for i64 {
    open spec fn port_of(&self) -> i64 {
        *self
    }

    fn port_key(&self) -> (r: i64) {
        *self
    }
}

/// The outcomes of a project's kills, ordered by port.
pub fn order_kill_results(results: Vec<KillEntry>) -> (r: Vec<KillEntry>)
    ensures
        r@ == sorted_by_port(results@),
        forall|i: int, j: int| 0 <= i < j < r@.len() ==> r@[i].port <= r@[j].port,
{
    proof {
        law_kill_results_ascending(results@);
    }
    sort_by_port(results)
}

/// Listeners ordered by port (the unmanaged ports list).
pub fn order_listeners(ports: Vec<ActivePort>) -> (r: Vec<ActivePort>)
    ensures
        r@ == sorted_by_port(ports@),
        forall|i: int, j: int| 0 <= i < j < r@.len() ==> r@[i].port <= r@[j].port,
{
    proof {
        law_listeners_ascending(ports@);
    }
    sort_by_port(ports)
}

/// Active port numbers in ascending order.
pub fn sorted_ports(ports: Vec<i64>) -> (r: Vec<i64>)
    ensures
        r@ == sorted_by_port(ports@),
        forall|i: int, j: int| 0 <= i < j < r@.len() ==> r@[i] <= r@[j],
{
    proof {
        law_sorted_ports_ascending(ports@);
    }
    sort_by_port(ports)
}

/// Port numbers come out as the same numbers, in ascending order of the
/// numbers themselves.
pub proof fn law_sorted_ports_ascending(ports: Seq<i64>)
    ensures
        forall|i: int, j: int|
            0 <= i < j < ports.len() ==> sorted_by_port(ports)[i] <= sorted_by_port(ports)[j],
        sorted_by_port(ports).to_multiset() == ports.to_multiset(),
        sorted_by_port(ports).len() == ports.len(),
{
    law_sorted_by_port(ports);
    let r = sorted_by_port(ports);
    assert forall|i: int, j: int| 0 <= i < j < ports.len() implies r[i] <= r[j] by {
        assert(r[i].port_of() <= r[j].port_of());
    }
}

/// Listeners come out as the same listeners, in ascending order of their
/// port numbers.
pub proof fn law_listeners_ascending(ports: Seq<ActivePort>)
    ensures
        forall|i: int, j: int|
            0 <= i < j < ports.len() ==> sorted_by_port(ports)[i].port <= sorted_by_port(ports)[j].port,
        sorted_by_port(ports).to_multiset() == ports.to_multiset(),
        sorted_by_port(ports).len() == ports.len(),
{
    law_sorted_by_port(ports);
    let r = sorted_by_port(ports);
    assert forall|i: int, j: int| 0 <= i < j < ports.len() implies r[i].port <= r[j].port by {
        assert(r[i].port_of() <= r[j].port_of());
    }
}

/// Kill results come out as the same results, in ascending order of their
/// port numbers.
pub proof fn law_kill_results_ascending(results: Seq<KillEntry>)
    ensures
        forall|i: int, j: int|
            0 <= i < j < results.len() ==> sorted_by_port(results)[i].port <= sorted_by_port(results)[j].port,
        sorted_by_port(results).to_multiset() == results.to_multiset(),
        sorted_by_port(results).len() == results.len(),
{
    law_sorted_by_port(results);
    let r = sorted_by_port(results);
    assert forall|i: int, j: int| 0 <= i < j < results.len() implies r[i].port <= r[j].port by {
        assert(r[i].port_of() <= r[j].port_of());
    }
}

/// The ports registered to any of `projects`, project by project, in order.
pub open spec fn all_registered(projects: Seq<ProjectWithPorts>) -> Seq<i64>
    decreases projects.len(),
{
    if projects.len() == 0 {
        Seq::empty()
    } else {
        all_registered(projects.drop_last()) + projects.last().ports@.map_values(|p: Port| p.port)
    }
}

/// The ports registered to any project, which the unmanaged scan leaves out.
pub fn registered_ports(projects: &Vec<ProjectWithPorts>) -> (r: Vec<i64>)
    ensures
        r@ == all_registered(projects@),
{
    let mut out: Vec<i64> = Vec::new();
    let mut i: usize = 0;
    assert(projects@.subrange(0, 0) =~= Seq::<ProjectWithPorts>::empty());
    while i < projects.len()
        invariant
            i <= projects@.len(),
            out@ == all_registered(projects@.subrange(0, i as int)),
        decreases projects.len() - i,
    {
        let ports = &projects[i].ports;
        let ghost base = out@;
        let mut j: usize = 0;
        while j < ports.len()
            invariant
                *ports == projects@[i as int].ports,
                j <= ports@.len(),
                out@ == base + ports@.subrange(0, j as int).map_values(|p: Port| p.port),
            decreases ports.len() - j,
        {
            out.push(ports[j].port);
            assert(ports@.subrange(0, j + 1).map_values(|p: Port| p.port) =~= ports@.subrange(
                0,
                j as int,
            ).map_values(|p: Port| p.port).push(ports@[j as int].port));
            j = j + 1;
        }
        assert(ports@.subrange(0, j as int) == ports@);
        assert(projects@.subrange(0, i + 1).drop_last() == projects@.subrange(0, i as int));
        assert(projects@.subrange(0, i + 1).last() == projects@[i as int]);
        i = i + 1;
    }
    assert(projects@.subrange(0, i as int) == projects@);
    out
}

/// The message that refuses a port outside `1..=65535`.
pub open spec fn invalid_port_message(port: i64) -> Seq<char> {
    "invalid port: "@ + int_text(port as int)
}

/// The address that opens `localhost:port` in a browser, for a port in
/// `1..=65535`; an error naming the port otherwise.
pub fn browser_url(port: i64) -> (r: Result<String, String>)
    ensures
        1 <= port <= 65535 ==> (r matches Ok(u) && u@ == "http://localhost:"@ + int_text(port as int)),
        !(1 <= port <= 65535) ==> (r matches Err(m) && m@ == invalid_port_message(port)),
{
    let d = decimal(port);
    if !(1 <= port && port <= 65535) {
        let mut m = String::from_str("invalid port: ");
        m.append(d.as_str());
        return Err(m);
    }
    let mut u = String::from_str("http://localhost:");
    u.append(d.as_str());
    Ok(u)
}

/// A newly created project: its row, with no ports yet.
pub fn new_project_status(p: Project) -> (r: ProjectStatus)
    ensures
        r.id == p.id,
        r.name == p.name,
        r.path == p.path,
        r.range_start == p.range_start,
        r.range_end == p.range_end,
        r.created_at == p.created_at,
        r.ports@.len() == 0,
{
    let Project { id, name, path, range_start, range_end, created_at } = p;
    ProjectStatus { id, name, path, range_start, range_end, created_at, ports: Vec::new() }
}

/// A newly added port: its row, active when its port is among `active`,
/// without process name or PID.
pub fn new_port_status(p: Port, active: &Vec<i64>) -> (r: PortStatus)
    ensures
        r.id == p.id,
        r.project_id == p.project_id,
        r.service == p.service,
        r.port == p.port,
        r.created_at == p.created_at,
        r.active == active@.contains(p.port),
        r.process is None,
        r.pid is None,
{
    let mut found = false;
    let mut i: usize = 0;
    while i < active.len()
        invariant
            i <= active@.len(),
            found == exists|t: int| 0 <= t < i && active@[t] == p.port,
        decreases active.len() - i,
    {
        if active[i] == p.port {
            found = true;
        }
        i = i + 1;
    }
    let Port { id, project_id, service, port, created_at } = p;
    PortStatus { active: found, process: None, pid: None, id, project_id, service, port, created_at }
}

/// The configuration as the UI reads it: `{"base_port": .., "range_size": ..}`.
pub fn config_document(base_port: String, range_size: String) -> (r: Json)
    ensures
        r is Object,
        json_lookup(r, "base_port"@) matches Some(Json::Str(b)) && b@ == base_port@,
        json_lookup(r, "range_size"@) matches Some(Json::Str(s)) && s@ == range_size@,
        forall|k: Seq<char>|
            k != "base_port"@ && k != "range_size"@ ==> #[trigger] json_lookup(r, k) is None,
{
    let ghost b = base_port@;
    let j1 = set_member(Json::Null, "base_port", Json::Str(base_port));
    let j2 = set_member(j1, "range_size", Json::Str(range_size));
    proof {
        reveal_strlit("base_port");
        reveal_strlit("range_size");
        assert("base_port"@.len() != "range_size"@.len());
        assert(json_lookup(j2, "base_port"@) == json_lookup(j1, "base_port"@));
    }
    j2
}

/// The configuration that an export writes: the stored values, or `4000`
/// and `10` where reading one failed.
pub fn exported_config(base_port: Option<String>, range_size: Option<String>) -> (r: Json)
    ensures
        r is Object,
        json_lookup(r, "base_port"@) matches Some(Json::Str(b)) && b@ == match base_port {
            Some(v) => v@,
            None => "4000"@,
        },
        json_lookup(r, "range_size"@) matches Some(Json::Str(s)) && s@ == match range_size {
            Some(v) => v@,
            None => "10"@,
        },
        forall|k: Seq<char>|
            k != "base_port"@ && k != "range_size"@ ==> #[trigger] json_lookup(r, k) is None,
{
    let b = match base_port {
        Some(v) => v,
        None => String::from_str("4000"),
    };
    let s = match range_size {
        Some(v) => v,
        None => String::from_str("10"),
    };
    config_document(b, s)
}

} // verus!
