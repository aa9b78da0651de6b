use portsage::status::{
    browser_url, config_document, enrich_with_status, exported_config, is_permission_error,
    kill_start, kill_step, kill_targets, listener_pid, mentions_not_permitted, new_port_status,
    new_project_status, order_kill_results, order_listeners, registered_ports, sorted_ports,
    KillAction, KillEvent, KillPhase,
};
use portsage::json::{get, Json};
use portsage::text::decimal;
use portsage::types::{ActivePort, KillEntry, KillOutcome, Port, Project, ProjectWithPorts};

fn project(id: i64, name: &str, range: (i64, i64)) -> Project {
    Project {
        id,
        name: name.into(),
        path: None,
        range_start: range.0,
        range_end: range.1,
        created_at: "now".into(),
    }
}

fn port(id: i64, project_id: i64, service: &str, port: i64) -> Port {
    Port {
        id,
        project_id,
        service: service.into(),
        port,
        created_at: "now".into(),
    }
}

fn active(port: i64, process: &str) -> ActivePort {
    ActivePort {
        port,
        process: process.into(),
        pid: 999,
    }
}

#[test]
fn enrich_marks_active_ports_and_attaches_process_name() {
    let projects = vec![ProjectWithPorts {
        project: project(1, "alpha", (4000, 4009)),
        ports: vec![port(10, 1, "vite", 4000), port(11, 1, "api", 4001)],
    }];
    let active_list = vec![active(4000, "node")];

    let result = enrich_with_status(projects, &active_list);

    assert_eq!(result.len(), 1);
    let p = &result[0];
    assert_eq!(p.name, "alpha");
    assert_eq!(p.ports.len(), 2);

    let vite = p.ports.iter().find(|p| p.service == "vite").unwrap();
    assert!(vite.active);
    assert_eq!(vite.process.as_deref(), Some("node"));
    assert_eq!(vite.pid, Some(999));

    let api = p.ports.iter().find(|p| p.service == "api").unwrap();
    assert!(!api.active);
    assert!(api.process.is_none());
    assert!(api.pid.is_none());
}

#[test]
fn enrich_with_no_active_ports_marks_everything_inactive() {
    let projects = vec![ProjectWithPorts {
        project: project(1, "alpha", (4000, 4009)),
        ports: vec![port(10, 1, "vite", 4000)],
    }];
    let result = enrich_with_status(projects, &[]);
    assert!(!result[0].ports[0].active);
    assert!(result[0].ports[0].process.is_none());
    assert!(result[0].ports[0].pid.is_none());
}

#[test]
fn enrich_active_port_outside_any_project_is_ignored() {
    let projects = vec![ProjectWithPorts {
        project: project(1, "alpha", (4000, 4009)),
        ports: vec![port(10, 1, "vite", 4000)],
    }];
    let active_list = vec![active(9999, "node")];

    let result = enrich_with_status(projects, &active_list);
    assert_eq!(result[0].ports.len(), 1);
    assert!(!result[0].ports[0].active);
}

#[test]
fn is_permission_error_matches_macos_and_linux_phrasing() {
    assert!(is_permission_error("kill: (12345) - Operation not permitted"));
    assert!(is_permission_error("kill: 12345: Operation not permitted"));
    assert!(is_permission_error("OPERATION NOT PERMITTED"));
}

#[test]
fn is_permission_error_rejects_other_failures() {
    assert!(!is_permission_error("kill: (12345) - No such process"));
    assert!(!is_permission_error(""));
}

#[test]
fn enrich_preserves_project_order_and_metadata() {
    let projects = vec![
        ProjectWithPorts {
            project: Project {
                id: 1,
                name: "alpha".into(),
                path: Some("/tmp/alpha".into()),
                range_start: 4000,
                range_end: 4009,
                created_at: "t1".into(),
            },
            ports: vec![],
        },
        ProjectWithPorts {
            project: project(2, "bravo", (4010, 4019)),
            ports: vec![],
        },
    ];
    let result = enrich_with_status(projects, &[]);
    assert_eq!(result.len(), 2);
    assert_eq!(result[0].name, "alpha");
    assert_eq!(result[0].path.as_deref(), Some("/tmp/alpha"));
    assert_eq!(result[0].range_start, 4000);
    assert_eq!(result[0].range_end, 4009);
    assert_eq!(result[1].name, "bravo");
}

#[test]
fn enrich_takes_the_last_listener_on_a_port() {
    let projects = vec![ProjectWithPorts {
        project: project(1, "alpha", (4000, 4009)),
        ports: vec![port(10, 1, "vite", 4000)],
    }];
    let active_list = vec![
        ActivePort { port: 4000, process: "first".into(), pid: 1 },
        ActivePort { port: 4001, process: "other".into(), pid: 2 },
        ActivePort { port: 4000, process: "second".into(), pid: 3 },
    ];
    let result = enrich_with_status(projects, &active_list);
    assert_eq!(result[0].ports[0].process.as_deref(), Some("second"));
    assert_eq!(result[0].ports[0].pid, Some(3));
    assert_eq!(result[0].ports[0].id, 10);
    assert_eq!(result[0].ports[0].service, "vite");
}

#[test]
fn mentions_not_permitted_needs_lowercase_text() {
    assert!(mentions_not_permitted("kill: 1: operation not permitted"));
    assert!(mentions_not_permitted("not permitted"));
    assert!(!mentions_not_permitted("Not Permitted"));
    assert!(!mentions_not_permitted("not  permitted"));
}

fn refused(s: &str) -> KillEvent {
    KillEvent::Refused(s.as_bytes().to_vec())
}

#[test]
fn kill_escalates_after_grace_period() {
    let (phase, action) = kill_start();
    assert_eq!((phase, action), (KillPhase::AwaitTerm, KillAction::SignalTerm));
    let (phase, action) = kill_step(phase, KillEvent::Sent);
    assert_eq!((phase, action), (KillPhase::AwaitGrace, KillAction::WaitGrace { millis: 2000 }));
    let (phase, action) = kill_step(phase, KillEvent::Waited);
    assert_eq!((phase, action), (KillPhase::AwaitProbe, KillAction::Probe));
    let (phase, action) = kill_step(phase, KillEvent::Alive);
    assert_eq!((phase, action), (KillPhase::AwaitKill, KillAction::SignalKill));
    let (phase, action) = kill_step(phase, KillEvent::Sent);
    assert_eq!(phase, KillPhase::Done(KillOutcome::Killed));
    assert_eq!(action, KillAction::Finish(KillOutcome::Killed));
}

#[test]
fn kill_outcomes_of_each_path() {
    let gone = kill_step(KillPhase::AwaitProbe, KillEvent::Gone);
    assert_eq!(gone.1, KillAction::Finish(KillOutcome::Terminated));
    let denied = kill_step(KillPhase::AwaitTerm, refused("kill: 5: Operation not permitted"));
    assert_eq!(denied.1, KillAction::Finish(KillOutcome::PermissionDenied));
    let vanished = kill_step(KillPhase::AwaitTerm, refused("kill: (5) - No such process"));
    assert_eq!(vanished.1, KillAction::Finish(KillOutcome::NotActive));
    let no_kill = kill_step(KillPhase::AwaitTerm, KillEvent::Unavailable);
    assert_eq!(no_kill.1, KillAction::Finish(KillOutcome::PermissionDenied));
    let died = kill_step(KillPhase::AwaitKill, refused("kill: (5) - No such process"));
    assert_eq!(died.1, KillAction::Finish(KillOutcome::Terminated));
    let denied2 = kill_step(KillPhase::AwaitKill, refused("OPERATION NOT PERMITTED"));
    assert_eq!(denied2.1, KillAction::Finish(KillOutcome::PermissionDenied));
    let no_kill2 = kill_step(KillPhase::AwaitKill, KillEvent::Unavailable);
    assert_eq!(no_kill2.1, KillAction::Finish(KillOutcome::PermissionDenied));
    let stray = kill_step(KillPhase::AwaitGrace, KillEvent::Alive);
    assert_eq!(stray, (KillPhase::AwaitGrace, KillAction::WaitGrace { millis: 2000 }));
    let over = kill_step(KillPhase::Done(KillOutcome::Killed), KillEvent::Sent);
    assert_eq!(over, (KillPhase::Done(KillOutcome::Killed), KillAction::Finish(KillOutcome::Killed)));
}

#[test]
fn listener_pid_takes_the_first_listener() {
    let list = vec![
        ActivePort { port: 4000, process: "a".into(), pid: 11 },
        ActivePort { port: 4000, process: "b".into(), pid: 12 },
    ];
    assert_eq!(listener_pid(&list, 4000), Some(11));
    assert_eq!(listener_pid(&list, 4001), None);
}

#[test]
fn kill_targets_picks_the_project_listeners() {
    let projects = vec![
        ProjectWithPorts {
            project: project(1, "alpha", (4000, 4009)),
            ports: vec![port(10, 1, "vite", 4000), port(11, 1, "api", 4002)],
        },
        ProjectWithPorts {
            project: project(2, "bravo", (4010, 4019)),
            ports: vec![port(12, 2, "web", 4010)],
        },
    ];
    let list = vec![active(4010, "x"), active(4002, "y"), active(4000, "z"), active(5000, "w")];
    let targets = kill_targets(&projects, 1, list).unwrap();
    let ports: Vec<i64> = targets.iter().map(|a| a.port).collect();
    assert_eq!(ports, vec![4002, 4000]);
    let err = kill_targets(&projects, 7, vec![]).unwrap_err();
    assert_eq!(err, "project 7 not found");
    let err = kill_targets(&projects, -3, vec![]).unwrap_err();
    assert_eq!(err, "project -3 not found");
}

#[test]
fn kill_results_are_ordered_by_port_stably() {
    let results = vec![
        KillEntry { port: 4002, outcome: KillOutcome::Killed },
        KillEntry { port: 4000, outcome: KillOutcome::Terminated },
        KillEntry { port: 4002, outcome: KillOutcome::NotActive },
        KillEntry { port: 3999, outcome: KillOutcome::PermissionDenied },
    ];
    let sorted = order_kill_results(results);
    assert_eq!(
        sorted,
        vec![
            KillEntry { port: 3999, outcome: KillOutcome::PermissionDenied },
            KillEntry { port: 4000, outcome: KillOutcome::Terminated },
            KillEntry { port: 4002, outcome: KillOutcome::Killed },
            KillEntry { port: 4002, outcome: KillOutcome::NotActive },
        ]
    );
}

#[test]
fn ports_and_listeners_sort_ascending() {
    assert_eq!(sorted_ports(vec![5173, 3000, 8080, 3001]), vec![3000, 3001, 5173, 8080]);
    assert_eq!(sorted_ports(vec![]), Vec::<i64>::new());
    let listeners = order_listeners(vec![active(9000, "b"), active(3000, "a")]);
    assert_eq!(listeners[0].port, 3000);
    assert_eq!(listeners[1].process, "b");
}

#[test]
fn registered_ports_lists_every_project_port() {
    let projects = vec![
        ProjectWithPorts {
            project: project(1, "alpha", (4000, 4009)),
            ports: vec![port(10, 1, "vite", 4000), port(11, 1, "api", 4002)],
        },
        ProjectWithPorts { project: project(2, "bravo", (4010, 4019)), ports: vec![] },
        ProjectWithPorts {
            project: project(3, "charlie", (4020, 4029)),
            ports: vec![port(12, 3, "web", 4020)],
        },
    ];
    assert_eq!(registered_ports(&projects), vec![4000, 4002, 4020]);
}

#[test]
fn browser_url_checks_the_port_range() {
    assert_eq!(browser_url(3000), Ok(String::from("http://localhost:3000")));
    assert_eq!(browser_url(1), Ok(String::from("http://localhost:1")));
    assert_eq!(browser_url(65535), Ok(String::from("http://localhost:65535")));
    assert_eq!(browser_url(0), Err(String::from("invalid port: 0")));
    assert_eq!(browser_url(65536), Err(String::from("invalid port: 65536")));
    assert_eq!(browser_url(-1), Err(String::from("invalid port: -1")));
}

#[test]
fn decimal_matches_display() {
    for n in [0i64, 7, 10, 99, 100, 4000, -1, -10, i64::MAX, i64::MIN] {
        assert_eq!(decimal(n), format!("{n}"));
    }
}

#[test]
fn new_rows_have_no_live_status() {
    let s = new_project_status(project(4, "delta", (4030, 4039)));
    assert_eq!(s.id, 4);
    assert_eq!(s.range_start, 4030);
    assert!(s.ports.is_empty());
    let p = new_port_status(port(20, 4, "db", 4031), &vec![4031, 9000]);
    assert!(p.active);
    assert!(p.process.is_none());
    let q = new_port_status(port(21, 4, "db", 4032), &vec![4031]);
    assert!(!q.active);
}

fn text_of(j: Option<&Json>) -> Option<String> {
    match j {
        Some(Json::Str(s)) => Some(s.clone()),
        _ => None,
    }
}

#[test]
fn config_documents_hold_both_values() {
    let doc = config_document("5000".into(), "20".into());
    assert_eq!(text_of(get(&doc, "base_port")), Some("5000".into()));
    assert_eq!(text_of(get(&doc, "range_size")), Some("20".into()));
    let exported = exported_config(None, Some("25".into()));
    assert_eq!(text_of(get(&exported, "base_port")), Some("4000".into()));
    assert_eq!(text_of(get(&exported, "range_size")), Some("25".into()));
    let defaults = exported_config(None, None);
    assert_eq!(text_of(get(&defaults, "range_size")), Some("10".into()));
}

#[test]
fn refused_stderr_is_decoded_lossily() {
    let (phase, _) = kill_start();
    let mut stderr = b"kill: \xff ".to_vec();
    stderr.extend_from_slice(b"Operation not permitted");
    let (next, action) = kill_step(phase, KillEvent::Refused(stderr));
    assert_eq!(next, KillPhase::Done(KillOutcome::PermissionDenied));
    assert_eq!(action, KillAction::Finish(KillOutcome::PermissionDenied));
}
