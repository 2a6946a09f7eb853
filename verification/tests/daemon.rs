use canweeb::daemon::{
    default_socket_path, parse_env_pairs, registry_path_for, saved_response, spawn_failed,
    ApiRequest, DaemonState, ProgramSpec, RequestOutcome,
};
use canweeb::daemon_panel::{run_counts, DaemonAction, DaemonKey, DaemonPanel};
use canweeb::json::JsonValue;
use canweeb::order::text_order;
use canweeb::table::Table;

fn spec(name: &str, concurrent: bool, ttl: Option<u64>) -> ProgramSpec {
    ProgramSpec {
        name: name.into(),
        command: "/bin/echo".into(),
        args: vec!["hi".into()],
        cwd: None,
        env: Table::new(),
        ttl_seconds: ttl,
        allow_concurrent: concurrent,
    }
}

fn reply(o: RequestOutcome) -> canweeb::daemon::ApiResponse {
    match o {
        RequestOutcome::Reply(r) => r,
        other => panic!("expected a reply, got {other:?}"),
    }
}

#[test]
fn env_pairs_and_paths() {
    let t = parse_env_pairs(&["A=1".to_string(), "B=x=y".to_string(), "A=2".to_string()]).unwrap();
    assert_eq!(t.get("A").map(|s| s.as_str()), Some("2"));
    assert_eq!(t.get("B").map(|s| s.as_str()), Some("x=y"));
    assert_eq!(t.len(), 2);
    let e = parse_env_pairs(&["OK=1".to_string(), "broken".to_string()]).unwrap_err();
    assert_eq!(e, "invalid --env format: broken (expected KEY=VALUE)");
    assert_eq!(default_socket_path(), "/tmp/cmdlibd.sock");
    assert_eq!(registry_path_for(Some("/home/pi")), "/home/pi/.local/share/cmdlibd/registry.json");
    assert_eq!(registry_path_for(None), "./.local/share/cmdlibd/registry.json");
}

#[test]
fn requests_change_registry_and_runs() {
    let mut d = DaemonState::new(Table::new());
    let pong = reply(d.process_request(ApiRequest::Ping, 0));
    assert!(pong.ok);
    assert_eq!(pong.message, "pong");

    match d.process_request(ApiRequest::Register { spec: spec("blink", false, Some(5)) }, 0) {
        RequestOutcome::SaveRegistry { message, data } => {
            let r = saved_response(message, data, Ok(()));
            assert!(r.ok);
            assert_eq!(r.message, "registered");
        }
        other => panic!("unexpected {other:?}"),
    }
    assert!(d.registry().contains("blink"));
    let failed = saved_response("x".into(), JsonValue::Null, Err("disk full".into()));
    assert!(!failed.ok);
    assert_eq!(failed.message, "save registry failed: disk full");

    let missing = reply(d.process_request(ApiRequest::Run { name: "nope".into(), ttl_seconds: None }, 0));
    assert_eq!(missing.message, "program not found: nope");

    let (s, ttl) = match d.process_request(ApiRequest::Run { name: "blink".into(), ttl_seconds: None }, 0) {
        RequestOutcome::Spawn { spec, ttl_seconds } => (spec, ttl_seconds),
        other => panic!("unexpected {other:?}"),
    };
    assert_eq!(ttl, Some(5));
    let started = d.record_start(&s, ttl, "run-1".into(), 4242, 1_000);
    assert!(started.ok);
    assert_eq!(started.message, "started");

    // Not concurrent: a second run is refused.
    let busy = reply(d.process_request(ApiRequest::Run { name: "blink".into(), ttl_seconds: Some(1) }, 2_000));
    assert_eq!(busy.message, "program already running and allow_concurrent=false: blink");

    assert!(d.expired_runs(5_999).is_empty());
    assert_eq!(d.expired_runs(6_000), vec!["run-1".to_string()]);

    let status = reply(d.process_request(ApiRequest::Status, 3_000));
    assert!(status.ok);
    assert_eq!(status.message, "status");

    match d.process_request(ApiRequest::Stop { name: "blink".into() }, 3_000) {
        RequestOutcome::Kill { run_ids, reply } => {
            assert_eq!(run_ids, vec!["run-1".to_string()]);
            assert_eq!(reply.message, "stopped");
        }
        other => panic!("unexpected {other:?}"),
    }
    assert!(d.expired_runs(u64::MAX).is_empty());

    match d.process_request(ApiRequest::RunRaw { spec: spec("raw-1", true, None) }, 0) {
        RequestOutcome::Spawn { ttl_seconds, .. } => assert_eq!(ttl_seconds, None),
        other => panic!("unexpected {other:?}"),
    }
    match d.process_request(ApiRequest::Unregister { name: "blink".into() }, 0) {
        RequestOutcome::SaveRegistry { message, .. } => assert_eq!(message, "unregistered"),
        other => panic!("unexpected {other:?}"),
    }
    assert!(!d.registry().contains("blink"));
    assert_eq!(spawn_failed("no such file").message, "spawn failed: no such file");
    let list = reply(d.process_request(ApiRequest::List, 0));
    assert_eq!(list.message, "list");
}

#[test]
fn finished_runs_are_removed() {
    let mut d = DaemonState::new(Table::new());
    let s = spec("a", true, None);
    d.record_start(&s, None, "r1".into(), 1, 0);
    d.record_start(&s, None, "r2".into(), 2, 0);
    d.remove_runs(&["r1".to_string()]);
    match d.process_request(ApiRequest::Stop { name: "a".into() }, 0) {
        RequestOutcome::Kill { run_ids, .. } => assert_eq!(run_ids, vec!["r2".to_string()]),
        other => panic!("unexpected {other:?}"),
    }
}

fn text_member(j: &JsonValue, key: &str) -> String {
    match j {
        JsonValue::Object(fields) => match fields.iter().find(|(k, _)| k == key) {
            Some((_, JsonValue::Str(s))) => s.clone(),
            other => panic!("no text member {key}: {other:?}"),
        },
        other => panic!("not an object: {other:?}"),
    }
}

#[test]
fn running_views_in_name_order() {
    let mut d = DaemonState::new(Table::new());
    d.record_start(&spec("zeta", true, None), None, "r3".into(), 3, 0);
    d.record_start(&spec("alpha", true, Some(10)), Some(10), "r9".into(), 9, 0);
    d.record_start(&spec("alpha", true, None), None, "r1".into(), 1, 0);
    let views = d.to_running_views(2_500);
    let order: Vec<(String, String)> =
        views.iter().map(|v| (text_member(v, "name"), text_member(v, "run_id"))).collect();
    assert_eq!(
        order,
        vec![
            ("alpha".to_string(), "r1".to_string()),
            ("alpha".to_string(), "r9".to_string()),
            ("zeta".to_string(), "r3".to_string()),
        ]
    );
    match &views[1] {
        JsonValue::Object(fields) => {
            assert_eq!(fields[5].0, "uptime_ms");
            assert!(matches!(&fields[5].1, JsonValue::Number(canweeb::json::JsonNumber::UInt(2_500))));
            assert_eq!(fields[6].0, "expires_in_ms");
            assert!(matches!(&fields[6].1, JsonValue::Number(canweeb::json::JsonNumber::UInt(7_500))));
        }
        other => panic!("not an object: {other:?}"),
    }
    assert!(DaemonState::new(Table::new()).to_running_views(0).is_empty());
}

#[test]
fn daemon_panel_keys() {
    let names: Vec<String> = vec!["a".into(), "b".into(), "c".into()];
    let mut p = DaemonPanel::new();
    assert_eq!(p.selected, 0);
    assert!(matches!(p.on_key(DaemonKey::Up, &names), DaemonAction::Nothing));
    assert_eq!(p.selected, 0);
    p.on_key(DaemonKey::Down, &names);
    p.on_key(DaemonKey::Down, &names);
    p.on_key(DaemonKey::Down, &names);
    assert_eq!(p.selected, 2);
    match p.on_key(DaemonKey::Enter, &names) {
        DaemonAction::Run(n) => assert_eq!(n, "c"),
        other => panic!("unexpected {other:?}"),
    }
    p.on_key(DaemonKey::Up, &names);
    match p.on_key(DaemonKey::Stop, &names) {
        DaemonAction::Stop(n) => assert_eq!(n, "b"),
        other => panic!("unexpected {other:?}"),
    }
    assert!(matches!(p.on_key(DaemonKey::Refresh, &names), DaemonAction::Refresh));
    assert!(matches!(p.on_key(DaemonKey::Quit, &names), DaemonAction::Quit));
    assert!(matches!(p.on_key(DaemonKey::Other, &names), DaemonAction::Nothing));
    // The list shrank: the selection stays on the last program.
    p.after_refresh(1);
    assert_eq!(p.selected, 0);
    p.selected = 4;
    p.after_refresh(0);
    assert_eq!(p.selected, 4);
    let empty: Vec<String> = Vec::new();
    p.on_key(DaemonKey::Down, &empty);
    assert_eq!(p.selected, 4);
    assert!(matches!(p.on_key(DaemonKey::Enter, &empty), DaemonAction::Nothing));
}

#[test]
fn run_counts_per_program() {
    let programs: Vec<String> = vec!["a".into(), "b".into(), "c".into()];
    let running: Vec<String> = vec!["a".into(), "c".into(), "a".into(), "x".into()];
    assert_eq!(run_counts(&programs, &running), vec![2, 0, 1]);
    assert!(run_counts(&Vec::new(), &running).is_empty());
}

#[test]
fn text_order_is_stable() {
    let v: Vec<String> = vec!["b".into(), "a".into(), "b".into(), "ab".into(), "".into()];
    assert_eq!(text_order(&v), vec![4, 1, 3, 0, 2]);
    assert!(text_order(&Vec::new()).is_empty());
}
