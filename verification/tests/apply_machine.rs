use xray_controller::apply::{
    accepts_event, apply, display_name_of, Action, ApplyState, ContainerInspect, ContainerSummary,
    Event, ExecInspect, Expect, Payload, Reply,
};
use xray_controller::http::{DockerResponse, Method};

fn response(status: u16) -> DockerResponse {
    DockerResponse { status, reason: "R".to_string(), body: b"body".to_vec() }
}

fn answered(status: u16, payload: Payload) -> Event {
    Event::Replied(Reply::Answered(response(status), payload))
}

fn inspect(labels: &[(&str, &str)], running: bool, restarting: bool) -> Payload {
    Payload::Container(Ok(ContainerInspect {
        labels: labels.iter().map(|(k, v)| (k.to_string(), v.to_string())).collect(),
        running,
        restarting,
    }))
}

fn summary(id: &str, names: &[&str]) -> ContainerSummary {
    ContainerSummary { id: id.to_string(), names: names.iter().map(|n| n.to_string()).collect() }
}

fn step(state: ApplyState, event: Event) -> (ApplyState, Action) {
    assert!(accepts_event(&state, &event));
    apply(state, event)
}

fn expect_call(action: &Action, method: Method, path: &str, expect: Expect) {
    match action {
        Action::Call(call, x) => {
            assert_eq!(call.method, method);
            assert_eq!(call.path, path);
            assert_eq!(*x, expect);
        }
        other => panic!("expected a call, got {other:?}"),
    }
}

fn finished(action: Action) -> Result<String, String> {
    match action {
        Action::Finish(outcome) => outcome,
        other => panic!("expected the end, got {other:?}"),
    }
}

const PROJECT_PATH: &str = "/containers/json?all=1&filters=%7B%22label%22%3A%5B%22com.docker.compose.project%3Dxray%22%2C%22org.xray.controller.role%3Dcore%22%5D%7D";

/// Runs discovery up to the inspection of the target.
fn discover() -> ApplyState {
    let (s, a) = step(ApplyState::Start, Event::Started(Some("self1".to_string())));
    expect_call(&a, Method::Get, "/containers/self1/json", Expect::Container);
    let (s, a) = step(s, answered(200, inspect(&[("other", "1"), ("com.docker.compose.project", "xray")], true, false)));
    expect_call(&a, Method::Get, PROJECT_PATH, Expect::Containers);
    let (s, a) = step(
        s,
        answered(200, Payload::Containers(Ok(vec![summary("0123456789abcdef", &["/xray-core-1"])]))),
    );
    expect_call(&a, Method::Get, "/containers/0123456789abcdef/json", Expect::Container);
    s
}

/// Runs a configuration test from its creation to its inspection.
fn run_test(s: ApplyState) -> (ApplyState, Action) {
    let (s, a) = step(s, answered(201, Payload::ExecCreated(Ok("e1".to_string()))));
    match &a {
        Action::Call(call, x) => {
            assert_eq!(call.method, Method::Post);
            assert_eq!(call.path, "/exec/e1/start");
            assert_eq!(call.body, b"{\"Detach\":false,\"Tty\":false}".to_vec());
            assert_eq!(*x, Expect::Empty);
        }
        _ => panic!(),
    }
    let (s, a) = step(s, answered(200, Payload::Empty));
    expect_call(&a, Method::Get, "/exec/e1/json", Expect::Exec);
    step(s, answered(200, Payload::Exec(Ok(ExecInspect { running: false, exit_code: 0 }))))
}

#[test]
fn successful_apply_of_a_running_container() {
    let s = discover();
    let (s, a) = step(s, answered(200, inspect(&[], true, false)));
    match &a {
        Action::Call(call, x) => {
            assert_eq!(call.path, "/containers/0123456789abcdef/exec");
            assert_eq!(
                call.body,
                b"{\"AttachStderr\":true,\"AttachStdout\":true,\"Cmd\":[\"/usr/local/bin/xray\",\"run\",\"-test\",\"-c\",\"/usr/local/etc/xray/config.json\"],\"Tty\":false}".to_vec()
            );
            assert_eq!(*x, Expect::ExecCreated);
        }
        _ => panic!(),
    }
    let (s, a) = run_test(s);
    expect_call(&a, Method::Post, "/containers/0123456789abcdef/restart?t=10", Expect::Empty);
    let (s, a) = step(s, answered(204, Payload::Empty));
    assert!(matches!(a, Action::ReadClock));
    let (s, a) = step(s, Event::Clock(1000));
    assert!(matches!(a, Action::ReadClock));
    let (s, a) = step(s, Event::Clock(1001));
    expect_call(&a, Method::Get, "/containers/0123456789abcdef/json", Expect::Container);
    let (s, a) = step(s, answered(200, inspect(&[], false, true)));
    assert!(matches!(a, Action::Sleep(500)));
    let (s, a) = step(s, Event::Slept);
    assert!(matches!(a, Action::ReadClock));
    let (s, a) = step(s, Event::Clock(1501));
    expect_call(&a, Method::Get, "/containers/0123456789abcdef/json", Expect::Container);
    let (s, a) = step(s, Event::Replied(Reply::Failed("read Docker API response: reset".to_string())));
    assert!(matches!(a, Action::Sleep(500)));
    let (s, _) = step(s, Event::Slept);
    let (s, _) = step(s, Event::Clock(2001));
    let (s, a) = step(s, answered(200, inspect(&[], true, false)));
    expect_call(&a, Method::Post, "/containers/0123456789abcdef/exec", Expect::ExecCreated);
    let (s, a) = run_test(s);
    assert!(matches!(s, ApplyState::Done));
    assert_eq!(
        finished(a),
        Ok("configuration validated, discovered container xray-core-1 in Compose project xray restarted, post-check passed".to_string())
    );
}

#[test]
fn stopped_container_is_restarted_without_pre_test() {
    let s = discover();
    let (_, a) = step(s, answered(200, inspect(&[], false, false)));
    expect_call(&a, Method::Post, "/containers/0123456789abcdef/restart?t=10", Expect::Empty);
    let s = discover();
    let (_, a) = step(s, answered(200, inspect(&[], true, true)));
    expect_call(&a, Method::Post, "/containers/0123456789abcdef/restart?t=10", Expect::Empty);
}

#[test]
fn missing_hostname() {
    let (s, a) = step(ApplyState::Start, Event::Started(None));
    assert!(matches!(s, ApplyState::Done));
    assert_eq!(finished(a), Err("HOSTNAME is unavailable".to_string()));
}

#[test]
fn missing_or_empty_project_label() {
    for labels in [&[][..], &[("com.docker.compose.project", "")][..]] {
        let (s, _) = step(ApplyState::Start, Event::Started(Some("me".to_string())));
        let (_, a) = step(s, answered(200, inspect(labels, true, false)));
        assert_eq!(finished(a), Err("controller lacks a Compose project label".to_string()));
    }
}

#[test]
fn docker_errors_end_discovery() {
    let (s, _) = step(ApplyState::Start, Event::Started(Some("me".to_string())));
    let (_, a) = step(s, answered(404, inspect(&[], true, false)));
    assert_eq!(finished(a), Err("Docker API returned 404 R: body".to_string()));
    let (s, _) = step(ApplyState::Start, Event::Started(Some("me".to_string())));
    let (_, a) = step(s, answered(200, Payload::Container(Err("missing field `State`".to_string()))));
    assert_eq!(finished(a), Err("decode container inspect: missing field `State`".to_string()));
    let (s, _) = step(ApplyState::Start, Event::Started(Some("me".to_string())));
    let (_, a) = step(s, Event::Replied(Reply::Failed("connect Docker API: refused".to_string())));
    assert_eq!(finished(a), Err("connect Docker API: refused".to_string()));
}

#[test]
fn list_must_hold_exactly_one_container() {
    for list in [vec![], vec![summary("a", &[]), summary("b", &[])]] {
        let n = list.len();
        let (s, _) = step(ApplyState::Start, Event::Started(Some("me".to_string())));
        let (s, _) = step(s, answered(200, inspect(&[("com.docker.compose.project", "xray")], true, false)));
        let (_, a) = step(s, answered(200, Payload::Containers(Ok(list))));
        assert_eq!(
            finished(a),
            Err(format!(
                "expected exactly one container in Compose project xray with label org.xray.controller.role=core, found {n}"
            ))
        );
    }
    let (s, _) = step(ApplyState::Start, Event::Started(Some("me".to_string())));
    let (s, _) = step(s, answered(200, inspect(&[("com.docker.compose.project", "xray")], true, false)));
    let (_, a) = step(s, answered(200, Payload::Containers(Err("bad".to_string()))));
    assert_eq!(finished(a), Err("decode container list: bad".to_string()));
}

#[test]
fn failed_pre_restart_test_stops_the_apply() {
    let s = discover();
    let (s, _) = step(s, answered(200, inspect(&[], true, false)));
    let (s, _) = step(s, answered(201, Payload::ExecCreated(Ok("e1".to_string()))));
    let (s, _) = step(s, answered(200, Payload::Empty));
    let (s, a) = step(s, answered(200, Payload::Exec(Ok(ExecInspect { running: false, exit_code: -2 }))));
    assert!(matches!(s, ApplyState::Done));
    assert_eq!(
        finished(a),
        Err("pre-restart configuration test: fixed Xray configuration test failed with exit code -2".to_string())
    );
}

#[test]
fn exec_failures_carry_the_stage() {
    let s = discover();
    let (s, _) = step(s, answered(200, inspect(&[], true, false)));
    let (_, a) = step(s, answered(201, Payload::ExecCreated(Ok(String::new()))));
    assert_eq!(
        finished(a),
        Err("pre-restart configuration test: Docker API returned an empty exec ID".to_string())
    );
    let s = discover();
    let (s, _) = step(s, answered(200, inspect(&[], true, false)));
    let (_, a) = step(s, answered(200, Payload::ExecCreated(Ok("e".to_string()))));
    assert_eq!(finished(a), Err("pre-restart configuration test: Docker API returned 200 R: body".to_string()));
    let s = discover();
    let (s, _) = step(s, answered(200, inspect(&[], true, false)));
    let (s, _) = step(s, answered(201, Payload::ExecCreated(Ok("e1".to_string()))));
    let (s, _) = step(s, answered(200, Payload::Empty));
    let (_, a) = step(s, answered(200, Payload::Exec(Ok(ExecInspect { running: true, exit_code: 0 }))));
    assert_eq!(
        finished(a),
        Err("pre-restart configuration test: fixed Xray configuration test did not finish".to_string())
    );
}

#[test]
fn failed_restart_is_reported() {
    let s = discover();
    let (s, _) = step(s, answered(200, inspect(&[], false, false)));
    let (s, a) = step(s, answered(500, Payload::Empty));
    assert!(matches!(s, ApplyState::Done));
    assert_eq!(finished(a), Err("restart discovered container: Docker API returned 500 R: body".to_string()));
}

#[test]
fn wait_times_out_after_thirty_seconds() {
    let s = discover();
    let (s, _) = step(s, answered(200, inspect(&[], false, false)));
    let (s, _) = step(s, answered(204, Payload::Empty));
    let (s, _) = step(s, Event::Clock(100));
    let (s, a) = step(s, Event::Clock(30_099));
    expect_call(&a, Method::Get, "/containers/0123456789abcdef/json", Expect::Container);
    let (s, _) = step(s, answered(200, inspect(&[], false, false)));
    let (s, _) = step(s, Event::Slept);
    let (s, a) = step(s, Event::Clock(30_100));
    assert!(matches!(s, ApplyState::Done));
    assert_eq!(
        finished(a),
        Err("discovered container 0123456789ab did not become running within 30 seconds".to_string())
    );
}

#[test]
fn post_restart_test_failure() {
    let s = discover();
    let (s, _) = step(s, answered(200, inspect(&[], false, false)));
    let (s, _) = step(s, answered(204, Payload::Empty));
    let (s, _) = step(s, Event::Clock(0));
    let (s, _) = step(s, Event::Clock(1));
    let (s, _) = step(s, answered(200, inspect(&[], true, false)));
    let (_, a) = step(s, Event::Replied(Reply::Failed("write Docker API request: broken pipe".to_string())));
    assert_eq!(
        finished(a),
        Err("post-restart configuration test: write Docker API request: broken pipe".to_string())
    );
}

#[test]
fn events_that_a_state_does_not_wait_for_are_refused() {
    assert!(!accepts_event(&ApplyState::Start, &Event::Slept));
    assert!(!accepts_event(&ApplyState::Done, &Event::Started(None)));
    assert!(!accepts_event(&ApplyState::InspectingSelf, &answered(200, Payload::Empty)));
    assert!(accepts_event(&ApplyState::InspectingSelf, &Event::Replied(Reply::Failed(String::new()))));
}

#[test]
fn display_names() {
    assert_eq!(display_name_of(&summary("0123456789abcdef", &["//name", "x"])), "name");
    assert_eq!(display_name_of(&summary("0123456789abcdef", &["/"])), "0123456789ab");
    assert_eq!(display_name_of(&summary("ab", &[])), "ab");
    assert_eq!(display_name_of(&summary("ééééééééééééé", &[])), "éééééééééééé");
}

#[test]
fn duplicate_label_keys_are_refused() {
    let (s, _) = step(ApplyState::Start, Event::Started(Some("me".to_string())));
    let e = answered(200, inspect(&[("a", "1"), ("a", "2")], true, false));
    assert!(!accepts_event(&s, &e));
    let e = answered(200, inspect(&[("a", "1"), ("b", "2")], true, false));
    assert!(accepts_event(&s, &e));
}
