use lazyflutter::correlator::{CallError, Correlator, Purpose};
use lazyflutter::dispatcher::{classify, DaemonEvent, Dispatcher, Received, Topic, TOPIC_CAPACITY};
use lazyflutter::engine::{Completion, Engine, ProtocolError};
use lazyflutter::framing::LineBuffer;
use lazyflutter::json::JsonValue;
use lazyflutter::protocol::{daemon_error, device_from_json, platforms_from_result, route, Device, DeviceCapabilities, Inbound};
use lazyflutter::request::DaemonRequest;
use lazyflutter::session::{SessionCommand, SessionError, SessionInput, SessionManager, SessionState};
use lazyflutter::store::{reducer, Action, State, Store};

fn model(v: &serde_json::Value) -> JsonValue {
    match v {
        serde_json::Value::Null => JsonValue::Null,
        serde_json::Value::Bool(b) => JsonValue::Bool(*b),
        serde_json::Value::Number(n) => match (n.as_u64(), n.as_i64()) {
            (Some(u), _) => JsonValue::UInt(u),
            (None, Some(i)) => JsonValue::Int(i),
            _ => JsonValue::Decimal(n.to_string()),
        },
        serde_json::Value::String(s) => JsonValue::Str(s.clone()),
        serde_json::Value::Array(a) => JsonValue::Array(a.iter().map(model).collect()),
        serde_json::Value::Object(o) => {
            JsonValue::Object(o.iter().map(|(k, v)| (k.clone(), model(v))).collect())
        }
    }
}

fn parse(text: &str) -> JsonValue {
    model(&serde_json::from_str::<serde_json::Value>(text).unwrap())
}

fn device(id: &str, name: &str) -> Device {
    Device {
        id: id.to_string(),
        name: name.to_string(),
        platform: "linux".to_string(),
        emulator: false,
        category: String::new(),
        platform_type: String::new(),
        ephemeral: false,
        emulator_id: String::new(),
        sdk: String::new(),
        capabilities: DeviceCapabilities {
            hot_reload: false,
            hot_restart: false,
            screenshot: false,
            fast_start: false,
            flutter_exit: false,
            hardware_rendering: false,
            start_paused: false,
        },
    }
}

fn empty_state() -> State {
    State { devices: vec![], sessions: vec![] }
}

#[test]
fn supported_platforms_call_resolves_with_platform_list() {
    let mut engine = Engine::new(Some("/tmp/p".to_string()));
    let req = DaemonRequest::GetSupportedPlatforms { project_root: "/tmp/p".to_string() };
    let (id, line) = engine.call(&req, 0, 1000).unwrap();
    assert_eq!(id, 1);
    assert_eq!(
        line,
        "[{\"method\":\"daemon.getSupportedPlatforms\",\"id\":1,\"params\":{\"projectRoot\":\"/tmp/p\"}}]\n"
    );
    let done = engine
        .receive_frame(parse(r#"[{"id":1,"result":{"platforms":["linux","web"]}}]"#))
        .unwrap();
    assert_eq!(done.len(), 1);
    assert_eq!(done[0].id, 1);
    let result = done[0].outcome.as_ref().unwrap();
    assert_eq!(platforms_from_result(result), Some(vec!["linux".to_string(), "web".to_string()]));
    assert_eq!(engine.pending_count(), 0);
}

#[test]
fn repeated_device_added_leaves_one_entry() {
    let mut engine = Engine::new(None);
    let frame = r#"[{"event":"device.added","params":{"id":"linux","name":"Linux","platform":"linux"}}]"#;
    engine.receive_frame(parse(frame)).unwrap();
    engine.receive_frame(parse(frame)).unwrap();
    let state = engine.snapshot();
    assert_eq!(state.devices.len(), 1);
    assert_eq!(state.devices[0].id, "linux");
    assert_eq!(state.devices[0].name, "Linux");
}

#[test]
fn launch_start_started_stop_drive_session_to_stopped() {
    let mut engine = Engine::new(Some("/tmp/p".to_string()));
    let app = "1".to_string();
    let launch = DaemonRequest::LaunchApp { device_id: "linux".to_string(), project_root: "/tmp/p".to_string() };
    let (id, _) = engine.call(&launch, 0, 1000).unwrap();
    engine.receive_frame(parse(&format!(r#"[{{"id":{},"result":{{"appId":"1"}}}}]"#, id))).unwrap();
    assert_eq!(engine.session_state(&app), Some(SessionState::Starting));
    engine.receive_frame(parse(r#"[{"event":"app.start","params":{"appId":"1","deviceId":"linux"}}]"#)).unwrap();
    assert_eq!(engine.session_state(&app), Some(SessionState::Starting));
    engine.receive_frame(parse(r#"[{"event":"app.started","params":{"appId":"1"}}]"#)).unwrap();
    assert_eq!(engine.session_state(&app), Some(SessionState::Running));
    let (stop_id, line) = engine.call(&DaemonRequest::StopApp { app_id: app.clone() }, 10, 1000).unwrap();
    assert_eq!(line, format!("[{{\"method\":\"app.stop\",\"id\":{},\"params\":{{\"appId\":\"1\"}}}}]\n", stop_id));
    assert_eq!(engine.session_state(&app), Some(SessionState::Stopping));
    engine.receive_frame(parse(&format!(r#"[{{"id":{},"result":true}}]"#, stop_id))).unwrap();
    assert_eq!(engine.session_state(&app), Some(SessionState::Stopping));
    engine.receive_frame(parse(r#"[{"event":"app.stop","params":{"appId":"1"}}]"#)).unwrap();
    assert_eq!(engine.session_state(&app), Some(SessionState::Stopped));
    let state = engine.snapshot();
    assert_eq!(state.sessions.len(), 1);
    assert_eq!(state.sessions[0].state, SessionState::Stopped);
    let gone = engine.acknowledge(&app).unwrap();
    assert_eq!(gone.state, SessionState::Stopped);
    assert_eq!(engine.session_state(&app), None);
    assert_eq!(engine.snapshot().sessions.len(), 0);
}

#[test]
fn daemon_exit_fails_pending_calls_and_sessions() {
    let mut engine = Engine::new(None);
    let (launch, _) = engine
        .call(&DaemonRequest::LaunchApp { device_id: "d".to_string(), project_root: "/p".to_string() }, 0, 1000)
        .unwrap();
    engine.receive_frame(parse(&format!(r#"[{{"id":{},"result":{{"appId":"a"}}}}]"#, launch))).unwrap();
    engine.receive_frame(parse(r#"[{"event":"app.started","params":{"appId":"a"}}]"#)).unwrap();
    let (first, _) = engine.call(&DaemonRequest::Version, 0, 1000).unwrap();
    let (second, _) = engine.call(&DaemonRequest::GetDevices, 0, 1000).unwrap();
    let mut sub = engine.subscribe(Topic::Connection);
    let done = engine.disconnect();
    assert_eq!(
        done,
        vec![
            Completion { id: first, outcome: Err(CallError::Transport) },
            Completion { id: second, outcome: Err(CallError::Transport) },
        ]
    );
    assert_eq!(engine.pending_count(), 0);
    assert_eq!(engine.session_state(&"a".to_string()), Some(SessionState::Failed));
    assert_eq!(engine.recv(&mut sub), Received::Event(DaemonEvent::Disconnected));
    assert_eq!(engine.call(&DaemonRequest::Version, 0, 1000), Err(CallError::Transport));
    assert_eq!(engine.snapshot().sessions[0].state, SessionState::Failed);
}

#[test]
fn out_of_order_answers_each_resolve_once() {
    let mut engine = Engine::new(None);
    let ids: Vec<u64> = (0..4).map(|_| engine.call(&DaemonRequest::Version, 0, 100).unwrap().0).collect();
    assert_eq!(ids, vec![1, 2, 3, 4]);
    let done = engine
        .receive_frame(parse(r#"[{"id":3,"result":"c"},{"id":1,"error":"bad"},{"id":4,"result":"d"},{"id":3,"result":"again"}]"#))
        .unwrap();
    assert_eq!(
        done,
        vec![
            Completion { id: 3, outcome: Ok(JsonValue::Str("c".to_string())) },
            Completion { id: 1, outcome: Err(CallError::Daemon { code: None, message: "bad".to_string() }) },
            Completion { id: 4, outcome: Ok(JsonValue::Str("d".to_string())) },
        ]
    );
    assert_eq!(engine.pending_count(), 1);
    assert_eq!(engine.receive(parse(r#"{"id":2}"#)), Some(Completion { id: 2, outcome: Ok(JsonValue::Null) }));
    assert_eq!(engine.receive(parse(r#"{"id":2,"result":1}"#)), None);
}

#[test]
fn burst_of_calls_leaves_no_pending_entry() {
    let mut engine = Engine::new(None);
    let (keep, _) = engine.call(&DaemonRequest::Version, 0, 10_000).unwrap();
    let before = engine.pending_count();
    let (a, _) = engine.call(&DaemonRequest::Version, 0, 100).unwrap();
    let (b, _) = engine.call(&DaemonRequest::Shutdown, 0, 200).unwrap();
    let (c, _) = engine.call(&DaemonRequest::GetDevices, 0, 50).unwrap();
    assert_eq!(engine.pending_count(), before + 3);
    engine.receive(parse(&format!(r#"{{"id":{},"error":{{"code":3,"message":"no"}}}}"#, b))).unwrap();
    let timed_out = engine.tick(100);
    assert_eq!(
        timed_out,
        vec![
            Completion { id: a, outcome: Err(CallError::Timeout) },
            Completion { id: c, outcome: Err(CallError::Timeout) },
        ]
    );
    assert_eq!(engine.pending_count(), before);
    assert_eq!(engine.tick(100), vec![]);
    assert_eq!(engine.receive(parse(&format!(r#"{{"id":{}}}"#, keep))).unwrap().id, keep);
    assert_eq!(engine.pending_count(), 0);
}

#[test]
fn unknown_event_only_on_catch_all_topic() {
    let mut engine = Engine::new(None);
    let topics = [Topic::Connection, Topic::Devices, Topic::Sessions, Topic::Logs, Topic::Other];
    let mut subs: Vec<_> = topics.iter().map(|t| engine.subscribe(*t)).collect();
    let done = engine.receive_frame(parse(r#"[{"event":"daemon.futureThing","params":{"x":1}}]"#)).unwrap();
    assert!(done.is_empty());
    for (i, sub) in subs.iter_mut().enumerate() {
        let got = engine.recv(sub);
        if topics[i] == Topic::Other {
            assert_eq!(got, Received::Event(DaemonEvent::Unknown { name: "daemon.futureThing".to_string() }));
        } else {
            assert_eq!(got, Received::Empty);
        }
    }
}

#[test]
fn known_tag_with_bad_params_goes_to_catch_all() {
    let e = classify(&"app.started".to_string(), &parse(r#"{"id":"x"}"#));
    assert_eq!(e, DaemonEvent::Unknown { name: "app.started".to_string() });
    let e = classify(&"device.removed".to_string(), &JsonValue::Null);
    assert_eq!(e, DaemonEvent::Unknown { name: "device.removed".to_string() });
}

#[test]
fn classify_decodes_known_events() {
    let e = classify(&"app.progress".to_string(), &parse(r#"{"appId":"7","message":"Reloading","finished":true}"#));
    assert_eq!(e, DaemonEvent::AppProgress { app_id: "7".to_string(), message: "Reloading".to_string(), finished: true });
    let e = classify(&"daemon.connected".to_string(), &parse(r#"{"version":"0.6.1","pid":12}"#));
    assert_eq!(e, DaemonEvent::Connected { version: "0.6.1".to_string() });
    let e = classify(&"app.log".to_string(), &parse(r#"{"appId":"7","log":"hello"}"#));
    assert_eq!(e, DaemonEvent::AppLog { app_id: "7".to_string(), log: "hello".to_string() });
}

#[test]
fn add_same_device_twice_keeps_latest() {
    let s = reducer(empty_state(), Action::AddDevice { device: device("linux", "Old") });
    let s = reducer(s, Action::AddDevice { device: device("web", "Chrome") });
    let s = reducer(s, Action::AddDevice { device: device("linux", "New") });
    assert_eq!(s.devices.len(), 2);
    let linux: Vec<&Device> = s.devices.iter().filter(|d| d.id == "linux").collect();
    assert_eq!(linux.len(), 1);
    assert_eq!(linux[0].name, "New");
    let before = s.clone();
    let s = reducer(s, Action::RemoveDevice { device: device("macos", "Mac") });
    assert_eq!(s, before);
    let s = reducer(s, Action::RemoveDevice { device: device("linux", "whatever") });
    assert_eq!(s.devices, vec![device("web", "Chrome")]);
}

#[test]
fn store_matches_sequential_reducer() {
    let actions = vec![
        Action::AddDevice { device: device("a", "A") },
        Action::AddDevice { device: device("b", "B") },
        Action::RemoveDevice { device: device("a", "A") },
        Action::AddDevice { device: device("b", "B2") },
        Action::RemoveSession { app_id: "none".to_string() },
    ];
    let mut expected = empty_state();
    for a in actions.iter() {
        expected = reducer(expected, a.clone());
    }
    let mut store = Store::new();
    store.dispatch(actions[0].clone());
    store.dispatch(actions[1].clone());
    assert!(store.process_next());
    store.dispatch(actions[2].clone());
    store.dispatch(actions[3].clone());
    store.dispatch(actions[4].clone());
    store.run_pending();
    assert_eq!(store.get_state(), expected);
    assert!(!store.process_next());
}

#[test]
fn store_after_shutdown_takes_nothing() {
    let mut store = Store::new();
    assert!(store.dispatch(Action::AddDevice { device: device("a", "A") }));
    store.shutdown();
    assert!(!store.dispatch(Action::AddDevice { device: device("b", "B") }));
    store.run_pending();
    assert_eq!(store.get_state(), empty_state());
}

#[test]
fn session_lifecycle_edges() {
    let mut reg = SessionManager::new(Some("/p".to_string()));
    let app = "1".to_string();
    assert_eq!(reg.run_new_app(app.clone(), "linux".to_string()), Ok(()));
    assert_eq!(reg.run_new_app(app.clone(), "web".to_string()), Err(SessionError::DuplicateApp));
    assert_eq!(reg.sessions[0].project_root, Some("/p".to_string()));
    assert_eq!(reg.apply(&app, SessionInput::Command(SessionCommand::Reload)), Err(SessionError::InvalidTransition));
    assert_eq!(reg.apply(&app, SessionInput::StartedEvent), Ok(()));
    assert_eq!(reg.apply(&app, SessionInput::StartedEvent), Err(SessionError::InvalidTransition));
    assert_eq!(reg.apply(&app, SessionInput::Command(SessionCommand::Restart)), Ok(()));
    assert_eq!(reg.state_of(&app), Some(SessionState::Reloading));
    assert_eq!(reg.apply(&app, SessionInput::CommandSucceeded), Ok(()));
    assert_eq!(reg.state_of(&app), Some(SessionState::Running));
    assert_eq!(reg.acknowledge(&app), Err(SessionError::NotTerminal));
    assert_eq!(reg.apply(&app, SessionInput::Command(SessionCommand::Detach)), Ok(()));
    assert_eq!(reg.apply(&app, SessionInput::CommandSucceeded), Ok(()));
    assert_eq!(reg.state_of(&app), Some(SessionState::Stopping));
    assert_eq!(reg.apply(&app, SessionInput::StopEvent), Ok(()));
    assert_eq!(reg.state_of(&app), Some(SessionState::Detached));
    assert_eq!(reg.apply(&"2".to_string(), SessionInput::StopEvent), Err(SessionError::UnknownApp));
    assert_eq!(reg.acknowledge(&app).unwrap().state, SessionState::Detached);
    assert_eq!(reg.acknowledge(&app), Err(SessionError::UnknownApp));
}

#[test]
fn failed_stop_call_fails_session() {
    let mut reg = SessionManager::new(None);
    let app = "s".to_string();
    reg.run_new_app(app.clone(), "d".to_string()).unwrap();
    reg.apply(&app, SessionInput::StartedEvent).unwrap();
    reg.apply(&app, SessionInput::Command(SessionCommand::Stop)).unwrap();
    assert_eq!(reg.apply(&app, SessionInput::CommandFailed), Ok(()));
    assert_eq!(reg.state_of(&app), Some(SessionState::Failed));
    assert_eq!(reg.acknowledge(&app).unwrap().state, SessionState::Failed);
}

#[test]
fn unexpected_stop_fails_session() {
    let mut reg = SessionManager::new(None);
    let app = "x".to_string();
    reg.run_new_app(app.clone(), "d".to_string()).unwrap();
    reg.apply(&app, SessionInput::StartedEvent).unwrap();
    assert_eq!(reg.apply(&app, SessionInput::StopEvent), Ok(()));
    assert_eq!(reg.state_of(&app), Some(SessionState::Failed));
    assert_eq!(reg.apply(&app, SessionInput::StopEvent), Err(SessionError::InvalidTransition));
}

#[test]
fn lifecycle_command_on_unknown_app_is_rejected() {
    let mut engine = Engine::new(None);
    let r = engine.call(&DaemonRequest::StopApp { app_id: "nope".to_string() }, 0, 100);
    assert_eq!(r, Err(CallError::Rejected(SessionError::UnknownApp)));
    assert_eq!(engine.pending_count(), 0);
}

#[test]
fn reload_timeout_returns_session_to_running() {
    let mut engine = Engine::new(None);
    let (launch, _) = engine
        .call(&DaemonRequest::LaunchApp { device_id: "d".to_string(), project_root: "/p".to_string() }, 0, 1000)
        .unwrap();
    engine.receive(parse(&format!(r#"{{"id":{},"result":{{"appId":"r"}}}}"#, launch))).unwrap();
    engine.receive(parse(r#"{"event":"app.started","params":{"appId":"r"}}"#));
    let reload = DaemonRequest::RestartApp { app_id: "r".to_string(), full_restart: false, pause: false, reason: None, debounce: None };
    engine.call(&reload, 0, 5).unwrap();
    assert_eq!(engine.session_state(&"r".to_string()), Some(SessionState::Reloading));
    assert_eq!(engine.snapshot().sessions[0].state, SessionState::Reloading);
    assert_eq!(engine.tick(5).len(), 1);
    assert_eq!(engine.session_state(&"r".to_string()), Some(SessionState::Running));
    let state = engine.snapshot();
    assert_eq!(state.sessions.len(), 1);
    assert_eq!(state.sessions[0].app_id, "r");
    assert_eq!(state.sessions[0].state, SessionState::Running);
    assert_eq!(state.sessions[0].pending, None);
}

#[test]
fn correlator_deadline_saturates_and_ids_increase() {
    let mut c = Correlator::new();
    assert_eq!(c.register(u64::MAX - 1, 10, Purpose::Plain), Ok(1));
    assert_eq!(c.register(0, 0, Purpose::Plain), Ok(2));
    let expired = c.expire(0);
    assert_eq!(expired.len(), 1);
    assert_eq!(expired[0].id, 2);
    assert!(c.is_pending(1));
    assert_eq!(c.expire(u64::MAX - 1).len(), 0);
    assert_eq!(c.expire(u64::MAX)[0].deadline, u64::MAX);
    assert_eq!(c.complete(1), None);
    let all = c.fail_all();
    assert!(all.is_empty());
    assert_eq!(c.register(0, 1, Purpose::Plain), Err(CallError::Transport));
}

#[test]
fn topic_drops_oldest_for_lagging_subscriber() {
    let mut d = Dispatcher::new();
    let mut sub = d.subscribe(Topic::Logs);
    let total = TOPIC_CAPACITY + 6;
    for k in 0..total {
        assert!(d.publish(DaemonEvent::LogMessage { level: "info".to_string(), message: k.to_string() }));
    }
    assert_eq!(d.recv(&mut sub), Received::Lagged(6));
    assert_eq!(
        d.recv(&mut sub),
        Received::Event(DaemonEvent::LogMessage { level: "info".to_string(), message: "6".to_string() })
    );
    let mut late = d.subscribe(Topic::Logs);
    assert_eq!(d.recv(&mut late), Received::Empty);
    let mut other = d.subscribe(Topic::Devices);
    d.publish(DaemonEvent::DeviceRemoved { device: device("z", "Z") });
    assert_eq!(d.recv(&mut other), Received::Event(DaemonEvent::DeviceRemoved { device: device("z", "Z") }));
    assert_eq!(d.recv(&mut late), Received::Empty);
}

#[test]
fn two_subscribers_both_receive() {
    let mut d = Dispatcher::new();
    let mut a = d.subscribe(Topic::Sessions);
    let mut b = d.subscribe(Topic::Sessions);
    d.publish(DaemonEvent::AppStarted { app_id: "1".to_string() });
    let e = Received::Event(DaemonEvent::AppStarted { app_id: "1".to_string() });
    assert_eq!(d.recv(&mut a), e);
    assert_eq!(d.recv(&mut b), e);
    assert_eq!(d.recv(&mut a), Received::Empty);
}

#[test]
fn routing_by_id_or_event() {
    assert_eq!(route(parse(r#"{"id":5,"result":[1]}"#)), Inbound::Response { id: 5, outcome: Ok(JsonValue::Array(vec![JsonValue::UInt(1)])) });
    assert_eq!(route(parse(r#"{"id":"5","result":1}"#)), Inbound::Malformed);
    assert_eq!(route(parse(r#"{"hello":1}"#)), Inbound::Malformed);
    assert_eq!(route(parse(r#"{"event":"app.log"}"#)), Inbound::Event { name: "app.log".to_string(), params: JsonValue::Null });
    assert_eq!(
        daemon_error(&parse(r#"{"code":-32601,"message":"no such method"}"#)),
        CallError::Daemon { code: Some(-32601), message: "no such method".to_string() }
    );
}

#[test]
fn frame_that_is_not_array_is_refused() {
    let mut engine = Engine::new(None);
    engine.call(&DaemonRequest::Version, 0, 100).unwrap();
    assert_eq!(engine.receive_frame(parse(r#"{"id":1,"result":"x"}"#)), Err(ProtocolError));
    assert_eq!(engine.pending_count(), 1);
}

#[test]
fn device_description_defaults() {
    let d = device_from_json(&parse(r#"{"id":"web","capabilities":{"hotReload":true}}"#)).unwrap();
    assert_eq!(d.id, "web");
    assert_eq!(d.name, "");
    assert!(d.capabilities.hot_reload);
    assert!(!d.capabilities.hot_restart);
    assert_eq!(device_from_json(&parse(r#"{"name":"x"}"#)), None);
}

#[test]
fn line_buffer_cuts_complete_lines() {
    let mut buf = LineBuffer::new();
    assert_eq!(buf.push(b"[{\"a\":1}]\n[{\"b\""), vec![b"[{\"a\":1}]".to_vec()]);
    assert_eq!(buf.push(b":2}]"), Vec::<Vec<u8>>::new());
    assert_eq!(buf.push(b"\n\nx"), vec![b"[{\"b\":2}]".to_vec(), Vec::new()]);
    assert_eq!(buf.push(b""), Vec::<Vec<u8>>::new());
}

#[test]
fn startup_calls_are_handed_out_once() {
    let mut engine = Engine::new(Some("/p".to_string()));
    assert_eq!(
        engine.startup_calls(),
        vec![DaemonRequest::DeviceEnable, DaemonRequest::GetSupportedPlatforms { project_root: "/p".to_string() }]
    );
    assert_eq!(engine.startup_calls(), vec![]);
    let mut bare = Engine::new(None);
    assert_eq!(bare.startup_calls(), vec![DaemonRequest::DeviceEnable]);
}

#[test]
fn unknown_event_leaves_store_unchanged() {
    let mut engine = Engine::new(None);
    engine.receive_frame(parse(r#"[{"event":"device.added","params":{"id":"a","name":"A"}}]"#)).unwrap();
    let before = engine.snapshot();
    engine.receive_frame(parse(r#"[{"event":"foo.unknown","params":{}}]"#)).unwrap();
    assert_eq!(engine.snapshot(), before);
    engine.receive_frame(parse(r#"[{"event":"device.removed","params":{"id":"a"}}]"#)).unwrap();
    assert_eq!(engine.snapshot().devices.len(), 0);
}
