use node_access_common::mapping::{parse_tcp_mapping, TcpMapping};
use node_access_common::mux::{ControlMessage, OpenRequest};
use node_access_common::serve::{
    serve_action, ControlEnd, ControlInput, ControlStep, PeerEvent, RelayControlEvent,
    ServeAction, ServeState, VisitError, VisitRoute,
};

fn mapping(value: &str) -> TcpMapping {
    parse_tcp_mapping(value).unwrap()
}

fn bind(
    state: &mut ServeState<u32>,
    connection_id: &str,
    name: &str,
    auth: Option<&str>,
    mux: u32,
) -> (bool, Option<String>) {
    let answer =
        state.handle_bind(connection_id, name.to_string(), auth.map(|a| a.to_string()), mux);
    match answer {
        ControlMessage::BindAck { name: n, ok, error } => {
            assert_eq!(n, name);
            (ok, error)
        }
        other => panic!("{:?}", other),
    }
}

fn visited(state: &ServeState<u32>, name: &str, auth: Option<&str>) -> Result<String, VisitError> {
    match state.handle_visit(name, &auth.map(|a| a.to_string())) {
        Ok(VisitRoute::Local { addr }) => Ok(addr.to_string()),
        Ok(VisitRoute::Provider { mux, request }) => match request {
            OpenRequest::ProviderConnect { name: n } => Ok(format!("{}@{}", n, mux)),
            other => panic!("{:?}", other),
        },
        Err(error) => Err(error),
    }
}

fn connected(id: &str) -> RelayControlEvent {
    RelayControlEvent::Connected { connection_id: id.to_string() }
}

fn synced(ids: &[&str]) -> RelayControlEvent {
    RelayControlEvent::Sync { connection_ids: ids.iter().map(|id| id.to_string()).collect() }
}

#[test]
fn nodes_start_once() {
    let mut state: ServeState<u32> = ServeState::new(vec![]);
    assert_eq!(state.on_relay_event(connected("a")), vec!["a"]);
    assert!(state.on_relay_event(connected("a")).is_empty());
    assert_eq!(state.on_relay_event(synced(&["b", "a", "c", "b"])), vec!["b", "c"]);
    assert!(state.on_relay_event(synced(&["a", "b", "c"])).is_empty());
    assert!(!state.start(&"a".to_string()));
    state.ended("a");
    assert_eq!(state.on_relay_event(synced(&["a", "b"])), vec!["a"]);
    assert!(state.start(&"d".to_string()));
}

#[test]
fn notices_change_nothing() {
    let mut state: ServeState<u32> = ServeState::new(vec![]);
    state.on_relay_event(connected("a"));
    bind(&mut state, "a", "ssh", None, 1);
    let gone = RelayControlEvent::Disconnected { connection_id: "a".to_string() };
    assert!(state.on_relay_event(gone).is_empty());
    assert!(state.on_relay_event(RelayControlEvent::Pong).is_empty());
    assert!(state.on_relay_event(connected("a")).is_empty());
    assert_eq!(visited(&state, "ssh", None), Ok("ssh@1".to_string()));
}

#[test]
fn names_stay_with_their_node() {
    let mut state: ServeState<u32> = ServeState::new(vec![]);
    assert_eq!(bind(&mut state, "a", "ssh", None, 1), (true, None));
    assert_eq!(
        bind(&mut state, "b", "ssh", Some("x"), 2),
        (false, Some("provider name is already registered".to_string()))
    );
    assert_eq!(visited(&state, "ssh", None), Ok("ssh@1".to_string()));
    assert_eq!(bind(&mut state, "a", "ssh", Some("laptop"), 3), (true, None));
    assert_eq!(visited(&state, "ssh", Some("laptop")), Ok("ssh@3".to_string()));
}

#[test]
fn ended_nodes_leave_nothing() {
    let mut state: ServeState<u32> = ServeState::new(vec![]);
    bind(&mut state, "a", "ssh", None, 1);
    bind(&mut state, "a", "web", None, 1);
    bind(&mut state, "b", "db", None, 2);
    state.ended("a");
    assert_eq!(visited(&state, "ssh", None), Err(VisitError::NotFound));
    assert_eq!(visited(&state, "web", None), Err(VisitError::NotFound));
    assert_eq!(visited(&state, "db", None), Ok("db@2".to_string()));
    assert_eq!(bind(&mut state, "b", "ssh", None, 2), (true, None));
    assert_eq!(visited(&state, "ssh", None), Ok("ssh@2".to_string()));
}

#[test]
fn visitors_need_the_auth_of_the_provider() {
    let mut state: ServeState<u32> = ServeState::new(vec![]);
    bind(&mut state, "a", "ssh", Some("laptop"), 1);
    assert_eq!(visited(&state, "ssh", Some("laptop")), Ok("ssh@1".to_string()));
    assert_eq!(visited(&state, "ssh", Some("phone")), Err(VisitError::AuthRejected));
    assert_eq!(visited(&state, "ssh", None), Err(VisitError::AuthRejected));
    assert_eq!(visited(&state, "web", Some("laptop")), Err(VisitError::NotFound));
}

#[test]
fn local_providers_come_first() {
    let mut state: ServeState<u32> = ServeState::new(vec![
        mapping("ssh:127.0.0.1:22:laptop"),
        mapping("web:127.0.0.1:80"),
        mapping("web:127.0.0.1:8080"),
    ]);
    assert_eq!(bind(&mut state, "a", "ssh", None, 1), (true, None));
    assert_eq!(visited(&state, "ssh", Some("laptop")), Ok("127.0.0.1:22".to_string()));
    assert_eq!(visited(&state, "ssh", None), Err(VisitError::AuthRejected));
    assert_eq!(visited(&state, "web", None), Ok("127.0.0.1:8080".to_string()));
    state.ended("a");
    assert_eq!(visited(&state, "ssh", Some("laptop")), Ok("127.0.0.1:22".to_string()));
}

#[test]
fn refused_visits_in_words() {
    assert_eq!(VisitError::NotFound.message(), "provider not found");
    assert_eq!(VisitError::AuthRejected.message(), "visitor auth rejected");
}

#[test]
fn what_a_serving_node_does() {
    assert!(matches!(
        serve_action(PeerEvent::Incoming(OpenRequest::Socks)),
        ServeAction::ServeSocks
    ));
    let visit = OpenRequest::Visit { name: "ssh".to_string(), auth: Some("x".to_string()) };
    match serve_action(PeerEvent::Incoming(visit)) {
        ServeAction::Visit { name, auth } => {
            assert_eq!(name, "ssh");
            assert_eq!(auth.as_deref(), Some("x"));
        }
        _ => panic!("no visit"),
    }
    let connect = OpenRequest::ProviderConnect { name: "ssh".to_string() };
    assert!(matches!(
        serve_action(PeerEvent::Incoming(connect)),
        ServeAction::UnexpectedStream(OpenRequest::ProviderConnect { .. })
    ));
    let offer = ControlMessage::Bind { name: "ssh".to_string(), auth: None };
    match serve_action(PeerEvent::Control(offer)) {
        ServeAction::Bind { name, auth } => {
            assert_eq!(name, "ssh");
            assert_eq!(auth, None);
        }
        _ => panic!("no bind"),
    }
    let info = ControlMessage::Info { message: "hi".to_string() };
    assert!(matches!(
        serve_action(PeerEvent::Control(info)),
        ServeAction::UnexpectedMessage(ControlMessage::Info { .. })
    ));
    assert!(matches!(serve_action(PeerEvent::Closed), ServeAction::Stop));
}

#[test]
fn what_the_control_channel_asks_for() {
    let mut state: ServeState<u32> = ServeState::new(vec![]);
    match state.on_control(ControlInput::Event(synced(&["a", "b", "a"]))) {
        ControlStep::Serve(ids) => assert_eq!(ids, vec!["a", "b"]),
        other => panic!("{:?}", other),
    }
    match state.on_control(ControlInput::Other) {
        ControlStep::Serve(ids) => assert!(ids.is_empty()),
        other => panic!("{:?}", other),
    }
    for (input, expected) in [
        (ControlInput::Unreadable, ControlEnd::Unreadable),
        (ControlInput::Failed, ControlEnd::Failed),
        (ControlInput::Ended, ControlEnd::Ended),
    ] {
        match state.on_control(input) {
            ControlStep::Stop(end) => assert_eq!(end, expected),
            other => panic!("{:?}", other),
        }
    }
    assert!(state.on_relay_event(connected("b")).is_empty());
}
