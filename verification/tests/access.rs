use node_access_common::access::{
    access_connection_id, bind_messages, list_node, list_relay_nodes, provider_visit,
    serves_socks, service_visit, visitor_connection_id, AccessAction, ProviderTargets,
};
use node_access_common::mapping::{parse_tcp_mapping, parse_visitor_mapping};
use node_access_common::mux::{ControlMessage, OpenRequest};
use node_access_common::serve::{PeerEvent, ServeState, VisitRoute};

#[test]
fn connection_ids() {
    assert_eq!(access_connection_id(&None, "laptop"), "access-laptop");
    assert_eq!(access_connection_id(&Some("mine".to_string()), "laptop"), "mine");
    assert_eq!(visitor_connection_id(&None, "laptop", "devbox-a"), "access-laptop-to-devbox-a");
    assert_eq!(visitor_connection_id(&Some("mine".to_string()), "laptop", "devbox-a"), "mine");
    assert_ne!(
        visitor_connection_id(&None, "laptop", "devbox-a"),
        visitor_connection_id(&None, "laptop", "devbox-b")
    );
    assert_ne!(access_connection_id(&None, "laptop"), access_connection_id(&None, "phone"));
    assert_ne!(
        visitor_connection_id(&None, "laptop", "devbox-a"),
        visitor_connection_id(&None, "phone", "devbox-a")
    );
}

#[test]
fn each_provider_is_asked_for() {
    let providers = vec![
        parse_tcp_mapping("ssh:127.0.0.1:22:laptop").unwrap(),
        parse_tcp_mapping("web:127.0.0.1:80").unwrap(),
    ];
    let messages = bind_messages(&providers);
    assert_eq!(messages.len(), 2);
    match &messages[0] {
        ControlMessage::Bind { name, auth } => {
            assert_eq!(name, "ssh");
            assert_eq!(auth.as_deref(), Some("laptop"));
        }
        other => panic!("{:?}", other),
    }
    match &messages[1] {
        ControlMessage::Bind { name, auth } => {
            assert_eq!(name, "web");
            assert_eq!(auth, &None);
        }
        other => panic!("{:?}", other),
    }
}

#[test]
fn socks_needs_an_address() {
    assert!(serves_socks(false, "127.0.0.1:1080"));
    assert!(!serves_socks(true, "127.0.0.1:1080"));
    assert!(!serves_socks(false, ""));
}

#[test]
fn requests_of_visitors() {
    match provider_visit(&parse_tcp_mapping("ssh:127.0.0.1:2222:laptop").unwrap()) {
        OpenRequest::Visit { name, auth } => {
            assert_eq!(name, "ssh");
            assert_eq!(auth.as_deref(), Some("laptop"));
        }
        other => panic!("{:?}", other),
    }
    match service_visit(&parse_visitor_mapping("devbox:web:127.0.0.1:8080").unwrap()) {
        OpenRequest::Visit { name, auth } => {
            assert_eq!(name, "web");
            assert_eq!(auth, None);
        }
        other => panic!("{:?}", other),
    }
}

fn targets() -> ProviderTargets {
    ProviderTargets::new(&vec![
        parse_tcp_mapping("ssh:127.0.0.1:22").unwrap(),
        parse_tcp_mapping("web:127.0.0.1:80").unwrap(),
        parse_tcp_mapping("web:127.0.0.1:8080").unwrap(),
    ])
}

fn incoming(name: &str) -> PeerEvent {
    PeerEvent::Incoming(OpenRequest::ProviderConnect { name: name.to_string() })
}

#[test]
fn streams_go_to_the_last_provider_of_a_name() {
    for (name, expected) in [("ssh", "127.0.0.1:22"), ("web", "127.0.0.1:8080")] {
        match targets().access_action(incoming(name)) {
            AccessAction::Dial { name: n, target } => {
                assert_eq!(n, name);
                assert_eq!(target, expected);
            }
            _ => panic!("not dialled"),
        }
    }
    match targets().access_action(incoming("db")) {
        AccessAction::UnknownProvider { name } => assert_eq!(name, "db"),
        _ => panic!("known"),
    }
}

#[test]
fn what_an_access_node_does() {
    let targets = targets();
    assert!(matches!(
        targets.access_action(PeerEvent::Incoming(OpenRequest::Socks)),
        AccessAction::UnexpectedStream(OpenRequest::Socks)
    ));
    let answer = |ok: bool, error: Option<&str>| {
        PeerEvent::Control(ControlMessage::BindAck {
            name: "ssh".to_string(),
            ok,
            error: error.map(|e| e.to_string()),
        })
    };
    match targets.access_action(answer(true, None)) {
        AccessAction::Registered { name } => assert_eq!(name, "ssh"),
        _ => panic!("not registered"),
    }
    for (given, expected) in [(Some("taken"), "taken"), (None, "unknown error")] {
        match targets.access_action(answer(false, given)) {
            AccessAction::Rejected { name, error } => {
                assert_eq!(name, "ssh");
                assert_eq!(error, expected);
            }
            _ => panic!("not rejected"),
        }
    }
    let info = ControlMessage::Info { message: "hi".to_string() };
    match targets.access_action(PeerEvent::Control(info)) {
        AccessAction::Note { message } => assert_eq!(message, "hi"),
        _ => panic!("not noted"),
    }
    let offer = ControlMessage::Bind { name: "ssh".to_string(), auth: None };
    assert!(matches!(targets.access_action(PeerEvent::Control(offer)), AccessAction::Ignore));
    assert!(matches!(targets.access_action(PeerEvent::Closed), AccessAction::Stop));
}

#[test]
fn visitors_reach_providers() {
    let providers = vec![parse_tcp_mapping("ssh:127.0.0.1:22:laptop").unwrap()];
    let visitor = parse_tcp_mapping("ssh:127.0.0.1:2222:laptop").unwrap();
    let mut serving: ServeState<&str> = ServeState::new(vec![]);
    for message in bind_messages(&providers) {
        match message {
            ControlMessage::Bind { name, auth } => {
                serving.handle_bind("access-provider-box", name, auth, "to provider-box");
            }
            other => panic!("{:?}", other),
        }
    }
    let (name, auth) = match provider_visit(&visitor) {
        OpenRequest::Visit { name, auth } => (name, auth),
        other => panic!("{:?}", other),
    };
    let request = match serving.handle_visit(&name, &auth) {
        Ok(VisitRoute::Provider { mux, request }) => {
            assert_eq!(*mux, "to provider-box");
            request
        }
        _ => panic!("not admitted"),
    };
    match ProviderTargets::new(&providers).access_action(PeerEvent::Incoming(request)) {
        AccessAction::Dial { target, .. } => assert_eq!(target, "127.0.0.1:22"),
        _ => panic!("not dialled"),
    }
}

#[test]
fn listings() {
    let rule = "-".repeat(50);
    assert_eq!(
        list_relay_nodes("wss://relay.example.com", "my node"),
        vec![
            "",
            "Available Relay Nodes:",
            &rule,
            "[1] ID: my node | Relay: wss://relay.example.com/ws?serverId=my%20node&role=client&v=2",
            &rule,
            "relay does not provide directory listing; pass -node <ID> to connect.",
        ]
    );
    let visitors = vec![
        parse_visitor_mapping("devbox-a:ssh:127.0.0.1:2222:laptop").unwrap(),
        parse_visitor_mapping("devbox-b:ssh:127.0.0.1:2223").unwrap(),
    ];
    assert_eq!(
        list_node("wss://relay.example.com", "laptop", &visitors),
        vec![
            "",
            "Configured node-access:",
            &rule,
            "Self node: laptop | Relay: wss://relay.example.com/ws?serverId=laptop&role=server&v=2",
            "Visitor: devbox-a:ssh -> 127.0.0.1:2222",
            "Visitor: devbox-b:ssh -> 127.0.0.1:2223",
            &rule,
            "relay does not provide directory listing.",
        ]
    );
}
