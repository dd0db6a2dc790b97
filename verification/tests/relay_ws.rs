use node_access_common::relay_ws::{build_ws_url, client_data_url, control_url, server_data_url};

#[test]
fn urls_of_the_three_channels() {
    assert_eq!(
        control_url("wss://relay.example.com", "my-node"),
        "wss://relay.example.com/ws?serverId=my-node&role=server&v=2"
    );
    assert_eq!(
        server_data_url("wss://relay.example.com", "my-node", "access-laptop"),
        "wss://relay.example.com/ws?serverId=my-node&role=server&v=2&connectionId=access-laptop"
    );
    assert_eq!(
        client_data_url("wss://relay.example.com", "my-node", Some("access-laptop")),
        "wss://relay.example.com/ws?serverId=my-node&role=client&v=2&connectionId=access-laptop"
    );
    assert_eq!(
        client_data_url("wss://relay.example.com", "my-node", None),
        "wss://relay.example.com/ws?serverId=my-node&role=client&v=2"
    );
}

#[test]
fn http_becomes_a_web_socket() {
    assert_eq!(build_ws_url("http://h:80", "s", "r", None), "ws://h:80/ws?serverId=s&role=r&v=2");
    assert_eq!(build_ws_url("https://h", "s", "r", None), "wss://h/ws?serverId=s&role=r&v=2");
    assert_eq!(build_ws_url("h", "s", "r", None), "h/ws?serverId=s&role=r&v=2");
    assert_eq!(build_ws_url("HTTP://h", "s", "r", None), "HTTP://h/ws?serverId=s&role=r&v=2");
}

#[test]
fn slashes_and_path_come_once() {
    let expected = "ws://h/ws?serverId=s&role=r&v=2";
    for base in ["ws://h", "ws://h/", "ws://h///", "ws://h/ws", "ws://h/ws/", "http://h/ws"] {
        assert_eq!(build_ws_url(base, "s", "r", None), expected);
    }
    assert_eq!(build_ws_url("", "s", "r", None), "/ws?serverId=s&role=r&v=2");
    assert_eq!(build_ws_url("http://", "s", "r", None), "http:/ws?serverId=s&role=r&v=2");
}

#[test]
fn ids_are_encoded() {
    assert_eq!(
        build_ws_url("ws://h", "a b&c=d/\u{e4}~", "client", Some("x?#%-_.y")),
        "ws://h/ws?serverId=a%20b%26c%3Dd%2F%C3%A4~&role=client&v=2&connectionId=x%3F%23%25-_.y"
    );
    assert_eq!(
        build_ws_url("ws://h", "AZaz09", "client", Some("")),
        "ws://h/ws?serverId=AZaz09&role=client&v=2&connectionId="
    );
}

#[test]
fn urls_tell_ids_apart() {
    let plain = build_ws_url("ws://h", "a", "client", Some("b"));
    assert_ne!(plain, build_ws_url("ws://h", "a", "client", None));
    assert_ne!(plain, build_ws_url("ws://h", "a", "client", Some("c")));
    assert_ne!(plain, build_ws_url("ws://h", "b", "client", Some("b")));
    assert_ne!(
        build_ws_url("ws://h", "%20", "client", None),
        build_ws_url("ws://h", " ", "client", None)
    );
}
