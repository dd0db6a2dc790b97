use node_access_common::mapping::{
    auth_matches, parse_tcp_mapping, parse_tcp_mapping_inner, parse_visitor_mapping,
    parse_visitor_mapping_inner, MappingError,
};

#[test]
fn parses_legacy_mapping_without_auth() {
    let mapping = parse_tcp_mapping_inner("ssh:127.0.0.1:22").unwrap();
    assert_eq!(mapping.name, "ssh");
    assert_eq!(mapping.addr, "127.0.0.1:22");
    assert_eq!(mapping.auth, None);
}

#[test]
fn parses_single_auth_field() {
    let mapping = parse_tcp_mapping_inner("ssh:127.0.0.1:22:laptop").unwrap();
    assert_eq!(mapping.name, "ssh");
    assert_eq!(mapping.addr, "127.0.0.1:22");
    assert_eq!(mapping.auth.as_deref(), Some("laptop"));
}

#[test]
fn parses_visitor_target_node_service_and_auth() {
    let mapping = parse_visitor_mapping_inner("devbox:ssh:127.0.0.1:2222:laptop").unwrap();
    assert_eq!(mapping.node, "devbox");
    assert_eq!(mapping.service, "ssh");
    assert_eq!(mapping.bind_addr, "127.0.0.1:2222");
    assert_eq!(mapping.auth.as_deref(), Some("laptop"));
}

#[test]
fn matches_public_or_exact_auth() {
    assert!(auth_matches(None, None));
    assert!(auth_matches(Some("ops"), Some("ops")));
    assert!(!auth_matches(Some("ops"), Some("laptop")));
    assert!(!auth_matches(Some("ops"), None));
}

#[test]
fn a_public_provider_admits_every_auth() {
    assert!(auth_matches(None, Some("laptop")));
}

#[test]
fn provider_fields_are_trimmed() {
    let mapping = parse_tcp_mapping(" ssh : 127.0.0.1 : 22 : laptop ").unwrap();
    assert_eq!(mapping.name, "ssh");
    assert_eq!(mapping.addr, "127.0.0.1:22");
    assert_eq!(mapping.auth.as_deref(), Some("laptop"));
}

#[test]
fn a_blank_auth_field_is_no_auth() {
    assert_eq!(parse_tcp_mapping("ssh:127.0.0.1:22:").unwrap().auth, None);
    assert_eq!(parse_tcp_mapping("ssh:127.0.0.1:22:  ").unwrap().auth, None);
    assert_eq!(parse_visitor_mapping("devbox:ssh:127.0.0.1:2222: ").unwrap().auth, None);
}

#[test]
fn the_auth_field_may_hold_colons() {
    let mapping = parse_tcp_mapping("ssh:127.0.0.1:22:a:b:c").unwrap();
    assert_eq!(mapping.auth.as_deref(), Some("a:b:c"));
    let mapping = parse_visitor_mapping("devbox:ssh:127.0.0.1:2222:a:b").unwrap();
    assert_eq!(mapping.auth.as_deref(), Some("a:b"));
}

#[test]
fn a_visitor_mapping_may_have_no_auth() {
    let mapping = parse_visitor_mapping("devbox:ssh:127.0.0.1:2222").unwrap();
    assert_eq!(mapping.node, "devbox");
    assert_eq!(mapping.service, "ssh");
    assert_eq!(mapping.bind_addr, "127.0.0.1:2222");
    assert_eq!(mapping.auth, None);
}

#[test]
fn refused_provider_mappings() {
    for value in ["", "ssh", "ssh:127.0.0.1"] {
        assert_eq!(parse_tcp_mapping_inner(value).unwrap_err(), MappingError::TcpFields);
    }
    assert_eq!(parse_tcp_mapping_inner(" :127.0.0.1:22").unwrap_err(), MappingError::TcpName);
    assert_eq!(parse_tcp_mapping_inner("ssh::22").unwrap_err(), MappingError::TcpAddress);
    assert_eq!(parse_tcp_mapping_inner("ssh:127.0.0.1: ").unwrap_err(), MappingError::TcpAddress);
}

#[test]
fn refused_visitor_mappings() {
    for value in ["", "devbox", "devbox:ssh", "devbox:ssh:127.0.0.1"] {
        assert_eq!(parse_visitor_mapping_inner(value).unwrap_err(), MappingError::VisitorFields);
    }
    assert_eq!(
        parse_visitor_mapping_inner(":ssh:127.0.0.1:2222").unwrap_err(),
        MappingError::VisitorTarget
    );
    assert_eq!(
        parse_visitor_mapping_inner("devbox: :127.0.0.1:2222").unwrap_err(),
        MappingError::VisitorTarget
    );
    assert_eq!(
        parse_visitor_mapping_inner("devbox:ssh::2222").unwrap_err(),
        MappingError::VisitorAddress
    );
    assert_eq!(
        parse_visitor_mapping_inner("devbox:ssh:127.0.0.1:").unwrap_err(),
        MappingError::VisitorAddress
    );
}

#[test]
fn an_empty_auth_admits_everyone() {
    assert!(auth_matches(Some(""), None));
    assert!(auth_matches(Some(""), Some("laptop")));
}

#[test]
fn refusals_in_words() {
    assert_eq!(parse_tcp_mapping("ssh").unwrap_err(), "expected NAME:HOST:PORT[:AUTH]");
    assert_eq!(parse_tcp_mapping(":h:1").unwrap_err(), "mapping name cannot be empty");
    assert_eq!(parse_tcp_mapping("n::1").unwrap_err(), "mapping address cannot be empty");
    assert_eq!(
        parse_visitor_mapping("n:s:h").unwrap_err(),
        "expected NODE:SERVICE:HOST:PORT[:AUTH]"
    );
    assert_eq!(
        parse_visitor_mapping(":s:h:1").unwrap_err(),
        "visitor node and service cannot be empty"
    );
    assert_eq!(
        parse_visitor_mapping("n:s::1").unwrap_err(),
        "visitor bind address cannot be empty"
    );
}

#[test]
fn a_documented_pair_fits() {
    let provider = parse_tcp_mapping("ssh:127.0.0.1:22:laptop").unwrap();
    let visitor = parse_visitor_mapping("devbox-a:ssh:127.0.0.1:2222:laptop").unwrap();
    assert_eq!(provider.name, visitor.service);
    assert!(auth_matches(provider.auth.as_deref(), visitor.auth.as_deref()));
}
