use node_access_common::legacy_cli::normalize_legacy_args;

fn normalized(flags: &[&str], args: &[&str]) -> Vec<String> {
    normalize_legacy_args(flags, args.iter().map(|arg| arg.to_string()).collect())
}

#[test]
fn known_flags_get_a_second_dash() {
    assert_eq!(
        normalized(
            &["relay", "node", "no-socks5"],
            &["node-access", "-relay", "wss://h", "-node", "n", "-no-socks5"]
        ),
        vec!["node-access", "--relay", "wss://h", "--node", "n", "--no-socks5"]
    );
}

#[test]
fn other_arguments_stay() {
    let args = ["x", "--relay", "-r", "-relayed", "---relay", "-", "--", "relay", "", "-relay=u"];
    assert_eq!(normalized(&["relay"], &args), args.to_vec());
}

#[test]
fn normalizing_twice_is_normalizing_once() {
    let once = normalized(&["relay"], &["-relay", "--relay", "-x"]);
    assert_eq!(once, vec!["--relay", "--relay", "-x"]);
    assert_eq!(normalize_legacy_args(&["relay"], once.clone()), once);
}

#[test]
fn nothing_is_known_without_flags() {
    assert_eq!(normalized(&[], &["-relay"]), vec!["-relay"]);
    assert_eq!(normalized(&["relay"], &[]), Vec::<String>::new());
}
