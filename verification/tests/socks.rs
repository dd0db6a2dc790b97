use node_access_common::socks::{
    connect_reply, ipv4_address, ipv6_address, reply_bytes, SocksError, SocksNext, SocksStage,
    Utf8Fault,
};

#[derive(Debug, PartialEq)]
enum Outcome {
    Connect(String),
    Fail(SocksError),
    Unfinished,
}

fn negotiate(input: &[u8]) -> (Vec<u8>, Outcome, Vec<u8>) {
    let mut sent = Vec::new();
    let mut unread = input;
    let mut stage = SocksStage::Greeting;
    loop {
        let count = stage.wanted();
        if unread.len() < count {
            return (sent, Outcome::Unfinished, unread.to_vec());
        }
        let step = stage.step(&unread[..count]);
        unread = &unread[count..];
        sent.extend_from_slice(&step.send);
        match step.next {
            SocksNext::Read(next) => stage = next,
            SocksNext::Connect { target } => {
                return (sent, Outcome::Connect(target), unread.to_vec());
            }
            SocksNext::Fail(error) => return (sent, Outcome::Fail(error), unread.to_vec()),
        }
    }
}

#[test]
fn an_ipv4_target() {
    let input = [5, 1, 0, 5, 1, 0, 1, 127, 0, 0, 1, 0, 80, b'G', b'E'];
    let (sent, end, unread) = negotiate(&input);
    assert_eq!(sent, vec![5, 0]);
    assert_eq!(end, Outcome::Connect("127.0.0.1:80".to_string()));
    assert_eq!(unread, b"GE");
}

#[test]
fn a_domain_target() {
    let mut input = vec![5, 2, 0, 2, 5, 1, 0, 3, 11];
    input.extend_from_slice(b"example.com");
    input.extend_from_slice(&[1, 187]);
    let (sent, end, unread) = negotiate(&input);
    assert_eq!(sent, vec![5, 0]);
    assert_eq!(end, Outcome::Connect("example.com:443".to_string()));
    assert!(unread.is_empty());
}

#[test]
fn a_domain_target_beyond_ascii() {
    let input = [5, 0, 5, 1, 0, 3, 2, 0xc3, 0xa4, 255, 255];
    assert_eq!(negotiate(&input).1, Outcome::Connect("\u{e4}:65535".to_string()));
}

#[test]
fn an_empty_domain() {
    let input = [5, 0, 5, 1, 0, 3, 0, 0, 1];
    assert_eq!(negotiate(&input).1, Outcome::Connect(":1".to_string()));
}

#[test]
fn an_ipv6_target() {
    let mut input = vec![5, 1, 0, 5, 1, 0, 4];
    input.extend_from_slice(&[0x20, 0x01, 0x0d, 0xb8, 0, 0, 0, 0, 0, 0, 0, 0, 0, 0, 0, 1]);
    input.extend_from_slice(&[0, 22]);
    let (sent, end, _) = negotiate(&input);
    assert_eq!(sent, vec![5, 0]);
    assert_eq!(end, Outcome::Connect("2001:db8::1:22".to_string()));
}

#[test]
fn another_version() {
    assert_eq!(
        negotiate(&[4, 1, 0]),
        (vec![], Outcome::Fail(SocksError::Version(4)), vec![0])
    );
    assert_eq!(
        negotiate(&[5, 0, 4, 1, 0, 1]),
        (vec![5, 0], Outcome::Fail(SocksError::RequestVersion(4)), vec![])
    );
}

#[test]
fn another_command() {
    let (sent, end, _) = negotiate(&[5, 0, 5, 2, 0, 1, 127, 0, 0, 1, 0, 80]);
    assert_eq!(sent, vec![5, 0, 5, 7, 0, 1, 0, 0, 0, 0, 0, 0]);
    assert_eq!(end, Outcome::Fail(SocksError::Command));
}

#[test]
fn another_address_type() {
    let (sent, end, _) = negotiate(&[5, 0, 5, 1, 0, 2]);
    assert_eq!(sent, vec![5, 0, 5, 8, 0, 1, 0, 0, 0, 0, 0, 0]);
    assert_eq!(end, Outcome::Fail(SocksError::AddressType(2)));
}

#[test]
fn a_domain_that_is_no_text() {
    let (sent, end, _) = negotiate(&[5, 0, 5, 1, 0, 3, 1, 0xff, 0, 80]);
    assert_eq!(sent, vec![5, 0]);
    let fault = Utf8Fault { valid_up_to: 0, error_len: Some(1) };
    assert_eq!(end, Outcome::Fail(SocksError::DomainText(fault)));
}

#[test]
fn a_client_that_stops() {
    assert_eq!(negotiate(&[5]).1, Outcome::Unfinished);
    assert_eq!(negotiate(&[5, 3, 0]), (vec![], Outcome::Unfinished, vec![0]));
    assert_eq!(negotiate(&[5, 0, 5, 1, 0, 1, 127]).1, Outcome::Unfinished);
}

#[test]
fn replies() {
    assert_eq!(reply_bytes(7), vec![5, 7, 0, 1, 0, 0, 0, 0, 0, 0]);
    assert_eq!(connect_reply(true), vec![5, 0, 0, 1, 0, 0, 0, 0, 0, 0]);
    assert_eq!(connect_reply(false), vec![5, 5, 0, 1, 0, 0, 0, 0, 0, 0]);
}

#[test]
fn errors_in_words() {
    assert_eq!(SocksError::Version(4).message(), "unsupported socks version 4");
    assert_eq!(SocksError::RequestVersion(255).message(), "unsupported socks request version 255");
    assert_eq!(SocksError::Command.message(), "only socks CONNECT is supported");
    assert_eq!(SocksError::AddressType(2).message(), "unsupported socks address type 2");
    let fault = Utf8Fault { valid_up_to: 3, error_len: None };
    assert_eq!(SocksError::DomainText(fault).message(), "domain name is not utf-8");
}

#[test]
fn ipv4_addresses_as_text() {
    assert_eq!(ipv4_address(&[0, 0, 0, 0]), "0.0.0.0");
    assert_eq!(ipv4_address(&[192, 168, 10, 255]), "192.168.10.255");
}

fn ipv6(groups: [u16; 8]) -> String {
    let mut bytes = Vec::new();
    for group in groups {
        bytes.extend_from_slice(&group.to_be_bytes());
    }
    ipv6_address(&bytes)
}

#[test]
fn ipv6_addresses_as_text() {
    assert_eq!(ipv6([0, 0, 0, 0, 0, 0, 0, 0]), "::");
    assert_eq!(ipv6([0, 0, 0, 0, 0, 0, 0, 1]), "::1");
    assert_eq!(ipv6([1, 0, 0, 0, 0, 0, 0, 0]), "1::");
    assert_eq!(ipv6([0x2001, 0xdb8, 0, 0, 0, 0, 0, 1]), "2001:db8::1");
    assert_eq!(ipv6([0xfe80, 0, 0, 0, 0xabcd, 0, 0, 0x10]), "fe80::abcd:0:0:10");
    assert_eq!(ipv6([1, 0, 0, 2, 0, 0, 0, 3]), "1:0:0:2::3");
    assert_eq!(ipv6([1, 0, 0, 2, 3, 0, 0, 4]), "1::2:3:0:0:4");
    assert_eq!(ipv6([1, 0, 2, 0, 3, 0, 4, 0]), "1:0:2:0:3:0:4:0");
    assert_eq!(ipv6([0xff02, 1, 2, 3, 4, 5, 6, 0xffff]), "ff02:1:2:3:4:5:6:ffff");
}

#[test]
fn ipv6_addresses_that_stand_for_ipv4() {
    assert_eq!(ipv6([0, 0, 0, 0, 0, 0xffff, 0xc0a8, 0x0001]), "::ffff:192.168.0.1");
    assert_eq!(ipv6([0, 0, 0, 0, 0, 0, 0xc0a8, 0x0001]), "::c0a8:1");
    assert_eq!(ipv6([0, 0, 0, 0, 1, 0xffff, 0xc0a8, 0x0001]), "::1:ffff:c0a8:1");
}

#[test]
fn the_cause_of_a_bad_domain_is_what_std_says() {
    for name in [
        &b"\xff"[..],
        &b"abc\xc3"[..],
        &b"ab\xe2\x82"[..],
        &b"ab\xe2\x28\xa1"[..],
        &b"\xc3\xa4\xf0\x9f\x98"[..],
        &b"a\xf0\x9f\x98x"[..],
        &b"\xed\xa0\x80"[..],
        &b"\xc0\xaf"[..],
    ] {
        let mut input = vec![5, 0, 5, 1, 0, 3, name.len() as u8];
        input.extend_from_slice(name);
        let expected = String::from_utf8(name.to_vec()).unwrap_err();
        match negotiate(&input).1 {
            Outcome::Fail(SocksError::DomainText(fault)) => {
                assert_eq!(fault.valid_up_to, expected.utf8_error().valid_up_to());
                assert_eq!(fault.error_len, expected.utf8_error().error_len());
                assert_eq!(
                    SocksError::DomainText(fault).cause(),
                    Some(expected.to_string())
                );
            }
            other => panic!("{:?}", other),
        }
    }
    assert_eq!(SocksError::Command.cause(), None);
    let fault = Utf8Fault { valid_up_to: 3, error_len: None };
    assert_eq!(fault.message(), "incomplete utf-8 byte sequence from index 3");
    let fault = Utf8Fault { valid_up_to: 2, error_len: Some(1) };
    assert_eq!(fault.message(), "invalid utf-8 sequence of 1 bytes from index 2");
}
