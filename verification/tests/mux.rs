use node_access_common::crypto::FrameCrypto;
use node_access_common::frame::{FrameError, WireFrame};
use node_access_common::mux::{
    access_side, serving_side, ControlMessage, MuxConnection, MuxFrame, MuxHandle, OpenRequest,
    Polled, ReadAction, ReadOutcome, RelayMessage, StopReason, VirtualStream, WriteAction,
};

fn data(stream_id: u32, payload: &[u8]) -> WireFrame {
    WireFrame::Data { stream_id, payload: payload.to_vec() }
}

fn hex(bytes: &[u8]) -> String {
    bytes.iter().map(|b| format!("{:02x}", b)).collect()
}

#[test]
fn streams_are_numbered_by_twos() {
    let mut access: MuxConnection<&str> = access_side(None);
    let mut serving: MuxConnection<&str> = serving_side(None);
    for expected in [1, 3, 5] {
        let (stream, frame) = access.handle.open_stream(OpenRequest::Socks, "out");
        assert_eq!(stream.id(), expected);
        assert!(matches!(
            frame,
            MuxFrame::Open { stream_id, request: OpenRequest::Socks } if stream_id == expected
        ));
    }
    for expected in [2, 4, 6] {
        let request = OpenRequest::ProviderConnect { name: "ssh".to_string() };
        assert_eq!(serving.handle.open_stream(request, "out").0.id(), expected);
    }
}

#[test]
fn stream_numbers_start_again() {
    let mut handle: MuxHandle<()> = MuxHandle::new(u32::MAX);
    assert_eq!(handle.open_stream(OpenRequest::Socks, ()).0.id(), u32::MAX);
    assert_eq!(handle.open_stream(OpenRequest::Socks, ()).0.id(), 1);
}

#[test]
fn open_streams_have_a_sender() {
    let mut handle: MuxHandle<&str> = MuxHandle::new(1);
    assert_eq!(handle.sender(1), None);
    handle.open_stream(OpenRequest::Socks, "first");
    assert_eq!(handle.sender(1), Some(&"first"));
    let incoming = handle.accept_stream(2, OpenRequest::Socks, "second");
    assert!(matches!(incoming.request, OpenRequest::Socks));
    assert_eq!(incoming.into_stream().id(), 2);
    assert_eq!(handle.sender(2), Some(&"second"));
    handle.release(1);
    assert_eq!(handle.sender(1), None);
    assert_eq!(handle.sender(2), Some(&"second"));
}

#[test]
fn control_messages_make_control_frames() {
    let handle: MuxHandle<()> = MuxHandle::new(1);
    match handle.send_control(ControlMessage::Info { message: "hi".to_string() }) {
        MuxFrame::Control(ControlMessage::Info { message }) => assert_eq!(message, "hi"),
        other => panic!("{:?}", other),
    }
}

#[test]
fn closing_is_told_once() {
    let mut stream = VirtualStream::new(9);
    assert!(matches!(stream.close_remote(), Some(MuxFrame::Close { stream_id: 9 })));
    assert!(stream.close_remote().is_none());
}

#[test]
fn written_bytes_make_data_frames() {
    let stream = VirtualStream::new(9);
    match stream.data_frame(&[1, 2, 3]) {
        MuxFrame::Data { stream_id, payload } => {
            assert_eq!(stream_id, 9);
            assert_eq!(payload, vec![1, 2, 3]);
        }
        other => panic!("{:?}", other),
    }
}

fn ready(outcome: ReadOutcome) -> Vec<u8> {
    match outcome {
        ReadOutcome::Ready(bytes) => bytes,
        ReadOutcome::Pending => panic!("pending"),
    }
}

#[test]
fn reads_keep_every_byte_in_order() {
    let mut stream = VirtualStream::new(1);
    assert!(stream.begin_read(2).is_empty());
    assert_eq!(ready(stream.finish_read(Polled::Chunk(vec![1, 2, 3, 4, 5]), 2, false)), vec![1, 2]);
    assert_eq!(stream.begin_read(2), vec![3, 4]);
    assert_eq!(stream.begin_read(4), vec![5]);
    assert_eq!(ready(stream.finish_read(Polled::Chunk(vec![6]), 3, true)), vec![6]);
    assert!(stream.begin_read(4).is_empty());
}

#[test]
fn reads_wait_only_with_nothing_at_hand() {
    let mut stream = VirtualStream::new(1);
    assert!(matches!(stream.finish_read(Polled::Pending, 4, false), ReadOutcome::Pending));
    assert!(ready(stream.finish_read(Polled::Pending, 4, true)).is_empty());
    assert!(ready(stream.finish_read(Polled::Ended, 4, false)).is_empty());
}

#[test]
fn plain_frames_get_through() {
    let mut access: MuxConnection<&str> = access_side(None);
    let mut serving: MuxConnection<&str> = serving_side(None);
    let open = WireFrame::Open { stream_id: 1, request: b"{\"type\":\"socks\"}".to_vec() };
    let bytes = access.send_frame(&open).unwrap();
    assert_eq!(bytes[..5], [1, 0, 0, 0, 1]);
    match serving.receive(RelayMessage::Binary(bytes)) {
        ReadAction::Open { stream_id, request } => {
            assert_eq!(stream_id, 1);
            assert_eq!(request, b"{\"type\":\"socks\"}");
        }
        _ => panic!("not opened"),
    }
    assert!(!serving.closed());
}

#[test]
fn encrypted_frames_on_the_wire() {
    let mut access: MuxConnection<&str> = access_side(Some("shared-encryption-key"));
    let bytes = access.send_frame(&WireFrame::Close { stream_id: 7 }).unwrap();
    assert_eq!(hex(&bytes), "e10000000000000000de3c08040e0599bea7175826b58950cfd66f75c27b");
    let bytes = access.send_frame(&WireFrame::Close { stream_id: 7 }).unwrap();
    assert_eq!(bytes[..9], [0xe1, 0, 0, 0, 0, 0, 0, 0, 1]);
}

#[test]
fn encrypted_frames_get_through_both_ways() {
    let mut access: MuxConnection<&str> = access_side(Some("secret"));
    let mut serving: MuxConnection<&str> = serving_side(Some("secret"));
    serving.accept_stream(1, OpenRequest::Socks, "out");
    access.handle.open_stream(OpenRequest::Socks, "in");
    let bytes = access.send_frame(&data(1, b"hello")).unwrap();
    assert_eq!(bytes[0], 0xe1);
    match serving.receive(RelayMessage::Binary(bytes)) {
        ReadAction::Deliver { stream_id, payload } => {
            assert_eq!(stream_id, 1);
            assert_eq!(payload, b"hello");
            assert_eq!(serving.handle.sender(1), Some(&"out"));
        }
        _ => panic!("not delivered"),
    }
    let bytes = serving.send_frame(&data(1, b"world")).unwrap();
    match access.receive(RelayMessage::Binary(bytes)) {
        ReadAction::Deliver { payload, .. } => assert_eq!(payload, b"world"),
        _ => panic!("not delivered"),
    }
}

#[test]
fn bytes_arrive_between_open_and_close() {
    let mut access: MuxConnection<&str> = access_side(None);
    let mut serving: MuxConnection<&str> = serving_side(None);
    let early = access.send_frame(&data(1, b"early")).unwrap();
    assert!(matches!(serving.receive(RelayMessage::Binary(early)), ReadAction::Ignore));
    serving.accept_stream(1, OpenRequest::Socks, "out");
    let bytes = access.send_frame(&data(1, b"now")).unwrap();
    assert!(matches!(serving.receive(RelayMessage::Binary(bytes)), ReadAction::Deliver { .. }));
    let close = access.send_frame(&WireFrame::Close { stream_id: 1 }).unwrap();
    assert!(matches!(serving.receive(RelayMessage::Binary(close)), ReadAction::Ignore));
    assert_eq!(serving.handle.sender(1), None);
    let late = access.send_frame(&data(1, b"late")).unwrap();
    assert!(matches!(serving.receive(RelayMessage::Binary(late)), ReadAction::Ignore));
    assert!(!serving.closed());
}

#[test]
fn control_frames_are_handed_on() {
    let mut access: MuxConnection<()> = access_side(None);
    let mut serving: MuxConnection<()> = serving_side(None);
    let frame = WireFrame::Control { message: b"{}".to_vec() };
    let bytes = access.send_frame(&frame).unwrap();
    match serving.receive(RelayMessage::Binary(bytes)) {
        ReadAction::Control { message } => assert_eq!(message, b"{}"),
        _ => panic!("not handed on"),
    }
}

fn stopped(connection: &mut MuxConnection<()>, message: RelayMessage) -> StopReason {
    match connection.receive(message) {
        ReadAction::Stop(reason) => {
            assert!(connection.closed());
            reason
        }
        _ => panic!("not stopped"),
    }
}

#[test]
fn what_stops_a_side() {
    assert_eq!(stopped(&mut access_side(None), RelayMessage::Failed), StopReason::ReadFailed);
    assert_eq!(stopped(&mut access_side(None), RelayMessage::End), StopReason::Ended);
    assert_eq!(
        stopped(&mut access_side(None), RelayMessage::Binary(vec![2])),
        StopReason::InvalidFrame(FrameError::TooShort)
    );
    assert_eq!(
        stopped(&mut access_side(None), RelayMessage::Binary(vec![9, 0, 0, 0, 0])),
        StopReason::InvalidFrame(FrameError::UnknownKind(9))
    );
    let mut connection: MuxConnection<()> = access_side(None);
    assert!(!connection.closed());
    connection.stop();
    assert!(connection.closed());
}

#[test]
fn a_secret_refuses_plain_frames() {
    let plain = RelayMessage::Binary(vec![3, 0, 0, 0, 1, 0, 0, 0, 0, 0]);
    assert_eq!(stopped(&mut access_side(Some("secret")), plain), StopReason::Unencrypted);
    let short = RelayMessage::Binary(vec![0xe1, 0, 0, 0, 0, 0, 0, 0]);
    assert_eq!(stopped(&mut access_side(Some("secret")), short), StopReason::Unencrypted);
    let empty = RelayMessage::Binary(vec![0xe1, 0, 0, 0, 0, 0, 0, 0, 0]);
    assert_eq!(stopped(&mut access_side(Some("secret")), empty), StopReason::Undecryptable);
}

#[test]
fn no_secret_refuses_encrypted_frames() {
    let mut access: MuxConnection<()> = access_side(Some("secret"));
    let bytes = access.send_frame(&WireFrame::Close { stream_id: 1 }).unwrap();
    assert_eq!(
        stopped(&mut serving_side(None), RelayMessage::Binary(bytes)),
        StopReason::InvalidFrame(FrameError::UnknownKind(0xe1))
    );
}

#[test]
fn another_secret_or_direction_is_refused() {
    let mut access: MuxConnection<()> = access_side(Some("secret"));
    let bytes = access.send_frame(&WireFrame::Close { stream_id: 1 }).unwrap();
    assert_eq!(
        stopped(&mut serving_side(Some("another")), RelayMessage::Binary(bytes.clone())),
        StopReason::Undecryptable
    );
    assert_eq!(
        stopped(&mut access_side(Some("secret")), RelayMessage::Binary(bytes)),
        StopReason::Undecryptable
    );
}

#[test]
fn other_messages_are_ignored() {
    let mut connection: MuxConnection<()> =
        MuxConnection::start(1, Some(FrameCrypto::from_secret("secret", 0, 1)));
    assert!(matches!(connection.receive(RelayMessage::Other), ReadAction::Ignore));
    assert!(!connection.closed());
}

#[test]
fn streams_do_not_mix() {
    let mut access: MuxConnection<()> = access_side(Some("secret"));
    let mut serving: MuxConnection<()> = serving_side(Some("secret"));
    serving.accept_stream(1, OpenRequest::Socks, ());
    serving.accept_stream(3, OpenRequest::Socks, ());
    let mut first = Vec::new();
    let mut second = Vec::new();
    for (id, payload) in [(1, "a"), (3, "x"), (1, "bc"), (5, "lost"), (3, "y"), (1, "d")] {
        let bytes = access.send_frame(&data(id, payload.as_bytes())).unwrap();
        match serving.receive(RelayMessage::Binary(bytes)) {
            ReadAction::Deliver { stream_id: 1, payload } => first.extend(payload),
            ReadAction::Deliver { stream_id: 3, payload } => second.extend(payload),
            ReadAction::Ignore => assert_eq!(id, 5),
            _ => panic!("neither delivered nor ignored"),
        }
    }
    assert_eq!(first, b"abcd");
    assert_eq!(second, b"xy");
}

#[test]
fn what_a_writer_does() {
    let mut access: MuxConnection<()> = access_side(Some("shared-encryption-key"));
    assert!(matches!(access.write_step(None), WriteAction::Skip));
    match access.write_step(Some(&WireFrame::Close { stream_id: 7 })) {
        WriteAction::Send(bytes) => assert_eq!(
            hex(&bytes),
            "e10000000000000000de3c08040e0599bea7175826b58950cfd66f75c27b"
        ),
        _ => panic!("not sent"),
    }
    match access.write_step(Some(&WireFrame::Close { stream_id: 7 })) {
        WriteAction::Send(bytes) => assert_eq!(bytes[..9], [0xe1, 0, 0, 0, 0, 0, 0, 0, 1]),
        _ => panic!("not sent"),
    }
}

#[test]
fn unreadable_requests_and_messages_stop_a_side() {
    let mut side: MuxConnection<&str> = serving_side(None);
    match side.take_request(1, Some(OpenRequest::Socks), "out") {
        Some(incoming) => {
            assert!(matches!(incoming.request, OpenRequest::Socks));
            assert_eq!(incoming.into_stream().id(), 1);
        }
        None => panic!("not taken in"),
    }
    assert_eq!(side.handle.sender(1), Some(&"out"));
    let info = ControlMessage::Info { message: "hi".to_string() };
    assert!(matches!(side.take_message(Some(info)), Some(ControlMessage::Info { .. })));
    assert!(!side.closed());
    assert!(side.take_request(3, None, "lost").is_none());
    assert_eq!(side.handle.sender(3), None);
    assert!(side.closed());
    let mut side: MuxConnection<&str> = serving_side(None);
    assert!(side.take_message(None).is_none());
    assert!(side.closed());
}
