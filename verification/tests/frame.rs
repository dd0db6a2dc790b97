use node_access_common::frame::{
    decode_frame, encode_frame, unwrap_ciphertext, wrap_ciphertext, FrameError, WireFrame,
};

#[test]
fn frames_on_the_wire() {
    let open = WireFrame::Open { stream_id: 0x01020304, request: b"{}".to_vec() };
    assert_eq!(encode_frame(&open), vec![1, 1, 2, 3, 4, b'{', b'}']);
    let data = WireFrame::Data { stream_id: 3, payload: vec![9, 8] };
    assert_eq!(encode_frame(&data), vec![2, 0, 0, 0, 3, 9, 8]);
    let close = WireFrame::Close { stream_id: u32::MAX };
    assert_eq!(encode_frame(&close), vec![3, 255, 255, 255, 255]);
    let control = WireFrame::Control { message: b"x".to_vec() };
    assert_eq!(encode_frame(&control), vec![4, 0, 0, 0, 0, b'x']);
}

#[test]
fn frames_read_back() {
    match decode_frame(&encode_frame(&WireFrame::Open { stream_id: 5, request: vec![1, 2, 3] })) {
        Ok(WireFrame::Open { stream_id, request }) => {
            assert_eq!(stream_id, 5);
            assert_eq!(request, vec![1, 2, 3]);
        }
        _ => panic!("not an open frame"),
    }
    match decode_frame(&encode_frame(&WireFrame::Data { stream_id: 6, payload: vec![0; 70000] })) {
        Ok(WireFrame::Data { stream_id, payload }) => {
            assert_eq!(stream_id, 6);
            assert_eq!(payload, vec![0; 70000]);
        }
        _ => panic!("not a data frame"),
    }
    match decode_frame(&encode_frame(&WireFrame::Close { stream_id: 7 })) {
        Ok(WireFrame::Close { stream_id }) => assert_eq!(stream_id, 7),
        _ => panic!("not a close frame"),
    }
    match decode_frame(&encode_frame(&WireFrame::Control { message: vec![] })) {
        Ok(WireFrame::Control { message }) => assert!(message.is_empty()),
        _ => panic!("not a control frame"),
    }
}

#[test]
fn close_and_control_frames_ignore_the_rest_of_their_header() {
    assert!(matches!(
        decode_frame(&[3, 0, 0, 0, 9, 1, 2]),
        Ok(WireFrame::Close { stream_id: 9 })
    ));
    match decode_frame(&[4, 1, 2, 3, 4, 5]) {
        Ok(WireFrame::Control { message }) => assert_eq!(message, vec![5]),
        _ => panic!("not a control frame"),
    }
}

#[test]
fn bytes_that_are_no_frame() {
    assert_eq!(decode_frame(&[]).err(), Some(FrameError::TooShort));
    assert_eq!(decode_frame(&[1, 0, 0, 0]).err(), Some(FrameError::TooShort));
    assert_eq!(decode_frame(&[0, 0, 0, 0, 0]).err(), Some(FrameError::UnknownKind(0)));
    assert_eq!(decode_frame(&[0xe1, 0, 0, 0, 0, 0]).err(), Some(FrameError::UnknownKind(0xe1)));
    assert_eq!(FrameError::TooShort.message(), "frame too short");
    assert_eq!(FrameError::UnknownKind(225).message(), "unknown frame type 225");
}

#[test]
fn envelopes_on_the_wire() {
    let wrapped = wrap_ciphertext(0x0102030405060708, &[9, 9]);
    assert_eq!(wrapped, vec![0xe1, 1, 2, 3, 4, 5, 6, 7, 8, 9, 9]);
    assert_eq!(unwrap_ciphertext(&wrapped), Some((0x0102030405060708, &[9u8, 9][..])));
    assert_eq!(unwrap_ciphertext(&wrapped[..9]), Some((0x0102030405060708, &[][..])));
    assert_eq!(unwrap_ciphertext(&wrapped[..8]), None);
    assert_eq!(unwrap_ciphertext(&[2, 0, 0, 0, 0, 0, 0, 0, 0, 0]), None);
    assert_eq!(unwrap_ciphertext(&[]), None);
}

#[test]
fn read_frames_write_back() {
    for bytes in [
        vec![1, 0, 0, 0, 9, b'{', b'}'],
        vec![2, 255, 0, 255, 0],
        vec![3, 0, 0, 0, 1],
        vec![4, 0, 0, 0, 0, 7],
    ] {
        match decode_frame(&bytes) {
            Ok(frame) => assert_eq!(encode_frame(&frame), bytes),
            Err(error) => panic!("{}", error.message()),
        }
    }
}
