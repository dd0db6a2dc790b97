//! Frames on the wire: a kind byte, a stream id and a body; and the envelope of
//! an encrypted frame.

use crate::number::{
    be_bytes, be_number, be_value, decimal, decimal_text, decimal_value, law_bytes_of_numbers,
    law_decimals_read_back, law_numbers_of_bytes, lemma_be_bytes_value, lemma_be_value_bytes,
    lemma_byte_ranges, u64_be_bytes,
};
use bytes::{BufMut, BytesMut};
use vstd::prelude::*;
use vstd::slice::{slice_subrange, slice_to_vec};
use vstd::string::*;

verus! {

/// The kind of a frame that opens a stream.
pub const FRAME_OPEN: u8 = 1;

/// The kind of a frame that carries bytes of a stream.
pub const FRAME_DATA: u8 = 2;

/// The kind of a frame that closes a stream.
pub const FRAME_CLOSE: u8 = 3;

/// The kind of a frame that carries a control message.
pub const FRAME_CONTROL: u8 = 4;

/// The first byte of an encrypted frame.
pub const FRAME_ENCRYPTED: u8 = 0xE1;

/// The length of a frame's kind and stream id.
pub const HEADER_LEN: usize = 5;

/// The length of what stands before the ciphertext of an encrypted frame.
pub const ENVELOPE_LEN: usize = 9;

/// A growable byte buffer of the `bytes` crate.
#[verifier::external_type_specification]
#[verifier::external_body]
pub struct ExBytesMut(bytes::BytesMut);

/// The bytes that a `BytesMut` holds.
pub uninterp spec fn buffer_bytes(b: bytes::BytesMut) -> Seq<u8>;

/// Calls `BytesMut::new`: the buffer is empty.
#[verifier::external_body]
fn buffer_new() -> (r: BytesMut)
    ensures
        buffer_bytes(r) == Seq::<u8>::empty(),
{
    BytesMut::new()
}

/// Calls `BufMut::put_u8`: one byte is added at the end. A buffer that is full
/// doubles its room or more, up to `isize::MAX` bytes.
#[verifier::external_body]
fn buffer_put_u8(b: &mut BytesMut, x: u8)
    requires
        2 * (buffer_bytes(*old(b)).len() + 1) <= isize::MAX,
    ensures
        buffer_bytes(*final(b)) == buffer_bytes(*old(b)).push(x),
{
    b.put_u8(x)
}

/// Calls `BufMut::put_u32`: the four bytes of a number are added at the end, most
/// significant first. A buffer that is full doubles its room or more, up to
/// `isize::MAX` bytes.
#[verifier::external_body]
fn buffer_put_u32(b: &mut BytesMut, x: u32)
    requires
        2 * (buffer_bytes(*old(b)).len() + 4) <= isize::MAX,
    ensures
        buffer_bytes(*final(b)) == buffer_bytes(*old(b)) + be_bytes(x as nat, 4),
{
    b.put_u32(x)
}

/// Calls `BytesMut::extend_from_slice`: the bytes are added at the end. A buffer
/// that is full doubles its room or more, up to `isize::MAX` bytes.
#[verifier::external_body]
fn buffer_extend(b: &mut BytesMut, data: &[u8])
    requires
        2 * (buffer_bytes(*old(b)).len() + data@.len()) <= isize::MAX,
    ensures
        buffer_bytes(*final(b)) == buffer_bytes(*old(b)) + data@,
{
    b.extend_from_slice(data)
}

/// Calls `to_vec` on the slice that a `BytesMut` dereferences to: a copy of the
/// bytes.
#[verifier::external_body]
fn buffer_to_vec(b: &BytesMut) -> (r: Vec<u8>)
    ensures
        r@ == buffer_bytes(*b),
{
    b.to_vec()
}

/// A frame whose request or message is still in its encoded form.
#[derive(Debug)]
pub enum WireFrame {
    /// Opens a stream for an encoded request.
    Open { stream_id: u32, request: Vec<u8> },
    /// Carries bytes of a stream.
    Data { stream_id: u32, payload: Vec<u8> },
    /// Closes a stream.
    Close { stream_id: u32 },
    /// Carries an encoded control message.
    Control { message: Vec<u8> },
}

/// What a `WireFrame` holds.
pub enum WireFrameView {
    Open { stream_id: u32, request: Seq<u8> },
    Data { stream_id: u32, payload: Seq<u8> },
    Close { stream_id: u32 },
    Control { message: Seq<u8> },
}

impl View for WireFrame {
    type V = WireFrameView;

    open spec fn view(&self) -> WireFrameView {
        match *self {
            WireFrame::Open { stream_id, request } => WireFrameView::Open {
                stream_id,
                request: request@,
            },
            WireFrame::Data { stream_id, payload } => WireFrameView::Data {
                stream_id,
                payload: payload@,
            },
            WireFrame::Close { stream_id } => WireFrameView::Close { stream_id },
            WireFrame::Control { message } => WireFrameView::Control { message: message@ },
        }
    }
}

/// Why bytes are not a frame.
#[derive(Debug, Clone, Copy, PartialEq, Eq, Structural)]
pub enum FrameError {
    /// Shorter than a kind and a stream id.
    TooShort,
    /// No frame has this kind.
    UnknownKind(u8),
}

impl FrameError {
    /// The error in words.
    pub open spec fn text(self) -> Seq<char> {
        match self {
            FrameError::TooShort => "frame too short"@,
            FrameError::UnknownKind(kind) => "unknown frame type "@ + decimal(kind as nat),
        }
    }

    /// Gives the error in words.
    pub fn message(&self) -> (r: String)
        ensures
            r@ == self.text(),
    {
        match self {
            FrameError::TooShort => "frame too short".to_owned(),
            FrameError::UnknownKind(kind) => {
                let mut text = "unknown frame type ".to_owned();
                text.append(decimal_text(*kind as u64).as_str());
                text
            },
        }
    }
}

impl WireFrameView {
    /// The byte that tells the frame's kind.
    pub open spec fn kind(self) -> u8 {
        match self {
            WireFrameView::Open { .. } => FRAME_OPEN,
            WireFrameView::Data { .. } => FRAME_DATA,
            WireFrameView::Close { .. } => FRAME_CLOSE,
            WireFrameView::Control { .. } => FRAME_CONTROL,
        }
    }

    /// The stream id in the header; control messages belong to no stream and
    /// have zero there.
    pub open spec fn header_id(self) -> u32 {
        match self {
            WireFrameView::Open { stream_id, .. } => stream_id,
            WireFrameView::Data { stream_id, .. } => stream_id,
            WireFrameView::Close { stream_id } => stream_id,
            WireFrameView::Control { .. } => 0,
        }
    }

    /// What stands behind the header.
    pub open spec fn body(self) -> Seq<u8> {
        match self {
            WireFrameView::Open { request, .. } => request,
            WireFrameView::Data { payload, .. } => payload,
            WireFrameView::Close { .. } => Seq::empty(),
            WireFrameView::Control { message } => message,
        }
    }

    /// The frame in bytes.
    pub open spec fn encoded(self) -> Seq<u8> {
        seq![self.kind()] + be_bytes(self.header_id() as nat, 4) + self.body()
    }
}

/// The frame that bytes stand for.
pub open spec fn decoded(bytes: Seq<u8>) -> Result<WireFrameView, FrameError> {
    let stream_id = be_value(bytes.subrange(1, 5)) as u32;
    let body = bytes.skip(5);
    if bytes.len() < HEADER_LEN {
        Err(FrameError::TooShort)
    } else if bytes[0] == FRAME_OPEN {
        Ok(WireFrameView::Open { stream_id, request: body })
    } else if bytes[0] == FRAME_DATA {
        Ok(WireFrameView::Data { stream_id, payload: body })
    } else if bytes[0] == FRAME_CLOSE {
        Ok(WireFrameView::Close { stream_id })
    } else if bytes[0] == FRAME_CONTROL {
        Ok(WireFrameView::Control { message: body })
    } else {
        Err(FrameError::UnknownKind(bytes[0]))
    }
}

/// A ciphertext with the number of its frame, as it goes over the wire.
pub open spec fn envelope(counter: u64, ciphertext: Seq<u8>) -> Seq<u8> {
    seq![FRAME_ENCRYPTED] + be_bytes(counter as nat, 8) + ciphertext
}

/// Whether bytes look like an encrypted frame.
pub open spec fn is_envelope(bytes: Seq<u8>) -> bool {
    bytes.len() >= ENVELOPE_LEN && bytes[0] == FRAME_ENCRYPTED
}

/// The number of an encrypted frame.
pub open spec fn envelope_counter(bytes: Seq<u8>) -> u64 {
    be_value(bytes.subrange(1, 9)) as u64
}

/// The ciphertext of an encrypted frame.
pub open spec fn envelope_ciphertext(bytes: Seq<u8>) -> Seq<u8> {
    bytes.skip(9)
}

/// Writes a frame.
pub fn encode_frame(frame: &WireFrame) -> (r: Vec<u8>)
    requires
        2 * (HEADER_LEN + frame@.body().len()) <= isize::MAX,
    ensures
        r@ == frame@.encoded(),
{
    let mut out = buffer_new();
    let ghost id = frame@.header_id();
    proof {
        lemma_be_bytes_value(id as nat, 4);
    }
    match frame {
        WireFrame::Open { stream_id, request } => {
            buffer_put_u8(&mut out, FRAME_OPEN);
            buffer_put_u32(&mut out, *stream_id);
            buffer_extend(&mut out, request.as_slice());
        },
        WireFrame::Data { stream_id, payload } => {
            buffer_put_u8(&mut out, FRAME_DATA);
            buffer_put_u32(&mut out, *stream_id);
            buffer_extend(&mut out, payload.as_slice());
        },
        WireFrame::Close { stream_id } => {
            buffer_put_u8(&mut out, FRAME_CLOSE);
            buffer_put_u32(&mut out, *stream_id);
        },
        WireFrame::Control { message } => {
            buffer_put_u8(&mut out, FRAME_CONTROL);
            buffer_put_u32(&mut out, 0);
            buffer_extend(&mut out, message.as_slice());
        },
    }
    assert(buffer_bytes(out) =~= frame@.encoded());
    buffer_to_vec(&out)
}

/// Reads a frame.
pub fn decode_frame(bytes: &[u8]) -> (r: Result<WireFrame, FrameError>)
    ensures
        match r {
            Ok(frame) => decoded(bytes@) == Ok::<WireFrameView, FrameError>(frame@),
            Err(e) => decoded(bytes@) == Err::<WireFrameView, FrameError>(e),
        },
{
    if bytes.len() < HEADER_LEN {
        return Err(FrameError::TooShort);
    }
    let kind: u8 = bytes[0];
    proof {
        lemma_byte_ranges();
    }
    let stream_id: u32 = be_number(slice_subrange(bytes, 1, 5)) as u32;
    let body = slice_to_vec(slice_subrange(bytes, HEADER_LEN, bytes.len()));
    assert(body@ =~= bytes@.skip(5));
    if kind == FRAME_OPEN {
        Ok(WireFrame::Open { stream_id, request: body })
    } else if kind == FRAME_DATA {
        Ok(WireFrame::Data { stream_id, payload: body })
    } else if kind == FRAME_CLOSE {
        Ok(WireFrame::Close { stream_id })
    } else if kind == FRAME_CONTROL {
        Ok(WireFrame::Control { message: body })
    } else {
        Err(FrameError::UnknownKind(kind))
    }
}

/// Puts a ciphertext into its envelope.
pub fn wrap_ciphertext(counter: u64, ciphertext: &[u8]) -> (r: Vec<u8>)
    ensures
        r@ == envelope(counter, ciphertext@),
{
    let number = u64_be_bytes(counter);
    let mut out: Vec<u8> = Vec::new();
    out.push(FRAME_ENCRYPTED);
    out.extend_from_slice(number.as_slice());
    out.extend_from_slice(ciphertext);
    assert(out@ =~= envelope(counter, ciphertext@));
    out
}

/// Takes a ciphertext and its number out of an envelope.
pub fn unwrap_ciphertext<'a>(bytes: &'a [u8]) -> (r: Option<(u64, &'a [u8])>)
    ensures
        r is Some <==> is_envelope(bytes@),
        r matches Some((counter, ciphertext)) ==> {
            &&& counter == envelope_counter(bytes@)
            &&& ciphertext@ == envelope_ciphertext(bytes@)
        },
{
    if bytes.len() < ENVELOPE_LEN || bytes[0] != FRAME_ENCRYPTED {
        return None;
    }
    let counter: u64 = be_number(slice_subrange(bytes, 1, 9));
    let ciphertext = slice_subrange(bytes, ENVELOPE_LEN, bytes.len());
    assert(ciphertext@ =~= bytes@.skip(9));
    Some((counter, ciphertext))
}

/// Every frame is read back as it was written.
pub proof fn law_frames_read_back(frame: WireFrameView)
    ensures
        decoded(frame.encoded()) == Ok::<WireFrameView, FrameError>(frame),
{
    let bytes = frame.encoded();
    let id = frame.header_id() as nat;
    lemma_be_bytes_value(id, 4);
    lemma_byte_ranges();
    assert(bytes.subrange(1, 5) =~= be_bytes(id, 4));
    assert(bytes.skip(5) =~= frame.body());
}

/// Bytes that are read as a frame are what writing it gives, but that a close
/// frame's body and a control frame's stream id are not looked at.
pub proof fn law_read_frames_write_back(bytes: Seq<u8>)
    requires
        decoded(bytes) is Ok,
    ensures
        ({
            let frame = decoded(bytes)->Ok_0;
            &&& frame.kind() == bytes[0]
            &&& frame is Open || frame is Data ==> frame.encoded() == bytes
            &&& frame is Close ==> frame.encoded() == bytes.take(5)
            &&& frame is Control ==> frame.body() == bytes.skip(5)
        }),
{
    let frame = decoded(bytes)->Ok_0;
    lemma_be_value_bytes(bytes.subrange(1, 5));
    lemma_byte_ranges();
    let e = frame.encoded();
    if frame is Open || frame is Data {
        assert(e =~= bytes);
    }
    if frame is Close {
        assert(e =~= bytes.take(5));
    }
}

/// An envelope gives back the number and the ciphertext that were put into it,
/// and no plain frame looks like one.
pub proof fn law_envelopes_read_back(counter: u64, ciphertext: Seq<u8>, frame: WireFrameView)
    ensures
        is_envelope(envelope(counter, ciphertext)),
        envelope_counter(envelope(counter, ciphertext)) == counter,
        envelope_ciphertext(envelope(counter, ciphertext)) == ciphertext,
        !is_envelope(frame.encoded()),
{
    let bytes = envelope(counter, ciphertext);
    lemma_be_bytes_value(counter as nat, 8);
    lemma_byte_ranges();
    assert(bytes.subrange(1, 9) =~= be_bytes(counter as nat, 8));
    assert(bytes.skip(9) =~= ciphertext);
    assert(frame.encoded()[0] == frame.kind());
}

/// The fields of a frame are what it holds.
pub proof fn law_frames_are_their_fields(stream_id: u32, bytes: Vec<u8>)
    ensures
        (WireFrame::Open { stream_id, request: bytes })@ == (WireFrameView::Open {
            stream_id,
            request: bytes@,
        }),
        (WireFrame::Data { stream_id, payload: bytes })@ == (WireFrameView::Data {
            stream_id,
            payload: bytes@,
        }),
        (WireFrame::Close { stream_id })@ == (WireFrameView::Close { stream_id }),
        (WireFrame::Control { message: bytes })@ == (WireFrameView::Control { message: bytes@ }),
{
}

/// Whether bytes are a kind, a number of four bytes with the most significant first,
/// and a body.
pub open spec fn is_laid_out(bytes: Seq<u8>, kind: u8, id: u32, body: Seq<u8>) -> bool {
    &&& bytes.len() == 5 + body.len()
    &&& bytes[0] == kind
    &&& 0x100_0000 * bytes[1] + 0x1_0000 * bytes[2] + 0x100 * bytes[3] + bytes[4] == id
    &&& forall|i: int| 0 <= i < body.len() ==> #[trigger] body[i] == bytes[5 + i]
}

proof fn lemma_laid_out(frame: WireFrameView)
    ensures
        is_laid_out(frame.encoded(), frame.kind(), frame.header_id(), frame.body()),
{
    let bytes = frame.encoded();
    let id = be_bytes(frame.header_id() as nat, 4);
    law_bytes_of_numbers(frame.header_id() as nat);
    law_numbers_of_bytes(id[0], id[1], id[2], id[3], 0, 0, 0, 0);
    assert(id =~= seq![id[0], id[1], id[2], id[3]]);
    assert(bytes[1] == id[0] && bytes[2] == id[1] && bytes[3] == id[2] && bytes[4] == id[3]);
}

/// A frame in bytes: its kind, its stream's number with the most significant byte
/// first, and its body, byte for byte. A control message belongs to no stream.
pub proof fn law_frames_in_bytes(stream_id: u32, body: Seq<u8>)
    ensures
        is_laid_out(
            (WireFrameView::Open { stream_id, request: body }).encoded(),
            1,
            stream_id,
            body,
        ),
        is_laid_out(
            (WireFrameView::Data { stream_id, payload: body }).encoded(),
            2,
            stream_id,
            body,
        ),
        is_laid_out((WireFrameView::Close { stream_id }).encoded(), 3, stream_id, Seq::empty()),
        is_laid_out((WireFrameView::Control { message: body }).encoded(), 4, 0, body),
{
    lemma_laid_out(WireFrameView::Open { stream_id, request: body });
    lemma_laid_out(WireFrameView::Data { stream_id, payload: body });
    lemma_laid_out(WireFrameView::Close { stream_id });
    lemma_laid_out(WireFrameView::Control { message: body });
}

/// Bytes are read as the frame that their first byte tells, with the number in the
/// next four bytes and everything behind them; other first bytes are refused, and
/// so are fewer than five bytes.
pub proof fn law_bytes_are_frames(
    kind: u8,
    a: u8,
    b: u8,
    c: u8,
    d: u8,
    body: Seq<u8>,
    short: Seq<u8>,
)
    requires
        short.len() < 5,
    ensures
        decoded(short) matches Err(e) && e == FrameError::TooShort,
        ({
            let frame = decoded(seq![kind, a, b, c, d] + body);
            let id = 0x100_0000 * a + 0x1_0000 * b + 0x100 * c + d;
            if kind == 1 {
                frame matches Ok(WireFrameView::Open { stream_id, request }) && stream_id == id
                    && request == body
            } else if kind == 2 {
                frame matches Ok(WireFrameView::Data { stream_id, payload }) && stream_id == id
                    && payload == body
            } else if kind == 3 {
                frame matches Ok(WireFrameView::Close { stream_id }) && stream_id == id
            } else if kind == 4 {
                frame matches Ok(WireFrameView::Control { message }) && message == body
            } else {
                frame matches Err(e) && e == FrameError::UnknownKind(kind)
            }
        }),
{
    let bytes = seq![kind, a, b, c, d] + body;
    law_numbers_of_bytes(a, b, c, d, 0, 0, 0, 0);
    assert(bytes.subrange(1, 5) =~= seq![a, b, c, d]);
    assert(bytes.skip(5) =~= body);
}

/// An envelope in bytes: the mark of encrypted frames, the frame's number with the
/// most significant byte first, and the ciphertext, byte for byte.
pub proof fn law_envelopes_in_bytes(counter: u64, ciphertext: Seq<u8>)
    ensures
        ({
            let e = envelope(counter, ciphertext);
            &&& e.len() == 9 + ciphertext.len()
            &&& e[0] == 0xE1
            &&& 0x100_0000_0000_0000 * e[1] + 0x1_0000_0000_0000 * e[2] + 0x100_0000_0000 * e[3]
                + 0x1_0000_0000 * e[4] + 0x100_0000 * e[5] + 0x1_0000 * e[6] + 0x100 * e[7] + e[8]
                == counter
            &&& e.skip(9) == ciphertext
        }),
{
    let e = envelope(counter, ciphertext);
    let n = be_bytes(counter as nat, 8);
    law_bytes_of_numbers(counter as nat);
    law_numbers_of_bytes(n[0], n[1], n[2], n[3], n[4], n[5], n[6], n[7]);
    assert(n =~= seq![n[0], n[1], n[2], n[3], n[4], n[5], n[6], n[7]]);
    assert(e[1] == n[0] && e[2] == n[1] && e[3] == n[2] && e[4] == n[3]);
    assert(e[5] == n[4] && e[6] == n[5] && e[7] == n[6] && e[8] == n[7]);
    assert(e.skip(9) =~= ciphertext);
}

/// Exactly the bytes with the mark of encrypted frames and room for a number are
/// taken for an envelope; the number and the ciphertext are what stands there.
pub proof fn law_bytes_are_envelopes(bytes: Seq<u8>)
    ensures
        is_envelope(bytes) <==> bytes.len() >= 9 && bytes[0] == 0xE1,
        is_envelope(bytes) ==> {
            &&& envelope_counter(bytes) == 0x100_0000_0000_0000 * bytes[1] + 0x1_0000_0000_0000
                * bytes[2] + 0x100_0000_0000 * bytes[3] + 0x1_0000_0000 * bytes[4] + 0x100_0000
                * bytes[5] + 0x1_0000 * bytes[6] + 0x100 * bytes[7] + bytes[8]
            &&& envelope_ciphertext(bytes).len() == bytes.len() - 9
            &&& forall|i: int|
                0 <= i < bytes.len() - 9 ==> #[trigger] envelope_ciphertext(bytes)[i] == bytes[9 + i]
        },
{
    if is_envelope(bytes) {
        let n = bytes.subrange(1, 9);
        law_numbers_of_bytes(
            bytes[1],
            bytes[2],
            bytes[3],
            bytes[4],
            bytes[5],
            bytes[6],
            bytes[7],
            bytes[8],
        );
        assert(n =~= seq![
            bytes[1],
            bytes[2],
            bytes[3],
            bytes[4],
            bytes[5],
            bytes[6],
            bytes[7],
            bytes[8],
        ]);
    }
}

/// The words for an unknown kind end in the digits of the kind.
pub proof fn law_unknown_kinds_are_named(kind: u8)
    ensures
        ({
            let text = FrameError::UnknownKind(kind).text();
            let start = "unknown frame type "@;
            &&& start.is_prefix_of(text)
            &&& text.skip(start.len() as int) == decimal(kind as nat)
            &&& decimal_value(text.skip(start.len() as int)) == kind
        }),
{
    let start = "unknown frame type "@;
    let text = FrameError::UnknownKind(kind).text();
    law_decimals_read_back(kind as nat);
    assert(text.take(start.len() as int) =~= start);
    assert(text.skip(start.len() as int) =~= decimal(kind as nat));
}

} // verus!
