//! Many streams over one relay connection: what each side keeps, what it sends,
//! and what it does with what it receives.

use crate::crypto::{
    aes256_gcm_encrypt, secret_key, sha256, CryptoError, CryptoView, FrameCrypto, MAX_PLAINTEXT,
};
use crate::frame::{
    decode_frame, decoded, encode_frame, envelope, envelope_ciphertext, envelope_counter,
    is_envelope, law_bytes_are_frames, law_envelopes_read_back, law_frames_read_back,
    unwrap_ciphertext, wrap_ciphertext, FrameError, WireFrame, WireFrameView, HEADER_LEN,
};
use crate::number::lemma_be_bytes_value;
use crate::text::opt_text;
use std::collections::{HashMap, VecDeque};
use vstd::prelude::*;
use vstd::slice::slice_to_vec;
use vstd::utf8::encode_utf8;

verus! {

/// What a stream is opened for.
#[derive(Debug, Clone)]
pub enum OpenRequest {
    /// A SOCKS5 session that the other side serves.
    Socks,
    /// A visit to a provider that the other side knows.
    Visit { name: String, auth: Option<String> },
    /// A visitor's stream to a provider on the other side.
    ProviderConnect { name: String },
}

/// A message that belongs to no stream.
#[derive(Debug, Clone)]
pub enum ControlMessage {
    /// Offers a provider.
    Bind { name: String, auth: Option<String> },
    /// Answers an offer.
    BindAck { name: String, ok: bool, error: Option<String> },
    /// Says something to the other side's user.
    Info { message: String },
}

/// A frame that waits to be sent.
#[derive(Debug)]
pub enum MuxFrame {
    Open { stream_id: u32, request: OpenRequest },
    Data { stream_id: u32, payload: Vec<u8> },
    Close { stream_id: u32 },
    Control(ControlMessage),
}

/// One stream: what has arrived and is not read yet, and whether this side has
/// closed it.
pub struct VirtualStream {
    stream_id: u32,
    read_buffer: VecDeque<u8>,
    sent_close: bool,
}

/// What a `VirtualStream` holds.
pub struct VirtualStreamView {
    pub stream_id: u32,
    /// The bytes that have arrived and are not read yet, in order.
    pub buffered: Seq<u8>,
    pub sent_close: bool,
}

impl View for VirtualStream {
    type V = VirtualStreamView;

    closed spec fn view(&self) -> VirtualStreamView {
        VirtualStreamView {
            stream_id: self.stream_id,
            buffered: self.read_buffer@,
            sent_close: self.sent_close,
        }
    }
}

/// What asking a stream's channel for more bytes gave.
pub enum Polled {
    /// Some bytes.
    Chunk(Vec<u8>),
    /// There will be no more.
    Ended,
    /// There are none yet.
    Pending,
}

/// What `Polled` says.
pub enum PolledView {
    Chunk(Seq<u8>),
    Ended,
    Pending,
}

impl View for Polled {
    type V = PolledView;

    open spec fn view(&self) -> PolledView {
        match *self {
            Polled::Chunk(bytes) => PolledView::Chunk(bytes@),
            Polled::Ended => PolledView::Ended,
            Polled::Pending => PolledView::Pending,
        }
    }
}

/// How a read ends.
pub enum ReadOutcome {
    /// It is done, after these bytes have been handed out too.
    Ready(Vec<u8>),
    /// The reader waits.
    Pending,
}

/// The lesser of two numbers.
pub open spec fn lesser(a: nat, b: nat) -> nat {
    if a < b {
        a
    } else {
        b
    }
}

impl VirtualStreamView {
    /// A stream at its start.
    pub open spec fn fresh(stream_id: u32) -> VirtualStreamView {
        VirtualStreamView { stream_id, buffered: Seq::empty(), sent_close: false }
    }

    /// The stream after this side has closed it.
    pub open spec fn shut(self) -> VirtualStreamView {
        VirtualStreamView { sent_close: true, ..self }
    }

    /// The frame that tells the other side that this one closes the stream.
    pub open spec fn close_notice(self) -> Option<MuxFrame> {
        if self.sent_close {
            None
        } else {
            Some(MuxFrame::Close { stream_id: self.stream_id })
        }
    }

    /// How many waiting bytes a reader with `room` gets at once.
    pub open spec fn at_hand(self, room: nat) -> nat {
        lesser(room, self.buffered.len())
    }

    /// The stream after a reader with `room` has taken what waited.
    pub open spec fn drained(self, room: nat) -> VirtualStreamView {
        VirtualStreamView { buffered: self.buffered.skip(self.at_hand(room) as int), ..self }
    }

    /// The stream after a chunk has come of which a reader with `room` takes what fits.
    pub open spec fn refilled(self, chunk: Seq<u8>, room: nat) -> VirtualStreamView {
        VirtualStreamView {
            buffered: self.buffered + chunk.skip(lesser(room, chunk.len()) as int),
            ..self
        }
    }
}

impl VirtualStream {
    /// A stream at its start.
    pub fn new(stream_id: u32) -> (r: Self)
        ensures
            r@ == VirtualStreamView::fresh(stream_id),
    {
        VirtualStream { stream_id, read_buffer: VecDeque::new(), sent_close: false }
    }

    /// The number of the stream.
    pub fn id(&self) -> (r: u32)
        ensures
            r == self@.stream_id,
    {
        self.stream_id
    }

    /// Closes this side. Gives the frame that tells the other side, once.
    pub fn close_remote(&mut self) -> (r: Option<MuxFrame>)
        ensures
            final(self)@ == old(self)@.shut(),
            r == old(self)@.close_notice(),
    {
        if self.sent_close {
            return None;
        }
        self.sent_close = true;
        Some(MuxFrame::Close { stream_id: self.stream_id })
    }

    /// The frame that carries `data` to the other side.
    pub fn data_frame(&self, data: &[u8]) -> (r: MuxFrame)
        ensures
            r matches MuxFrame::Data { stream_id, payload } && stream_id == self@.stream_id
                && payload@ == data@,
    {
        MuxFrame::Data { stream_id: self.stream_id, payload: slice_to_vec(data) }
    }

    /// The first part of a read: hands out what waits, as much as there is room for.
    pub fn begin_read(&mut self, room: usize) -> (r: Vec<u8>)
        ensures
            r@ == old(self)@.buffered.take(old(self)@.at_hand(room as nat) as int),
            final(self)@ == old(self)@.drained(room as nat),
    {
        let mut out: Vec<u8> = Vec::new();
        let ghost start = self.read_buffer@;
        let mut taken: usize = 0;
        while taken < room && self.read_buffer.len() > 0
            invariant
                taken <= room,
                taken <= start.len(),
                taken == out@.len(),
                self.read_buffer@ == start.skip(taken as int),
                out@ == start.take(taken as int),
                self.stream_id == old(self).stream_id,
                self.sent_close == old(self).sent_close,
            decreases room - taken,
        {
            if let Some(byte) = self.read_buffer.pop_front() {
                out.push(byte);
                assert(start.take(taken as int).push(byte) =~= start.take(taken + 1));
                assert(self.read_buffer@ =~= start.skip(taken + 1));
            }
            taken = taken + 1;
        }
        out
    }

    /// The second part of a read that still has `room`: uses what asking for more
    /// bytes gave. `filled` says whether the reader already holds any bytes.
    pub fn finish_read(&mut self, polled: Polled, room: usize, filled: bool) -> (r: ReadOutcome)
        ensures
            match polled@ {
                PolledView::Chunk(bytes) => {
                    &&& r matches ReadOutcome::Ready(out) && out@ == bytes.take(
                        lesser(room as nat, bytes.len()) as int,
                    )
                    &&& final(self)@ == old(self)@.refilled(bytes, room as nat)
                },
                PolledView::Ended => {
                    &&& r matches ReadOutcome::Ready(out) && out@.len() == 0
                    &&& final(self)@ == old(self)@
                },
                PolledView::Pending => {
                    &&& if filled {
                        r matches ReadOutcome::Ready(out) && out@.len() == 0
                    } else {
                        r is Pending
                    }
                    &&& final(self)@ == old(self)@
                },
            },
    {
        match polled {
            Polled::Chunk(bytes) => {
                let n: usize = if bytes.len() < room {
                    bytes.len()
                } else {
                    room
                };
                let mut out: Vec<u8> = Vec::new();
                let mut i: usize = 0;
                while i < n
                    invariant
                        i <= n <= bytes@.len(),
                        out@ == bytes@.take(i as int),
                    decreases n - i,
                {
                    out.push(bytes[i]);
                    assert(bytes@.take(i as int).push(bytes@[i as int]) =~= bytes@.take(i + 1));
                    i = i + 1;
                }
                let ghost before = self.read_buffer@;
                let mut j: usize = n;
                assert(before + bytes@.subrange(n as int, n as int) =~= before);
                while j < bytes.len()
                    invariant
                        n <= j <= bytes@.len(),
                        self.read_buffer@ == before + bytes@.subrange(n as int, j as int),
                        self.stream_id == old(self).stream_id,
                        self.sent_close == old(self).sent_close,
                    decreases bytes@.len() - j,
                {
                    self.read_buffer.push_back(bytes[j]);
                    assert((before + bytes@.subrange(n as int, j as int)).push(bytes@[j as int])
                        =~= before + bytes@.subrange(n as int, j + 1));
                    j = j + 1;
                }
                assert(bytes@.subrange(n as int, bytes@.len() as int) =~= bytes@.skip(n as int));
                ReadOutcome::Ready(out)
            },
            Polled::Ended => ReadOutcome::Ready(Vec::new()),
            Polled::Pending => {
                if filled {
                    ReadOutcome::Ready(Vec::new())
                } else {
                    ReadOutcome::Pending
                }
            },
        }
    }
}

/// A stream that the other side has opened, and what for.
pub struct IncomingStream {
    pub request: OpenRequest,
    pub stream: VirtualStream,
}

impl IncomingStream {
    /// The stream, without the request.
    pub fn into_stream(self) -> (r: VirtualStream)
        ensures
            r == self.stream,
    {
        self.stream
    }
}

/// The streams of one connection. `T` is where the bytes of a stream go when
/// they arrive.
pub struct MuxHandle<T> {
    streams: HashMap<u32, T>,
    next_stream_id: u32,
}

/// What a `MuxHandle` holds.
#[verifier::ext_equal]
pub struct HandleView<T> {
    /// The streams that are open, and where their bytes go.
    pub streams: Map<u32, T>,
    /// The number of the next stream that this side opens.
    pub next_stream_id: u32,
}

impl<T> View for MuxHandle<T> {
    type V = HandleView<T>;

    closed spec fn view(&self) -> HandleView<T> {
        HandleView { streams: self.streams@, next_stream_id: self.next_stream_id }
    }
}

/// The stream number that a side uses after `id`: numbers go up by two, and start
/// again at the lowest when they are used up.
pub open spec fn next_id(id: u32) -> u32 {
    ((id + 2) % 0x1_0000_0000) as u32
}

impl<T> HandleView<T> {
    /// With a stream opened by this side.
    pub open spec fn opened(self, sender: T) -> HandleView<T> {
        HandleView {
            streams: self.streams.insert(self.next_stream_id, sender),
            next_stream_id: next_id(self.next_stream_id),
        }
    }

    /// With a stream opened by the other side.
    pub open spec fn accepted(self, stream_id: u32, sender: T) -> HandleView<T> {
        HandleView { streams: self.streams.insert(stream_id, sender), ..self }
    }

    /// Without a stream.
    pub open spec fn released(self, stream_id: u32) -> HandleView<T> {
        HandleView { streams: self.streams.remove(stream_id), ..self }
    }
}

impl<T> MuxHandle<T> {
    /// No streams; the first one that this side opens gets the number `first_stream_id`.
    pub fn new(first_stream_id: u32) -> (r: Self)
        ensures
            r@ == (HandleView::<T> {
                streams: Map::empty(),
                next_stream_id: first_stream_id,
            }),
    {
        MuxHandle { streams: HashMap::new(), next_stream_id: first_stream_id }
    }

    /// Opens a stream. Gives the stream and the frame that tells the other side.
    pub fn open_stream(&mut self, request: OpenRequest, sender: T) -> (r: (VirtualStream, MuxFrame))
        ensures
            final(self)@ == old(self)@.opened(sender),
            r.0@ == VirtualStreamView::fresh(old(self)@.next_stream_id),
            r.1 == (MuxFrame::Open { stream_id: old(self)@.next_stream_id, request }),
    {
        let stream_id: u32 = self.next_stream_id;
        self.next_stream_id = stream_id.wrapping_add(2);
        self.streams.insert(stream_id, sender);
        (VirtualStream::new(stream_id), MuxFrame::Open { stream_id, request })
    }

    /// Takes in a stream that the other side has opened.
    pub fn accept_stream(&mut self, stream_id: u32, request: OpenRequest, sender: T) -> (r:
        IncomingStream)
        ensures
            final(self)@ == old(self)@.accepted(stream_id, sender),
            r.request == request,
            r.stream@ == VirtualStreamView::fresh(stream_id),
    {
        self.streams.insert(stream_id, sender);
        IncomingStream { request, stream: VirtualStream::new(stream_id) }
    }

    /// The frame that carries a control message.
    pub fn send_control(&self, message: ControlMessage) -> (r: MuxFrame)
        ensures
            r == MuxFrame::Control(message),
    {
        MuxFrame::Control(message)
    }

    /// Where the bytes of a stream go, if it is open.
    pub fn sender(&self, stream_id: u32) -> (r: Option<&T>)
        ensures
            r is Some <==> self@.streams.dom().contains(stream_id),
            r matches Some(sender) ==> *sender == self@.streams[stream_id],
    {
        self.streams.get(&stream_id)
    }

    /// Forgets a stream.
    pub fn release(&mut self, stream_id: u32)
        ensures
            final(self)@ == old(self)@.released(stream_id),
    {
        self.streams.remove(&stream_id);
    }
}

/// What the relay's socket gave.
pub enum RelayMessage {
    /// A binary message.
    Binary(Vec<u8>),
    /// A message of another kind.
    Other,
    /// An error.
    Failed,
    /// The end.
    End,
}

/// Why a side stops to listen to a connection.
#[derive(Debug, Clone, Copy, PartialEq, Eq, Structural)]
pub enum StopReason {
    /// The socket gave an error.
    ReadFailed,
    /// The socket is at its end.
    Ended,
    /// This side has a secret, and the frame is not encrypted.
    Unencrypted,
    /// The frame does not decrypt.
    Undecryptable,
    /// The bytes are no frame.
    InvalidFrame(FrameError),
}

/// What is to be done with a frame that waits to be sent.
pub enum WriteAction {
    /// Nothing: go on with the next one.
    Skip,
    /// Send these bytes.
    Send(Vec<u8>),
    /// Stop.
    Stop(CryptoError),
}

/// What is to be done with a message.
pub enum ReadAction {
    /// Nothing.
    Ignore,
    /// Read the request and take in the stream.
    Open { stream_id: u32, request: Vec<u8> },
    /// Hand bytes to a stream that is open.
    Deliver { stream_id: u32, payload: Vec<u8> },
    /// Read the control message and hand it on.
    Control { message: Vec<u8> },
    /// Stop.
    Stop(StopReason),
}

/// What a `ReadAction` says.
pub enum ReadActionView {
    Ignore,
    Open { stream_id: u32, request: Seq<u8> },
    Deliver { stream_id: u32, payload: Seq<u8> },
    Control { message: Seq<u8> },
    Stop(StopReason),
}

impl View for ReadAction {
    type V = ReadActionView;

    open spec fn view(&self) -> ReadActionView {
        match *self {
            ReadAction::Ignore => ReadActionView::Ignore,
            ReadAction::Open { stream_id, request } => ReadActionView::Open {
                stream_id,
                request: request@,
            },
            ReadAction::Deliver { stream_id, payload } => ReadActionView::Deliver {
                stream_id,
                payload: payload@,
            },
            ReadAction::Control { message } => ReadActionView::Control { message: message@ },
            ReadAction::Stop(reason) => ReadActionView::Stop(reason),
        }
    }
}

/// One side of a relay connection.
pub struct MuxConnection<T> {
    pub handle: MuxHandle<T>,
    pub crypto: Option<FrameCrypto>,
    pub closed: bool,
}

/// What a `MuxConnection` holds.
#[verifier::ext_equal]
pub struct ConnectionView<T> {
    pub handle: HandleView<T>,
    /// The state of the encryption, if this side has a secret.
    pub crypto: Option<CryptoView>,
    /// Whether this side has stopped to listen.
    pub closed: bool,
}

impl<T> View for MuxConnection<T> {
    type V = ConnectionView<T>;

    open spec fn view(&self) -> ConnectionView<T> {
        ConnectionView {
            handle: self.handle@,
            crypto: match self.crypto {
                Some(c) => Some(c@),
                None => None,
            },
            closed: self.closed,
        }
    }
}

/// What a side gets out of the bytes of a message before it reads them as a frame.
pub open spec fn plain_bytes(crypto: Option<CryptoView>, bytes: Seq<u8>) -> Result<
    Seq<u8>,
    StopReason,
> {
    match crypto {
        None => Ok(bytes),
        Some(c) => if !is_envelope(bytes) {
            Err(StopReason::Unencrypted)
        } else {
            match c.opened(envelope_counter(bytes), envelope_ciphertext(bytes)) {
                Some(plain) => Ok(plain),
                None => Err(StopReason::Undecryptable),
            }
        },
    }
}

/// The frame that a side gets out of the bytes of a message.
pub open spec fn received_frame(crypto: Option<CryptoView>, bytes: Seq<u8>) -> Result<
    WireFrameView,
    StopReason,
> {
    match plain_bytes(crypto, bytes) {
        Ok(plain) => match decoded(plain) {
            Ok(frame) => Ok(frame),
            Err(e) => Err(StopReason::InvalidFrame(e)),
        },
        Err(reason) => Err(reason),
    }
}

/// Whether a side with `receiver` understands what a side with `sender` sends:
/// neither has a secret, or both have fitting ones.
pub open spec fn understands(receiver: Option<CryptoView>, sender: Option<CryptoView>) -> bool {
    match (receiver, sender) {
        (None, None) => true,
        (Some(r), Some(s)) => r.listens_to(s),
        _ => false,
    }
}

/// Whether bytes are how a side with `sender` sends a frame: the frame itself, or
/// its envelope if the side has a secret. Every side that understands the sender
/// gets the same frame out of them.
pub open spec fn carries(sender: Option<CryptoView>, frame: WireFrameView, bytes: Seq<u8>) -> bool {
    &&& match sender {
        None => bytes == frame.encoded(),
        Some(c) => aes256_gcm_encrypt(c.key, c.outbound_nonce(), frame.encoded()) matches Some(
            ciphertext,
        ) && bytes == envelope(c.outbound_counter, ciphertext),
    }
    &&& forall|receiver: Option<CryptoView>|
        understands(receiver, sender) ==> #[trigger] received_frame(receiver, bytes) == Ok::<
            WireFrameView,
            StopReason,
        >(frame)
}

impl<T> HandleView<T> {
    /// What a frame asks for.
    pub open spec fn action(self, frame: WireFrameView) -> ReadActionView {
        match frame {
            WireFrameView::Open { stream_id, request } => ReadActionView::Open {
                stream_id,
                request,
            },
            WireFrameView::Data { stream_id, payload } => if self.streams.dom().contains(
                stream_id,
            ) {
                ReadActionView::Deliver { stream_id, payload }
            } else {
                ReadActionView::Ignore
            },
            WireFrameView::Close { .. } => ReadActionView::Ignore,
            WireFrameView::Control { message } => ReadActionView::Control { message },
        }
    }

    /// The streams after a frame.
    pub open spec fn after(self, frame: WireFrameView) -> HandleView<T> {
        match frame {
            WireFrameView::Close { stream_id } => self.released(stream_id),
            _ => self,
        }
    }
}

impl<T> ConnectionView<T> {
    /// What the plain bytes of a message ask for.
    pub open spec fn plain_action(self, plain: Seq<u8>) -> ReadActionView {
        match decoded(plain) {
            Ok(frame) => self.handle.action(frame),
            Err(e) => ReadActionView::Stop(StopReason::InvalidFrame(e)),
        }
    }

    /// The connection after the plain bytes of a message.
    pub open spec fn after_plain(self, plain: Seq<u8>) -> ConnectionView<T> {
        match decoded(plain) {
            Ok(frame) => ConnectionView { handle: self.handle.after(frame), ..self },
            Err(_) => self.stopped(),
        }
    }

    /// With this side no longer listening.
    pub open spec fn stopped(self) -> ConnectionView<T> {
        ConnectionView { closed: true, ..self }
    }

    /// What a message asks for.
    pub open spec fn message_action(self, message: RelayMessage) -> ReadActionView {
        match message {
            RelayMessage::Binary(bytes) => match plain_bytes(self.crypto, bytes@) {
                Ok(plain) => self.plain_action(plain),
                Err(reason) => ReadActionView::Stop(reason),
            },
            RelayMessage::Other => ReadActionView::Ignore,
            RelayMessage::Failed => ReadActionView::Stop(StopReason::ReadFailed),
            RelayMessage::End => ReadActionView::Stop(StopReason::Ended),
        }
    }

    /// The connection after a message.
    pub open spec fn after_message(self, message: RelayMessage) -> ConnectionView<T> {
        match message {
            RelayMessage::Binary(bytes) => match plain_bytes(self.crypto, bytes@) {
                Ok(plain) => self.after_plain(plain),
                Err(_) => self.stopped(),
            },
            RelayMessage::Other => self,
            RelayMessage::Failed => self.stopped(),
            RelayMessage::End => self.stopped(),
        }
    }

    /// The connection after it has sent a frame.
    pub open spec fn sent_one(self) -> ConnectionView<T> {
        ConnectionView {
            crypto: match self.crypto {
                Some(c) => Some(c.sealed_once()),
                None => None,
            },
            ..self
        }
    }
}

/// The number of the first stream that an access node opens.
pub const ACCESS_FIRST_STREAM: u32 = 1;

/// The number of the first stream that a serving node opens.
pub const SERVING_FIRST_STREAM: u32 = 2;

/// The direction in which access nodes send.
pub const ACCESS_DIR: u8 = 0;

/// The direction in which serving nodes send.
pub const SERVING_DIR: u8 = 1;

/// One side at its start, with no streams.
pub open spec fn side_at_start<T>(
    first_stream_id: u32,
    secret: Option<Seq<char>>,
    outbound_dir: u8,
    inbound_dir: u8,
) -> ConnectionView<T> {
    ConnectionView {
        handle: HandleView { streams: Map::empty(), next_stream_id: first_stream_id },
        crypto: match secret {
            Some(s) => Some(
                CryptoView {
                    key: secret_key(s),
                    outbound_dir,
                    inbound_dir,
                    outbound_counter: 0,
                },
            ),
            None => None,
        },
        closed: false,
    }
}

/// The side of an access node at its start.
pub open spec fn access_side_at_start<T>(secret: Option<Seq<char>>) -> ConnectionView<T> {
    side_at_start(ACCESS_FIRST_STREAM, secret, ACCESS_DIR, SERVING_DIR)
}

/// The side of a serving node at its start.
pub open spec fn serving_side_at_start<T>(secret: Option<Seq<char>>) -> ConnectionView<T> {
    side_at_start(SERVING_FIRST_STREAM, secret, SERVING_DIR, ACCESS_DIR)
}

fn side_crypto(secret: Option<&str>, outbound_dir: u8, inbound_dir: u8) -> (r: Option<FrameCrypto>)
    ensures
        r is Some <==> secret is Some,
        r matches Some(c) ==> c@ == (CryptoView {
            key: secret_key(secret->0@),
            outbound_dir,
            inbound_dir,
            outbound_counter: 0,
        }),
{
    match secret {
        Some(s) => Some(FrameCrypto::from_secret(s, outbound_dir, inbound_dir)),
        None => None,
    }
}

/// The side of an access node, which shares a secret with the serving node or has
/// none.
pub fn access_side<T>(secret: Option<&str>) -> (r: MuxConnection<T>)
    ensures
        r@ == access_side_at_start::<T>(opt_text(secret)),
        secret matches Some(s) ==> (r@.crypto matches Some(c) && c.key == sha256(encode_utf8(s@))),
        secret is None ==> r@.crypto is None,
{
    MuxConnection::start(ACCESS_FIRST_STREAM, side_crypto(secret, ACCESS_DIR, SERVING_DIR))
}

/// The side of a serving node, which shares a secret with the access node or has
/// none.
pub fn serving_side<T>(secret: Option<&str>) -> (r: MuxConnection<T>)
    ensures
        r@ == serving_side_at_start::<T>(opt_text(secret)),
        secret matches Some(s) ==> (r@.crypto matches Some(c) && c.key == sha256(encode_utf8(s@))),
        secret is None ==> r@.crypto is None,
{
    MuxConnection::start(SERVING_FIRST_STREAM, side_crypto(secret, SERVING_DIR, ACCESS_DIR))
}

impl<T> MuxConnection<T> {
    /// One side at its start, with no streams.
    pub fn start(first_stream_id: u32, crypto: Option<FrameCrypto>) -> (r: Self)
        ensures
            r@.handle == (HandleView::<T> {
                streams: Map::empty(),
                next_stream_id: first_stream_id,
            }),
            r@.crypto == (match crypto {
                Some(c) => Some(c@),
                None => None,
            }),
            !r@.closed,
    {
        MuxConnection { handle: MuxHandle::new(first_stream_id), crypto, closed: false }
    }

    /// Whether this side has stopped to listen.
    pub fn closed(&self) -> (r: bool)
        ensures
            r == self@.closed,
    {
        self.closed
    }

    /// Stops to listen.
    pub fn stop(&mut self)
        ensures
            final(self)@ == old(self)@.stopped(),
    {
        self.closed = true;
    }

    /// Takes in a stream that the other side has opened.
    pub fn accept_stream(&mut self, stream_id: u32, request: OpenRequest, sender: T) -> (r:
        IncomingStream)
        ensures
            final(self)@ == (ConnectionView {
                handle: old(self)@.handle.accepted(stream_id, sender),
                ..old(self)@
            }),
            r.request == request,
            r.stream@ == VirtualStreamView::fresh(stream_id),
    {
        self.handle.accept_stream(stream_id, request, sender)
    }

    /// The bytes that carry a frame to the other side, encrypted if this side has a
    /// secret. Every side that understands this one gets the same frame out of them.
    pub fn send_frame(&mut self, frame: &WireFrame) -> (r: Result<Vec<u8>, CryptoError>)
        requires
            2 * (HEADER_LEN + frame@.body().len()) <= isize::MAX,
        ensures
            final(self)@ == old(self)@.sent_one(),
            r is Ok <==> old(self)@.crypto is None || frame@.encoded().len() <= MAX_PLAINTEXT,
            r matches Err(e) ==> e == CryptoError::Encrypt,
            r matches Ok(bytes) ==> carries(old(self)@.crypto, frame@, bytes@),
    {
        let plain = encode_frame(frame);
        let ghost sender = self@.crypto;
        proof {
            law_frames_read_back(frame@);
            lemma_be_bytes_value(frame@.header_id() as nat, 4);
        }
        match &mut self.crypto {
            None => Ok(plain),
            Some(crypto) => match crypto.seal(plain.as_slice()) {
                Ok((counter, ciphertext)) => {
                    let bytes = wrap_ciphertext(counter, ciphertext.as_slice());
                    proof {
                        law_envelopes_read_back(counter, ciphertext@, frame@);
                        assert forall|receiver: Option<CryptoView>|
                            understands(receiver, sender) implies #[trigger] received_frame(
                            receiver,
                            bytes@,
                        ) == Ok::<WireFrameView, StopReason>(frame@) by {
                            assert(receiver->0.opened(counter, ciphertext@) == Some(plain@));
                        }
                    }
                    Ok(bytes)
                },
                Err(e) => Err(e),
            },
        }
    }

    /// Decides what is to be done with a frame that waits to be sent, or with none if
    /// it could not be encoded.
    pub fn write_step(&mut self, frame: Option<&WireFrame>) -> (r: WriteAction)
        requires
            frame matches Some(f) ==> 2 * (HEADER_LEN + f@.body().len()) <= isize::MAX,
        ensures
            match frame {
                None => r == WriteAction::Skip && final(self)@ == old(self)@,
                Some(f) => {
                    &&& final(self)@ == old(self)@.sent_one()
                    &&& if old(self)@.crypto is None || f@.encoded().len() <= MAX_PLAINTEXT {
                        r matches WriteAction::Send(bytes) && carries(
                            old(self)@.crypto,
                            f@,
                            bytes@,
                        )
                    } else {
                        r == WriteAction::Stop(CryptoError::Encrypt)
                    }
                },
            },
    {
        match frame {
            None => WriteAction::Skip,
            Some(f) => match self.send_frame(f) {
                Ok(bytes) => WriteAction::Send(bytes),
                Err(e) => WriteAction::Stop(e),
            },
        }
    }

    /// Takes in a stream that the other side has opened, or stops if its request
    /// could not be read.
    pub fn take_request(&mut self, stream_id: u32, request: Option<OpenRequest>, sender: T) -> (r:
        Option<IncomingStream>)
        ensures
            match request {
                None => r is None && final(self)@ == old(self)@.stopped(),
                Some(asked) => {
                    &&& final(self)@ == (ConnectionView {
                        handle: old(self)@.handle.accepted(stream_id, sender),
                        ..old(self)@
                    })
                    &&& r matches Some(incoming) && incoming.request == asked
                        && incoming.stream@ == VirtualStreamView::fresh(stream_id)
                },
            },
    {
        match request {
            None => {
                self.stop();
                None
            },
            Some(asked) => Some(self.accept_stream(stream_id, asked, sender)),
        }
    }

    /// Hands on a control message, or stops if it could not be read.
    pub fn take_message(&mut self, message: Option<ControlMessage>) -> (r: Option<ControlMessage>)
        ensures
            r == message,
            final(self)@ == (if message is Some {
                old(self)@
            } else {
                old(self)@.stopped()
            }),
    {
        if message.is_none() {
            self.stop();
        }
        message
    }

    /// Decides what is to be done with a message of the relay's socket.
    pub fn receive(&mut self, message: RelayMessage) -> (r: ReadAction)
        ensures
            r@ == old(self)@.message_action(message),
            final(self)@ == old(self)@.after_message(message),
    {
        match message {
            RelayMessage::Binary(bytes) => {
                match &self.crypto {
                    None => self.receive_plain(bytes.as_slice()),
                    Some(crypto) => match unwrap_ciphertext(bytes.as_slice()) {
                        None => {
                            self.closed = true;
                            ReadAction::Stop(StopReason::Unencrypted)
                        },
                        Some((counter, ciphertext)) => match crypto.open(counter, ciphertext) {
                            Ok(plain) => self.receive_plain(plain.as_slice()),
                            Err(_) => {
                                self.closed = true;
                                ReadAction::Stop(StopReason::Undecryptable)
                            },
                        },
                    },
                }
            },
            RelayMessage::Other => ReadAction::Ignore,
            RelayMessage::Failed => {
                self.closed = true;
                ReadAction::Stop(StopReason::ReadFailed)
            },
            RelayMessage::End => {
                self.closed = true;
                ReadAction::Stop(StopReason::Ended)
            },
        }
    }

    /// Decides what is to be done with the plain bytes of a message.
    pub fn receive_plain(&mut self, plain: &[u8]) -> (r: ReadAction)
        ensures
            r@ == old(self)@.plain_action(plain@),
            final(self)@ == old(self)@.after_plain(plain@),
            plain@.len() >= 5 && plain@[0] == 1 ==> (r matches ReadAction::Open {
                stream_id,
                request,
            } && stream_id == 0x100_0000 * plain@[1] + 0x1_0000 * plain@[2] + 0x100 * plain@[3]
                + plain@[4] && request@ == plain@.skip(5)),
            r matches ReadAction::Deliver { stream_id, payload } ==> {
                &&& plain@.len() >= 5 && plain@[0] == 2
                &&& stream_id == 0x100_0000 * plain@[1] + 0x1_0000 * plain@[2] + 0x100 * plain@[3]
                    + plain@[4]
                &&& payload@ == plain@.skip(5)
                &&& old(self)@.handle.streams.dom().contains(stream_id)
            },
            r matches ReadAction::Control { message } ==> plain@.len() >= 5 && plain@[0] == 4
                && message@ == plain@.skip(5),
    {
        proof {
            if plain@.len() >= 5 {
                let p = plain@;
                law_bytes_are_frames(p[0], p[1], p[2], p[3], p[4], p.skip(5), Seq::empty());
                assert(p =~= seq![p[0], p[1], p[2], p[3], p[4]] + p.skip(5));
            }
        }
        match decode_frame(plain) {
            Ok(WireFrame::Open { stream_id, request }) => ReadAction::Open { stream_id, request },
            Ok(WireFrame::Data { stream_id, payload }) => {
                if self.handle.sender(stream_id).is_some() {
                    ReadAction::Deliver { stream_id, payload }
                } else {
                    ReadAction::Ignore
                }
            },
            Ok(WireFrame::Close { stream_id }) => {
                self.handle.release(stream_id);
                ReadAction::Ignore
            },
            Ok(WireFrame::Control { message }) => ReadAction::Control { message },
            Err(e) => {
                self.closed = true;
                ReadAction::Stop(StopReason::InvalidFrame(e))
            },
        }
    }
}

} // verus!
