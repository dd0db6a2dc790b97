//! What holds of connections and streams over many steps.

use crate::crypto::{
    aes256_gcm_decrypt, aes256_gcm_encrypt, nonce_bytes, sha256, CryptoView,
};
use crate::frame::{
    envelope, envelope_ciphertext, envelope_counter, law_bytes_are_envelopes, law_bytes_are_frames,
    law_envelopes_in_bytes, law_envelopes_read_back, law_frames_read_back, FrameError,
    WireFrameView, FRAME_ENCRYPTED,
};
use crate::mux::{
    access_side_at_start, carries, lesser, next_id, received_frame, serving_side_at_start,
    understands, ConnectionView, HandleView, MuxConnection, MuxFrame, Polled, PolledView,
    ReadAction, ReadActionView, RelayMessage, StopReason, VirtualStreamView,
};
use crate::number::lemma_be_bytes_value;
use vstd::prelude::*;
use vstd::utf8::encode_utf8;

verus! {

/// The number of the stream that a side opens after `n` others, if its first one
/// has the number `first`.
pub open spec fn nth_id(first: u32, n: nat) -> u32
    decreases n,
{
    if n == 0 {
        first
    } else {
        next_id(nth_id(first, (n - 1) as nat))
    }
}

/// A side after it has opened one stream for each of `senders`.
pub open spec fn opened_all<T>(handle: HandleView<T>, senders: Seq<T>) -> HandleView<T>
    decreases senders.len(),
{
    if senders.len() == 0 {
        handle
    } else {
        opened_all(handle, senders.drop_last()).opened(senders.last())
    }
}

/// The streams that a side opens are numbered by `nth_id`.
pub proof fn law_opened_streams_are_numbered<T>(handle: HandleView<T>, senders: Seq<T>)
    ensures
        opened_all(handle, senders).next_stream_id == nth_id(handle.next_stream_id, senders.len()),
    decreases senders.len(),
{
    if senders.len() > 0 {
        law_opened_streams_are_numbered(handle, senders.drop_last());
    }
}

proof fn lemma_nth_id(first: u32, n: nat)
    ensures
        nth_id(first, n) as int == (first + 2 * n) % 0x1_0000_0000,
    decreases n,
{
    if n > 0 {
        lemma_nth_id(first, (n - 1) as nat);
        let m: int = 0x1_0000_0000;
        let x = first + 2 * (n - 1);
        assert((x % m + 2) % m == (x + 2) % m);
    }
}

/// Two sides of which one starts at an odd and one at an even number never give
/// one number to two streams.
pub proof fn law_two_sides_never_share_a_stream_id(first1: u32, first2: u32, n1: nat, n2: nat)
    requires
        first1 % 2 != first2 % 2,
    ensures
        nth_id(first1, n1) != nth_id(first2, n2),
{
    lemma_nth_id(first1, n1);
    lemma_nth_id(first2, n2);
    assert(((first1 + 2 * n1) % 0x1_0000_0000) % 2 == (first1 % 2) as int);
    assert(((first2 + 2 * n2) % 0x1_0000_0000) % 2 == (first2 % 2) as int);
}

/// A side does not use a stream number twice until all numbers of its parity have
/// been used.
pub proof fn law_stream_ids_come_once(first: u32, i: nat, j: nat)
    requires
        i < j,
        j - i < 0x8000_0000,
    ensures
        nth_id(first, i) != nth_id(first, j),
{
    lemma_nth_id(first, i);
    lemma_nth_id(first, j);
    let x = first + 2 * i;
    let y = first + 2 * j;
    if nth_id(first, i) == nth_id(first, j) {
        assert(x % 0x1_0000_0000 == y % 0x1_0000_0000);
        assert((y - x) % 0x1_0000_0000 == 0);
    }
}

/// A frame that comes out of a message is acted on, and changes nothing but the
/// streams.
pub proof fn law_received_frames_are_acted_on<T>(
    connection: ConnectionView<T>,
    bytes: Vec<u8>,
    frame: WireFrameView,
)
    requires
        received_frame(connection.crypto, bytes@) == Ok::<WireFrameView, StopReason>(frame),
    ensures
        connection.message_action(RelayMessage::Binary(bytes)) == connection.handle.action(frame),
        connection.after_message(RelayMessage::Binary(bytes)) == (ConnectionView {
            handle: connection.handle.after(frame),
            ..connection
        }),
{
}

/// A side stops to listen exactly when it is told to stop, and a message that
/// makes it stop leaves the streams alone.
pub proof fn law_stopping_closes<T>(connection: ConnectionView<T>, message: RelayMessage)
    requires
        !connection.closed,
    ensures
        connection.message_action(message) is Stop <==> connection.after_message(message).closed,
        connection.message_action(message) is Stop ==> connection.after_message(message)
            == connection.stopped(),
        connection.after_message(message).crypto == connection.crypto,
        connection.after_message(message).handle.next_stream_id
            == connection.handle.next_stream_id,
{
}

/// A side with a secret takes no frame that was sent without one.
pub proof fn law_secret_refuses_plain_frames(receiver: CryptoView, frame: WireFrameView)
    ensures
        received_frame(Some(receiver), frame.encoded()) == Err::<WireFrameView, StopReason>(
            StopReason::Unencrypted,
        ),
{
    law_envelopes_read_back(0, Seq::empty(), frame);
}

/// A side without a secret takes no frame that was sent with one.
pub proof fn law_no_secret_refuses_encrypted_frames(counter: u64, ciphertext: Seq<u8>)
    ensures
        received_frame(None, envelope(counter, ciphertext)) == Err::<WireFrameView, StopReason>(
            StopReason::InvalidFrame(FrameError::UnknownKind(FRAME_ENCRYPTED)),
        ),
{
    lemma_be_bytes_value(counter as nat, 8);
    assert(envelope(counter, ciphertext)[0] == FRAME_ENCRYPTED);
}

/// Without secrets, what one side writes is what the other side reads.
pub proof fn law_plain_frames_get_through(frame: WireFrameView)
    ensures
        understands(None, None),
        received_frame(None, frame.encoded()) == Ok::<WireFrameView, StopReason>(frame),
{
    law_frames_read_back(frame);
}

/// Bytes for a stream are delivered from when it is opened, by either side, until
/// it is closed, and dropped from then on. Other streams are not touched.
pub proof fn law_bytes_arrive_between_open_and_close<T>(
    handle: HandleView<T>,
    stream_id: u32,
    other: u32,
    sender: T,
    payload: Seq<u8>,
)
    requires
        other != stream_id,
    ensures
        ({
            let data = WireFrameView::Data { stream_id, payload };
            let elsewhere = WireFrameView::Data { stream_id: other, payload };
            let close = WireFrameView::Close { stream_id };
            let open = handle.accepted(stream_id, sender);
            let shut = open.after(close);
            &&& open.action(data) == (ReadActionView::Deliver { stream_id, payload })
            &&& open.streams[stream_id] == sender
            &&& open.after(data) == open
            &&& shut.action(data) == ReadActionView::Ignore
            &&& open.action(elsewhere) == handle.action(elsewhere)
            &&& shut.action(elsewhere) == handle.action(elsewhere)
            &&& handle.streams.dom().contains(other) ==> shut.streams.dom().contains(other)
                && shut.streams[other] == handle.streams[other]
        }),
        ({
            let own = handle.next_stream_id;
            handle.opened(sender).action(WireFrameView::Data { stream_id: own, payload }) == (
            ReadActionView::Deliver { stream_id: own, payload })
        }),
{
}

/// A stream that is closed more than once tells the other side once, and closing
/// it keeps what waits to be read.
pub proof fn law_closing_is_told_once(stream_id: u32, stream: VirtualStreamView)
    ensures
        VirtualStreamView::fresh(stream_id).close_notice() is Some,
        stream.shut().close_notice() is None,
        stream.shut().shut() == stream.shut(),
        stream.shut().buffered == stream.buffered,
{
}

/// One read: how much room the reader has, and what asking for more bytes gives.
pub struct ReadCall {
    pub room: nat,
    pub polled: PolledView,
}

/// The room that is left when the waiting bytes have been handed out.
pub open spec fn room_left(stream: VirtualStreamView, call: ReadCall) -> nat {
    (call.room - stream.at_hand(call.room)) as nat
}

/// The bytes that a read takes in: it asks for more only while it has room.
pub open spec fn taken_in(stream: VirtualStreamView, call: ReadCall) -> Seq<u8> {
    match call.polled {
        PolledView::Chunk(bytes) if room_left(stream, call) > 0 => bytes,
        _ => Seq::empty(),
    }
}

/// The bytes that a read hands out.
pub open spec fn handed_out(stream: VirtualStreamView, call: ReadCall) -> Seq<u8> {
    let chunk = taken_in(stream, call);
    stream.buffered.take(stream.at_hand(call.room) as int) + chunk.take(
        lesser(room_left(stream, call), chunk.len()) as int,
    )
}

/// The stream after a read.
pub open spec fn after_read(stream: VirtualStreamView, call: ReadCall) -> VirtualStreamView {
    stream.drained(call.room).refilled(taken_in(stream, call), room_left(stream, call))
}

/// A read is its two halves: what waits is handed out first, and if there is room
/// left, as much of a chunk as fits; what does not fit waits.
pub proof fn law_a_read_is_its_two_halves(stream: VirtualStreamView, call: ReadCall)
    ensures
        ({
            let drained = stream.drained(call.room);
            let left = room_left(stream, call);
            let first = stream.buffered.take(stream.at_hand(call.room) as int);
            match call.polled {
                PolledView::Chunk(bytes) if left > 0 => {
                    &&& after_read(stream, call) == drained.refilled(bytes, left)
                    &&& handed_out(stream, call) == first + bytes.take(
                        lesser(left, bytes.len()) as int,
                    )
                },
                _ => {
                    &&& after_read(stream, call) == drained
                    &&& handed_out(stream, call) == first
                },
            }
        }),
{
    let drained = stream.drained(call.room);
    let first = stream.buffered.take(stream.at_hand(call.room) as int);
    if taken_in(stream, call).len() == 0 {
        assert(after_read(stream, call).buffered =~= drained.buffered);
        assert(handed_out(stream, call) =~= first);
    }
}

/// The stream after some reads.
pub open spec fn after_reads(stream: VirtualStreamView, calls: Seq<ReadCall>) -> VirtualStreamView
    decreases calls.len(),
{
    if calls.len() == 0 {
        stream
    } else {
        after_read(after_reads(stream, calls.drop_last()), calls.last())
    }
}

/// The bytes that some reads hand out, in order.
pub open spec fn all_handed_out(stream: VirtualStreamView, calls: Seq<ReadCall>) -> Seq<u8>
    decreases calls.len(),
{
    if calls.len() == 0 {
        Seq::empty()
    } else {
        all_handed_out(stream, calls.drop_last()) + handed_out(
            after_reads(stream, calls.drop_last()),
            calls.last(),
        )
    }
}

/// The bytes that some reads take in, in order.
pub open spec fn all_taken_in(stream: VirtualStreamView, calls: Seq<ReadCall>) -> Seq<u8>
    decreases calls.len(),
{
    if calls.len() == 0 {
        Seq::empty()
    } else {
        all_taken_in(stream, calls.drop_last()) + taken_in(
            after_reads(stream, calls.drop_last()),
            calls.last(),
        )
    }
}

/// Readers get every byte that arrives, once and in order: what has been handed
/// out and what still waits is what waited at first and what has arrived since.
/// No read hands out more than it has room for.
pub proof fn law_reads_keep_every_byte_in_order(stream: VirtualStreamView, calls: Seq<ReadCall>)
    ensures
        all_handed_out(stream, calls) + after_reads(stream, calls).buffered == stream.buffered
            + all_taken_in(stream, calls),
        calls.len() > 0 ==> handed_out(
            after_reads(stream, calls.drop_last()),
            calls.last(),
        ).len() <= calls.last().room,
    decreases calls.len(),
{
    if calls.len() == 0 {
        assert(all_handed_out(stream, calls) + stream.buffered =~= stream.buffered + all_taken_in(
            stream,
            calls,
        ));
    } else {
        let before = calls.drop_last();
        let call = calls.last();
        law_reads_keep_every_byte_in_order(stream, before);
        let mid = after_reads(stream, before);
        let k = mid.at_hand(call.room) as int;
        let chunk = taken_in(mid, call);
        let m = lesser(room_left(mid, call), chunk.len()) as int;
        let end = after_read(mid, call);
        if room_left(mid, call) > 0 {
            assert(mid.buffered.skip(k) =~= Seq::<u8>::empty());
        }
        assert(end.buffered == mid.buffered.skip(k) + chunk.skip(m));
        assert(handed_out(mid, call) + end.buffered =~= mid.buffered + chunk);
        assert(all_handed_out(stream, calls) + end.buffered =~= all_handed_out(stream, before) + (
        handed_out(mid, call) + end.buffered));
        assert(all_handed_out(stream, before) + (mid.buffered + chunk) =~= (all_handed_out(
            stream,
            before,
        ) + mid.buffered) + chunk);
        assert((stream.buffered + all_taken_in(stream, before)) + chunk =~= stream.buffered
            + all_taken_in(stream, calls));
    }
}

/// A frame that arrives, and where the bytes of the stream go if it opens one.
pub struct Arrival<T> {
    pub frame: WireFrameView,
    pub sender: T,
}

/// The streams after a frame has arrived and has been acted on.
pub open spec fn after_arrival<T>(handle: HandleView<T>, arrival: Arrival<T>) -> HandleView<T> {
    match arrival.frame {
        WireFrameView::Open { stream_id, .. } => handle.accepted(stream_id, arrival.sender),
        _ => handle.after(arrival.frame),
    }
}

/// The streams after some frames have arrived.
pub open spec fn after_arrivals<T>(
    handle: HandleView<T>,
    arrivals: Seq<Arrival<T>>,
) -> HandleView<T>
    decreases arrivals.len(),
{
    if arrivals.len() == 0 {
        handle
    } else {
        after_arrival(after_arrivals(handle, arrivals.drop_last()), arrivals.last())
    }
}

/// The bytes that a frame brings to a stream.
pub open spec fn delivered<T>(handle: HandleView<T>, id: u32, frame: WireFrameView) -> Seq<u8> {
    match handle.action(frame) {
        ReadActionView::Deliver { stream_id, payload } if stream_id == id => payload,
        _ => Seq::empty(),
    }
}

/// The bytes that some frames bring to a stream, in order.
pub open spec fn all_delivered<T>(
    handle: HandleView<T>,
    id: u32,
    arrivals: Seq<Arrival<T>>,
) -> Seq<u8>
    decreases arrivals.len(),
{
    if arrivals.len() == 0 {
        Seq::empty()
    } else {
        let before = arrivals.drop_last();
        all_delivered(handle, id, before) + delivered(
            after_arrivals(handle, before),
            id,
            arrivals.last().frame,
        )
    }
}

/// The bytes that the other side has sent on a stream, in order.
pub open spec fn all_sent<T>(id: u32, arrivals: Seq<Arrival<T>>) -> Seq<u8>
    decreases arrivals.len(),
{
    if arrivals.len() == 0 {
        Seq::empty()
    } else {
        all_sent(id, arrivals.drop_last()) + match arrivals.last().frame {
            WireFrameView::Data { stream_id, payload } if stream_id == id => payload,
            _ => Seq::empty(),
        }
    }
}

/// An open stream gets what the other side has sent on it, all of it, in order and
/// nothing else, however the frames of other streams come in between, and stays
/// open until the other side closes it.
pub proof fn law_streams_do_not_mix<T>(
    handle: HandleView<T>,
    id: u32,
    arrivals: Seq<Arrival<T>>,
)
    requires
        handle.streams.dom().contains(id),
        forall|i: int|
            0 <= i < arrivals.len() ==> (#[trigger] arrivals[i]).frame != (WireFrameView::Close {
                stream_id: id,
            }),
    ensures
        all_delivered(handle, id, arrivals) == all_sent(id, arrivals),
        after_arrivals(handle, arrivals).streams.dom().contains(id),
    decreases arrivals.len(),
{
    if arrivals.len() > 0 {
        let before = arrivals.drop_last();
        assert forall|i: int| 0 <= i < before.len() implies (#[trigger] before[i]).frame != (
        WireFrameView::Close { stream_id: id }) by {
            assert(before[i] == arrivals[i]);
        }
        law_streams_do_not_mix(handle, id, before);
        assert(arrivals.last() == arrivals[arrivals.len() - 1]);
    }
}

/// Two sides that understand each other do so whatever they send and receive.
pub proof fn law_sides_stay_understood<T>(
    receiver: ConnectionView<T>,
    sender: ConnectionView<T>,
    message: RelayMessage,
)
    requires
        understands(receiver.crypto, sender.crypto),
    ensures
        understands(receiver.sent_one().crypto, sender.crypto),
        understands(receiver.crypto, sender.sent_one().crypto),
        understands(receiver.after_message(message).crypto, sender.crypto),
        understands(receiver.crypto, sender.after_message(message).crypto),
{
}

/// An access node and a serving node that share a secret, or have none, understand
/// each other, and never give one number to two streams.
pub proof fn law_access_and_serving_sides_fit<T>(secret: Option<Seq<char>>, n1: nat, n2: nat)
    ensures
        ({
            let access = access_side_at_start::<T>(secret);
            let serving = serving_side_at_start::<T>(secret);
            &&& understands(access.crypto, serving.crypto)
            &&& understands(serving.crypto, access.crypto)
            &&& nth_id(access.handle.next_stream_id, n1) != nth_id(
                serving.handle.next_stream_id,
                n2,
            )
        }),
{
    let access = access_side_at_start::<T>(secret);
    let serving = serving_side_at_start::<T>(secret);
    law_two_sides_never_share_a_stream_id(
        access.handle.next_stream_id,
        serving.handle.next_stream_id,
        n1,
        n2,
    );
}

/// What actions, polls and connections hold is what their fields hold.
pub proof fn law_actions_are_their_fields<T>(
    stream_id: u32,
    bytes: Vec<u8>,
    reason: StopReason,
    connection: MuxConnection<T>,
)
    ensures
        ReadAction::Ignore@ == ReadActionView::Ignore,
        (ReadAction::Open { stream_id, request: bytes })@ == (ReadActionView::Open {
            stream_id,
            request: bytes@,
        }),
        (ReadAction::Deliver { stream_id, payload: bytes })@ == (ReadActionView::Deliver {
            stream_id,
            payload: bytes@,
        }),
        (ReadAction::Control { message: bytes })@ == (ReadActionView::Control { message: bytes@ }),
        ReadAction::Stop(reason)@ == ReadActionView::Stop(reason),
        Polled::Chunk(bytes)@ == PolledView::Chunk(bytes@),
        Polled::Ended@ == PolledView::Ended,
        Polled::Pending@ == PolledView::Pending,
        connection@.handle == connection.handle@,
        connection@.closed == connection.closed,
        connection@.crypto is Some <==> connection.crypto is Some,
        connection.crypto matches Some(c) ==> connection@.crypto == Some(c@),
{
}

/// An open frame asks for a stream with the frame's own number and request; once
/// that stream is taken in, data frames with the number are delivered, in full, to
/// where the stream's bytes go.
pub proof fn law_opened_streams_get_their_data<T>(
    handle: HandleView<T>,
    id: u32,
    asked: Seq<u8>,
    sender: T,
    bytes: Seq<u8>,
)
    ensures
        ({
            let open = WireFrameView::Open { stream_id: id, request: asked };
            handle.action(open) matches ReadActionView::Open { stream_id, request } && {
                let taken = handle.after(open).accepted(stream_id, sender);
                &&& stream_id == id
                &&& request == asked
                &&& handle.after(open) == handle
                &&& taken.streams.dom().contains(id) && taken.streams[id] == sender
                &&& taken.action(
                    WireFrameView::Data { stream_id: id, payload: bytes },
                ) matches ReadActionView::Deliver { stream_id, payload } && stream_id == id
                    && payload == bytes
            }
        }),
{
}

/// A data frame is delivered exactly if its stream is open, a close frame ends its
/// own stream and no other, a control frame is handed on with its own message, and
/// nothing else changes the streams.
pub proof fn law_frames_act_on_their_own_stream<T>(
    handle: HandleView<T>,
    id: u32,
    other: u32,
    bytes: Seq<u8>,
)
    requires
        other != id,
    ensures
        ({
            let data = WireFrameView::Data { stream_id: id, payload: bytes };
            let close = WireFrameView::Close { stream_id: id };
            let control = WireFrameView::Control { message: bytes };
            &&& handle.streams.dom().contains(id) ==> (handle.action(
                data,
            ) matches ReadActionView::Deliver { stream_id, payload } && stream_id == id && payload
                == bytes)
            &&& !handle.streams.dom().contains(id) ==> handle.action(data) is Ignore
            &&& handle.after(data) == handle
            &&& handle.action(close) is Ignore
            &&& !handle.after(close).streams.dom().contains(id)
            &&& handle.after(close).streams.dom().contains(other)
                <==> handle.streams.dom().contains(other)
            &&& handle.streams.dom().contains(other) ==> handle.after(close).streams[other]
                == handle.streams[other]
            &&& handle.after(close).next_stream_id == handle.next_stream_id
            &&& handle.action(control) matches ReadActionView::Control { message } && message
                == bytes
            &&& handle.after(control) == handle
        }),
{
}

/// Opening, taking in and releasing a stream touches that stream alone; only opening
/// one moves the numbers on, by two.
pub proof fn law_other_streams_are_left_alone<T>(
    handle: HandleView<T>,
    id: u32,
    other: u32,
    sender: T,
)
    ensures
        ({
            let own = handle.next_stream_id;
            let opened = handle.opened(sender);
            let accepted = handle.accepted(id, sender);
            let released = handle.released(id);
            &&& opened.streams.dom().contains(own) && opened.streams[own] == sender
            &&& opened.next_stream_id as int == (own + 2) % 0x1_0000_0000
            &&& other != own ==> (opened.streams.dom().contains(other)
                <==> handle.streams.dom().contains(other))
            &&& other != own && handle.streams.dom().contains(other) ==> opened.streams[other]
                == handle.streams[other]
            &&& accepted.streams.dom().contains(id) && accepted.streams[id] == sender
            &&& accepted.next_stream_id == own
            &&& other != id ==> (accepted.streams.dom().contains(other)
                <==> handle.streams.dom().contains(other))
            &&& other != id && handle.streams.dom().contains(other) ==> accepted.streams[other]
                == handle.streams[other]
            &&& !released.streams.dom().contains(id)
            &&& released.next_stream_id == own
            &&& other != id ==> (released.streams.dom().contains(other)
                <==> handle.streams.dom().contains(other))
            &&& other != id && handle.streams.dom().contains(other) ==> released.streams[other]
                == handle.streams[other]
        }),
{
}

/// What the bytes of a message ask of a side without a secret.
pub proof fn law_plain_messages_are_acted_on<T>(
    connection: ConnectionView<T>,
    bytes: Vec<u8>,
    body: Seq<u8>,
)
    requires
        connection.crypto is None,
        bytes@.len() >= 5 ==> body == bytes@.skip(5),
    ensures
        ({
            let b = bytes@;
            let action = connection.message_action(RelayMessage::Binary(bytes));
            let after = connection.after_message(RelayMessage::Binary(bytes));
            let id = 0x100_0000 * b[1] + 0x1_0000 * b[2] + 0x100 * b[3] + b[4];
            if b.len() < 5 {
                &&& action == ReadActionView::Stop(StopReason::InvalidFrame(FrameError::TooShort))
                &&& after.closed && after.handle == connection.handle
            } else if b[0] == 1 {
                &&& action matches ReadActionView::Open { stream_id, request } && stream_id == id
                    && request == body
                &&& after == connection
            } else if b[0] == 2 {
                &&& connection.handle.streams.dom().contains(id as u32) ==> (
                action matches ReadActionView::Deliver { stream_id, payload } && stream_id == id
                    && payload == body)
                &&& !connection.handle.streams.dom().contains(id as u32) ==> action is Ignore
                &&& after == connection
            } else if b[0] == 3 {
                &&& action is Ignore
                &&& after.closed == connection.closed && after.crypto is None
                &&& after.handle.streams == connection.handle.streams.remove(id as u32)
                &&& after.handle.next_stream_id == connection.handle.next_stream_id
            } else if b[0] == 4 {
                &&& action matches ReadActionView::Control { message } && message == body
                &&& after == connection
            } else {
                &&& action == ReadActionView::Stop(
                    StopReason::InvalidFrame(FrameError::UnknownKind(b[0])),
                )
                &&& after.closed && after.handle == connection.handle
            }
        }),
{
    let b = bytes@;
    if b.len() >= 5 {
        law_bytes_are_frames(b[0], b[1], b[2], b[3], b[4], body, Seq::empty());
        assert(b =~= seq![b[0], b[1], b[2], b[3], b[4]] + body);
    } else {
        law_bytes_are_frames(0, 0, 0, 0, 0, Seq::empty(), b);
    }
}

/// A side with a secret stops on what is not encrypted and on what does not open;
/// what opens asks of it what the plaintext asks of a side without a secret, and
/// does the same to its streams.
pub proof fn law_encrypted_messages_are_opened_first<T>(
    connection: ConnectionView<T>,
    bytes: Vec<u8>,
    plain: Vec<u8>,
)
    requires
        connection.crypto is Some,
    ensures
        ({
            let b = bytes@;
            let c = connection.crypto->0;
            let counter = envelope_counter(b);
            let action = connection.message_action(RelayMessage::Binary(bytes));
            let after = connection.after_message(RelayMessage::Binary(bytes));
            let bare = ConnectionView { crypto: None, ..connection };
            let opened = aes256_gcm_decrypt(
                c.key,
                nonce_bytes(c.inbound_dir, counter),
                b.skip(9),
            );
            &&& after.crypto == connection.crypto
            &&& b.len() < 9 || b[0] != 0xE1 ==> {
                &&& action == ReadActionView::Stop(StopReason::Unencrypted)
                &&& after.closed && after.handle == connection.handle
            }
            &&& b.len() >= 9 && b[0] == 0xE1 && opened is None ==> {
                &&& action == ReadActionView::Stop(StopReason::Undecryptable)
                &&& after.closed && after.handle == connection.handle
            }
            &&& b.len() >= 9 && b[0] == 0xE1 && opened == Some(plain@) ==> {
                &&& action == bare.message_action(RelayMessage::Binary(plain))
                &&& after.handle == bare.after_message(RelayMessage::Binary(plain)).handle
                &&& after.closed == bare.after_message(RelayMessage::Binary(plain)).closed
            }
        }),
{
    law_bytes_are_envelopes(bytes@);
    if bytes@.len() >= 9 {
        assert(envelope_ciphertext(bytes@) =~= bytes@.skip(9));
    }
}

/// Messages that are not binary change nothing; an error and the end of the socket
/// stop the side, and a side that stops keeps its streams and its encryption.
pub proof fn law_other_messages<T>(connection: ConnectionView<T>)
    ensures
        connection.message_action(RelayMessage::Other) == ReadActionView::Ignore,
        connection.after_message(RelayMessage::Other) == connection,
        connection.message_action(RelayMessage::Failed) == ReadActionView::Stop(
            StopReason::ReadFailed,
        ),
        connection.after_message(RelayMessage::Failed) == connection.stopped(),
        connection.message_action(RelayMessage::End) == ReadActionView::Stop(StopReason::Ended),
        connection.after_message(RelayMessage::End) == connection.stopped(),
        connection.stopped().closed,
        connection.stopped().handle == connection.handle,
        connection.stopped().crypto == connection.crypto,
{
}

/// Two sides understand each other if neither has a secret, or if both have the key
/// and one listens in the direction in which the other sends; in no other case.
pub proof fn law_understanding_takes_key_and_direction(receiver: CryptoView, sender: CryptoView)
    ensures
        understands(None, None),
        !understands(None, Some(sender)),
        !understands(Some(receiver), None),
        understands(Some(receiver), Some(sender)) <==> receiver.key == sender.key
            && receiver.inbound_dir == sender.outbound_dir,
{
}

/// What carries a frame is the frame in bytes, or for a side with a secret the
/// envelope of its ciphertext under the side's key, direction and counter; every
/// side that understands the sender gets the frame out of it. Sending counts up by
/// one and changes nothing else.
pub proof fn law_carried_frames_arrive<T>(
    sender: ConnectionView<T>,
    frame: WireFrameView,
    bytes: Seq<u8>,
    receiver: Option<CryptoView>,
)
    requires
        carries(sender.crypto, frame, bytes),
    ensures
        sender.crypto is None ==> bytes == frame.encoded(),
        sender.crypto matches Some(c) ==> {
            &&& aes256_gcm_encrypt(
                c.key,
                nonce_bytes(c.outbound_dir, c.outbound_counter),
                frame.encoded(),
            ) == Some(bytes.skip(9))
            &&& bytes.len() >= 9
            &&& bytes[0] == 0xE1
            &&& envelope_counter(bytes) == c.outbound_counter
        },
        understands(receiver, sender.crypto) ==> received_frame(receiver, bytes) == Ok::<
            WireFrameView,
            StopReason,
        >(frame),
        sender.sent_one().handle == sender.handle,
        sender.sent_one().closed == sender.closed,
        sender.sent_one().crypto is Some <==> sender.crypto is Some,
        sender.crypto matches Some(c) ==> {
            let next = sender.sent_one().crypto->0;
            &&& next.key == c.key
            &&& next.outbound_dir == c.outbound_dir
            &&& next.inbound_dir == c.inbound_dir
            &&& next.outbound_counter as int == (c.outbound_counter + 1) % 0x1_0000_0000_0000_0000
        },
{
    if let Some(c) = sender.crypto {
        let ciphertext = aes256_gcm_encrypt(c.key, c.outbound_nonce(), frame.encoded())->0;
        law_envelopes_in_bytes(c.outbound_counter, ciphertext);
        law_envelopes_read_back(c.outbound_counter, ciphertext, frame);
    }
}

/// The two sides at their start: no streams; the access node's first stream has the
/// number one and the serving node's two; with a secret, the key is the digest of the
/// whole secret, the access node sends in direction zero and the serving node in
/// direction one, and both count from zero.
pub proof fn law_sides_at_their_start<T>(secret: Seq<char>)
    ensures
        ({
            let access = access_side_at_start::<T>(Some(secret));
            let serving = serving_side_at_start::<T>(Some(secret));
            &&& access.crypto matches Some(c) && c.key == sha256(encode_utf8(secret))
                && c.outbound_dir == 0 && c.inbound_dir == 1 && c.outbound_counter == 0
            &&& serving.crypto matches Some(c) && c.key == sha256(encode_utf8(secret))
                && c.outbound_dir == 1 && c.inbound_dir == 0 && c.outbound_counter == 0
            &&& access.handle.next_stream_id == 1 && serving.handle.next_stream_id == 2
            &&& access.handle.streams == Map::<u32, T>::empty()
            &&& serving.handle.streams == Map::<u32, T>::empty()
            &&& !access.closed && !serving.closed
        }),
        ({
            let access = access_side_at_start::<T>(None);
            let serving = serving_side_at_start::<T>(None);
            &&& access.crypto is None && serving.crypto is None
            &&& access.handle.next_stream_id == 1 && serving.handle.next_stream_id == 2
            &&& access.handle.streams == Map::<u32, T>::empty()
            &&& serving.handle.streams == Map::<u32, T>::empty()
            &&& !access.closed && !serving.closed
        }),
{
}

/// A read hands out as much as there is room for, if so much has arrived, and else
/// all that has arrived; what it hands out comes first.
pub proof fn law_reads_fill_the_room(stream: VirtualStreamView, call: ReadCall)
    ensures
        ({
            let at_hand = stream.buffered + taken_in(stream, call);
            let out = handed_out(stream, call);
            &&& at_hand.len() >= call.room ==> out.len() == call.room
            &&& at_hand.len() < call.room ==> out.len() == at_hand.len()
            &&& out + after_read(stream, call).buffered == at_hand
            &&& stream.buffered.len() >= call.room ==> stream.at_hand(call.room) == call.room
            &&& stream.buffered.len() < call.room ==> stream.at_hand(call.room)
                == stream.buffered.len()
            &&& stream.drained(call.room).buffered == stream.buffered.skip(
                stream.at_hand(call.room) as int,
            )
            &&& after_read(stream, call).stream_id == stream.stream_id
            &&& after_read(stream, call).sent_close == stream.sent_close
        }),
{
    let chunk = taken_in(stream, call);
    let k = stream.at_hand(call.room) as int;
    let left = room_left(stream, call);
    if left > 0 {
        assert(stream.buffered.skip(k) =~= Seq::<u8>::empty());
    }
    assert(handed_out(stream, call) + after_read(stream, call).buffered =~= stream.buffered
        + chunk);
}

/// What a stream takes of a chunk with some room, and what waits.
pub proof fn law_chunks_are_kept_whole(stream: VirtualStreamView, chunk: Seq<u8>, room: nat)
    ensures
        ({
            let n = lesser(room, chunk.len());
            &&& n <= room && n <= chunk.len()
            &&& n == room || n == chunk.len()
            &&& stream.refilled(chunk, room).buffered == stream.buffered + chunk.skip(n as int)
            &&& stream.refilled(chunk, room).stream_id == stream.stream_id
            &&& stream.refilled(chunk, room).sent_close == stream.sent_close
        }),
{
}

/// A stream keeps its number: it starts with it, empty and open, and a notice that it
/// closes names it.
pub proof fn law_streams_keep_their_number(id: u32, stream: VirtualStreamView)
    ensures
        VirtualStreamView::fresh(id).stream_id == id,
        VirtualStreamView::fresh(id).buffered.len() == 0,
        !VirtualStreamView::fresh(id).sent_close,
        !stream.sent_close ==> (stream.close_notice() matches Some(MuxFrame::Close { stream_id })
            && stream_id == stream.stream_id),
        stream.sent_close ==> stream.close_notice() is None,
        stream.shut().sent_close,
        stream.shut().stream_id == stream.stream_id,
{
}

} // verus!
