//! What callers get: laws on the operations of the library themselves, for every
//! argument and whatever a call returns.

use crate::access::{
    access_connection_id, bind_messages, law_node_listings,
    law_the_last_provider_of_a_name_is_dialled, list_node, list_relay_nodes, node_listing,
    provider_visit, serves_socks, service_visit, target_map, visitor_connection_id, AccessAction,
    ProviderTargets,
};
use crate::crypto::{
    aes256_gcm_decrypt, aes256_gcm_encrypt, law_frames_are_opened_under_key_and_nonce,
    law_nonces_hold_direction_and_counter, make_nonce, nonce_bytes, sha256, CryptoError,
    FrameCrypto,
};
use crate::frame::{
    decode_frame, encode_frame, envelope_ciphertext, envelope_counter, is_laid_out,
    law_bytes_are_envelopes, law_bytes_are_frames, law_envelopes_in_bytes, law_frames_in_bytes,
    unwrap_ciphertext, wrap_ciphertext, FrameError, WireFrame,
};
use crate::legacy_cli::{
    borrowed_texts, law_one_dash_or_two, law_other_arguments_stay, normalize_legacy_args,
    normalized, normalized_all,
};
use crate::mapping::{
    auth_matches, law_provider_mapping_means_its_fields, law_refused_provider_mappings,
    law_refused_visitor_mappings, law_visitor_mapping_means_its_fields, padded, parse_tcp_mapping,
    parse_tcp_mapping_inner, parse_visitor_mapping, parse_visitor_mapping_inner, MappingError,
    TcpMapping, VisitorMapping,
};
use crate::mux::{
    access_side, serving_side, ConnectionView, ControlMessage, IncomingStream, MuxConnection,
    MuxFrame, MuxHandle, OpenRequest, Polled, ReadAction, ReadOutcome, RelayMessage, StopReason,
    VirtualStream, WriteAction,
};
use crate::mux_laws::{
    law_carried_frames_arrive, law_encrypted_messages_are_opened_first,
    law_plain_messages_are_acted_on,
};
use crate::number::{be_value, decimal_value, law_numbers_of_bytes};
use crate::relay_ws::{
    build_ws_url, client_data_url, control_url, ending_in_path, full_query, law_urls_of_relays,
    server_data_url, ws_url,
};
use crate::serve::{
    connected_ids, newly_connected, serve_action, ControlEnd, ControlInput, ControlStep, PeerEvent,
    RelayControlEvent, ServeAction, ServeState, VisitError, VisitRoute,
};
use crate::serve_laws::{law_nodes_start_once, law_the_last_mapping_of_a_name_counts};
use crate::socks::{
    connect_reply, groups_text, ipv4_address, ipv4_text, ipv6_address, reply_bytes, SocksError,
    SocksNext, SocksStage, SocksStep,
};
use crate::socks_laws::{
    is_zero_between, law_ipv4_texts_read_back, law_ipv6_texts_leave_out_the_longest_run,
    law_ipv6_texts_without_runs, law_mapped_addresses_end_in_ipv4, law_targets_are_host_and_port,
    pair_numbers,
};
use crate::text::{is_blank, is_tight, repeated, split_limited, texts};
use vstd::prelude::*;
use vstd::string::*;
use vstd::utf8::{decode_utf8, encode_utf8, valid_utf8};

verus! {

/// Who reads a provider mapping gets its name, its host and its port with a colon
/// between them, and its auth value.
pub proof fn law_reading_a_provider_mapping(
    value: &str,
    name: Seq<char>,
    host: Seq<char>,
    port: Seq<char>,
    auth: Option<Seq<char>>,
    b: Seq<char>,
    a: Seq<char>,
)
    requires
        name.len() > 0 && is_tight(name) && !name.contains(':'),
        host.len() > 0 && is_tight(host) && !host.contains(':'),
        port.len() > 0 && is_tight(port) && !port.contains(':'),
        auth matches Some(x) ==> x.len() > 0 && is_tight(x),
        is_blank(b),
        is_blank(a),
        value@ == padded(b, name, a) + seq![':'] + (padded(b, host, a) + seq![':'] + padded(
            b,
            port,
            a,
        )) + (if auth is Some {
            seq![':'] + padded(b, auth->0, a)
        } else {
            Seq::empty()
        }),
    ensures
        forall|r: Result<TcpMapping, MappingError>| #[trigger]
            call_ensures(parse_tcp_mapping_inner, (value,), r) ==> (r matches Ok(m) && m.name@
                == name && m.addr@ == host + seq![':'] + port && (m.auth is Some <==> auth is Some)
                && (m.auth matches Some(x) ==> x@ == auth->0)),
        forall|r: Result<TcpMapping, String>| #[trigger]
            call_ensures(parse_tcp_mapping, (value,), r) ==> (r matches Ok(m) && m.name@ == name
                && m.addr@ == host + seq![':'] + port && (m.auth is Some <==> auth is Some) && (
            m.auth matches Some(x) ==> x@ == auth->0)),
{
    let x = if auth is Some {
        auth->0
    } else {
        Seq::empty()
    };
    law_provider_mapping_means_its_fields(name, host, port, x, b, a);
    let start = padded(b, name, a) + seq![':'] + (padded(b, host, a) + seq![':'] + padded(
        b,
        port,
        a,
    ));
    if auth is Some {
        assert(value@ =~= start + seq![':'] + padded(b, x, a));
    } else {
        assert(value@ =~= start);
    }
}

/// Who reads a visitor mapping gets its node, its service, its host and its port with a
/// colon between them, and its auth value.
pub proof fn law_reading_a_visitor_mapping(
    value: &str,
    node: Seq<char>,
    service: Seq<char>,
    host: Seq<char>,
    port: Seq<char>,
    auth: Option<Seq<char>>,
    b: Seq<char>,
    a: Seq<char>,
)
    requires
        node.len() > 0 && is_tight(node) && !node.contains(':'),
        service.len() > 0 && is_tight(service) && !service.contains(':'),
        host.len() > 0 && is_tight(host) && !host.contains(':'),
        port.len() > 0 && is_tight(port) && !port.contains(':'),
        auth matches Some(x) ==> x.len() > 0 && is_tight(x),
        is_blank(b),
        is_blank(a),
        value@ == padded(b, node, a) + seq![':'] + (padded(b, service, a) + seq![':'] + (padded(
            b,
            host,
            a,
        ) + seq![':'] + padded(b, port, a))) + (if auth is Some {
            seq![':'] + padded(b, auth->0, a)
        } else {
            Seq::empty()
        }),
    ensures
        forall|r: Result<VisitorMapping, MappingError>| #[trigger]
            call_ensures(parse_visitor_mapping_inner, (value,), r) ==> (r matches Ok(m) && m.node@
                == node && m.service@ == service && m.bind_addr@ == host + seq![':'] + port && (
            m.auth is Some <==> auth is Some) && (m.auth matches Some(x) ==> x@ == auth->0)),
        forall|r: Result<VisitorMapping, String>| #[trigger]
            call_ensures(parse_visitor_mapping, (value,), r) ==> (r matches Ok(m) && m.node@
                == node && m.service@ == service && m.bind_addr@ == host + seq![':'] + port && (
            m.auth is Some <==> auth is Some) && (m.auth matches Some(x) ==> x@ == auth->0)),
{
    let x = if auth is Some {
        auth->0
    } else {
        Seq::empty()
    };
    law_visitor_mapping_means_its_fields(node, service, host, port, x, b, a);
    let start = padded(b, node, a) + seq![':'] + (padded(b, service, a) + seq![':'] + (padded(
        b,
        host,
        a,
    ) + seq![':'] + padded(b, port, a)));
    if auth is Some {
        assert(value@ =~= start + seq![':'] + padded(b, x, a));
    } else {
        assert(value@ =~= start);
    }
}

/// A visitor is admitted if the provider asks for nothing, or for what it presents.
pub proof fn law_matching_auth(allowed: Option<&str>, presented: Option<&str>, r: bool)
    requires
        call_ensures(auth_matches, (allowed, presented), r),
    ensures
        allowed is None ==> r,
        allowed matches Some(a) ==> {
            &&& a@.len() == 0 ==> r
            &&& a@.len() > 0 ==> (r <==> presented is Some && presented->0@ == a@)
        },
{
}

/// Normalized arguments are as many as before and in the same order; a known flag
/// behind one dash gets a second one, and every other argument stays.
pub proof fn law_normalizing_arguments(
    flags: &[&str],
    args: Vec<String>,
    r: Vec<String>,
    i: int,
    k: int,
)
    requires
        call_ensures(normalize_legacy_args, (flags, args), r),
        0 <= i < args@.len(),
        0 <= k < flags@.len(),
    ensures
        r@.len() == args@.len(),
        args@[i]@ == seq!['-'] + flags@[k]@ && !(flags@[k]@.len() > 0 && flags@[k]@[0] == '-')
            ==> r@[i]@ == seq!['-', '-'] + flags@[k]@,
        (args@[i]@.len() == 0 || args@[i]@[0] != '-' || (args@[i]@.len() > 1 && args@[i]@[1] == '-')
            || (forall|j: int| 0 <= j < flags@.len() ==> (#[trigger] flags@[j])@ != args@[i]@.skip(1)))
            ==> r@[i]@ == args@[i]@,
{
    let names = borrowed_texts(flags@);
    assert(names[k] == flags@[k]@);
    let all = normalized_all(names, texts(args@));
    assert(texts(r@) == all);
    assert(texts(r@).len() == r@.len());
    assert(texts(args@).len() == args@.len());
    assert(all.len() == texts(args@).len());
    assert(r@.len() == args@.len());
    assert(texts(args@)[i] == args@[i]@);
    assert(texts(r@)[i] == r@[i]@);
    assert(all[i] == normalized(names, args@[i]@));
    if !(flags@[k]@.len() > 0 && flags@[k]@[0] == '-') {
        law_one_dash_or_two(names, flags@[k]@);
    }
    let arg = args@[i]@;
    if arg.len() == 0 || arg[0] != '-' || (arg.len() > 1 && arg[1] == '-') || (forall|j: int|
        0 <= j < flags@.len() ==> (#[trigger] flags@[j])@ != arg.skip(1)) {
        if names.contains(arg.skip(1)) {
            let j = choose|j: int| 0 <= j < names.len() && names[j] == arg.skip(1);
            assert(flags@[j]@ == arg.skip(1));
        }
        law_other_arguments_stay(names, arg);
    }
}

/// The URLs of the channels of a relay that is named by any base URL.
pub proof fn law_building_urls(
    relay: &str,
    rest: Seq<char>,
    slashes: nat,
    server_id: &str,
    role: &str,
    connection_id: &str,
    root: Seq<char>,
)
    requires
        rest.len() == 0 || rest.last() != '/',
        ({
            ||| relay@ == "http://"@ + rest + repeated('/', slashes) && rest.len() > 0 && root
                == "ws://"@ + rest
            ||| relay@ == "https://"@ + rest + repeated('/', slashes) && rest.len() > 0 && root
                == "wss://"@ + rest
            ||| relay@ == rest + repeated('/', slashes) && root == rest && !"http://"@.is_prefix_of(
                rest,
            ) && !"https://"@.is_prefix_of(rest)
        }),
    ensures
        forall|r: String| #[trigger]
            call_ensures(build_ws_url, (relay, server_id, role, None), r) ==> r@ == ending_in_path(
                root,
            ) + full_query(server_id@, role@, None),
        forall|r: String| #[trigger]
            call_ensures(build_ws_url, (relay, server_id, role, Some(connection_id)), r) ==> r@
                == ending_in_path(root) + full_query(server_id@, role@, Some(connection_id@)),
        forall|r: String| #[trigger]
            call_ensures(control_url, (relay, server_id), r) ==> r@ == ending_in_path(root)
                + full_query(server_id@, "server"@, None),
        forall|r: String| #[trigger]
            call_ensures(server_data_url, (relay, server_id, connection_id), r) ==> r@
                == ending_in_path(root) + full_query(server_id@, "server"@, Some(connection_id@)),
        forall|r: String| #[trigger]
            call_ensures(client_data_url, (relay, server_id, Some(connection_id)), r) ==> r@
                == ending_in_path(root) + full_query(server_id@, "client"@, Some(connection_id@)),
        forall|r: String| #[trigger]
            call_ensures(client_data_url, (relay, server_id, None), r) ==> r@ == ending_in_path(root)
                + full_query(server_id@, "client"@, None),
{
    let id = Some(connection_id@);
    law_urls_of_relays(rest, slashes, server_id@, role@, None);
    law_urls_of_relays(rest, slashes, server_id@, role@, id);
    law_urls_of_relays(rest, slashes, server_id@, "server"@, None);
    law_urls_of_relays(rest, slashes, server_id@, "server"@, id);
    law_urls_of_relays(rest, slashes, server_id@, "client"@, None);
    law_urls_of_relays(rest, slashes, server_id@, "client"@, id);
}

/// A side that is made from a secret has the digest of the whole secret as its key,
/// the directions that it was given, and counts from zero.
pub proof fn law_making_a_side(secret: &str, out: u8, inward: u8, r: FrameCrypto)
    requires
        call_ensures(FrameCrypto::from_secret, (secret, out, inward), r),
    ensures
        r@.key == sha256(encode_utf8(secret@)),
        r@.outbound_dir == out,
        r@.inbound_dir == inward,
        r@.outbound_counter == 0,
{
}

/// What a side seals goes out under its counter, which goes up by one; another side
/// with the same key and the opposite directions opens it to what was sealed.
pub proof fn law_sealing_and_opening(peer: &FrameCrypto, plaintext: &[u8])
    ensures
        forall|side: &mut FrameCrypto, r: Result<(u64, Vec<u8>), CryptoError>| #[trigger]
            call_ensures(FrameCrypto::seal, (side, plaintext), r) ==> {
                &&& (*final(side))@.key == (*side)@.key
                &&& (*final(side))@.outbound_dir == (*side)@.outbound_dir
                &&& (*final(side))@.inbound_dir == (*side)@.inbound_dir
                &&& (*final(side))@.outbound_counter as int == ((*side)@.outbound_counter + 1)
                    % 0x1_0000_0000_0000_0000
                &&& plaintext@.len() <= 0x10_0000_0000 <==> r is Ok
                &&& r matches Err(e) ==> e == CryptoError::Encrypt
                &&& r matches Ok((counter, ciphertext)) ==> {
                    &&& counter == (*side)@.outbound_counter
                    &&& aes256_gcm_encrypt(
                        (*side)@.key,
                        nonce_bytes((*side)@.outbound_dir, counter),
                        plaintext@,
                    ) == Some(ciphertext@)
                    &&& peer@.key == (*side)@.key && peer@.inbound_dir == (*side)@.outbound_dir
                        ==> aes256_gcm_decrypt(
                        peer@.key,
                        nonce_bytes(peer@.inbound_dir, counter),
                        ciphertext@,
                    ) == Some(plaintext@)
                }
            },
{
    assert forall|side: &mut FrameCrypto, r: Result<(u64, Vec<u8>), CryptoError>| #[trigger]
        call_ensures(FrameCrypto::seal, (side, plaintext), r) implies {
        &&& (*final(side))@.key == (*side)@.key
        &&& (*final(side))@.outbound_dir == (*side)@.outbound_dir
        &&& (*final(side))@.inbound_dir == (*side)@.inbound_dir
        &&& (*final(side))@.outbound_counter as int == ((*side)@.outbound_counter + 1)
            % 0x1_0000_0000_0000_0000
        &&& plaintext@.len() <= 0x10_0000_0000 <==> r is Ok
        &&& r matches Err(e) ==> e == CryptoError::Encrypt
        &&& r matches Ok((counter, ciphertext)) ==> {
            &&& counter == (*side)@.outbound_counter
            &&& aes256_gcm_encrypt(
                (*side)@.key,
                nonce_bytes((*side)@.outbound_dir, counter),
                plaintext@,
            ) == Some(ciphertext@)
            &&& peer@.key == (*side)@.key && peer@.inbound_dir == (*side)@.outbound_dir
                ==> aes256_gcm_decrypt(
                peer@.key,
                nonce_bytes(peer@.inbound_dir, counter),
                ciphertext@,
            ) == Some(plaintext@)
        }
    } by {
        if let Ok((counter, ciphertext)) = r {
            if peer@.key == (*side)@.key && peer@.inbound_dir == (*side)@.outbound_dir {
                assert(peer@.listens_to((*side)@));
                assert(peer@.opened(counter, ciphertext@) == Some(plaintext@));
            }
        }
    }
}

/// A side opens what the cipher decrypts under its key and the nonce of its inbound
/// direction and the frame's number, and nothing else.
pub proof fn law_opening(
    side: &FrameCrypto,
    counter: u64,
    ciphertext: &[u8],
    r: Result<Vec<u8>, CryptoError>,
)
    requires
        call_ensures(FrameCrypto::open, (side, counter, ciphertext), r),
    ensures
        ({
            let plain = aes256_gcm_decrypt(
                side@.key,
                nonce_bytes(side@.inbound_dir, counter),
                ciphertext@,
            );
            &&& plain is None ==> r is Err
            &&& plain matches Some(p) ==> (r matches Ok(bytes) && bytes@ == p)
        }),
{
    law_frames_are_opened_under_key_and_nonce(side@, counter, ciphertext@);
}

/// A nonce holds the direction, three zeros and the counter, most significant byte
/// first.
pub proof fn law_making_a_nonce(direction: u8, counter: u64, r: [u8; 12])
    requires
        call_ensures(make_nonce, (direction, counter), r),
    ensures
        r@[0] == direction,
        r@[1] == 0 && r@[2] == 0 && r@[3] == 0,
        0x100_0000_0000_0000 * r@[4] + 0x1_0000_0000_0000 * r@[5] + 0x100_0000_0000 * r@[6]
            + 0x1_0000_0000 * r@[7] + 0x100_0000 * r@[8] + 0x1_0000 * r@[9] + 0x100 * r@[10]
            + r@[11] == counter,
{
    law_nonces_hold_direction_and_counter(direction, counter);
}

/// Written frames hold their kind, their number and their body.
pub proof fn law_writing_frames(frame: &WireFrame, r: Vec<u8>)
    requires
        call_ensures(encode_frame, (frame,), r),
    ensures
        *frame matches WireFrame::Open { stream_id, request } ==> is_laid_out(
            r@,
            1,
            stream_id,
            request@,
        ),
        *frame matches WireFrame::Data { stream_id, payload } ==> is_laid_out(
            r@,
            2,
            stream_id,
            payload@,
        ),
        *frame matches WireFrame::Close { stream_id } ==> is_laid_out(
            r@,
            3,
            stream_id,
            Seq::empty(),
        ),
        *frame matches WireFrame::Control { message } ==> is_laid_out(r@, 4, 0, message@),
{
    match *frame {
        WireFrame::Open { stream_id, request } => law_frames_in_bytes(stream_id, request@),
        WireFrame::Data { stream_id, payload } => law_frames_in_bytes(stream_id, payload@),
        WireFrame::Close { stream_id } => law_frames_in_bytes(stream_id, Seq::empty()),
        WireFrame::Control { message } => law_frames_in_bytes(0, message@),
    }
}

/// Bytes are read as the frame that they hold, or refused.
pub proof fn law_reading_frames(bytes: &[u8], r: Result<WireFrame, FrameError>)
    requires
        call_ensures(decode_frame, (bytes,), r),
    ensures
        ({
            let b = bytes@;
            let id = 0x100_0000 * b[1] + 0x1_0000 * b[2] + 0x100 * b[3] + b[4];
            if b.len() < 5 {
                r matches Err(e) && e == FrameError::TooShort
            } else if b[0] == 1 {
                r matches Ok(WireFrame::Open { stream_id, request }) && stream_id == id && request@
                    == b.skip(5)
            } else if b[0] == 2 {
                r matches Ok(WireFrame::Data { stream_id, payload }) && stream_id == id && payload@
                    == b.skip(5)
            } else if b[0] == 3 {
                r matches Ok(WireFrame::Close { stream_id }) && stream_id == id
            } else if b[0] == 4 {
                r matches Ok(WireFrame::Control { message }) && message@ == b.skip(5)
            } else {
                r matches Err(e) && e == FrameError::UnknownKind(b[0])
            }
        }),
{
    let b = bytes@;
    if b.len() >= 5 {
        law_bytes_are_frames(b[0], b[1], b[2], b[3], b[4], b.skip(5), Seq::empty());
        assert(b =~= seq![b[0], b[1], b[2], b[3], b[4]] + b.skip(5));
    } else {
        law_bytes_are_frames(0, 0, 0, 0, 0, Seq::empty(), b);
    }
}

/// What is wrapped is unwrapped to the same number and ciphertext; what is no envelope
/// is not unwrapped.
pub proof fn law_wrapping_and_unwrapping(counter: u64, ciphertext: &[u8], bytes: &[u8])
    ensures
        forall|r: Vec<u8>| #[trigger]
            call_ensures(wrap_ciphertext, (counter, ciphertext), r) ==> r@.len() == 9
                + ciphertext@.len() && r@[0] == 0xE1 && r@.skip(9) == ciphertext@,
        forall|r: Option<(u64, &[u8])>| #[trigger]
            call_ensures(unwrap_ciphertext, (bytes,), r) ==> {
                &&& bytes@.len() < 9 || bytes@[0] != 0xE1 ==> r is None
                &&& bytes@.len() >= 9 && bytes@[0] == 0xE1 ==> (r matches Some((n, c)) && c@
                    == bytes@.skip(9) && n == 0x100_0000_0000_0000 * bytes@[1] + 0x1_0000_0000_0000
                    * bytes@[2] + 0x100_0000_0000 * bytes@[3] + 0x1_0000_0000 * bytes@[4]
                    + 0x100_0000 * bytes@[5] + 0x1_0000 * bytes@[6] + 0x100 * bytes@[7] + bytes@[8])
            },
{
    law_envelopes_in_bytes(counter, ciphertext@);
    law_bytes_are_envelopes(bytes@);
    if bytes@.len() >= 9 && bytes@[0] == 0xE1 {
        assert(envelope_ciphertext(bytes@) =~= bytes@.skip(9));
    }
}

/// A stream that this side opens gets the next number, tells the other side that
/// number and what it is for, and starts empty; its bytes go where they were told to.
pub proof fn law_opening_a_stream<T>(request: OpenRequest, sender: T)
    ensures
        forall|handle: &mut MuxHandle<T>, r: (VirtualStream, MuxFrame)| #[trigger]
            call_ensures(MuxHandle::<T>::open_stream, (handle, request, sender), r) ==> {
                let id = (*handle)@.next_stream_id;
                &&& r.0@.stream_id == id
                &&& r.0@.buffered.len() == 0
                &&& !r.0@.sent_close
                &&& r.1 == (MuxFrame::Open { stream_id: id, request })
                &&& (*final(handle))@.streams == (*handle)@.streams.insert(id, sender)
                &&& (*final(handle))@.next_stream_id as int == (id + 2) % 0x1_0000_0000
            },
{
}

/// A stream that the other side opens is taken in under its own number and for what it
/// was opened for; a stream that is released is gone, and others stay.
pub proof fn law_taking_in_and_releasing_streams<T>(id: u32, request: OpenRequest, sender: T)
    ensures
        forall|handle: &mut MuxHandle<T>, r: IncomingStream| #[trigger]
            call_ensures(MuxHandle::<T>::accept_stream, (handle, id, request, sender), r) ==> {
                &&& r.request == request
                &&& r.stream@.stream_id == id
                &&& r.stream@.buffered.len() == 0
                &&& !r.stream@.sent_close
                &&& (*final(handle))@.streams == (*handle)@.streams.insert(id, sender)
                &&& (*final(handle))@.next_stream_id == (*handle)@.next_stream_id
            },
        forall|side: &mut MuxConnection<T>, r: Option<IncomingStream>| #[trigger]
            call_ensures(MuxConnection::<T>::take_request, (side, id, Some(request), sender), r)
                ==> {
                &&& r matches Some(incoming) && incoming.request == request
                    && incoming.stream@.stream_id == id && incoming.stream@.buffered.len() == 0
                &&& (*final(side))@.handle.streams == (*side)@.handle.streams.insert(id, sender)
                &&& (*final(side))@.closed == (*side)@.closed
                &&& (*final(side))@.crypto == (*side)@.crypto
            },
        forall|side: &mut MuxConnection<T>, r: Option<IncomingStream>| #[trigger]
            call_ensures(MuxConnection::<T>::take_request, (side, id, None, sender), r) ==> {
                &&& r is None
                &&& (*final(side))@.closed
                &&& (*final(side))@.handle == (*side)@.handle
            },
        forall|handle: &mut MuxHandle<T>| #[trigger]
            call_ensures(MuxHandle::<T>::release, (handle, id), ()) ==> {
                &&& (*final(handle))@.streams == (*handle)@.streams.remove(id)
                &&& (*final(handle))@.next_stream_id == (*handle)@.next_stream_id
            },
{
}

/// A control message is handed on as it is, and put into a frame as it is; one that
/// could not be read stops the side.
pub proof fn law_handing_on_messages<T>(handle: &MuxHandle<T>, message: ControlMessage)
    ensures
        forall|r: MuxFrame| #[trigger]
            call_ensures(MuxHandle::<T>::send_control, (handle, message), r) ==> r
                == MuxFrame::Control(message),
        forall|side: &mut MuxConnection<T>, r: Option<ControlMessage>| #[trigger]
            call_ensures(MuxConnection::<T>::take_message, (side, Some(message)), r) ==> r == Some(
                message,
            ) && (*final(side))@ == (*side)@,
        forall|side: &mut MuxConnection<T>, r: Option<ControlMessage>| #[trigger]
            call_ensures(MuxConnection::<T>::take_message, (side, None), r) ==> r is None
                && (*final(side))@.closed && (*final(side))@.handle == (*side)@.handle,
{
}

/// A stream's bytes go out under its number and in full; closing it tells the other
/// side its number, the first time.
pub proof fn law_writing_and_closing_a_stream(stream: &VirtualStream, data: &[u8])
    ensures
        forall|r: MuxFrame| #[trigger]
            call_ensures(VirtualStream::data_frame, (stream, data), r) ==> (
            r matches MuxFrame::Data { stream_id, payload } && stream_id == stream@.stream_id
                && payload@ == data@),
        forall|closing: &mut VirtualStream, r: Option<MuxFrame>| #[trigger]
            call_ensures(VirtualStream::close_remote, (closing,), r) ==> {
                &&& (*closing)@.sent_close ==> r is None
                &&& !(*closing)@.sent_close ==> r == Some(
                    MuxFrame::Close { stream_id: (*closing)@.stream_id },
                )
                &&& (*final(closing))@.sent_close
                &&& (*final(closing))@.stream_id == (*closing)@.stream_id
                &&& (*final(closing))@.buffered == (*closing)@.buffered
            },
{
}

/// A read hands out what waits first, as much as there is room for, and keeps the
/// rest; of a chunk that comes it hands out as much as there is room for and lets the
/// rest wait behind what waits already.
pub proof fn law_reading_a_stream(room: usize, chunk: Vec<u8>, filled: bool)
    ensures
        forall|stream: &mut VirtualStream, r: Vec<u8>| #[trigger]
            call_ensures(VirtualStream::begin_read, (stream, room), r) ==> {
                let waiting = (*stream)@.buffered;
                &&& r@ + (*final(stream))@.buffered == waiting
                &&& waiting.len() >= room ==> r@.len() == room
                &&& waiting.len() < room ==> r@.len() == waiting.len()
                &&& (*final(stream))@.stream_id == (*stream)@.stream_id
                &&& (*final(stream))@.sent_close == (*stream)@.sent_close
            },
        forall|stream: &mut VirtualStream, r: ReadOutcome| #[trigger]
            call_ensures(
                VirtualStream::finish_read,
                (stream, Polled::Chunk(chunk), room, filled),
                r,
            ) ==> {
                &&& r matches ReadOutcome::Ready(out) && {
                    &&& chunk@.len() >= room ==> out@ == chunk@.take(room as int)
                    &&& chunk@.len() < room ==> out@ == chunk@
                }
                &&& chunk@.len() >= room ==> (*final(stream))@.buffered == (*stream)@.buffered
                    + chunk@.skip(room as int)
                &&& chunk@.len() < room ==> (*final(stream))@.buffered == (*stream)@.buffered
            },
        forall|stream: &mut VirtualStream, r: ReadOutcome| #[trigger]
            call_ensures(VirtualStream::finish_read, (stream, Polled::Ended, room, filled), r) ==> (
            r matches ReadOutcome::Ready(out) && out@.len() == 0) && (*final(stream))@
                == (*stream)@,
        forall|stream: &mut VirtualStream, r: ReadOutcome| #[trigger]
            call_ensures(VirtualStream::finish_read, (stream, Polled::Pending, room, filled), r)
                ==> {
                &&& filled ==> (r matches ReadOutcome::Ready(out) && out@.len() == 0)
                &&& !filled ==> r is Pending
                &&& (*final(stream))@ == (*stream)@
            },
{
    assert forall|stream: &mut VirtualStream, r: Vec<u8>| #[trigger]
        call_ensures(VirtualStream::begin_read, (stream, room), r) implies {
        let waiting = (*stream)@.buffered;
        &&& r@ + (*final(stream))@.buffered == waiting
        &&& waiting.len() >= room ==> r@.len() == room
        &&& waiting.len() < room ==> r@.len() == waiting.len()
        &&& (*final(stream))@.stream_id == (*stream)@.stream_id
        &&& (*final(stream))@.sent_close == (*stream)@.sent_close
    } by {
        assert(r@ + (*final(stream))@.buffered =~= (*stream)@.buffered);
    }
    assert forall|stream: &mut VirtualStream, r: ReadOutcome| #[trigger]
        call_ensures(
            VirtualStream::finish_read,
            (stream, Polled::Chunk(chunk), room, filled),
            r,
        ) implies {
        &&& r matches ReadOutcome::Ready(out) && {
            &&& chunk@.len() >= room ==> out@ == chunk@.take(room as int)
            &&& chunk@.len() < room ==> out@ == chunk@
        }
        &&& chunk@.len() >= room ==> (*final(stream))@.buffered == (*stream)@.buffered + chunk@.skip(
            room as int,
        )
        &&& chunk@.len() < room ==> (*final(stream))@.buffered == (*stream)@.buffered
    } by {
        assert(chunk@.take(chunk@.len() as int) =~= chunk@);
        assert((*stream)@.buffered + chunk@.skip(chunk@.len() as int) =~= (*stream)@.buffered);
    }
}

/// A message to a side without a secret is acted on as its bytes say: a stream is
/// opened, gets its bytes or is closed under the number in the frame, and control
/// messages are handed on in full.
pub proof fn law_receiving_plain_messages<T>(bytes: Vec<u8>)
    ensures
        forall|side: &mut MuxConnection<T>, r: ReadAction| #[trigger]
            call_ensures(MuxConnection::<T>::receive, (side, RelayMessage::Binary(bytes)), r)
                && (*side)@.crypto is None ==> {
                let b = bytes@;
                let id = 0x100_0000 * b[1] + 0x1_0000 * b[2] + 0x100 * b[3] + b[4];
                let open = (*side)@.handle.streams.dom().contains(id as u32);
                &&& b.len() >= 5 && b[0] == 1 ==> (r matches ReadAction::Open {
                    stream_id,
                    request,
                } && stream_id == id && request@ == b.skip(5))
                &&& b.len() >= 5 && b[0] == 2 && open ==> (r matches ReadAction::Deliver {
                    stream_id,
                    payload,
                } && stream_id == id && payload@ == b.skip(5))
                &&& b.len() >= 5 && b[0] == 2 && !open ==> r is Ignore
                &&& b.len() >= 5 && b[0] == 3 ==> r is Ignore && (*final(side))@.handle.streams
                    == (*side)@.handle.streams.remove(id as u32)
                &&& b.len() >= 5 && b[0] == 4 ==> (r matches ReadAction::Control { message }
                    && message@ == b.skip(5))
                &&& b.len() < 5 || b[0] == 0 || b[0] > 4 ==> r is Stop && (*final(side))@.closed
                &&& b.len() >= 5 && 1 <= b[0] <= 4 ==> (*final(side))@.closed == (*side)@.closed
                &&& !(b.len() >= 5 && b[0] == 3) ==> (*final(side))@.handle == (*side)@.handle
            },
{
    assert forall|side: &mut MuxConnection<T>, r: ReadAction| #[trigger]
        call_ensures(MuxConnection::<T>::receive, (side, RelayMessage::Binary(bytes)), r)
            && (*side)@.crypto is None implies {
        let b = bytes@;
        let id = 0x100_0000 * b[1] + 0x1_0000 * b[2] + 0x100 * b[3] + b[4];
        let open = (*side)@.handle.streams.dom().contains(id as u32);
        &&& b.len() >= 5 && b[0] == 1 ==> (r matches ReadAction::Open { stream_id, request }
            && stream_id == id && request@ == b.skip(5))
        &&& b.len() >= 5 && b[0] == 2 && open ==> (r matches ReadAction::Deliver {
            stream_id,
            payload,
        } && stream_id == id && payload@ == b.skip(5))
        &&& b.len() >= 5 && b[0] == 2 && !open ==> r is Ignore
        &&& b.len() >= 5 && b[0] == 3 ==> r is Ignore && (*final(side))@.handle.streams
            == (*side)@.handle.streams.remove(id as u32)
        &&& b.len() >= 5 && b[0] == 4 ==> (r matches ReadAction::Control { message } && message@
            == b.skip(5))
        &&& b.len() < 5 || b[0] == 0 || b[0] > 4 ==> r is Stop && (*final(side))@.closed
        &&& b.len() >= 5 && 1 <= b[0] <= 4 ==> (*final(side))@.closed == (*side)@.closed
        &&& !(b.len() >= 5 && b[0] == 3) ==> (*final(side))@.handle == (*side)@.handle
    } by {
        law_plain_messages_are_acted_on(
            (*side)@,
            bytes,
            if bytes@.len() >= 5 {
                bytes@.skip(5)
            } else {
                Seq::empty()
            },
        );
    }
}

/// A side with a secret stops on what is not encrypted and on what does not decrypt
/// under its key, its inbound direction and the number in the envelope.
pub proof fn law_receiving_with_a_secret<T>(bytes: Vec<u8>, plain: Vec<u8>)
    ensures
        forall|side: &mut MuxConnection<T>, r: ReadAction| #[trigger]
            call_ensures(MuxConnection::<T>::receive, (side, RelayMessage::Binary(bytes)), r)
                && (*side)@.crypto is Some ==> {
                let b = bytes@;
                let c = (*side)@.crypto->0;
                let opened = aes256_gcm_decrypt(
                    c.key,
                    nonce_bytes(c.inbound_dir, envelope_counter(b)),
                    b.skip(9),
                );
                &&& (*final(side))@.crypto == (*side)@.crypto
                &&& b.len() < 9 || b[0] != 0xE1 ==> r == ReadAction::Stop(StopReason::Unencrypted)
                    && (*final(side))@.closed
                &&& b.len() >= 9 && b[0] == 0xE1 && opened is None ==> r == ReadAction::Stop(
                    StopReason::Undecryptable,
                ) && (*final(side))@.closed
                &&& b.len() >= 9 && b[0] == 0xE1 && opened == Some(plain@) && plain@.len() >= 5
                    && plain@[0] == 1 ==> (r matches ReadAction::Open { stream_id, request }
                    && stream_id == 0x100_0000 * plain@[1] + 0x1_0000 * plain@[2] + 0x100 * plain@[3]
                    + plain@[4] && request@ == plain@.skip(5))
                &&& b.len() >= 9 && b[0] == 0xE1 && opened == Some(plain@) ==> (
                r matches ReadAction::Deliver { stream_id, payload } ==> plain@.len() >= 5
                    && plain@[0] == 2 && stream_id == 0x100_0000 * plain@[1] + 0x1_0000 * plain@[2]
                    + 0x100 * plain@[3] + plain@[4] && payload@ == plain@.skip(5))
            },
{
    assert forall|side: &mut MuxConnection<T>, r: ReadAction| #[trigger]
        call_ensures(MuxConnection::<T>::receive, (side, RelayMessage::Binary(bytes)), r)
            && (*side)@.crypto is Some implies {
        let b = bytes@;
        let c = (*side)@.crypto->0;
        let opened = aes256_gcm_decrypt(
            c.key,
            nonce_bytes(c.inbound_dir, envelope_counter(b)),
            b.skip(9),
        );
        &&& (*final(side))@.crypto == (*side)@.crypto
        &&& b.len() < 9 || b[0] != 0xE1 ==> r == ReadAction::Stop(StopReason::Unencrypted)
            && (*final(side))@.closed
        &&& b.len() >= 9 && b[0] == 0xE1 && opened is None ==> r == ReadAction::Stop(
            StopReason::Undecryptable,
        ) && (*final(side))@.closed
        &&& b.len() >= 9 && b[0] == 0xE1 && opened == Some(plain@) && plain@.len() >= 5 && plain@[0]
            == 1 ==> (r matches ReadAction::Open { stream_id, request } && stream_id == 0x100_0000
            * plain@[1] + 0x1_0000 * plain@[2] + 0x100 * plain@[3] + plain@[4] && request@
            == plain@.skip(5))
        &&& b.len() >= 9 && b[0] == 0xE1 && opened == Some(plain@) ==> (
        r matches ReadAction::Deliver { stream_id, payload } ==> plain@.len() >= 5 && plain@[0] == 2
            && stream_id == 0x100_0000 * plain@[1] + 0x1_0000 * plain@[2] + 0x100 * plain@[3]
            + plain@[4] && payload@ == plain@.skip(5))
    } by {
        law_encrypted_messages_are_opened_first((*side)@, bytes, plain);
        let bare = ConnectionView { crypto: None, ..(*side)@ };
        law_plain_messages_are_acted_on(
            bare,
            plain,
            if plain@.len() >= 5 {
                plain@.skip(5)
            } else {
                Seq::empty()
            },
        );
    }
}

/// A frame that is sent arrives: the bytes are the frame for a side without a secret,
/// and the envelope of its ciphertext for one with a secret. A frame that could not be
/// encoded is skipped.
pub proof fn law_sending_frames<T>(frame: &WireFrame)
    ensures
        forall|side: &mut MuxConnection<T>, r: Result<Vec<u8>, CryptoError>| #[trigger]
            call_ensures(MuxConnection::<T>::send_frame, (side, frame), r) ==> {
                &&& (*side)@.crypto is None ==> (r matches Ok(bytes) && bytes@ == frame@.encoded())
                &&& (*side)@.crypto matches Some(c) ==> {
                    &&& r is Ok <==> frame@.encoded().len() <= 0x10_0000_0000
                    &&& r matches Ok(bytes) ==> bytes@[0] == 0xE1 && aes256_gcm_encrypt(
                        c.key,
                        nonce_bytes(c.outbound_dir, c.outbound_counter),
                        frame@.encoded(),
                    ) == Some(bytes@.skip(9)) && envelope_counter(bytes@) == c.outbound_counter
                }
            },
        forall|side: &mut MuxConnection<T>, r: WriteAction| #[trigger]
            call_ensures(MuxConnection::<T>::write_step, (side, Some(frame)), r) ==> {
                &&& (*side)@.crypto is None ==> (r matches WriteAction::Send(bytes) && bytes@
                    == frame@.encoded())
                &&& (*side)@.crypto matches Some(c) ==> {
                    &&& frame@.encoded().len() > 0x10_0000_0000 ==> r is Stop
                    &&& frame@.encoded().len() <= 0x10_0000_0000 ==> (
                    r matches WriteAction::Send(bytes) && bytes@[0] == 0xE1 && aes256_gcm_encrypt(
                        c.key,
                        nonce_bytes(c.outbound_dir, c.outbound_counter),
                        frame@.encoded(),
                    ) == Some(bytes@.skip(9)) && envelope_counter(bytes@) == c.outbound_counter)
                }
            },
        forall|side: &mut MuxConnection<T>, r: WriteAction| #[trigger]
            call_ensures(MuxConnection::<T>::write_step, (side, None), r) ==> r is Skip
                && (*final(side))@ == (*side)@,
{
    assert forall|side: &mut MuxConnection<T>, r: Result<Vec<u8>, CryptoError>| #[trigger]
        call_ensures(MuxConnection::<T>::send_frame, (side, frame), r) implies {
        &&& (*side)@.crypto is None ==> (r matches Ok(bytes) && bytes@ == frame@.encoded())
        &&& (*side)@.crypto matches Some(c) ==> {
            &&& r is Ok <==> frame@.encoded().len() <= 0x10_0000_0000
            &&& r matches Ok(bytes) ==> bytes@[0] == 0xE1 && aes256_gcm_encrypt(
                c.key,
                nonce_bytes(c.outbound_dir, c.outbound_counter),
                frame@.encoded(),
            ) == Some(bytes@.skip(9)) && envelope_counter(bytes@) == c.outbound_counter
        }
    } by {
        if let Ok(bytes) = r {
            law_carried_frames_arrive((*side)@, frame@, bytes@, None);
        }
    }
    assert forall|side: &mut MuxConnection<T>, r: WriteAction| #[trigger]
        call_ensures(MuxConnection::<T>::write_step, (side, Some(frame)), r) implies {
        &&& (*side)@.crypto is None ==> (r matches WriteAction::Send(bytes) && bytes@
            == frame@.encoded())
        &&& (*side)@.crypto matches Some(c) ==> {
            &&& frame@.encoded().len() > 0x10_0000_0000 ==> r is Stop
            &&& frame@.encoded().len() <= 0x10_0000_0000 ==> (r matches WriteAction::Send(bytes)
                && bytes@[0] == 0xE1 && aes256_gcm_encrypt(
                c.key,
                nonce_bytes(c.outbound_dir, c.outbound_counter),
                frame@.encoded(),
            ) == Some(bytes@.skip(9)) && envelope_counter(bytes@) == c.outbound_counter)
        }
    } by {
        if let WriteAction::Send(bytes) = r {
            law_carried_frames_arrive((*side)@, frame@, bytes@, None);
        }
    }
}

/// The two sides of a connection: the access node's first stream has the number one and
/// the serving node's two; both keys are the digest of the whole secret, and each side
/// listens in the direction in which the other sends.
pub proof fn law_making_the_two_sides<T>(
    secret: &str,
    access: MuxConnection<T>,
    serving: MuxConnection<T>,
)
    requires
        call_ensures(access_side::<T>, (Some(secret),), access),
        call_ensures(serving_side::<T>, (Some(secret),), serving),
    ensures
        access@.handle.next_stream_id == 1,
        serving@.handle.next_stream_id == 2,
        access@.crypto matches Some(a) && serving@.crypto matches Some(s) && {
            &&& a.key == sha256(encode_utf8(secret@)) && s.key == a.key
            &&& a.outbound_dir == 0 && s.outbound_dir == 1
            &&& a.inbound_dir == s.outbound_dir && s.inbound_dir == a.outbound_dir
            &&& a.outbound_counter == 0 && s.outbound_counter == 0
        },
        !access@.closed && !serving@.closed,
{
}

/// After the relay has named access nodes, each of them is served, those that were not
/// served before are to be started, once, and nobody else is.
pub proof fn law_following_the_relay<M>(
    connection_ids: Vec<String>,
    connection_id: String,
    i: int,
)
    requires
        0 <= i < connection_ids@.len(),
    ensures
        forall|state: &mut ServeState<M>, r: Vec<String>| #[trigger]
            call_ensures(
                ServeState::<M>::on_relay_event,
                (state, RelayControlEvent::Sync { connection_ids }),
                r,
            ) ==> {
                let id = connection_ids@[i]@;
                &&& (*final(state))@.active.contains(id)
                &&& !(*state)@.active.contains(id) <==> exists|k: int|
                    0 <= k < r@.len() && (#[trigger] r@[k])@ == id
                &&& forall|k: int|
                    0 <= k < r@.len() ==> !(*state)@.active.contains((#[trigger] r@[k])@)
                &&& (*final(state))@.providers == (*state)@.providers
                &&& (*final(state))@.local == (*state)@.local
            },
        forall|state: &mut ServeState<M>, r: Vec<String>| #[trigger]
            call_ensures(
                ServeState::<M>::on_relay_event,
                (state, RelayControlEvent::Connected { connection_id }),
                r,
            ) ==> {
                &&& (*final(state))@.active.contains(connection_id@)
                &&& (*state)@.active.contains(connection_id@) ==> r@.len() == 0
                &&& !(*state)@.active.contains(connection_id@) ==> r@.len() == 1 && r@[0]@
                    == connection_id@
                &&& (*final(state))@.providers == (*state)@.providers
                &&& (*final(state))@.local == (*state)@.local
            },
{
    assert forall|state: &mut ServeState<M>, r: Vec<String>| #[trigger]
        call_ensures(
            ServeState::<M>::on_relay_event,
            (state, RelayControlEvent::Sync { connection_ids }),
            r,
        ) implies {
        let id = connection_ids@[i]@;
        &&& (*final(state))@.active.contains(id)
        &&& !(*state)@.active.contains(id) <==> exists|k: int|
            0 <= k < r@.len() && (#[trigger] r@[k])@ == id
        &&& forall|k: int| 0 <= k < r@.len() ==> !(*state)@.active.contains((#[trigger] r@[k])@)
        &&& (*final(state))@.providers == (*state)@.providers
        &&& (*final(state))@.local == (*state)@.local
    } by {
        let id = connection_ids@[i]@;
        let ids = connected_ids(RelayControlEvent::Sync { connection_ids });
        let started = newly_connected((*state)@.active, ids);
        assert(ids[i] == id);
        assert(ids.contains(id));
        law_nodes_start_once((*state)@.active, ids);
        assert(texts(r@) == started);
        assert(texts(r@).len() == r@.len());
        assert(started.contains(id) <==> !(*state)@.active.contains(id));
        if started.contains(id) {
            let k = choose|k: int| 0 <= k < started.len() && started[k] == id;
            assert(texts(r@)[k] == r@[k]@);
        }
        assert forall|k: int| 0 <= k < r@.len() implies !(*state)@.active.contains(
            (#[trigger] r@[k])@,
        ) by {
            assert(texts(r@)[k] == r@[k]@);
            assert(started.contains(started[k]));
        }
        if exists|k: int| 0 <= k < r@.len() && (#[trigger] r@[k])@ == id {
            let k = choose|k: int| 0 <= k < r@.len() && (#[trigger] r@[k])@ == id;
            assert(texts(r@)[k] == id);
            assert(started.contains(id));
        }
    }
    assert forall|state: &mut ServeState<M>, r: Vec<String>| #[trigger]
        call_ensures(
            ServeState::<M>::on_relay_event,
            (state, RelayControlEvent::Connected { connection_id }),
            r,
        ) implies {
        &&& (*final(state))@.active.contains(connection_id@)
        &&& (*state)@.active.contains(connection_id@) ==> r@.len() == 0
        &&& !(*state)@.active.contains(connection_id@) ==> r@.len() == 1 && r@[0]@
            == connection_id@
        &&& (*final(state))@.providers == (*state)@.providers
        &&& (*final(state))@.local == (*state)@.local
    } by {
        let ids = connected_ids(RelayControlEvent::Connected { connection_id });
        assert(ids =~= seq![connection_id@]);
        let started = newly_connected((*state)@.active, ids);
        assert(ids.drop_last() =~= Seq::<Seq<char>>::empty());
        assert(newly_connected((*state)@.active, ids.drop_last()) == Seq::<Seq<char>>::empty());
        assert(texts(r@) == started);
        assert(texts(r@).len() == r@.len());
        if started.len() > 0 {
            assert(texts(r@)[0] == r@[0]@);
        }
    }
}

/// A node stops to follow its control channel on a text that it cannot read, on an
/// error and at the end, and says which; other messages change nothing.
pub proof fn law_following_the_control_channel<M>()
    ensures
        forall|state: &mut ServeState<M>, r: ControlStep| #[trigger]
            call_ensures(ServeState::<M>::on_control, (state, ControlInput::Unreadable), r) ==> r
                == ControlStep::Stop(ControlEnd::Unreadable) && (*final(state))@ == (*state)@,
        forall|state: &mut ServeState<M>, r: ControlStep| #[trigger]
            call_ensures(ServeState::<M>::on_control, (state, ControlInput::Failed), r) ==> r
                == ControlStep::Stop(ControlEnd::Failed) && (*final(state))@ == (*state)@,
        forall|state: &mut ServeState<M>, r: ControlStep| #[trigger]
            call_ensures(ServeState::<M>::on_control, (state, ControlInput::Ended), r) ==> r
                == ControlStep::Stop(ControlEnd::Ended) && (*final(state))@ == (*state)@,
        forall|state: &mut ServeState<M>, r: ControlStep| #[trigger]
            call_ensures(ServeState::<M>::on_control, (state, ControlInput::Other), r) ==> (
            r matches ControlStep::Serve(ids) && ids@.len() == 0) && (*final(state))@
                == (*state)@,
        forall|state: &mut ServeState<M>, event: RelayControlEvent, r: ControlStep, i: int|
            #[trigger] call_ensures(ServeState::<M>::on_control, (state, ControlInput::Event(event)), r)
                ==> r is Serve && (*final(state))@.providers == (*state)@.providers && ((
            event matches RelayControlEvent::Sync { connection_ids } && 0 <= i
                < connection_ids@.len()) ==> (*final(state))@.active.contains(
                (#[trigger] event->connection_ids@[i])@,
            )),
{
    assert forall|state: &mut ServeState<M>, event: RelayControlEvent, r: ControlStep, i: int|
        #[trigger] call_ensures(ServeState::<M>::on_control, (state, ControlInput::Event(event)), r)
            implies r is Serve && (*final(state))@.providers == (*state)@.providers && ((
    event matches RelayControlEvent::Sync { connection_ids } && 0 <= i < connection_ids@.len())
        ==> (*final(state))@.active.contains((#[trigger] event->connection_ids@[i])@)) by {
        if let RelayControlEvent::Sync { connection_ids } = event {
            if 0 <= i < connection_ids@.len() {
                let ids = connected_ids(event);
                assert(ids[i] == connection_ids@[i]@);
                assert(ids.to_set().contains(ids[i]));
            }
        }
    }
}

/// An access node that asks for a name gets it unless another one has it; it is told
/// which, and a name that is given is given as it was asked for.
pub proof fn law_registering_providers<M>(
    connection_id: &str,
    name: String,
    auth: Option<String>,
    mux: M,
)
    ensures
        forall|state: &mut ServeState<M>, r: ControlMessage| #[trigger]
            call_ensures(
                ServeState::<M>::handle_bind,
                (state, connection_id, name, auth, mux),
                r,
            ) ==> {
                let had = (*state)@.providers;
                let has = (*final(state))@.providers;
                let taken = had.dom().contains(name@) && had[name@].connection_id
                    != connection_id@;
                &&& r matches ControlMessage::BindAck { name: n, ok, error } && n@ == name@ && (ok
                    <==> !taken) && (error is Some <==> taken)
                &&& taken ==> (*final(state))@ == (*state)@
                &&& !taken ==> {
                    &&& has.dom().contains(name@)
                    &&& has[name@].connection_id == connection_id@
                    &&& has[name@].mux == mux
                    &&& has[name@].auth is Some <==> auth is Some
                    &&& auth matches Some(a) ==> has[name@].auth == Some(a@)
                    &&& forall|other: Seq<char>| #[trigger]
                        has.dom().contains(other) && other != name@ ==> had.dom().contains(other)
                            && has[other] == had[other]
                    &&& forall|other: Seq<char>| #[trigger]
                        had.dom().contains(other) ==> has.dom().contains(other)
                }
                &&& (*final(state))@.active == (*state)@.active
                &&& (*final(state))@.local == (*state)@.local
            },
{
}

/// An access node that ends is let go with its providers; others keep theirs.
pub proof fn law_letting_a_node_go<M>(connection_id: &str)
    ensures
        forall|state: &mut ServeState<M>| #[trigger]
            call_ensures(ServeState::<M>::ended, (state, connection_id), ()) ==> {
                let had = (*state)@.providers;
                let has = (*final(state))@.providers;
                &&& (*final(state))@.active == (*state)@.active.remove(connection_id@)
                &&& forall|name: Seq<char>| #[trigger]
                    has.dom().contains(name) <==> had.dom().contains(name)
                        && had[name].connection_id != connection_id@
                &&& forall|name: Seq<char>| #[trigger]
                    has.dom().contains(name) ==> has[name] == had[name]
                &&& (*final(state))@.local == (*state)@.local
            },
{
}

/// A visitor is sent to the provider that this node offers itself, or to the access
/// node that has registered one, by the name that it asks for, if its auth value is the
/// provider's or the provider asks for none.
pub proof fn law_sending_visitors<'a, M>(
    state: &'a ServeState<M>,
    name: &str,
    auth: &Option<String>,
    r: Result<VisitRoute<'a, M>, VisitError>,
)
    requires
        call_ensures(ServeState::<M>::handle_visit, (state, name, auth), r),
    ensures
        ({
            let here = state@.local.dom().contains(name@);
            let there = state@.providers.dom().contains(name@);
            let asked = if here {
                state@.local[name@].auth
            } else {
                state@.providers[name@].auth
            };
            let admitted = asked is None || asked->0.len() == 0 || (auth is Some && auth->0@
                == asked->0);
            &&& !here && !there ==> (r matches Err(e) && e == VisitError::NotFound)
            &&& (here || there) && !admitted ==> (r matches Err(e) && e == VisitError::AuthRejected)
            &&& here && admitted ==> (r matches Ok(VisitRoute::Local { addr }) && addr@
                == state@.local[name@].addr)
            &&& !here && there && admitted ==> (r matches Ok(VisitRoute::Provider { mux, request })
                && *mux == state@.providers[name@].mux
                && (request matches OpenRequest::ProviderConnect { name: n } && n@ == name@))
        }),
{
}

/// A node that starts to serve serves nobody, has nothing registered, and offers its own
/// providers, the last one of each name.
pub proof fn law_starting_to_serve<M>(
    providers: Vec<TcpMapping>,
    r: ServeState<M>,
    name: Seq<char>,
)
    requires
        call_ensures(ServeState::<M>::new, (providers,), r),
    ensures
        r@.active == Set::<Seq<char>>::empty(),
        r@.providers.dom() == Set::<Seq<char>>::empty(),
        r@.local.dom().contains(name) <==> exists|i: int|
            0 <= i < providers@.len() && (#[trigger] providers@[i]).name@ == name,
        r@.local.dom().contains(name) ==> exists|i: int|
            0 <= i < providers@.len() && (#[trigger] providers@[i]).name@ == name && (forall|j: int|
                i < j < providers@.len() ==> (#[trigger] providers@[j]).name@ != name)
                && r@.local[name].addr == providers@[i].addr@ && r@.local[name].auth
                == providers@[i]@.auth,
{
    law_the_last_mapping_of_a_name_counts(providers@, name);
    assert(r@.providers.dom() =~= Set::<Seq<char>>::empty());
}

/// A serving node serves SOCKS5, sends visitors on and registers providers as it is asked
/// to, drops what access nodes do not send, and stops when the channel is closed.
pub proof fn law_serving(name: String, auth: Option<String>, ok: bool, r: ServeAction)
    ensures
        call_ensures(serve_action, (PeerEvent::Incoming(OpenRequest::Socks),), r) ==> r
            is ServeSocks,
        call_ensures(serve_action, (PeerEvent::Incoming(OpenRequest::Visit { name, auth }),), r)
            ==> r == (ServeAction::Visit { name, auth }),
        call_ensures(
            serve_action,
            (PeerEvent::Incoming(OpenRequest::ProviderConnect { name }),),
            r,
        ) ==> r is UnexpectedStream,
        call_ensures(serve_action, (PeerEvent::Control(ControlMessage::Bind { name, auth }),), r)
            ==> r == (ServeAction::Bind { name, auth }),
        call_ensures(
            serve_action,
            (PeerEvent::Control(ControlMessage::BindAck { name, ok, error: auth }),),
            r,
        ) ==> r is UnexpectedMessage,
        call_ensures(
            serve_action,
            (PeerEvent::Control(ControlMessage::Info { message: name }),),
            r,
        ) ==> r is UnexpectedMessage,
        call_ensures(serve_action, (PeerEvent::Closed,), r) ==> r is Stop,
{
}

/// An access node asks for each of its providers, in order and with its auth value.
pub proof fn law_offering_providers(
    providers: &Vec<TcpMapping>,
    r: Vec<ControlMessage>,
    i: int,
)
    requires
        call_ensures(bind_messages, (providers,), r),
        0 <= i < providers@.len(),
    ensures
        r@.len() == providers@.len(),
        r@[i] matches ControlMessage::Bind { name, auth } && name@ == providers@[i].name@ && (
        auth is Some <==> providers@[i].auth is Some) && (auth matches Some(a) ==> a@
            == providers@[i].auth->0@),
{
}

/// The requests of visitors name the provider and carry the auth value of the mapping; an
/// access node listens for SOCKS5 if it has an address and was not told not to.
pub proof fn law_asking_for_streams(
    provider: &TcpMapping,
    visitor: &VisitorMapping,
    no_socks5: bool,
    socks5: &str,
)
    ensures
        forall|r: OpenRequest| #[trigger]
            call_ensures(provider_visit, (provider,), r) ==> (r matches OpenRequest::Visit {
                name,
                auth,
            } && name@ == provider.name@ && (auth is Some <==> provider.auth is Some) && (
            auth matches Some(a) ==> a@ == provider.auth->0@)),
        forall|r: OpenRequest| #[trigger]
            call_ensures(service_visit, (visitor,), r) ==> (r matches OpenRequest::Visit {
                name,
                auth,
            } && name@ == visitor.service@ && (auth is Some <==> visitor.auth is Some) && (
            auth matches Some(a) ==> a@ == visitor.auth->0@)),
        forall|r: bool| #[trigger]
            call_ensures(serves_socks, (no_socks5, socks5), r) ==> (r <==> !no_socks5
                && socks5@.len() > 0),
{
}

/// Connection ids name the nodes, unless one was asked for.
pub proof fn law_naming_connections(asked: String, name: &str, node: &str)
    ensures
        forall|r: String| #[trigger]
            call_ensures(access_connection_id, (&Some(asked), name), r) ==> r@ == asked@,
        forall|r: String| #[trigger]
            call_ensures(access_connection_id, (&None, name), r) ==> r@ == "access-"@ + name@,
        forall|r: String| #[trigger]
            call_ensures(visitor_connection_id, (&Some(asked), name, node), r) ==> r@ == asked@,
        forall|r: String| #[trigger]
            call_ensures(visitor_connection_id, (&None, name, node), r) ==> r@ == "access-"@
                + name@ + "-to-"@ + node@,
{
}

/// An access node connects a stream to the address of the last provider with the name
/// that is asked for, and drops it if it has none.
pub proof fn law_dialling_providers(
    providers: &Vec<TcpMapping>,
    targets: &ProviderTargets,
    name: String,
    r: AccessAction,
    i: int,
)
    requires
        call_ensures(ProviderTargets::new, (providers,), *targets),
        call_ensures(
            ProviderTargets::access_action,
            (targets, PeerEvent::Incoming(OpenRequest::ProviderConnect { name })),
            r,
        ),
    ensures
        0 <= i < providers@.len() && providers@[i].name@ == name@ && (forall|j: int|
            i < j < providers@.len() ==> (#[trigger] providers@[j]).name@ != name@) ==> (
        r matches AccessAction::Dial { name: n, target } && n == name && target@
            == providers@[i].addr@),
        (forall|j: int| 0 <= j < providers@.len() ==> (#[trigger] providers@[j]).name@ != name@)
            ==> r == (AccessAction::UnknownProvider { name }),
{
    law_the_last_provider_of_a_name_is_dialled(providers@, name@);
    if 0 <= i < providers@.len() && providers@[i].name@ == name@ && (forall|j: int|
        i < j < providers@.len() ==> (#[trigger] providers@[j]).name@ != name@) {
        let k = choose|k: int|
            0 <= k < providers@.len() && (#[trigger] providers@[k]).name@ == name@ && (forall|j:
                int|
                k < j < providers@.len() ==> (#[trigger] providers@[j]).name@ != name@)
                && target_map(providers@)[name@] == providers@[k].addr@;
        assert(k == i);
    }
}

/// An access node notes what became of its providers and what it is told, drops streams
/// that serving nodes do not open, and stops when the connection is closed.
pub proof fn law_being_served(
    targets: &ProviderTargets,
    name: String,
    text: Option<String>,
    r: AccessAction,
)
    ensures
        call_ensures(
            ProviderTargets::access_action,
            (targets, PeerEvent::Incoming(OpenRequest::Socks)),
            r,
        ) ==> r is UnexpectedStream,
        call_ensures(
            ProviderTargets::access_action,
            (targets, PeerEvent::Incoming(OpenRequest::Visit { name, auth: text })),
            r,
        ) ==> r is UnexpectedStream,
        call_ensures(
            ProviderTargets::access_action,
            (
                targets,
                PeerEvent::Control(ControlMessage::BindAck { name, ok: true, error: text }),
            ),
            r,
        ) ==> r == (AccessAction::Registered { name }),
        call_ensures(
            ProviderTargets::access_action,
            (
                targets,
                PeerEvent::Control(ControlMessage::BindAck { name, ok: false, error: text }),
            ),
            r,
        ) ==> (r matches AccessAction::Rejected { name: n, error } && n == name && (
        text matches Some(t) ==> error@ == t@) && (text is None ==> error@ == "unknown error"@)),
        call_ensures(
            ProviderTargets::access_action,
            (targets, PeerEvent::Control(ControlMessage::Info { message: name })),
            r,
        ) ==> r == (AccessAction::Note { message: name }),
        call_ensures(
            ProviderTargets::access_action,
            (targets, PeerEvent::Control(ControlMessage::Bind { name, auth: text })),
            r,
        ) ==> r is Ignore,
        call_ensures(ProviderTargets::access_action, (targets, PeerEvent::Closed), r) ==> r is Stop,
{
}

/// A listing shows the node with the URL under which it is reached, and each visitor, in
/// order.
pub proof fn law_listing(
    relay: &str,
    name: &str,
    visitors: &Vec<VisitorMapping>,
    i: int,
)
    ensures
        forall|r: Vec<String>| #[trigger]
            call_ensures(list_relay_nodes, (relay, name), r) ==> r@.len() == 6 && r@[3]@
                == "[1] ID: "@ + name@ + " | Relay: "@ + ws_url(relay@, name@, "client"@, None),
        forall|r: Vec<String>| #[trigger]
            call_ensures(list_node, (relay, name, visitors), r) ==> {
                &&& r@.len() == visitors@.len() + 6
                &&& r@[3]@ == "Self node: "@ + name@ + " | Relay: "@ + ws_url(
                    relay@,
                    name@,
                    "server"@,
                    None,
                )
                &&& 0 <= i < visitors@.len() ==> r@[4 + i]@ == "Visitor: "@ + visitors@[i].node@
                    + ":"@ + visitors@[i].service@ + " -> "@ + visitors@[i].bind_addr@
            },
{
    assert forall|r: Vec<String>| #[trigger]
        call_ensures(list_relay_nodes, (relay, name), r) implies r@.len() == 6 && r@[3]@
        == "[1] ID: "@ + name@ + " | Relay: "@ + ws_url(relay@, name@, "client"@, None) by {
        assert(texts(r@).len() == r@.len());
        assert(texts(r@)[3] == r@[3]@);
    }
    assert forall|r: Vec<String>| #[trigger]
        call_ensures(list_node, (relay, name, visitors), r) implies {
        &&& r@.len() == visitors@.len() + 6
        &&& r@[3]@ == "Self node: "@ + name@ + " | Relay: "@ + ws_url(
            relay@,
            name@,
            "server"@,
            None,
        )
        &&& 0 <= i < visitors@.len() ==> r@[4 + i]@ == "Visitor: "@ + visitors@[i].node@ + ":"@
            + visitors@[i].service@ + " -> "@ + visitors@[i].bind_addr@
    } by {
        let lines = node_listing(relay@, name@, visitors@);
        law_node_listings(relay@, name@, visitors@);
        assert(texts(r@) == lines);
        assert(texts(r@).len() == r@.len());
        assert(texts(r@)[3] == r@[3]@);
        if 0 <= i < visitors@.len() {
            assert(lines[4 + i] == texts(r@)[4 + i]);
            assert(texts(r@)[4 + i] == r@[4 + i]@);
        }
    }
}

/// The text of an IPv4 address, cut at its dots, is the four bytes of the address in
/// decimal.
pub proof fn law_writing_ipv4_addresses(b: &[u8], r: String)
    requires
        call_ensures(ipv4_address, (b,), r),
        b@.len() == 4,
    ensures
        split_limited(r@, 4, '.').len() == 4,
        forall|i: int|
            0 <= i < 4 ==> decimal_value(#[trigger] split_limited(r@, 4, '.')[i]) == b@[i],
{
    law_ipv4_texts_read_back(b@);
}

/// The text of an IPv6 address that stands for an IPv4 address ends in that address; that
/// of another one without two zero pairs of bytes in a row is all its pairs in
/// hexadecimal.
pub proof fn law_writing_ipv6_addresses(b: &[u8], r: String)
    requires
        call_ensures(ipv6_address, (b,), r),
        b@.len() == 16,
    ensures
        is_zero_between(b@, 0, 5) && b@[10] == 0xff && b@[11] == 0xff ==> r@ == "::ffff:"@
            + ipv4_text(seq![b@[12], b@[13], b@[14], b@[15]]),
        (forall|j: int| 0 <= j < 7 ==> !#[trigger] is_zero_between(b@, j, 2)) ==> r@ == groups_text(
            pair_numbers(b@, 0, 8),
        ),
{
    if is_zero_between(b@, 0, 5) && b@[10] == 0xff && b@[11] == 0xff {
        law_mapped_addresses_end_in_ipv4(b@);
    }
    if forall|j: int| 0 <= j < 7 ==> !#[trigger] is_zero_between(b@, j, 2) {
        law_ipv6_texts_without_runs(b@);
    }
}

/// Answers are ten bytes with their code in the second; a target that was connected is
/// answered with zero and one that was not with five.
pub proof fn law_answering(code: u8, connected: bool)
    ensures
        forall|r: Vec<u8>| #[trigger]
            call_ensures(reply_bytes, (code,), r) ==> r@ == seq![
                5u8,
                code,
                0u8,
                1u8,
                0u8,
                0u8,
                0u8,
                0u8,
                0u8,
                0u8,
            ],
        forall|r: Vec<u8>| #[trigger]
            call_ensures(connect_reply, (connected,), r) ==> r@ == seq![
                5u8,
                if connected {
                    0u8
                } else {
                    5u8
                },
                0u8,
                1u8,
                0u8,
                0u8,
                0u8,
                0u8,
                0u8,
                0u8,
            ],
{
}

/// What a server does about a greeting, a list of methods and a request.
pub proof fn law_negotiating(bytes: &[u8], count: u8, r: SocksStep)
    ensures
        bytes@.len() == 2 && call_ensures(SocksStage::step, (SocksStage::Greeting, bytes), r) ==> {
            &&& r.send@.len() == 0
            &&& bytes@[0] == 5 ==> (r.next matches SocksNext::Read(SocksStage::Methods { count: n })
                && n == bytes@[1])
            &&& bytes@[0] != 5 ==> (r.next matches SocksNext::Fail(e) && e == SocksError::Version(
                bytes@[0],
            ))
        },
        bytes@.len() == count && call_ensures(
            SocksStage::step,
            (SocksStage::Methods { count }, bytes),
            r,
        ) ==> r.send@ == seq![5u8, 0u8] && (r.next matches SocksNext::Read(SocksStage::Request)),
        bytes@.len() == 4 && call_ensures(SocksStage::step, (SocksStage::Request, bytes), r) ==> {
            let version = bytes@[0];
            let command = bytes@[1];
            let kind = bytes@[3];
            if version != 5 {
                r.send@.len() == 0 && (r.next matches SocksNext::Fail(e) && e
                    == SocksError::RequestVersion(version))
            } else if command != 1 {
                r.send@ == seq![5u8, 7u8, 0u8, 1u8, 0u8, 0u8, 0u8, 0u8, 0u8, 0u8] && (
                r.next matches SocksNext::Fail(e) && e == SocksError::Command)
            } else if kind == 1 {
                r.send@.len() == 0 && (r.next matches SocksNext::Read(SocksStage::Ipv4))
            } else if kind == 3 {
                r.send@.len() == 0 && (r.next matches SocksNext::Read(SocksStage::DomainLength))
            } else if kind == 4 {
                r.send@.len() == 0 && (r.next matches SocksNext::Read(SocksStage::Ipv6))
            } else {
                r.send@ == seq![5u8, 8u8, 0u8, 1u8, 0u8, 0u8, 0u8, 0u8, 0u8, 0u8] && (
                r.next matches SocksNext::Fail(e) && e == SocksError::AddressType(kind))
            }
        },
{
}

/// What a server does about an address and a port: the host is the text of the address or
/// the domain name, and the target is the host, a colon and the port in decimal.
pub proof fn law_finding_targets(bytes: &[u8], count: u8, host: String, r: SocksStep)
    ensures
        bytes@.len() == 4 && call_ensures(SocksStage::step, (SocksStage::Ipv4, bytes), r) ==> (
        r.next matches SocksNext::Read(SocksStage::Port { host: h }) && split_limited(
            h@,
            4,
            '.',
        ).len() == 4 && forall|i: int|
            0 <= i < 4 ==> decimal_value(#[trigger] split_limited(h@, 4, '.')[i]) == bytes@[i]),
        bytes@.len() == 1 && call_ensures(SocksStage::step, (SocksStage::DomainLength, bytes), r)
            ==> (r.next matches SocksNext::Read(SocksStage::Domain { count: n }) && n == bytes@[0]),
        bytes@.len() == count && call_ensures(
            SocksStage::step,
            (SocksStage::Domain { count }, bytes),
            r,
        ) ==> {
            &&& valid_utf8(bytes@) ==> (r.next matches SocksNext::Read(SocksStage::Port { host: h })
                && h@ == decode_utf8(bytes@))
            &&& !valid_utf8(bytes@) ==> r.next is Fail && r.send@.len() == 0
        },
        bytes@.len() == 2 && call_ensures(SocksStage::step, (SocksStage::Port { host }, bytes), r)
            ==> (r.next matches SocksNext::Connect { target } && target@.take(host@.len() as int)
            == host@ && target@[host@.len() as int] == ':' && decimal_value(
            target@.skip(host@.len() as int + 1),
        ) == 0x100 * bytes@[0] + bytes@[1]),
{
    if bytes@.len() == 4 {
        law_ipv4_texts_read_back(bytes@);
    }
    if bytes@.len() == 2 {
        law_numbers_of_bytes(bytes@[0], bytes@[1], 0, 0, 0, 0, 0, 0);
        assert(bytes@ =~= seq![bytes@[0], bytes@[1]]);
        law_targets_are_host_and_port(host@, be_value(bytes@));
    }
}

/// Mappings with too few fields or with blank ones are refused, each for its reason, and
/// no others.
pub proof fn law_refusing_mappings(
    value: &str,
    first: Seq<char>,
    second: Seq<char>,
    third: Seq<char>,
    fourth: Seq<char>,
)
    requires
        !first.contains(':'),
        !second.contains(':'),
        !third.contains(':'),
        !fourth.contains(':'),
    ensures
        forall|r: Result<TcpMapping, MappingError>| #[trigger]
            call_ensures(parse_tcp_mapping_inner, (value,), r) ==> {
                &&& value@ == first || value@ == first + seq![':'] + second ==> r == Err::<
                    TcpMapping,
                    MappingError,
                >(MappingError::TcpFields)
                &&& value@ == first + seq![':'] + (second + seq![':'] + third) ==> {
                    &&& is_blank(first) <==> r == Err::<TcpMapping, MappingError>(
                        MappingError::TcpName,
                    )
                    &&& !is_blank(first) && (is_blank(second) || is_blank(third)) <==> r == Err::<
                        TcpMapping,
                        MappingError,
                    >(MappingError::TcpAddress)
                    &&& !is_blank(first) && !is_blank(second) && !is_blank(third) <==> r is Ok
                }
            },
        forall|r: Result<VisitorMapping, MappingError>| #[trigger]
            call_ensures(parse_visitor_mapping_inner, (value,), r) ==> {
                &&& value@ == first || value@ == first + seq![':'] + second || value@ == first
                    + seq![':'] + (second + seq![':'] + third) ==> r == Err::<
                    VisitorMapping,
                    MappingError,
                >(MappingError::VisitorFields)
                &&& value@ == first + seq![':'] + (second + seq![':'] + (third + seq![':'] + fourth))
                    ==> {
                    &&& is_blank(first) || is_blank(second) <==> r == Err::<
                        VisitorMapping,
                        MappingError,
                    >(MappingError::VisitorTarget)
                    &&& !is_blank(first) && !is_blank(second) && (is_blank(third) || is_blank(
                        fourth,
                    )) <==> r == Err::<VisitorMapping, MappingError>(MappingError::VisitorAddress)
                    &&& !is_blank(first) && !is_blank(second) && !is_blank(third) && !is_blank(
                        fourth,
                    ) <==> r is Ok
                }
            },
{
    law_refused_provider_mappings(first, second, third, fourth);
    law_refused_visitor_mappings(first, second, third, fourth, Seq::empty());
}

/// A side that starts has no streams and listens; a stream is found by its number; a side
/// that stops keeps its streams and its encryption.
pub proof fn law_using_a_side<T>(
    first: u32,
    side: &MuxConnection<T>,
    handle: &MuxHandle<T>,
    stream: &VirtualStream,
    incoming: IncomingStream,
    id: u32,
)
    ensures
        forall|r: MuxConnection<T>| #[trigger]
            call_ensures(MuxConnection::<T>::start, (first, None), r) ==> r@.handle.next_stream_id
                == first && r@.handle.streams == Map::<u32, T>::empty() && r@.crypto is None
                && !r@.closed,
        forall|r: bool| #[trigger]
            call_ensures(MuxConnection::<T>::closed, (side,), r) ==> r == side@.closed,
        forall|stopping: &mut MuxConnection<T>| #[trigger]
            call_ensures(MuxConnection::<T>::stop, (stopping,), ()) ==> (*final(stopping))@.closed
                && (*final(stopping))@.handle == (*stopping)@.handle && (*final(stopping))@.crypto
                == (*stopping)@.crypto,
        forall|r: Option<&T>| #[trigger]
            call_ensures(MuxHandle::<T>::sender, (handle, id), r) ==> (r is Some
                <==> handle@.streams.dom().contains(id)) && (r matches Some(t) ==> *t
                == handle@.streams[id]),
        forall|r: u32| #[trigger]
            call_ensures(VirtualStream::id, (stream,), r) ==> r == stream@.stream_id,
        forall|r: VirtualStream| #[trigger]
            call_ensures(IncomingStream::into_stream, (incoming,), r) ==> r == incoming.stream,
{
}

/// An address with zero pairs is written without the first of the longest runs of them.
pub proof fn law_shortening_ipv6_addresses(b: &[u8], r: String, from: int, count: int)
    requires
        call_ensures(ipv6_address, (b,), r),
        b@.len() == 16,
        !(is_zero_between(b@, 0, 5) && b@[10] == 0xff && b@[11] == 0xff),
        0 <= from,
        2 <= count,
        from + count <= 8,
        is_zero_between(b@, from, count),
        forall|j: int, m: int|
            0 <= j && count < m && j + m <= 8 ==> !#[trigger] is_zero_between(b@, j, m),
        forall|j: int| 0 <= j < from ==> !#[trigger] is_zero_between(b@, j, count),
    ensures
        r@ == groups_text(pair_numbers(b@, 0, from)) + "::"@ + groups_text(
            pair_numbers(b@, from + count, 8),
        ),
{
    law_ipv6_texts_leave_out_the_longest_run(b@, from, count);
}

} // verus!
