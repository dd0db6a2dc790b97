//! Laws of SOCKS5 negotiations as a whole.

use crate::number::{
    be_value, decimal, decimal_value, hexadecimal, hexadecimal_value, law_decimals_read_back,
    law_hexadecimals_read_back, law_numbers_of_bytes,
};
use crate::socks::{
    groups_text, ipv4_text, ipv6_groups, ipv6_text, is_ipv4_mapped, is_longest_run, is_valid_up_to,
    method_choice, reply, target_text, utf8_error_len, zero_run, SocksError, SocksNext,
    SocksNextView, SocksStage, SocksStageView, SocksStep, Utf8Fault, ADDRESS_DOMAIN, ADDRESS_IPV4,
    ADDRESS_IPV6, COMMAND_CONNECT, REPLY_ADDRESS_TYPE, REPLY_COMMAND, SOCKS_VERSION,
};
use crate::text::{
    joined, law_parts_make_the_text, lemma_cut_first, lemma_cut_last, split_limited,
};
use vstd::prelude::*;
use vstd::string::*;
use vstd::utf8::{encode_utf8, encode_utf8_decode_utf8, encode_utf8_valid_utf8, valid_utf8};

verus! {

/// How a negotiation ends.
pub enum SocksEnd {
    /// A target is asked for.
    Connect { target: Seq<char> },
    /// The server gives up.
    Fail(SocksError),
    /// The client stops in the middle.
    Unfinished,
}

/// A negotiation: what the server sends, how it ends, and what it has not read.
pub struct Negotiation {
    pub sent: Seq<u8>,
    pub end: SocksEnd,
    pub unread: Seq<u8>,
}

/// How many stages there can be until the end.
pub open spec fn stages_left(stage: SocksStageView) -> nat {
    match stage {
        SocksStageView::Greeting => 6,
        SocksStageView::Methods { .. } => 5,
        SocksStageView::Request => 4,
        SocksStageView::DomainLength => 3,
        SocksStageView::Domain { .. } => 2,
        SocksStageView::Ipv4 => 2,
        SocksStageView::Ipv6 => 2,
        SocksStageView::Port { .. } => 1,
    }
}

/// The negotiation from a stage on, with a client that sends `input`.
pub open spec fn negotiation(stage: SocksStageView, input: Seq<u8>) -> Negotiation
    decreases stages_left(stage),
{
    let n = stage.wanted() as int;
    if input.len() < n {
        Negotiation { sent: Seq::empty(), end: SocksEnd::Unfinished, unread: input }
    } else {
        let step = stage.step(input.take(n));
        let unread = input.skip(n);
        match step.next {
            SocksNextView::Read(next) => {
                let rest = negotiation(next, unread);
                Negotiation { sent: step.send + rest.sent, end: rest.end, unread: rest.unread }
            },
            SocksNextView::Connect { target } => Negotiation {
                sent: step.send,
                end: SocksEnd::Connect { target },
                unread,
            },
            SocksNextView::Fail(error) => Negotiation {
                sent: step.send,
                end: SocksEnd::Fail(error),
                unread,
            },
        }
    }
}

/// The greeting of a client that offers some methods.
pub open spec fn greeting(methods: Seq<u8>) -> Seq<u8> {
    seq![SOCKS_VERSION, methods.len() as u8] + methods
}

/// The start of a request.
pub open spec fn request(command: u8, reserved: u8, address_type: u8) -> Seq<u8> {
    seq![SOCKS_VERSION, command, reserved, address_type]
}

proof fn lemma_read_on(stage: SocksStageView, head: Seq<u8>, tail: Seq<u8>)
    requires
        head.len() == stage.wanted(),
    ensures
        (head + tail).take(stage.wanted() as int) == head,
        (head + tail).skip(stage.wanted() as int) == tail,
        stage.step(head).next matches SocksNextView::Read(next) ==> ({
            let rest = negotiation(next, tail);
            negotiation(stage, head + tail) == (Negotiation {
                sent: stage.step(head).send + rest.sent,
                end: rest.end,
                unread: rest.unread,
            })
        }),
{
    assert((head + tail).take(stage.wanted() as int) =~= head);
    assert((head + tail).skip(stage.wanted() as int) =~= tail);
}

/// A client that greets is answered with the choice of the method that asks for
/// nothing, whatever it offers, and its request is read next.
pub proof fn law_greetings_are_answered(methods: Seq<u8>, rest: Seq<u8>)
    requires
        methods.len() < 256,
    ensures
        ({
            let all = negotiation(SocksStageView::Greeting, greeting(methods) + rest);
            let after = negotiation(SocksStageView::Request, rest);
            &&& all.sent == method_choice() + after.sent
            &&& all.end == after.end
            &&& all.unread == after.unread
        }),
{
    let count = methods.len() as u8;
    let head = seq![SOCKS_VERSION, count];
    assert(greeting(methods) + rest =~= head + (methods + rest));
    lemma_read_on(SocksStageView::Greeting, head, methods + rest);
    lemma_read_on(SocksStageView::Methods { count }, methods, rest);
    let all = negotiation(SocksStageView::Greeting, greeting(methods) + rest);
    let after = negotiation(SocksStageView::Request, rest);
    assert(all.sent =~= method_choice() + after.sent);
}

proof fn lemma_port(host: Seq<char>, port: Seq<u8>, rest: Seq<u8>)
    requires
        port.len() == 2,
    ensures
        negotiation(SocksStageView::Port { host }, port + rest) == (Negotiation {
            sent: Seq::empty(),
            end: SocksEnd::Connect { target: target_text(host, be_value(port)) },
            unread: rest,
        }),
{
    lemma_read_on(SocksStageView::Port { host }, port, rest);
}

proof fn lemma_connect(methods: Seq<u8>, reserved: u8, address_type: u8, rest: Seq<u8>)
    requires
        methods.len() < 256,
        address_type == ADDRESS_IPV4 || address_type == ADDRESS_DOMAIN || address_type
            == ADDRESS_IPV6,
    ensures
        ({
            let input = greeting(methods) + request(COMMAND_CONNECT, reserved, address_type) + rest;
            let next = if address_type == ADDRESS_IPV4 {
                SocksStageView::Ipv4
            } else if address_type == ADDRESS_DOMAIN {
                SocksStageView::DomainLength
            } else {
                SocksStageView::Ipv6
            };
            let after = negotiation(next, rest);
            negotiation(SocksStageView::Greeting, input) == (Negotiation {
                sent: method_choice() + after.sent,
                end: after.end,
                unread: after.unread,
            })
        }),
{
    let asked = request(COMMAND_CONNECT, reserved, address_type);
    let input = greeting(methods) + asked + rest;
    assert(input =~= greeting(methods) + (asked + rest));
    law_greetings_are_answered(methods, asked + rest);
    lemma_read_on(SocksStageView::Request, asked, rest);
    let after = negotiation(SocksStageView::Request, asked + rest);
    let stage = if address_type == ADDRESS_IPV4 {
        SocksStageView::Ipv4
    } else if address_type == ADDRESS_DOMAIN {
        SocksStageView::DomainLength
    } else {
        SocksStageView::Ipv6
    };
    assert(after.sent =~= negotiation(stage, rest).sent);
}

/// A client that asks for a connection to an IPv4 address and a port gets it tried.
pub proof fn law_ipv4_targets_are_tried(
    methods: Seq<u8>,
    reserved: u8,
    address: Seq<u8>,
    port: Seq<u8>,
    rest: Seq<u8>,
)
    requires
        methods.len() < 256,
        address.len() == 4,
        port.len() == 2,
    ensures
        negotiation(
            SocksStageView::Greeting,
            greeting(methods) + request(COMMAND_CONNECT, reserved, ADDRESS_IPV4) + (address + port
                + rest),
        ) == (Negotiation {
            sent: method_choice(),
            end: SocksEnd::Connect { target: target_text(ipv4_text(address), be_value(port)) },
            unread: rest,
        }),
{
    assert(address + port + rest =~= address + (port + rest));
    lemma_connect(methods, reserved, ADDRESS_IPV4, address + port + rest);
    lemma_read_on(SocksStageView::Ipv4, address, port + rest);
    lemma_port(ipv4_text(address), port, rest);
    assert(method_choice() + (Seq::<u8>::empty() + Seq::<u8>::empty()) =~= method_choice());
}

/// A client that asks for a connection to a domain name and a port gets it tried.
pub proof fn law_domain_targets_are_tried(
    methods: Seq<u8>,
    reserved: u8,
    domain: Seq<char>,
    port: Seq<u8>,
    rest: Seq<u8>,
)
    requires
        methods.len() < 256,
        encode_utf8(domain).len() < 256,
        port.len() == 2,
    ensures
        negotiation(
            SocksStageView::Greeting,
            greeting(methods) + request(COMMAND_CONNECT, reserved, ADDRESS_DOMAIN) + (seq![
                encode_utf8(domain).len() as u8,
            ] + encode_utf8(domain) + port + rest),
        ) == (Negotiation {
            sent: method_choice(),
            end: SocksEnd::Connect { target: target_text(domain, be_value(port)) },
            unread: rest,
        }),
{
    let name = encode_utf8(domain);
    let count = name.len() as u8;
    encode_utf8_valid_utf8(domain);
    encode_utf8_decode_utf8(domain);
    assert(seq![count] + name + port + rest =~= seq![count] + (name + (port + rest)));
    lemma_connect(methods, reserved, ADDRESS_DOMAIN, seq![count] + name + port + rest);
    lemma_read_on(SocksStageView::DomainLength, seq![count], name + (port + rest));
    lemma_read_on(SocksStageView::Domain { count }, name, port + rest);
    lemma_port(domain, port, rest);
    assert(Seq::<u8>::empty() + Seq::<u8>::empty() =~= Seq::<u8>::empty());
    assert(method_choice() + Seq::<u8>::empty() =~= method_choice());
}

/// A client that asks for a connection to an IPv6 address and a port gets it tried.
pub proof fn law_ipv6_targets_are_tried(
    methods: Seq<u8>,
    reserved: u8,
    address: Seq<u8>,
    port: Seq<u8>,
    rest: Seq<u8>,
)
    requires
        methods.len() < 256,
        address.len() == 16,
        port.len() == 2,
    ensures
        negotiation(
            SocksStageView::Greeting,
            greeting(methods) + request(COMMAND_CONNECT, reserved, ADDRESS_IPV6) + (address + port
                + rest),
        ) == (Negotiation {
            sent: method_choice(),
            end: SocksEnd::Connect { target: target_text(ipv6_text(address), be_value(port)) },
            unread: rest,
        }),
{
    assert(address + port + rest =~= address + (port + rest));
    lemma_connect(methods, reserved, ADDRESS_IPV6, address + port + rest);
    lemma_read_on(SocksStageView::Ipv6, address, port + rest);
    lemma_port(ipv6_text(address), port, rest);
    assert(Seq::<u8>::empty() + Seq::<u8>::empty() =~= Seq::<u8>::empty());
    assert(method_choice() + Seq::<u8>::empty() =~= method_choice());
}

/// A client that asks for anything but a connection is told that the command is
/// not supported, and nothing is tried.
pub proof fn law_other_commands_are_refused(
    methods: Seq<u8>,
    command: u8,
    reserved: u8,
    address_type: u8,
    rest: Seq<u8>,
)
    requires
        methods.len() < 256,
        command != COMMAND_CONNECT,
    ensures
        negotiation(
            SocksStageView::Greeting,
            greeting(methods) + request(command, reserved, address_type) + rest,
        ) == (Negotiation {
            sent: method_choice() + reply(REPLY_COMMAND),
            end: SocksEnd::Fail(SocksError::Command),
            unread: rest,
        }),
{
    let asked = request(command, reserved, address_type);
    assert(greeting(methods) + asked + rest =~= greeting(methods) + (asked + rest));
    law_greetings_are_answered(methods, asked + rest);
    lemma_read_on(SocksStageView::Request, asked, rest);
}

/// A client that asks for a connection to another type of address is told that the
/// type is not supported, and nothing is tried.
pub proof fn law_other_address_types_are_refused(
    methods: Seq<u8>,
    reserved: u8,
    address_type: u8,
    rest: Seq<u8>,
)
    requires
        methods.len() < 256,
        address_type != ADDRESS_IPV4,
        address_type != ADDRESS_DOMAIN,
        address_type != ADDRESS_IPV6,
    ensures
        negotiation(
            SocksStageView::Greeting,
            greeting(methods) + request(COMMAND_CONNECT, reserved, address_type) + rest,
        ) == (Negotiation {
            sent: method_choice() + reply(REPLY_ADDRESS_TYPE),
            end: SocksEnd::Fail(SocksError::AddressType(address_type)),
            unread: rest,
        }),
{
    let asked = request(COMMAND_CONNECT, reserved, address_type);
    assert(greeting(methods) + asked + rest =~= greeting(methods) + (asked + rest));
    law_greetings_are_answered(methods, asked + rest);
    lemma_read_on(SocksStageView::Request, asked, rest);
}

/// A client of another version is sent nothing.
pub proof fn law_other_versions_are_sent_nothing(input: Seq<u8>)
    requires
        input.len() >= 2,
        input[0] != SOCKS_VERSION,
    ensures
        negotiation(SocksStageView::Greeting, input).sent == Seq::<u8>::empty(),
        negotiation(SocksStageView::Greeting, input).end == SocksEnd::Fail(
            SocksError::Version(input[0]),
        ),
{
}

/// What stages, next steps and steps hold is what their fields hold.
pub proof fn law_steps_are_their_fields(
    count: u8,
    text: String,
    stage: SocksStage,
    error: SocksError,
    step: SocksStep,
)
    ensures
        SocksStage::Greeting@ == SocksStageView::Greeting,
        (SocksStage::Methods { count })@ == (SocksStageView::Methods { count }),
        SocksStage::Request@ == SocksStageView::Request,
        SocksStage::Ipv4@ == SocksStageView::Ipv4,
        SocksStage::DomainLength@ == SocksStageView::DomainLength,
        (SocksStage::Domain { count })@ == (SocksStageView::Domain { count }),
        SocksStage::Ipv6@ == SocksStageView::Ipv6,
        (SocksStage::Port { host: text })@ == (SocksStageView::Port { host: text@ }),
        SocksNext::Read(stage)@ == SocksNextView::Read(stage@),
        (SocksNext::Connect { target: text })@ == (SocksNextView::Connect { target: text@ }),
        SocksNext::Fail(error)@ == SocksNextView::Fail(error),
        step@.send == step.send@,
        step@.next == step.next@,
{
}

/// How many bytes are read in each stage.
pub proof fn law_stages_read_their_bytes(count: u8, host: Seq<char>)
    ensures
        SocksStageView::Greeting.wanted() == 2,
        (SocksStageView::Methods { count }).wanted() == count,
        SocksStageView::Request.wanted() == 4,
        SocksStageView::Ipv4.wanted() == 4,
        SocksStageView::DomainLength.wanted() == 1,
        (SocksStageView::Domain { count }).wanted() == count,
        SocksStageView::Ipv6.wanted() == 16,
        (SocksStageView::Port { host }).wanted() == 2,
{
}

proof fn lemma_decimal_holds_no(n: nat, c: char)
    requires
        c < '0' || c > '9',
    ensures
        !decimal(n).contains(c),
{
    law_decimals_read_back(n);
    if decimal(n).contains(c) {
        let i = choose|i: int| 0 <= i < decimal(n).len() && decimal(n)[i] == c;
        assert('0' <= decimal(n)[i] <= '9');
    }
}

/// The text of an IPv4 address is four decimal numbers with dots between them, and
/// read back they are the four bytes of the address.
pub proof fn law_ipv4_texts_read_back(b: Seq<u8>)
    requires
        b.len() == 4,
    ensures
        ({
            let parts = split_limited(ipv4_text(b), 4, '.');
            &&& parts.len() == 4
            &&& joined(parts, '.') == ipv4_text(b)
            &&& forall|i: int|
                0 <= i < 4 ==> {
                    &&& decimal_value(#[trigger] parts[i]) == b[i]
                    &&& parts[i] == decimal(b[i] as nat)
                }
        }),
{
    reveal_strlit(".");
    assert("."@ =~= seq!['.']);
    let d0 = decimal(b[0] as nat);
    let d1 = decimal(b[1] as nat);
    let d2 = decimal(b[2] as nat);
    let d3 = decimal(b[3] as nat);
    lemma_decimal_holds_no(b[0] as nat, '.');
    lemma_decimal_holds_no(b[1] as nat, '.');
    lemma_decimal_holds_no(b[2] as nat, '.');
    lemma_decimal_holds_no(b[3] as nat, '.');
    let text = ipv4_text(b);
    assert(text =~= d0 + seq!['.'] + (d1 + seq!['.'] + (d2 + seq!['.'] + d3)));
    lemma_cut_first(d0, d1 + seq!['.'] + (d2 + seq!['.'] + d3), 4, '.');
    lemma_cut_first(d1, d2 + seq!['.'] + d3, 3, '.');
    lemma_cut_first(d2, d3, 2, '.');
    lemma_cut_last(d3, 1, '.');
    assert(split_limited(text, 4, '.') =~= seq![d0, d1, d2, d3]);
    law_parts_make_the_text(text, 4, '.');
    law_decimals_read_back(b[0] as nat);
    law_decimals_read_back(b[1] as nat);
    law_decimals_read_back(b[2] as nat);
    law_decimals_read_back(b[3] as nat);
}

/// Different IPv4 addresses have different texts.
pub proof fn law_ipv4_texts_differ(a: Seq<u8>, b: Seq<u8>)
    requires
        a.len() == 4,
        b.len() == 4,
        ipv4_text(a) == ipv4_text(b),
    ensures
        a == b,
{
    law_ipv4_texts_read_back(a);
    law_ipv4_texts_read_back(b);
    let parts = split_limited(ipv4_text(a), 4, '.');
    assert forall|i: int| 0 <= i < 4 implies a[i] == b[i] by {
        assert(decimal_value(parts[i]) == a[i]);
        assert(decimal_value(parts[i]) == b[i]);
    }
    assert(a =~= b);
}

proof fn lemma_groups_text_front(groups: Seq<nat>)
    requires
        groups.len() >= 2,
    ensures
        groups_text(groups) == hexadecimal(groups[0]) + seq![':'] + groups_text(groups.skip(1)),
    decreases groups.len(),
{
    reveal_strlit(":");
    assert(":"@ =~= seq![':']);
    let front = groups.drop_last();
    if groups.len() == 2 {
        assert(front[0] == groups[0]);
        assert(groups_text(front) == hexadecimal(groups[0]));
        assert(groups.skip(1)[0] == groups.last());
        assert(groups_text(groups.skip(1)) == hexadecimal(groups.last()));
    } else {
        lemma_groups_text_front(front);
        assert(groups.skip(1).drop_last() =~= front.skip(1));
        assert(groups.skip(1).last() == groups.last());
        assert(groups_text(groups.skip(1)) == groups_text(front.skip(1)) + seq![':'] + hexadecimal(
            groups.last(),
        ));
        assert(groups_text(groups) =~= hexadecimal(groups[0]) + seq![':'] + groups_text(
            groups.skip(1),
        ));
    }
}

/// The text of some groups is their hexadecimal numbers with colons between them, and
/// read back they are the groups.
pub proof fn law_groups_read_back(groups: Seq<nat>)
    ensures
        groups.len() == 0 ==> groups_text(groups).len() == 0,
        groups.len() > 0 ==> {
            let parts = split_limited(groups_text(groups), groups.len(), ':');
            &&& parts.len() == groups.len()
            &&& joined(parts, ':') == groups_text(groups)
            &&& forall|i: int|
                0 <= i < groups.len() ==> {
                    &&& hexadecimal_value(#[trigger] parts[i]) == groups[i]
                    &&& parts[i] == hexadecimal(groups[i])
                }
        },
    decreases groups.len(),
{
    if groups.len() > 0 {
        let text = groups_text(groups);
        let first = hexadecimal(groups[0]);
        let parts = split_limited(text, groups.len(), ':');
        law_hexadecimals_read_back(groups[0]);
        law_parts_make_the_text(text, groups.len(), ':');
        assert(!first.contains(':')) by {
            if first.contains(':') {
                let i = choose|i: int| 0 <= i < first.len() && first[i] == ':';
                assert('0' <= first[i] <= '9' || 'a' <= first[i] <= 'f');
            }
        }
        if groups.len() == 1 {
            lemma_cut_last(first, 1, ':');
        } else {
            let rest = groups.skip(1);
            lemma_groups_text_front(groups);
            lemma_cut_first(first, groups_text(rest), groups.len(), ':');
            law_groups_read_back(rest);
            let others = split_limited(groups_text(rest), rest.len(), ':');
            assert forall|i: int| 0 <= i < groups.len() implies {
                &&& hexadecimal_value(#[trigger] parts[i]) == groups[i]
                &&& parts[i] == hexadecimal(groups[i])
            } by {
                if i > 0 {
                    assert(parts[i] == others[i - 1]);
                    assert(rest[i - 1] == groups[i]);
                }
            }
        }
    }
}

/// Whether the pairs of bytes from the one with number `from` on are zero, `count` of
/// them.
pub open spec fn is_zero_between(b: Seq<u8>, from: int, count: int) -> bool {
    forall|k: int| 2 * from <= k < 2 * (from + count) ==> #[trigger] b[k] == 0
}

/// The numbers of the pairs of bytes from `from` up to `to`.
pub open spec fn pair_numbers(b: Seq<u8>, from: int, to: int) -> Seq<nat> {
    Seq::new((to - from) as nat, |k: int| (0x100 * b[2 * (from + k)] + b[2 * (from + k) + 1]) as nat)
}

proof fn lemma_groups(b: Seq<u8>)
    requires
        b.len() == 16,
    ensures
        ipv6_groups(b) == pair_numbers(b, 0, 8),
        forall|i: int|
            0 <= i < 8 ==> (#[trigger] ipv6_groups(b)[i] == 0 <==> b[2 * i] == 0 && b[2 * i + 1]
                == 0),
{
    let groups = ipv6_groups(b);
    assert forall|i: int| 0 <= i < 8 implies #[trigger] groups[i] == pair_numbers(b, 0, 8)[i] by {
        law_numbers_of_bytes(b[2 * i], b[2 * i + 1], 0, 0, 0, 0, 0, 0);
        assert(b.subrange(2 * i, 2 * i + 2) =~= seq![b[2 * i], b[2 * i + 1]]);
    }
    assert(groups =~= pair_numbers(b, 0, 8));
}

proof fn lemma_zero_run(groups: Seq<nat>, j: int)
    requires
        0 <= j <= groups.len(),
    ensures
        j + zero_run(groups, j) <= groups.len(),
        forall|k: int| j <= k < j + zero_run(groups, j) ==> #[trigger] groups[k] == 0,
        j + zero_run(groups, j) < groups.len() ==> groups[j + zero_run(groups, j)] != 0,
    decreases groups.len() - j,
{
    if j < groups.len() && groups[j] == 0 {
        lemma_zero_run(groups, j + 1);
    }
}

proof fn lemma_run_is_zero(b: Seq<u8>, j: int, m: int)
    requires
        b.len() == 16,
        0 <= j < 8,
        0 <= m <= zero_run(ipv6_groups(b), j),
    ensures
        j + m <= 8,
        is_zero_between(b, j, m),
{
    let groups = ipv6_groups(b);
    lemma_groups(b);
    lemma_zero_run(groups, j);
    assert forall|k: int| 2 * j <= k < 2 * (j + m) implies #[trigger] b[k] == 0 by {
        let i = k / 2;
        assert(groups[i] == 0);
        assert(b[2 * i] == 0 && b[2 * i + 1] == 0);
        assert(k == 2 * i || k == 2 * i + 1);
    }
}

/// The text of an IPv6 address that stands for an IPv4 address ends in the text of
/// that address.
pub proof fn law_mapped_addresses_end_in_ipv4(b: Seq<u8>)
    requires
        b.len() == 16,
        is_zero_between(b, 0, 5),
        b[10] == 0xff && b[11] == 0xff,
    ensures
        ipv6_text(b) == "::ffff:"@ + ipv4_text(seq![b[12], b[13], b[14], b[15]]),
{
    assert(b.subrange(12, 16) =~= seq![b[12], b[13], b[14], b[15]]);
}

/// The text of any other IPv6 address is the hexadecimal numbers of its eight pairs of
/// bytes, with two colons in place of the first of the longest runs of two or more
/// that are zero.
pub proof fn law_ipv6_texts_leave_out_the_longest_run(b: Seq<u8>, from: int, count: int)
    requires
        b.len() == 16,
        !(is_zero_between(b, 0, 5) && b[10] == 0xff && b[11] == 0xff),
        0 <= from,
        2 <= count,
        from + count <= 8,
        is_zero_between(b, from, count),
        forall|j: int, m: int|
            0 <= j && count < m && j + m <= 8 ==> !#[trigger] is_zero_between(b, j, m),
        forall|j: int| 0 <= j < from ==> !#[trigger] is_zero_between(b, j, count),
    ensures
        ipv6_text(b) == groups_text(pair_numbers(b, 0, from)) + "::"@ + groups_text(
            pair_numbers(b, from + count, 8),
        ),
{
    let groups = ipv6_groups(b);
    lemma_groups(b);
    lemma_zero_run(groups, from);
    let n = zero_run(groups, from) as int;
    assert(n >= count) by {
        if n < count {
            let k = from + n;
            assert(b[2 * k] == 0 && b[2 * k + 1] == 0);
            assert(groups[k] == 0);
        }
    }
    assert(n == count) by {
        if n > count {
            lemma_run_is_zero(b, from, n);
            assert(is_zero_between(b, from, n));
        }
    }
    assert(is_longest_run(groups, from)) by {
        assert forall|j: int| 0 <= j < groups.len() implies (#[trigger] zero_run(groups, j))
            <= zero_run(groups, from) by {
            let m = zero_run(groups, j) as int;
            if m > count {
                lemma_run_is_zero(b, j, m);
                assert(is_zero_between(b, j, m));
            }
        }
        assert forall|j: int| 0 <= j < from implies (#[trigger] zero_run(groups, j)) < zero_run(
            groups,
            from,
        ) by {
            if zero_run(groups, j) >= count {
                lemma_run_is_zero(b, j, count);
                assert(is_zero_between(b, j, count));
            }
        }
    }
    let c = choose|i: int| is_longest_run(groups, i);
    assert(is_longest_run(groups, c));
    assert(c == from) by {
        if c < from {
            assert(zero_run(groups, c) < zero_run(groups, from));
        } else if c > from {
            assert(zero_run(groups, from) < zero_run(groups, c));
        }
    }
    lemma_not_mapped(b);
    assert(groups.take(from) =~= pair_numbers(b, 0, from));
    assert(groups.skip(from + count) =~= pair_numbers(b, from + count, 8));
}

proof fn lemma_not_mapped(b: Seq<u8>)
    requires
        b.len() == 16,
        !(is_zero_between(b, 0, 5) && b[10] == 0xff && b[11] == 0xff),
    ensures
        !is_ipv4_mapped(b),
{
    if is_ipv4_mapped(b) {
        assert(is_zero_between(b, 0, 5));
    }
}

/// The text of an IPv6 address without two zero pairs of bytes in a row is the
/// hexadecimal numbers of all its pairs.
pub proof fn law_ipv6_texts_without_runs(b: Seq<u8>)
    requires
        b.len() == 16,
        forall|j: int| 0 <= j < 7 ==> !#[trigger] is_zero_between(b, j, 2),
    ensures
        ipv6_text(b) == groups_text(pair_numbers(b, 0, 8)),
{
    let groups = ipv6_groups(b);
    lemma_groups(b);
    let c = choose|i: int| is_longest_run(groups, i);
    if zero_run(groups, c) > 1 {
        assert(0 <= c < groups.len());
        lemma_run_is_zero(b, c, 2);
        assert(is_zero_between(b, c, 2));
    }
    assert(!is_zero_between(b, 0, 2));
    if is_ipv4_mapped(b) {
        assert(is_zero_between(b, 0, 2));
    }
}

/// A target is the host, a colon and the decimal digits of the port.
pub proof fn law_targets_are_host_and_port(host: Seq<char>, port: nat)
    ensures
        ({
            let text = target_text(host, port);
            let n = host.len() as int;
            &&& text.take(n) == host
            &&& text[n] == ':'
            &&& text.skip(n + 1) == decimal(port)
            &&& decimal_value(text.skip(n + 1)) == port
        }),
{
    reveal_strlit(":");
    law_decimals_read_back(port);
    let text = target_text(host, port);
    let n = host.len() as int;
    assert(text.take(n) =~= host);
    assert(text.skip(n + 1) =~= decimal(port));
}

/// Two targets whose hosts are of one length, or whose ports are the same, are the same
/// text only if their hosts and their ports are the same.
pub proof fn law_targets_differ(host: Seq<char>, port: nat, other: Seq<char>, other_port: nat)
    requires
        target_text(host, port) == target_text(other, other_port),
        host.len() == other.len() || port == other_port,
    ensures
        host == other,
        port == other_port,
{
    law_targets_are_host_and_port(host, port);
    law_targets_are_host_and_port(other, other_port);
    if port == other_port {
        reveal_strlit(":");
        assert(target_text(host, port).len() == host.len() + 1 + decimal(port).len());
        assert(target_text(other, port).len() == other.len() + 1 + decimal(port).len());
    }
}

/// An answer is ten bytes: the version, the code, and an address that is all zero.
pub proof fn law_replies_hold_their_code(code: u8)
    ensures
        reply(code) == seq![5u8, code, 0u8, 1u8, 0u8, 0u8, 0u8, 0u8, 0u8, 0u8],
        method_choice() == seq![5u8, 0u8],
{
}

/// A client whose request is of another version gets no answer to it.
pub proof fn law_other_request_versions_get_no_answer(
    methods: Seq<u8>,
    asked: Seq<u8>,
    rest: Seq<u8>,
)
    requires
        methods.len() < 256,
        asked.len() == 4,
        asked[0] != 5,
    ensures
        negotiation(SocksStageView::Greeting, greeting(methods) + asked + rest) == (Negotiation {
            sent: method_choice(),
            end: SocksEnd::Fail(SocksError::RequestVersion(asked[0])),
            unread: rest,
        }),
{
    assert(greeting(methods) + asked + rest =~= greeting(methods) + (asked + rest));
    law_greetings_are_answered(methods, asked + rest);
    lemma_read_on(SocksStageView::Request, asked, rest);
    assert(method_choice() + Seq::<u8>::empty() =~= method_choice());
}

/// A client that asks for a domain name that is not UTF-8 gets no answer to its
/// request; the error says how long the longest start of the name is that is.
pub proof fn law_domains_must_be_text(
    methods: Seq<u8>,
    reserved: u8,
    name: Seq<u8>,
    rest: Seq<u8>,
    n: int,
)
    requires
        methods.len() < 256,
        name.len() < 256,
        !valid_utf8(name),
        0 <= n <= name.len(),
        valid_utf8(name.take(n)),
        forall|m: int| n < m <= name.len() ==> !valid_utf8(#[trigger] name.take(m)),
    ensures
        ({
            let all = negotiation(
                SocksStageView::Greeting,
                greeting(methods) + request(COMMAND_CONNECT, reserved, ADDRESS_DOMAIN) + (seq![
                    name.len() as u8,
                ] + name + rest),
            );
            &&& all.sent == method_choice()
            &&& all.end matches SocksEnd::Fail(SocksError::DomainText(fault)) && fault.valid_up_to
                == n && fault.error_len == utf8_error_len(name)
            &&& all.unread == rest
        }),
{
    let count = name.len() as u8;
    assert(seq![count] + name + rest =~= seq![count] + (name + rest));
    lemma_connect(methods, reserved, ADDRESS_DOMAIN, seq![count] + name + rest);
    lemma_read_on(SocksStageView::DomainLength, seq![count], name + rest);
    lemma_read_on(SocksStageView::Domain { count }, name, rest);
    assert(is_valid_up_to(name, n));
    let c = choose|m: int| is_valid_up_to(name, m);
    assert(is_valid_up_to(name, c));
    assert(c == n) by {
        if c < n {
            assert(!valid_utf8(name.take(n)));
        } else if n < c {
            assert(!valid_utf8(name.take(c)));
        }
    }
    assert(Seq::<u8>::empty() + Seq::<u8>::empty() =~= Seq::<u8>::empty());
    assert(method_choice() + Seq::<u8>::empty() =~= method_choice());
}

/// The words for an error end in the digits of the number that it is about, and the
/// cause of a domain name that is not text names both numbers.
pub proof fn law_errors_name_their_numbers(n: u8, fault: Utf8Fault)
    ensures
        SocksError::Version(n).text() == "unsupported socks version "@ + decimal(n as nat),
        SocksError::RequestVersion(n).text() == "unsupported socks request version "@ + decimal(
            n as nat,
        ),
        SocksError::AddressType(n).text() == "unsupported socks address type "@ + decimal(n as nat),
        SocksError::Command.cause_text() is None,
        SocksError::Version(n).cause_text() is None,
        SocksError::RequestVersion(n).cause_text() is None,
        SocksError::AddressType(n).cause_text() is None,
        SocksError::DomainText(fault).text() == "domain name is not utf-8"@,
        SocksError::DomainText(fault).cause_text() matches Some(text) && {
            &&& fault.error_len matches Some(k) ==> text == "invalid utf-8 sequence of "@ + decimal(
                k as nat,
            ) + " bytes from index "@ + decimal(fault.valid_up_to as nat)
            &&& fault.error_len is None ==> text == "incomplete utf-8 byte sequence from index "@
                + decimal(fault.valid_up_to as nat)
        },
{
}

} // verus!
