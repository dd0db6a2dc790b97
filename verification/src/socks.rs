//! SOCKS5: what a server reads, answers and connects to.

use crate::number::{be_number, be_value, decimal, decimal_text, hexadecimal, hexadecimal_text};
use crate::text::opt_string;
use vstd::prelude::*;
use vstd::slice::{slice_subrange, slice_to_vec};
use vstd::string::*;
use vstd::utf8::{decode_utf8, valid_utf8};

verus! {

/// The version of the protocol.
pub const SOCKS_VERSION: u8 = 5;

/// The command that asks for a connection.
pub const COMMAND_CONNECT: u8 = 1;

/// The type of an IPv4 address.
pub const ADDRESS_IPV4: u8 = 1;

/// The type of a domain name.
pub const ADDRESS_DOMAIN: u8 = 3;

/// The type of an IPv6 address.
pub const ADDRESS_IPV6: u8 = 4;

/// The answer to a request whose target is connected.
pub const REPLY_CONNECTED: u8 = 0;

/// The answer to a request whose target cannot be connected.
pub const REPLY_REFUSED: u8 = 5;

/// The answer to a command that is not supported.
pub const REPLY_COMMAND: u8 = 7;

/// The answer to a type of address that is not supported.
pub const REPLY_ADDRESS_TYPE: u8 = 8;

/// Where bytes stop to be UTF-8.
#[derive(Debug, Clone, Copy, PartialEq, Eq, Structural)]
pub struct Utf8Fault {
    /// How many bytes at the start are UTF-8.
    pub valid_up_to: usize,
    /// How many bytes from there on are wrong; none if the bytes end too early.
    pub error_len: Option<usize>,
}

impl Utf8Fault {
    /// The fault in words.
    pub open spec fn text(self) -> Seq<char> {
        match self.error_len {
            Some(n) => "invalid utf-8 sequence of "@ + decimal(n as nat) + " bytes from index "@
                + decimal(self.valid_up_to as nat),
            None => "incomplete utf-8 byte sequence from index "@ + decimal(
                self.valid_up_to as nat,
            ),
        }
    }

    /// Gives the fault in words.
    pub fn message(&self) -> (r: String)
        ensures
            r@ == self.text(),
    {
        let mut text: String;
        match self.error_len {
            Some(n) => {
                text = "invalid utf-8 sequence of ".to_owned();
                text.append(decimal_text(n as u64).as_str());
                text.append(" bytes from index ");
            },
            None => {
                text = "incomplete utf-8 byte sequence from index ".to_owned();
            },
        }
        text.append(decimal_text(self.valid_up_to as u64).as_str());
        text
    }
}

/// Why a server gives up on a client.
#[derive(Debug, Clone, Copy, PartialEq, Eq, Structural)]
pub enum SocksError {
    /// The client speaks another version.
    Version(u8),
    /// The request is of another version.
    RequestVersion(u8),
    /// The request does not ask for a connection.
    Command,
    /// The type of the address is not supported.
    AddressType(u8),
    /// The domain name is not UTF-8.
    DomainText(Utf8Fault),
}

impl SocksError {
    /// The error in words.
    pub open spec fn text(self) -> Seq<char> {
        match self {
            SocksError::Version(v) => "unsupported socks version "@ + decimal(v as nat),
            SocksError::RequestVersion(v) => "unsupported socks request version "@ + decimal(
                v as nat,
            ),
            SocksError::Command => "only socks CONNECT is supported"@,
            SocksError::AddressType(t) => "unsupported socks address type "@ + decimal(t as nat),
            SocksError::DomainText(_) => "domain name is not utf-8"@,
        }
    }

    /// Gives the error in words.
    pub fn message(&self) -> (r: String)
        ensures
            r@ == self.text(),
    {
        let mut text: String;
        match self {
            SocksError::Version(v) => {
                text = "unsupported socks version ".to_owned();
                text.append(decimal_text(*v as u64).as_str());
            },
            SocksError::RequestVersion(v) => {
                text = "unsupported socks request version ".to_owned();
                text.append(decimal_text(*v as u64).as_str());
            },
            SocksError::Command => {
                text = "only socks CONNECT is supported".to_owned();
            },
            SocksError::AddressType(t) => {
                text = "unsupported socks address type ".to_owned();
                text.append(decimal_text(*t as u64).as_str());
            },
            SocksError::DomainText(_) => {
                text = "domain name is not utf-8".to_owned();
            },
        }
        text
    }

    /// What lies under the error, in words, if there is anything to add.
    pub open spec fn cause_text(self) -> Option<Seq<char>> {
        match self {
            SocksError::DomainText(fault) => Some(fault.text()),
            _ => None,
        }
    }

    /// Gives what lies under the error, in words.
    pub fn cause(&self) -> (r: Option<String>)
        ensures
            opt_string(r) == self.cause_text(),
    {
        match self {
            SocksError::DomainText(fault) => Some(fault.message()),
            _ => None,
        }
    }
}

/// Four bytes in dotted decimal.
pub open spec fn ipv4_text(b: Seq<u8>) -> Seq<char> {
    decimal(b[0] as nat) + "."@ + decimal(b[1] as nat) + "."@ + decimal(b[2] as nat) + "."@
        + decimal(b[3] as nat)
}

/// The eight groups of an IPv6 address.
pub open spec fn ipv6_groups(b: Seq<u8>) -> Seq<nat> {
    Seq::new(8, |i: int| be_value(b.subrange(2 * i, 2 * i + 2)))
}

/// Whether an IPv6 address stands for an IPv4 address.
pub open spec fn is_ipv4_mapped(b: Seq<u8>) -> bool {
    (forall|i: int| 0 <= i < 10 ==> #[trigger] b[i] == 0) && b[10] == 0xff && b[11] == 0xff
}

/// How many groups from `i` on are zero.
pub open spec fn zero_run(groups: Seq<nat>, i: int) -> nat
    decreases groups.len() - i,
{
    if 0 <= i < groups.len() && groups[i] == 0 {
        1 + zero_run(groups, i + 1)
    } else {
        0
    }
}

/// Whether the first of the longest runs of zero groups starts at `i`.
pub open spec fn is_longest_run(groups: Seq<nat>, i: int) -> bool {
    &&& 0 <= i < groups.len()
    &&& forall|j: int|
        0 <= j < groups.len() ==> (#[trigger] zero_run(groups, j)) <= zero_run(groups, i)
    &&& forall|j: int| 0 <= j < i ==> (#[trigger] zero_run(groups, j)) < zero_run(groups, i)
}

/// Groups in hexadecimal, with colons between them.
pub open spec fn groups_text(groups: Seq<nat>) -> Seq<char>
    decreases groups.len(),
{
    if groups.len() == 0 {
        Seq::empty()
    } else if groups.len() == 1 {
        hexadecimal(groups[0])
    } else {
        groups_text(groups.drop_last()) + ":"@ + hexadecimal(groups.last())
    }
}

/// An IPv6 address as text: the first of the longest runs of two or more zero
/// groups is left out, and an address that stands for an IPv4 address ends in
/// dotted decimal.
pub open spec fn ipv6_text(b: Seq<u8>) -> Seq<char> {
    let groups = ipv6_groups(b);
    let i = choose|i: int| is_longest_run(groups, i);
    let n = zero_run(groups, i);
    if is_ipv4_mapped(b) {
        "::ffff:"@ + ipv4_text(b.subrange(12, 16))
    } else if n > 1 {
        groups_text(groups.take(i)) + "::"@ + groups_text(groups.skip(i + n))
    } else {
        groups_text(groups)
    }
}

/// Gives four bytes in dotted decimal.
pub fn ipv4_address(b: &[u8]) -> (r: String)
    requires
        b@.len() == 4,
    ensures
        r@ == ipv4_text(b@),
{
    let mut text = decimal_text(b[0] as u64);
    text.append(".");
    text.append(decimal_text(b[1] as u64).as_str());
    text.append(".");
    text.append(decimal_text(b[2] as u64).as_str());
    text.append(".");
    text.append(decimal_text(b[3] as u64).as_str());
    text
}

/// The numbers of some groups.
pub open spec fn group_values(groups: Seq<u64>) -> Seq<nat> {
    Seq::new(groups.len(), |i: int| groups[i] as nat)
}

fn joined_groups(groups: &Vec<u64>, from: usize, to: usize) -> (r: String)
    requires
        from <= to <= groups@.len(),
    ensures
        r@ == groups_text(group_values(groups@).subrange(from as int, to as int)),
{
    let ghost values = group_values(groups@);
    let mut text = "".to_owned();
    let mut i: usize = from;
    proof {
        reveal_strlit("");
        assert(text@ =~= groups_text(values.subrange(from as int, i as int)));
    }
    while i < to
        invariant
            from <= i <= to <= groups@.len(),
            values == group_values(groups@),
            text@ == groups_text(values.subrange(from as int, i as int)),
        decreases to - i,
    {
        let ghost before = values.subrange(from as int, i as int);
        let ghost next = values.subrange(from as int, i + 1);
        proof {
            assert(next.drop_last() =~= before);
            assert(next.last() == values[i as int]);
        }
        if i > from {
            text.append(":");
        }
        text.append(hexadecimal_text(groups[i]).as_str());
        proof {
            if i == from {
                assert(groups_text(next) == hexadecimal(next[0]));
                assert(text@ =~= groups_text(next));
            }
        }
        i = i + 1;
    }
    text
}

fn zero_run_at(groups: &Vec<u64>, from: usize) -> (r: usize)
    requires
        from <= groups@.len(),
    ensures
        r == zero_run(group_values(groups@), from as int),
        from + r <= groups@.len(),
{
    let ghost values = group_values(groups@);
    let mut n: usize = 0;
    while n < groups.len() - from && groups[from + n] == 0
        invariant
            from + n <= groups@.len(),
            values == group_values(groups@),
            zero_run(values, from as int) == n + zero_run(values, from + n),
        decreases groups@.len() - n,
    {
        n = n + 1;
    }
    n
}

/// Gives an IPv6 address as text.
pub fn ipv6_address(b: &[u8]) -> (r: String)
    requires
        b@.len() == 16,
    ensures
        r@ == ipv6_text(b@),
{
    let mut mapped: bool = b[10] == 0xff && b[11] == 0xff;
    let mut k: usize = 0;
    while k < 10
        invariant
            k <= 10,
            b@.len() == 16,
            mapped <==> b@[10] == 0xff && b@[11] == 0xff && forall|i: int|
                0 <= i < k ==> #[trigger] b@[i] == 0,
        decreases 10 - k,
    {
        mapped = mapped && b[k] == 0;
        k = k + 1;
    }
    if mapped {
        let mut text = "::ffff:".to_owned();
        text.append(ipv4_address(slice_subrange(b, 12, 16)).as_str());
        return text;
    }
    let mut groups: Vec<u64> = Vec::new();
    while groups.len() < 8
        invariant
            b@.len() == 16,
            groups@.len() <= 8,
            forall|i: int|
                0 <= i < groups@.len() ==> #[trigger] groups@[i] == be_value(
                    b@.subrange(2 * i, 2 * i + 2),
                ),
        decreases 8 - groups@.len(),
    {
        let i: usize = groups.len();
        groups.push(be_number(slice_subrange(b, 2 * i, 2 * i + 2)));
    }
    let ghost values = group_values(groups@);
    assert(values =~= ipv6_groups(b@));
    let mut start: usize = 0;
    let mut length: usize = zero_run_at(&groups, 0);
    let mut i: usize = 1;
    while i < 8
        invariant
            1 <= i <= 8,
            groups@.len() == 8,
            values == group_values(groups@),
            start < i,
            length == zero_run(values, start as int),
            start + length <= 8,
            forall|j: int| 0 <= j < i ==> (#[trigger] zero_run(values, j)) <= length,
            forall|j: int| 0 <= j < start ==> (#[trigger] zero_run(values, j)) < length,
        decreases 8 - i,
    {
        let n: usize = zero_run_at(&groups, i);
        if n > length {
            start = i;
            length = n;
        }
        i = i + 1;
    }
    proof {
        assert(is_longest_run(values, start as int));
        let c = choose|c: int| is_longest_run(values, c);
        assert(c == start) by {
            if c < start {
                assert(zero_run(values, c) < zero_run(values, start as int));
            } else if c > start {
                assert(zero_run(values, start as int) < zero_run(values, c));
            }
        }
    }
    if length > 1 {
        let mut text = joined_groups(&groups, 0, start);
        text.append("::");
        text.append(joined_groups(&groups, start + length, 8).as_str());
        proof {
            assert(values.subrange(0, start as int) =~= values.take(start as int));
            assert(values.subrange(start + length, 8) =~= values.skip(start + length));
        }
        text
    } else {
        assert(values.subrange(0, 8) =~= values);
        joined_groups(&groups, 0, 8)
    }
}

/// Whether `n` is the length of the longest start of some bytes that is UTF-8.
pub open spec fn is_valid_up_to(bytes: Seq<u8>, n: int) -> bool {
    &&& 0 <= n <= bytes.len()
    &&& valid_utf8(bytes.take(n))
    &&& forall|m: int| n < m <= bytes.len() ==> !valid_utf8(#[trigger] bytes.take(m))
}

/// How many bytes `String::from_utf8` finds wrong where bytes stop to be UTF-8;
/// none if they end too early.
pub uninterp spec fn utf8_error_len(bytes: Seq<u8>) -> Option<usize>;

/// Where bytes stop to be UTF-8.
pub open spec fn utf8_fault(bytes: Seq<u8>) -> Utf8Fault {
    Utf8Fault {
        valid_up_to: (choose|n: int| is_valid_up_to(bytes, n)) as usize,
        error_len: utf8_error_len(bytes),
    }
}

/// Calls `String::from_utf8`, which gives the text whose UTF-8 form some bytes are.
/// If they are not the UTF-8 form of a text, its error says how long their longest
/// start is that is one, and how many bytes are wrong there: a function of the
/// bytes, which is none only if the bytes end within three bytes of there. The
/// error is turned into a `Utf8Fault` field by field.
#[verifier::external_body]
fn utf8_text(bytes: Vec<u8>) -> (r: Result<String, Utf8Fault>)
    ensures
        r is Ok <==> valid_utf8(bytes@),
        r matches Ok(text) ==> text@ == decode_utf8(bytes@),
        r matches Err(fault) ==> {
            &&& is_valid_up_to(bytes@, fault.valid_up_to as int)
            &&& fault.error_len == utf8_error_len(bytes@)
            &&& match fault.error_len {
                Some(n) => fault.valid_up_to + n <= bytes@.len(),
                None => 1 <= bytes@.len() - fault.valid_up_to <= 3,
            }
        },
{
    match String::from_utf8(bytes) {
        Ok(text) => Ok(text),
        Err(error) => Err(
            Utf8Fault {
                valid_up_to: error.utf8_error().valid_up_to(),
                error_len: error.utf8_error().error_len(),
            },
        ),
    }
}

/// Bytes stop to be UTF-8 in one place only.
proof fn lemma_utf8_fault(bytes: Seq<u8>, n: int)
    requires
        is_valid_up_to(bytes, n),
    ensures
        (choose|m: int| is_valid_up_to(bytes, m)) == n,
{
    let m = choose|m: int| is_valid_up_to(bytes, m);
    assert(is_valid_up_to(bytes, m));
    if m < n {
        assert(!valid_utf8(bytes.take(n)));
    } else if n < m {
        assert(!valid_utf8(bytes.take(m)));
    }
}

/// What a server reads next from a client.
#[derive(Debug)]
pub enum SocksStage {
    /// The version and the number of methods.
    Greeting,
    /// The methods.
    Methods { count: u8 },
    /// The version, the command, a reserved byte and the type of the address.
    Request,
    /// An IPv4 address.
    Ipv4,
    /// The length of a domain name.
    DomainLength,
    /// A domain name.
    Domain { count: u8 },
    /// An IPv6 address.
    Ipv6,
    /// The port on a host.
    Port { host: String },
}

/// What a `SocksStage` holds.
pub enum SocksStageView {
    Greeting,
    Methods { count: u8 },
    Request,
    Ipv4,
    DomainLength,
    Domain { count: u8 },
    Ipv6,
    Port { host: Seq<char> },
}

impl View for SocksStage {
    type V = SocksStageView;

    open spec fn view(&self) -> SocksStageView {
        match self {
            SocksStage::Greeting => SocksStageView::Greeting,
            SocksStage::Methods { count } => SocksStageView::Methods { count: *count },
            SocksStage::Request => SocksStageView::Request,
            SocksStage::Ipv4 => SocksStageView::Ipv4,
            SocksStage::DomainLength => SocksStageView::DomainLength,
            SocksStage::Domain { count } => SocksStageView::Domain { count: *count },
            SocksStage::Ipv6 => SocksStageView::Ipv6,
            SocksStage::Port { host } => SocksStageView::Port { host: host@ },
        }
    }
}

/// What a server does after it has read something.
#[derive(Debug)]
pub enum SocksNext {
    /// Read on.
    Read(SocksStage),
    /// Connect to a target.
    Connect { target: String },
    /// Give up.
    Fail(SocksError),
}

/// What a `SocksNext` holds.
pub enum SocksNextView {
    Read(SocksStageView),
    Connect { target: Seq<char> },
    Fail(SocksError),
}

impl View for SocksNext {
    type V = SocksNextView;

    open spec fn view(&self) -> SocksNextView {
        match self {
            SocksNext::Read(stage) => SocksNextView::Read(stage@),
            SocksNext::Connect { target } => SocksNextView::Connect { target: target@ },
            SocksNext::Fail(error) => SocksNextView::Fail(*error),
        }
    }
}

/// What a server sends, and what it does then.
#[derive(Debug)]
pub struct SocksStep {
    pub send: Vec<u8>,
    pub next: SocksNext,
}

/// What a `SocksStep` holds.
pub struct SocksStepView {
    pub send: Seq<u8>,
    pub next: SocksNextView,
}

impl View for SocksStep {
    type V = SocksStepView;

    open spec fn view(&self) -> SocksStepView {
        SocksStepView { send: self.send@, next: self.next@ }
    }
}

/// The answer with a code.
pub open spec fn reply(code: u8) -> Seq<u8> {
    seq![SOCKS_VERSION, code, 0, ADDRESS_IPV4, 0, 0, 0, 0, 0, 0]
}

/// The choice of the method that asks for nothing.
pub open spec fn method_choice() -> Seq<u8> {
    seq![SOCKS_VERSION, 0]
}

/// The text of a host and a port.
pub open spec fn target_text(host: Seq<char>, port: nat) -> Seq<char> {
    host + ":"@ + decimal(port)
}

/// Sends nothing.
pub open spec fn silent(next: SocksNextView) -> SocksStepView {
    SocksStepView { send: Seq::empty(), next }
}

/// Gives up without an answer.
pub open spec fn failed(error: SocksError) -> SocksStepView {
    silent(SocksNextView::Fail(error))
}

/// Gives up with an answer.
pub open spec fn refused(code: u8, error: SocksError) -> SocksStepView {
    SocksStepView { send: reply(code), next: SocksNextView::Fail(error) }
}

/// Goes on to read the port on a host.
pub open spec fn found(host: Seq<char>) -> SocksStepView {
    silent(SocksNextView::Read(SocksStageView::Port { host }))
}

impl SocksStageView {
    /// How many bytes are read.
    pub open spec fn wanted(self) -> nat {
        match self {
            SocksStageView::Greeting => 2,
            SocksStageView::Methods { count } => count as nat,
            SocksStageView::Request => 4,
            SocksStageView::Ipv4 => 4,
            SocksStageView::DomainLength => 1,
            SocksStageView::Domain { count } => count as nat,
            SocksStageView::Ipv6 => 16,
            SocksStageView::Port { .. } => 2,
        }
    }

    /// What is done about the bytes that are read.
    pub open spec fn step(self, b: Seq<u8>) -> SocksStepView {
        match self {
            SocksStageView::Greeting => if b[0] != SOCKS_VERSION {
                failed(SocksError::Version(b[0]))
            } else {
                silent(SocksNextView::Read(SocksStageView::Methods { count: b[1] }))
            },
            SocksStageView::Methods { .. } => SocksStepView {
                send: method_choice(),
                next: SocksNextView::Read(SocksStageView::Request),
            },
            SocksStageView::Request => if b[0] != SOCKS_VERSION {
                failed(SocksError::RequestVersion(b[0]))
            } else if b[1] != COMMAND_CONNECT {
                refused(REPLY_COMMAND, SocksError::Command)
            } else if b[3] == ADDRESS_IPV4 {
                silent(SocksNextView::Read(SocksStageView::Ipv4))
            } else if b[3] == ADDRESS_DOMAIN {
                silent(SocksNextView::Read(SocksStageView::DomainLength))
            } else if b[3] == ADDRESS_IPV6 {
                silent(SocksNextView::Read(SocksStageView::Ipv6))
            } else {
                refused(REPLY_ADDRESS_TYPE, SocksError::AddressType(b[3]))
            },
            SocksStageView::Ipv4 => found(ipv4_text(b)),
            SocksStageView::DomainLength => silent(
                SocksNextView::Read(SocksStageView::Domain { count: b[0] }),
            ),
            SocksStageView::Domain { .. } => if valid_utf8(b) {
                found(decode_utf8(b))
            } else {
                failed(SocksError::DomainText(utf8_fault(b)))
            },
            SocksStageView::Ipv6 => found(ipv6_text(b)),
            SocksStageView::Port { host } => silent(
                SocksNextView::Connect { target: target_text(host, be_value(b)) },
            ),
        }
    }
}

/// Gives the answer with a code.
pub fn reply_bytes(code: u8) -> (r: Vec<u8>)
    ensures
        r@ == reply(code),
{
    let bytes: Vec<u8> = vec![SOCKS_VERSION, code, 0, ADDRESS_IPV4, 0, 0, 0, 0, 0, 0];
    assert(bytes@ =~= reply(code));
    bytes
}

/// Gives the answer to a request whose target was tried.
pub fn connect_reply(connected: bool) -> (r: Vec<u8>)
    ensures
        r@ == reply(
            if connected {
                REPLY_CONNECTED
            } else {
                REPLY_REFUSED
            },
        ),
{
    if connected {
        reply_bytes(REPLY_CONNECTED)
    } else {
        reply_bytes(REPLY_REFUSED)
    }
}

impl SocksStage {
    /// Gives how many bytes are read.
    pub fn wanted(&self) -> (r: usize)
        ensures
            r == self@.wanted(),
    {
        match self {
            SocksStage::Greeting => 2,
            SocksStage::Methods { count } => *count as usize,
            SocksStage::Request => 4,
            SocksStage::Ipv4 => 4,
            SocksStage::DomainLength => 1,
            SocksStage::Domain { count } => *count as usize,
            SocksStage::Ipv6 => 16,
            SocksStage::Port { .. } => 2,
        }
    }

    /// Decides what is done about the bytes that are read.
    pub fn step(self, bytes: &[u8]) -> (r: SocksStep)
        requires
            bytes@.len() == self@.wanted(),
        ensures
            r@ == self@.step(bytes@),
    {
        let mut send: Vec<u8> = Vec::new();
        let next = match self {
            SocksStage::Greeting => {
                if bytes[0] != SOCKS_VERSION {
                    SocksNext::Fail(SocksError::Version(bytes[0]))
                } else {
                    SocksNext::Read(SocksStage::Methods { count: bytes[1] })
                }
            },
            SocksStage::Methods { .. } => {
                send.push(SOCKS_VERSION);
                send.push(0);
                SocksNext::Read(SocksStage::Request)
            },
            SocksStage::Request => {
                if bytes[0] != SOCKS_VERSION {
                    SocksNext::Fail(SocksError::RequestVersion(bytes[0]))
                } else if bytes[1] != COMMAND_CONNECT {
                    send = reply_bytes(REPLY_COMMAND);
                    SocksNext::Fail(SocksError::Command)
                } else if bytes[3] == ADDRESS_IPV4 {
                    SocksNext::Read(SocksStage::Ipv4)
                } else if bytes[3] == ADDRESS_DOMAIN {
                    SocksNext::Read(SocksStage::DomainLength)
                } else if bytes[3] == ADDRESS_IPV6 {
                    SocksNext::Read(SocksStage::Ipv6)
                } else {
                    send = reply_bytes(REPLY_ADDRESS_TYPE);
                    SocksNext::Fail(SocksError::AddressType(bytes[3]))
                }
            },
            SocksStage::Ipv4 => SocksNext::Read(SocksStage::Port { host: ipv4_address(bytes) }),
            SocksStage::DomainLength => SocksNext::Read(SocksStage::Domain { count: bytes[0] }),
            SocksStage::Domain { .. } => {
                match utf8_text(slice_to_vec(bytes)) {
                    Ok(host) => SocksNext::Read(SocksStage::Port { host }),
                    Err(fault) => {
                        proof {
                            lemma_utf8_fault(bytes@, fault.valid_up_to as int);
                        }
                        SocksNext::Fail(SocksError::DomainText(fault))
                    },
                }
            },
            SocksStage::Ipv6 => SocksNext::Read(SocksStage::Port { host: ipv6_address(bytes) }),
            SocksStage::Port { host } => {
                let mut target = host;
                target.append(":");
                target.append(decimal_text(be_number(bytes)).as_str());
                SocksNext::Connect { target }
            },
        };
        let r = SocksStep { send, next };
        assert(r@.send =~= self@.step(bytes@).send);
        r
    }
}

} // verus!
