//! The syntax of `-provider` and `-visitor` mappings, and service-level auth.

use crate::text::{
    is_blank, is_tight, law_blank_texts_are_trimmed_away, law_trimming_takes_white_space_only,
    lemma_cut_first, lemma_cut_last, opt_string, opt_text, same_text, split_limited, split_parts,
    trim, trimmed,
};
use vstd::prelude::*;
use vstd::string::*;

verus! {

/// A named TCP address with an optional auth value: `NAME:HOST:PORT[:AUTH]`.
#[derive(Debug, Clone)]
pub struct TcpMapping {
    pub name: String,
    pub addr: String,
    pub auth: Option<String>,
}

/// A service of another node, mapped to a local address:
/// `NODE:SERVICE:HOST:PORT[:AUTH]`.
#[derive(Debug, Clone)]
pub struct VisitorMapping {
    pub node: String,
    pub service: String,
    pub bind_addr: String,
    pub auth: Option<String>,
}

/// The texts of a `TcpMapping`.
pub struct TcpMappingView {
    pub name: Seq<char>,
    pub addr: Seq<char>,
    pub auth: Option<Seq<char>>,
}

/// The texts of a `VisitorMapping`.
pub struct VisitorMappingView {
    pub node: Seq<char>,
    pub service: Seq<char>,
    pub bind_addr: Seq<char>,
    pub auth: Option<Seq<char>>,
}

impl View for TcpMapping {
    type V = TcpMappingView;

    open spec fn view(&self) -> TcpMappingView {
        TcpMappingView { name: self.name@, addr: self.addr@, auth: opt_string(self.auth) }
    }
}

impl View for VisitorMapping {
    type V = VisitorMappingView;

    open spec fn view(&self) -> VisitorMappingView {
        VisitorMappingView {
            node: self.node@,
            service: self.service@,
            bind_addr: self.bind_addr@,
            auth: opt_string(self.auth),
        }
    }
}

/// Why a mapping is refused.
#[derive(Debug, Clone, Copy, PartialEq, Eq, Structural)]
pub enum MappingError {
    /// Fewer than the three fields of a provider mapping.
    TcpFields,
    /// The name of a provider mapping is blank.
    TcpName,
    /// The host or the port of a provider mapping is blank.
    TcpAddress,
    /// Fewer than the four fields of a visitor mapping.
    VisitorFields,
    /// The node or the service of a visitor mapping is blank.
    VisitorTarget,
    /// The host or the port of a visitor mapping is blank.
    VisitorAddress,
}

impl MappingError {
    /// The text that a user is shown.
    pub open spec fn text(self) -> Seq<char> {
        match self {
            MappingError::TcpFields => "expected NAME:HOST:PORT[:AUTH]"@,
            MappingError::TcpName => "mapping name cannot be empty"@,
            MappingError::TcpAddress => "mapping address cannot be empty"@,
            MappingError::VisitorFields => "expected NODE:SERVICE:HOST:PORT[:AUTH]"@,
            MappingError::VisitorTarget => "visitor node and service cannot be empty"@,
            MappingError::VisitorAddress => "visitor bind address cannot be empty"@,
        }
    }

    /// The text that a user is shown.
    pub fn message(&self) -> (r: String)
        ensures
            r@ == self.text(),
    {
        match self {
            MappingError::TcpFields => "expected NAME:HOST:PORT[:AUTH]".to_owned(),
            MappingError::TcpName => "mapping name cannot be empty".to_owned(),
            MappingError::TcpAddress => "mapping address cannot be empty".to_owned(),
            MappingError::VisitorFields => "expected NODE:SERVICE:HOST:PORT[:AUTH]".to_owned(),
            MappingError::VisitorTarget => "visitor node and service cannot be empty".to_owned(),
            MappingError::VisitorAddress => "visitor bind address cannot be empty".to_owned(),
        }
    }
}

/// The trimmed field `i` of a mapping that is split into at most `limit` fields.
pub open spec fn field(value: Seq<char>, limit: nat, i: int) -> Seq<char> {
    trim(split_limited(value, limit, ':')[i])
}

/// How many fields a mapping has, of at most `limit`.
pub open spec fn field_count(value: Seq<char>, limit: nat) -> nat {
    split_limited(value, limit, ':').len()
}

/// The auth value in field `i`: none if the field is absent or blank.
pub open spec fn auth_field(value: Seq<char>, limit: nat, i: int) -> Option<Seq<char>> {
    if field_count(value, limit) > i && field(value, limit, i).len() > 0 {
        Some(field(value, limit, i))
    } else {
        None
    }
}

/// `host` and `port` as one address.
pub open spec fn address(host: Seq<char>, port: Seq<char>) -> Seq<char> {
    host + seq![':'] + port
}

/// What a provider mapping stands for.
pub open spec fn tcp_mapping(value: Seq<char>) -> Result<TcpMappingView, MappingError> {
    let name = field(value, 4, 0);
    let host = field(value, 4, 1);
    let port = field(value, 4, 2);
    if field_count(value, 4) < 3 {
        Err(MappingError::TcpFields)
    } else if name.len() == 0 {
        Err(MappingError::TcpName)
    } else if host.len() == 0 || port.len() == 0 {
        Err(MappingError::TcpAddress)
    } else {
        Ok(TcpMappingView { name, addr: address(host, port), auth: auth_field(value, 4, 3) })
    }
}

/// What a visitor mapping stands for.
pub open spec fn visitor_mapping(value: Seq<char>) -> Result<VisitorMappingView, MappingError> {
    let node = field(value, 5, 0);
    let service = field(value, 5, 1);
    let host = field(value, 5, 2);
    let port = field(value, 5, 3);
    if field_count(value, 5) < 4 {
        Err(MappingError::VisitorFields)
    } else if node.len() == 0 || service.len() == 0 {
        Err(MappingError::VisitorTarget)
    } else if host.len() == 0 || port.len() == 0 {
        Err(MappingError::VisitorAddress)
    } else {
        Ok(
            VisitorMappingView {
                node,
                service,
                bind_addr: address(host, port),
                auth: auth_field(value, 5, 4),
            },
        )
    }
}

/// Whether a provider with the auth value `allowed` admits a visitor that
/// presents `presented`: a provider without auth is public.
pub open spec fn auth_admits(allowed: Option<Seq<char>>, presented: Option<Seq<char>>) -> bool {
    match allowed {
        None => true,
        Some(a) => a.len() == 0 || presented == Some(a),
    }
}

/// Reads a provider mapping.
pub fn parse_tcp_mapping(value: &str) -> (r: Result<TcpMapping, String>)
    ensures
        match r {
            Ok(m) => tcp_mapping(value@) == Ok::<TcpMappingView, MappingError>(m@),
            Err(text) => tcp_mapping(value@) matches Err(e) && text@ == e.text(),
        },
{
    match parse_tcp_mapping_inner(value) {
        Ok(mapping) => Ok(mapping),
        Err(error) => Err(error.message()),
    }
}

/// Reads a visitor mapping.
pub fn parse_visitor_mapping(value: &str) -> (r: Result<VisitorMapping, String>)
    ensures
        match r {
            Ok(m) => visitor_mapping(value@) == Ok::<VisitorMappingView, MappingError>(m@),
            Err(text) => visitor_mapping(value@) matches Err(e) && text@ == e.text(),
        },
{
    match parse_visitor_mapping_inner(value) {
        Ok(mapping) => Ok(mapping),
        Err(error) => Err(error.message()),
    }
}

fn host_and_port(host: &str, port: &str) -> (r: String)
    ensures
        r@ == address(host@, port@),
        r@ == host@ + seq![':'] + port@,
{
    let mut out = host.to_owned();
    proof {
        reveal_strlit(":");
    }
    out.append(":");
    out.append(port);
    assert(":"@ =~= seq![':']);
    out
}

/// The auth value in field `i`, if it is there and not blank.
fn auth_part(parts: &Vec<&str>, i: usize) -> (r: Option<String>)
    ensures
        opt_string(r) == (if i < parts@.len() && trim(parts@[i as int]@).len() > 0 {
            Some(trim(parts@[i as int]@))
        } else {
            None
        }),
{
    if i < parts.len() {
        let auth = trimmed(parts[i]);
        if auth.is_empty() {
            None
        } else {
            Some(auth.to_owned())
        }
    } else {
        None
    }
}

/// Reads a provider mapping; says in which way it is wrong.
pub fn parse_tcp_mapping_inner(value: &str) -> (r: Result<TcpMapping, MappingError>)
    ensures
        match r {
            Ok(m) => tcp_mapping(value@) == Ok::<TcpMappingView, MappingError>(m@),
            Err(e) => tcp_mapping(value@) == Err::<TcpMappingView, MappingError>(e),
        },
{
    let parts = split_parts(value, 4, ':');
    if parts.len() < 3 {
        return Err(MappingError::TcpFields);
    }
    let name = trimmed(parts[0]);
    if name.is_empty() {
        return Err(MappingError::TcpName);
    }
    let host = trimmed(parts[1]);
    let port = trimmed(parts[2]);
    if host.is_empty() || port.is_empty() {
        return Err(MappingError::TcpAddress);
    }
    let auth = auth_part(&parts, 3);
    Ok(TcpMapping { name: name.to_owned(), addr: host_and_port(host, port), auth })
}

/// Reads a visitor mapping; says in which way it is wrong.
pub fn parse_visitor_mapping_inner(value: &str) -> (r: Result<VisitorMapping, MappingError>)
    ensures
        match r {
            Ok(m) => visitor_mapping(value@) == Ok::<VisitorMappingView, MappingError>(m@),
            Err(e) => visitor_mapping(value@) == Err::<VisitorMappingView, MappingError>(e),
        },
{
    let parts = split_parts(value, 5, ':');
    if parts.len() < 4 {
        return Err(MappingError::VisitorFields);
    }
    let node = trimmed(parts[0]);
    let service = trimmed(parts[1]);
    let host = trimmed(parts[2]);
    let port = trimmed(parts[3]);
    if node.is_empty() || service.is_empty() {
        return Err(MappingError::VisitorTarget);
    }
    if host.is_empty() || port.is_empty() {
        return Err(MappingError::VisitorAddress);
    }
    let auth = auth_part(&parts, 4);
    Ok(
        VisitorMapping {
            node: node.to_owned(),
            service: service.to_owned(),
            bind_addr: host_and_port(host, port),
            auth,
        },
    )
}

/// Whether a provider with the auth value `allowed` admits a visitor that
/// presents `presented`.
pub fn auth_matches(allowed: Option<&str>, presented: Option<&str>) -> (r: bool)
    ensures
        r == auth_admits(opt_text(allowed), opt_text(presented)),
{
    match allowed {
        None => true,
        Some(a) => {
            if a.is_empty() {
                true
            } else {
                match presented {
                    None => false,
                    Some(p) => same_text(p, a),
                }
            }
        },
    }
}

/// Cutting a text whose first part holds no separator.
proof fn lemma_split_first(head: Seq<char>, rest: Seq<char>, limit: nat)
    requires
        !head.contains(':'),
        limit >= 2,
    ensures
        split_limited(head + seq![':'] + rest, limit, ':') == seq![head] + split_limited(
            rest,
            (limit - 1) as nat,
            ':',
        ),
{
    lemma_cut_first(head, rest, limit, ':');
}

/// A text without a separator is its only part.
proof fn lemma_split_last(s: Seq<char>, limit: nat)
    requires
        !s.contains(':') || limit == 1,
        limit >= 1,
    ensures
        split_limited(s, limit, ':') == seq![s],
{
    lemma_cut_last(s, limit, ':');
}

/// Whether a text can stand in a mapping before its last field: it holds no
/// colon and is not blank.
pub open spec fn plain_field(s: Seq<char>) -> bool {
    trim(s).len() > 0 && !s.contains(':')
}

/// `NAME:HOST:PORT`.
pub open spec fn provider_text(name: Seq<char>, host: Seq<char>, port: Seq<char>) -> Seq<char> {
    name + seq![':'] + (host + seq![':'] + port)
}

/// `NAME:HOST:PORT:AUTH`.
pub open spec fn provider_text_with_auth(
    name: Seq<char>,
    host: Seq<char>,
    port: Seq<char>,
    auth: Seq<char>,
) -> Seq<char> {
    name + seq![':'] + (host + seq![':'] + (port + seq![':'] + auth))
}

/// `NODE:SERVICE:HOST:PORT`.
pub open spec fn visitor_text(
    node: Seq<char>,
    service: Seq<char>,
    host: Seq<char>,
    port: Seq<char>,
) -> Seq<char> {
    node + seq![':'] + provider_text(service, host, port)
}

/// `NODE:SERVICE:HOST:PORT:AUTH`.
pub open spec fn visitor_text_with_auth(
    node: Seq<char>,
    service: Seq<char>,
    host: Seq<char>,
    port: Seq<char>,
    auth: Seq<char>,
) -> Seq<char> {
    node + seq![':'] + provider_text_with_auth(service, host, port, auth)
}

/// A provider mapping of plain fields is read back field by field, without the
/// white space at their ends. Everything behind the third colon is the auth value,
/// colons included; a blank one is none.
pub proof fn law_provider_mapping_reads_back(
    name: Seq<char>,
    host: Seq<char>,
    port: Seq<char>,
    auth: Seq<char>,
)
    requires
        plain_field(name),
        plain_field(host),
        plain_field(port),
    ensures
        tcp_mapping(provider_text(name, host, port)) == Ok::<TcpMappingView, MappingError>(
            TcpMappingView { name: trim(name), addr: address(trim(host), trim(port)), auth: None },
        ),
        tcp_mapping(provider_text_with_auth(name, host, port, auth)) == Ok::<
            TcpMappingView,
            MappingError,
        >(
            TcpMappingView {
                name: trim(name),
                addr: address(trim(host), trim(port)),
                auth: if trim(auth).len() > 0 {
                    Some(trim(auth))
                } else {
                    None
                },
            },
        ),
{
    let bare = provider_text(name, host, port);
    lemma_split_first(name, host + seq![':'] + port, 4);
    lemma_split_first(host, port, 3);
    lemma_split_last(port, 2);
    assert(split_limited(bare, 4, ':') =~= seq![name, host, port]);
    let full = provider_text_with_auth(name, host, port, auth);
    lemma_split_first(name, host + seq![':'] + (port + seq![':'] + auth), 4);
    lemma_split_first(host, port + seq![':'] + auth, 3);
    lemma_split_first(port, auth, 2);
    lemma_split_last(auth, 1);
    assert(split_limited(full, 4, ':') =~= seq![name, host, port, auth]);
}

/// A visitor mapping of plain fields is read back field by field, without the
/// white space at their ends. Everything behind the fourth colon is the auth value,
/// colons included; a blank one is none.
pub proof fn law_visitor_mapping_reads_back(
    node: Seq<char>,
    service: Seq<char>,
    host: Seq<char>,
    port: Seq<char>,
    auth: Seq<char>,
)
    requires
        plain_field(node),
        plain_field(service),
        plain_field(host),
        plain_field(port),
    ensures
        visitor_mapping(visitor_text(node, service, host, port)) == Ok::<
            VisitorMappingView,
            MappingError,
        >(
            VisitorMappingView {
                node: trim(node),
                service: trim(service),
                bind_addr: address(trim(host), trim(port)),
                auth: None,
            },
        ),
        visitor_mapping(visitor_text_with_auth(node, service, host, port, auth)) == Ok::<
            VisitorMappingView,
            MappingError,
        >(
            VisitorMappingView {
                node: trim(node),
                service: trim(service),
                bind_addr: address(trim(host), trim(port)),
                auth: if trim(auth).len() > 0 {
                    Some(trim(auth))
                } else {
                    None
                },
            },
        ),
{
    let bare = visitor_text(node, service, host, port);
    lemma_split_first(node, provider_text(service, host, port), 5);
    lemma_split_first(service, host + seq![':'] + port, 4);
    lemma_split_first(host, port, 3);
    lemma_split_last(port, 2);
    assert(split_limited(bare, 5, ':') =~= seq![node, service, host, port]);
    let full = visitor_text_with_auth(node, service, host, port, auth);
    lemma_split_first(node, provider_text_with_auth(service, host, port, auth), 5);
    lemma_split_first(service, host + seq![':'] + (port + seq![':'] + auth), 4);
    lemma_split_first(host, port + seq![':'] + auth, 3);
    lemma_split_first(port, auth, 2);
    lemma_split_last(auth, 1);
    assert(split_limited(full, 5, ':') =~= seq![node, service, host, port, auth]);
}

/// A provider mapping without an auth field is public: every visitor is admitted.
pub proof fn law_provider_without_auth_is_public(
    name: Seq<char>,
    host: Seq<char>,
    port: Seq<char>,
    presented: Option<Seq<char>>,
)
    requires
        plain_field(name),
        plain_field(host),
        plain_field(port),
    ensures
        tcp_mapping(provider_text(name, host, port)) matches Ok(m) && auth_admits(
            m.auth,
            presented,
        ),
{
    law_provider_mapping_reads_back(name, host, port, Seq::empty());
}

/// A provider mapping with an auth field admits a visitor mapping if and only if
/// the visitor's auth field is the same, apart from white space at its ends. A
/// visitor mapping without an auth field is not admitted.
pub proof fn law_provider_auth_asks_for_the_same(
    name: Seq<char>,
    host: Seq<char>,
    port: Seq<char>,
    auth: Seq<char>,
    node: Seq<char>,
    bind_host: Seq<char>,
    bind_port: Seq<char>,
    presented: Seq<char>,
)
    requires
        plain_field(name),
        plain_field(host),
        plain_field(port),
        plain_field(node),
        plain_field(bind_host),
        plain_field(bind_port),
        trim(auth).len() > 0,
    ensures
        ({
            let provider = tcp_mapping(provider_text_with_auth(name, host, port, auth));
            let visitor = visitor_mapping(
                visitor_text_with_auth(node, name, bind_host, bind_port, presented),
            );
            let silent = visitor_mapping(visitor_text(node, name, bind_host, bind_port));
            &&& provider is Ok && visitor is Ok && silent is Ok
            &&& visitor->Ok_0.service == provider->Ok_0.name
            &&& auth_admits(provider->Ok_0.auth, visitor->Ok_0.auth) <==> trim(auth) == trim(
                presented,
            )
            &&& !auth_admits(provider->Ok_0.auth, silent->Ok_0.auth)
        }),
{
    law_provider_mapping_reads_back(name, host, port, auth);
    law_visitor_mapping_reads_back(node, name, bind_host, bind_port, presented);
}

/// What is read from a mapping is never blank: not the name, and not an auth
/// value that is there.
pub proof fn law_read_mappings_hold_no_blanks(value: Seq<char>)
    ensures
        tcp_mapping(value) matches Ok(m) ==> {
            &&& m.name.len() > 0
            &&& m.addr.len() >= 3
            &&& m.auth matches Some(a) ==> a.len() > 0
        },
        visitor_mapping(value) matches Ok(m) ==> {
            &&& m.node.len() > 0
            &&& m.service.len() > 0
            &&& m.bind_addr.len() >= 3
            &&& m.auth matches Some(a) ==> a.len() > 0
        },
{
}

/// The fields of a mapping are what it holds, as public fields.
pub proof fn law_mappings_are_their_fields(provider: TcpMapping, visitor: VisitorMapping)
    ensures
        provider@.name == provider.name@,
        provider@.addr == provider.addr@,
        provider@.auth is Some <==> provider.auth is Some,
        provider.auth matches Some(a) ==> provider@.auth == Some(a@),
        visitor@.node == visitor.node@,
        visitor@.service == visitor.service@,
        visitor@.bind_addr == visitor.bind_addr@,
        visitor@.auth is Some <==> visitor.auth is Some,
        visitor.auth matches Some(a) ==> visitor@.auth == Some(a@),
{
}

/// A text with something before and behind it.
pub open spec fn padded(before: Seq<char>, s: Seq<char>, after: Seq<char>) -> Seq<char> {
    before + s + after
}

proof fn lemma_padded(before: Seq<char>, s: Seq<char>, after: Seq<char>)
    requires
        is_blank(before),
        is_blank(after),
        is_tight(s),
    ensures
        trim(padded(before, s, after)) == s,
        !s.contains(':') ==> !padded(before, s, after).contains(':'),
{
    law_trimming_takes_white_space_only(before, s, after);
    let all = padded(before, s, after);
    if all.contains(':') && !s.contains(':') {
        let i = choose|i: int| 0 <= i < all.len() && all[i] == ':';
        if i < before.len() {
            assert(before[i] == ':');
        } else if i < before.len() + s.len() {
            assert(s[i - before.len()] == ':');
        } else {
            assert(after[i - before.len() - s.len()] == ':');
        }
    }
}

/// A provider mapping means its fields: whatever white space stands round them, the
/// name is the first field, the address is the host, a colon and the port, and the
/// auth value is all that is left, or none if nothing is.
pub proof fn law_provider_mapping_means_its_fields(
    name: Seq<char>,
    host: Seq<char>,
    port: Seq<char>,
    auth: Seq<char>,
    b: Seq<char>,
    a: Seq<char>,
)
    requires
        name.len() > 0 && is_tight(name) && !name.contains(':'),
        host.len() > 0 && is_tight(host) && !host.contains(':'),
        port.len() > 0 && is_tight(port) && !port.contains(':'),
        is_tight(auth),
        is_blank(b),
        is_blank(a),
    ensures
        ({
            let start = padded(b, name, a) + seq![':'] + (padded(b, host, a) + seq![':'] + padded(
                b,
                port,
                a,
            ));
            &&& tcp_mapping(start) matches Ok(m) && {
                &&& m.name == name
                &&& m.addr == host + seq![':'] + port
                &&& m.auth is None
            }
            &&& tcp_mapping(start + seq![':'] + padded(b, auth, a)) matches Ok(m) && {
                &&& m.name == name
                &&& m.addr == host + seq![':'] + port
                &&& m.auth == (if auth.len() == 0 {
                    None
                } else {
                    Some(auth)
                })
            }
        }),
{
    lemma_padded(b, name, a);
    lemma_padded(b, host, a);
    lemma_padded(b, port, a);
    lemma_padded(b, auth, a);
    let n = padded(b, name, a);
    let h = padded(b, host, a);
    let p = padded(b, port, a);
    let x = padded(b, auth, a);
    law_provider_mapping_reads_back(n, h, p, x);
    assert(n + seq![':'] + (h + seq![':'] + p) + seq![':'] + x =~= provider_text_with_auth(
        n,
        h,
        p,
        x,
    ));
}

/// A visitor mapping means its fields: whatever white space stands round them, the
/// node is the first field and the service the second, the address is the host, a
/// colon and the port, and the auth value is all that is left, or none if nothing
/// is.
pub proof fn law_visitor_mapping_means_its_fields(
    node: Seq<char>,
    service: Seq<char>,
    host: Seq<char>,
    port: Seq<char>,
    auth: Seq<char>,
    b: Seq<char>,
    a: Seq<char>,
)
    requires
        node.len() > 0 && is_tight(node) && !node.contains(':'),
        service.len() > 0 && is_tight(service) && !service.contains(':'),
        host.len() > 0 && is_tight(host) && !host.contains(':'),
        port.len() > 0 && is_tight(port) && !port.contains(':'),
        is_tight(auth),
        is_blank(b),
        is_blank(a),
    ensures
        ({
            let start = padded(b, node, a) + seq![':'] + (padded(b, service, a) + seq![':'] + (
            padded(b, host, a) + seq![':'] + padded(b, port, a)));
            &&& visitor_mapping(start) matches Ok(m) && {
                &&& m.node == node
                &&& m.service == service
                &&& m.bind_addr == host + seq![':'] + port
                &&& m.auth is None
            }
            &&& visitor_mapping(start + seq![':'] + padded(b, auth, a)) matches Ok(m) && {
                &&& m.node == node
                &&& m.service == service
                &&& m.bind_addr == host + seq![':'] + port
                &&& m.auth == (if auth.len() == 0 {
                    None
                } else {
                    Some(auth)
                })
            }
        }),
{
    lemma_padded(b, node, a);
    lemma_padded(b, service, a);
    lemma_padded(b, host, a);
    lemma_padded(b, port, a);
    lemma_padded(b, auth, a);
    let d = padded(b, node, a);
    let s = padded(b, service, a);
    let h = padded(b, host, a);
    let p = padded(b, port, a);
    let x = padded(b, auth, a);
    law_visitor_mapping_reads_back(d, s, h, p, x);
    assert(d + seq![':'] + (s + seq![':'] + (h + seq![':'] + p)) + seq![':'] + x
        =~= visitor_text_with_auth(d, s, h, p, x));
}

/// A provider mapping is refused if and only if it has too few fields, its name is
/// blank, or its host or its port is; the first of these is the reason.
pub proof fn law_refused_provider_mappings(
    name: Seq<char>,
    host: Seq<char>,
    port: Seq<char>,
    auth: Seq<char>,
)
    requires
        !name.contains(':'),
        !host.contains(':'),
        !port.contains(':'),
    ensures
        tcp_mapping(name) matches Err(e) && e == MappingError::TcpFields,
        tcp_mapping(name + seq![':'] + host) matches Err(e) && e == MappingError::TcpFields,
        ({
            let bare = tcp_mapping(name + seq![':'] + (host + seq![':'] + port));
            let full = tcp_mapping(
                name + seq![':'] + (host + seq![':'] + (port + seq![':'] + auth)),
            );
            if is_blank(name) {
                &&& bare matches Err(e) && e == MappingError::TcpName
                &&& full matches Err(e) && e == MappingError::TcpName
            } else if is_blank(host) || is_blank(port) {
                &&& bare matches Err(e) && e == MappingError::TcpAddress
                &&& full matches Err(e) && e == MappingError::TcpAddress
            } else {
                bare is Ok && full is Ok
            }
        }),
{
    law_blank_texts_are_trimmed_away(name);
    law_blank_texts_are_trimmed_away(host);
    law_blank_texts_are_trimmed_away(port);
    lemma_cut_last(name, 4, ':');
    lemma_cut_first(name, host, 4, ':');
    lemma_cut_last(host, 3, ':');
    lemma_cut_first(name, host + seq![':'] + port, 4, ':');
    lemma_cut_first(host, port, 3, ':');
    lemma_cut_last(port, 2, ':');
    let bare = name + seq![':'] + (host + seq![':'] + port);
    assert(split_limited(bare, 4, ':') =~= seq![name, host, port]);
    let full = name + seq![':'] + (host + seq![':'] + (port + seq![':'] + auth));
    lemma_cut_first(name, host + seq![':'] + (port + seq![':'] + auth), 4, ':');
    lemma_cut_first(host, port + seq![':'] + auth, 3, ':');
    lemma_cut_first(port, auth, 2, ':');
    lemma_cut_last(auth, 1, ':');
    assert(split_limited(full, 4, ':') =~= seq![name, host, port, auth]);
}

/// A visitor mapping is refused if and only if it has too few fields, its node or
/// its service is blank, or its host or its port is; the first of these is the
/// reason.
pub proof fn law_refused_visitor_mappings(
    node: Seq<char>,
    service: Seq<char>,
    host: Seq<char>,
    port: Seq<char>,
    auth: Seq<char>,
)
    requires
        !node.contains(':'),
        !service.contains(':'),
        !host.contains(':'),
        !port.contains(':'),
    ensures
        visitor_mapping(node) matches Err(e) && e == MappingError::VisitorFields,
        visitor_mapping(node + seq![':'] + service) matches Err(e) && e
            == MappingError::VisitorFields,
        visitor_mapping(node + seq![':'] + (service + seq![':'] + host)) matches Err(e) && e
            == MappingError::VisitorFields,
        ({
            let bare = visitor_mapping(
                node + seq![':'] + (service + seq![':'] + (host + seq![':'] + port)),
            );
            let full = visitor_mapping(
                node + seq![':'] + (service + seq![':'] + (host + seq![':'] + (port + seq![':']
                    + auth))),
            );
            if is_blank(node) || is_blank(service) {
                &&& bare matches Err(e) && e == MappingError::VisitorTarget
                &&& full matches Err(e) && e == MappingError::VisitorTarget
            } else if is_blank(host) || is_blank(port) {
                &&& bare matches Err(e) && e == MappingError::VisitorAddress
                &&& full matches Err(e) && e == MappingError::VisitorAddress
            } else {
                bare is Ok && full is Ok
            }
        }),
{
    law_blank_texts_are_trimmed_away(node);
    law_blank_texts_are_trimmed_away(service);
    law_blank_texts_are_trimmed_away(host);
    law_blank_texts_are_trimmed_away(port);
    lemma_cut_last(node, 5, ':');
    lemma_cut_first(node, service, 5, ':');
    lemma_cut_last(service, 4, ':');
    lemma_cut_first(node, service + seq![':'] + host, 5, ':');
    lemma_cut_first(service, host, 4, ':');
    lemma_cut_last(host, 3, ':');
    let bare = node + seq![':'] + (service + seq![':'] + (host + seq![':'] + port));
    lemma_cut_first(node, service + seq![':'] + (host + seq![':'] + port), 5, ':');
    lemma_cut_first(service, host + seq![':'] + port, 4, ':');
    lemma_cut_first(host, port, 3, ':');
    lemma_cut_last(port, 2, ':');
    assert(split_limited(bare, 5, ':') =~= seq![node, service, host, port]);
    let tail = host + seq![':'] + (port + seq![':'] + auth);
    let full = node + seq![':'] + (service + seq![':'] + tail);
    lemma_cut_first(node, service + seq![':'] + tail, 5, ':');
    lemma_cut_first(service, tail, 4, ':');
    lemma_cut_first(host, port + seq![':'] + auth, 3, ':');
    lemma_cut_first(port, auth, 2, ':');
    lemma_cut_last(auth, 1, ':');
    assert(split_limited(full, 5, ':') =~= seq![node, service, host, port, auth]);
}

/// A provider with an auth value admits the visitors that present it and no
/// others; one with an empty auth value, or none, admits everybody.
pub proof fn law_auth_admits_its_own_value_only(
    auth: Seq<char>,
    other: Seq<char>,
    presented: Option<Seq<char>>,
)
    ensures
        auth_admits(None, presented),
        auth_admits(Some(Seq::empty()), presented),
        auth_admits(Some(auth), Some(auth)),
        auth.len() > 0 && other != auth ==> !auth_admits(Some(auth), Some(other)),
        auth.len() > 0 ==> !auth_admits(Some(auth), None),
{
}

} // verus!
