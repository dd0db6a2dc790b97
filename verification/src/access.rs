//! The access side: what an access node offers and asks for, and what it does
//! about what the serving node sends.

use crate::mapping::{auth_admits, TcpMapping, VisitorMapping};
use crate::mux::{ControlMessage, OpenRequest};
use crate::relay_ws::{build_ws_url, is_encodable, ws_url};
use crate::serve::{by_name, EndpointView, PeerEvent, RouteView, ServeView, VisitError};
use crate::serve_laws::law_the_last_mapping_of_a_name_counts;
use crate::text::{copied_text, opt_string, texts};
use crate::text_map::TextMap;
use vstd::prelude::*;
use vstd::string::*;

verus! {

/// The connection id of an access node: the one that was asked for, or one made of
/// the node's name.
pub open spec fn access_id(asked: Option<Seq<char>>, name: Seq<char>) -> Seq<char> {
    match asked {
        Some(id) => id,
        None => "access-"@ + name,
    }
}

/// The connection id of a visitor of another node: the one that was asked for, or
/// one made of the names of both nodes.
pub open spec fn visitor_id(asked: Option<Seq<char>>, name: Seq<char>, node: Seq<char>) -> Seq<
    char,
> {
    match asked {
        Some(id) => id,
        None => "access-"@ + name + "-to-"@ + node,
    }
}

/// Gives the connection id of an access node.
pub fn access_connection_id(asked: &Option<String>, name: &str) -> (r: String)
    ensures
        r@ == access_id(opt_string(*asked), name@),
{
    match asked {
        Some(id) => id.clone(),
        None => {
            let mut id = "access-".to_owned();
            id.append(name);
            id
        },
    }
}

/// Gives the connection id of a visitor of another node.
pub fn visitor_connection_id(asked: &Option<String>, name: &str, node: &str) -> (r: String)
    ensures
        r@ == visitor_id(opt_string(*asked), name@, node@),
{
    match asked {
        Some(id) => id.clone(),
        None => {
            let mut id = "access-".to_owned();
            id.append(name);
            id.append("-to-");
            id.append(node);
            id
        },
    }
}

/// Gives the messages that ask for the registration of providers, in order.
pub fn bind_messages(providers: &Vec<TcpMapping>) -> (r: Vec<ControlMessage>)
    ensures
        r@.len() == providers@.len(),
        forall|i: int|
            0 <= i < r@.len() ==> ((#[trigger] r@[i]) matches ControlMessage::Bind { name, auth }
                && name@ == providers@[i]@.name && opt_string(auth) == providers@[i]@.auth),
{
    let mut messages: Vec<ControlMessage> = Vec::new();
    let mut i: usize = 0;
    while i < providers.len()
        invariant
            i <= providers@.len(),
            messages@.len() == i,
            forall|j: int|
                0 <= j < i ==> ((#[trigger] messages@[j]) matches ControlMessage::Bind {
                    name,
                    auth,
                } && name@ == providers@[j]@.name && opt_string(auth) == providers@[j]@.auth),
        decreases providers@.len() - i,
    {
        let provider = &providers[i];
        messages.push(
            ControlMessage::Bind {
                name: provider.name.clone(),
                auth: copied_text(&provider.auth),
            },
        );
        i = i + 1;
    }
    messages
}

/// Whether an access node listens for SOCKS5: it was not told not to, and has an
/// address to listen on.
pub fn serves_socks(no_socks5: bool, socks5: &str) -> (r: bool)
    ensures
        r == (!no_socks5 && socks5@.len() > 0),
{
    !no_socks5 && socks5.unicode_len() > 0
}

/// Gives the request for a stream to the provider that a mapping names.
pub fn provider_visit(visitor: &TcpMapping) -> (r: OpenRequest)
    ensures
        r matches OpenRequest::Visit { name, auth } && name@ == visitor@.name && opt_string(auth)
            == visitor@.auth,
{
    OpenRequest::Visit { name: visitor.name.clone(), auth: copied_text(&visitor.auth) }
}

/// Gives the request for a stream to the service that a mapping names.
pub fn service_visit(visitor: &VisitorMapping) -> (r: OpenRequest)
    ensures
        r matches OpenRequest::Visit { name, auth } && name@ == visitor@.service && opt_string(auth)
            == visitor@.auth,
{
    OpenRequest::Visit { name: visitor.service.clone(), auth: copied_text(&visitor.auth) }
}

/// The addresses of an access node's providers.
pub struct ProviderTargets {
    targets: TextMap<String>,
}

impl View for ProviderTargets {
    type V = Map<Seq<char>, Seq<char>>;

    closed spec fn view(&self) -> Map<Seq<char>, Seq<char>> {
        Map::new(
            |name: Seq<char>| self.targets@.dom().contains(name),
            |name: Seq<char>| self.targets@[name]@,
        )
    }
}

/// The addresses of providers by their names; of two with one name, the later
/// counts.
pub open spec fn target_map(providers: Seq<TcpMapping>) -> Map<Seq<char>, Seq<char>> {
    Map::new(
        |name: Seq<char>| by_name(providers).dom().contains(name),
        |name: Seq<char>| by_name(providers)[name].addr,
    )
}

/// What an access node does about what comes from the serving node.
pub enum AccessAction {
    /// Connect the stream to a local address.
    Dial { name: String, target: String },
    /// Drop the stream: this node has no provider with the name.
    UnknownProvider { name: String },
    /// Drop the stream: serving nodes do not open such streams.
    UnexpectedStream(OpenRequest),
    /// Note that a provider is registered.
    Registered { name: String },
    /// Note why a provider is not registered.
    Rejected { name: String, error: String },
    /// Note what the serving node says.
    Note { message: String },
    /// Nothing.
    Ignore,
    /// Stop: the connection is closed.
    Stop,
}

/// What is noted if the serving node does not say why it rejects a provider.
pub open spec fn unknown_error_text() -> Seq<char> {
    "unknown error"@
}

impl ProviderTargets {
    /// The addresses of some providers.
    pub fn new(providers: &Vec<TcpMapping>) -> (r: Self)
        ensures
            r@ == target_map(providers@),
    {
        let mut r = ProviderTargets { targets: TextMap::new() };
        let mut i: usize = 0;
        assert(r@ =~= target_map(providers@.take(0)));
        while i < providers.len()
            invariant
                i <= providers@.len(),
                r@ == target_map(providers@.take(i as int)),
            decreases providers@.len() - i,
        {
            let provider = &providers[i];
            let ghost before = r@;
            r.targets.insert(provider.name.clone(), provider.addr.clone());
            proof {
                assert(r@ =~= before.insert(provider@.name, provider@.addr));
                let next = providers@.take(i + 1);
                assert(next.drop_last() =~= providers@.take(i as int));
                assert(next.last() == *provider);
                assert(target_map(next) =~= before.insert(provider@.name, provider@.addr));
            }
            i = i + 1;
        }
        assert(providers@.take(providers@.len() as int) =~= providers@);
        r
    }

    /// Decides what an access node does.
    pub fn access_action(&self, event: PeerEvent) -> (r: AccessAction)
        ensures
            match event {
                PeerEvent::Incoming(OpenRequest::ProviderConnect { name }) => if self@.dom().contains(
                    name@,
                ) {
                    r matches AccessAction::Dial { name: n, target } && n == name && target@
                        == self@[name@]
                } else {
                    r == (AccessAction::UnknownProvider { name })
                },
                PeerEvent::Incoming(request) => r == AccessAction::UnexpectedStream(request),
                PeerEvent::Control(ControlMessage::BindAck { name, ok, error }) => if ok {
                    r == (AccessAction::Registered { name })
                } else {
                    r matches AccessAction::Rejected { name: n, error: e } && n == name && e@ == (
                    match error {
                        Some(text) => text@,
                        None => unknown_error_text(),
                    })
                },
                PeerEvent::Control(ControlMessage::Info { message }) => r == (AccessAction::Note {
                    message,
                }),
                PeerEvent::Control(ControlMessage::Bind { .. }) => r == AccessAction::Ignore,
                PeerEvent::Closed => r == AccessAction::Stop,
            },
    {
        match event {
            PeerEvent::Incoming(OpenRequest::ProviderConnect { name }) => {
                match self.targets.get(name.as_str()) {
                    Some(target) => AccessAction::Dial { name, target: target.clone() },
                    None => AccessAction::UnknownProvider { name },
                }
            },
            PeerEvent::Incoming(request) => AccessAction::UnexpectedStream(request),
            PeerEvent::Control(ControlMessage::BindAck { name, ok, error }) => {
                if ok {
                    AccessAction::Registered { name }
                } else {
                    let error = match error {
                        Some(text) => text,
                        None => "unknown error".to_owned(),
                    };
                    AccessAction::Rejected { name, error }
                }
            },
            PeerEvent::Control(ControlMessage::Info { message }) => AccessAction::Note { message },
            PeerEvent::Control(ControlMessage::Bind { .. }) => AccessAction::Ignore,
            PeerEvent::Closed => AccessAction::Stop,
        }
    }
}

/// The line between the parts of a listing.
pub open spec fn rule_text() -> Seq<char> {
    "--------------------------------------------------"@
}

/// The lines of a listing of relay nodes.
pub open spec fn relay_listing(relay: Seq<char>, node: Seq<char>) -> Seq<Seq<char>> {
    seq![
        Seq::empty(),
        "Available Relay Nodes:"@,
        rule_text(),
        "[1] ID: "@ + node + " | Relay: "@ + ws_url(relay, node, "client"@, None),
        rule_text(),
        "relay does not provide directory listing; pass -node <ID> to connect."@,
    ]
}

/// The line of a visitor in a listing.
pub open spec fn visitor_line(visitor: VisitorMapping) -> Seq<char> {
    "Visitor: "@ + visitor@.node + ":"@ + visitor@.service + " -> "@ + visitor@.bind_addr
}

/// The lines of a listing of what a node is configured to do.
pub open spec fn node_listing(
    relay: Seq<char>,
    name: Seq<char>,
    visitors: Seq<VisitorMapping>,
) -> Seq<Seq<char>> {
    seq![
        Seq::empty(),
        "Configured node-access:"@,
        rule_text(),
        "Self node: "@ + name + " | Relay: "@ + ws_url(relay, name, "server"@, None),
    ] + visitors.map_values(|visitor: VisitorMapping| visitor_line(visitor)) + seq![
        rule_text(),
        "relay does not provide directory listing."@,
    ]
}

/// Lists relay nodes.
pub fn list_relay_nodes(relay: &str, node: &str) -> (r: Vec<String>)
    requires
        is_encodable(node@),
    ensures
        texts(r@) == relay_listing(relay@, node@),
{
    let mut entry = "[1] ID: ".to_owned();
    entry.append(node);
    entry.append(" | Relay: ");
    entry.append(build_ws_url(relay, node, "client", None).as_str());
    let mut lines: Vec<String> = Vec::new();
    lines.push("".to_owned());
    lines.push("Available Relay Nodes:".to_owned());
    lines.push("--------------------------------------------------".to_owned());
    lines.push(entry);
    lines.push("--------------------------------------------------".to_owned());
    lines.push("relay does not provide directory listing; pass -node <ID> to connect.".to_owned());
    proof {
        reveal_strlit("");
        assert(lines@[0]@ =~= Seq::<char>::empty());
        assert(texts(lines@) =~= relay_listing(relay@, node@));
    }
    lines
}

/// Lists what a node is configured to do.
pub fn list_node(relay: &str, name: &str, visitors: &Vec<VisitorMapping>) -> (r: Vec<String>)
    requires
        is_encodable(name@),
    ensures
        texts(r@) == node_listing(relay@, name@, visitors@),
{
    let mut own = "Self node: ".to_owned();
    own.append(name);
    own.append(" | Relay: ");
    own.append(build_ws_url(relay, name, "server", None).as_str());
    let mut lines: Vec<String> = Vec::new();
    lines.push("".to_owned());
    lines.push("Configured node-access:".to_owned());
    lines.push("--------------------------------------------------".to_owned());
    lines.push(own);
    let ghost head = lines@;
    proof {
        reveal_strlit("");
        assert(lines@[0]@ =~= Seq::<char>::empty());
    }
    let mut i: usize = 0;
    while i < visitors.len()
        invariant
            i <= visitors@.len(),
            head.len() == 4,
            lines@.len() == head.len() + i,
            forall|j: int| 0 <= j < head.len() ==> #[trigger] lines@[j] == head[j],
            forall|j: int|
                head.len() <= j < lines@.len() ==> (#[trigger] lines@[j])@ == visitor_line(
                    visitors@[j - head.len()],
                ),
        decreases visitors@.len() - i,
    {
        let visitor = &visitors[i];
        let mut line = "Visitor: ".to_owned();
        line.append(visitor.node.as_str());
        line.append(":");
        line.append(visitor.service.as_str());
        line.append(" -> ");
        line.append(visitor.bind_addr.as_str());
        lines.push(line);
        i = i + 1;
    }
    lines.push("--------------------------------------------------".to_owned());
    lines.push("relay does not provide directory listing.".to_owned());
    proof {
        let expected = node_listing(relay@, name@, visitors@);
        assert forall|j: int| 0 <= j < expected.len() implies texts(lines@)[j] == expected[j] by {
            if j < head.len() {
                assert(lines@[j] == head[j]);
            }
        }
        assert(texts(lines@) =~= expected);
    }
    lines
}

proof fn lemma_by_name(providers: Seq<TcpMapping>, i: int)
    requires
        0 <= i < providers.len(),
        forall|j: int| i < j < providers.len() ==> (#[trigger] providers[j]).name@
            != providers[i].name@,
    ensures
        by_name(providers).dom().contains(providers[i].name@),
        by_name(providers)[providers[i].name@] == providers[i]@,
    decreases providers.len(),
{
    let before = providers.drop_last();
    if i < providers.len() - 1 {
        assert(before[i] == providers[i]);
        assert forall|j: int| i < j < before.len() implies (#[trigger] before[j]).name@
            != before[i].name@ by {
            assert(before[j] == providers[j]);
        }
        lemma_by_name(before, i);
        assert(providers.last() == providers[providers.len() - 1]);
    }
}

/// Visitors reach providers: once the serving node has registered a provider of an
/// access node, a visitor whose auth value it admits is sent to that node, which
/// dials the provider's address. Of providers with one name, the last one counts.
pub proof fn law_visitors_reach_providers<M>(
    state: ServeView<M>,
    connection_id: Seq<char>,
    mux: M,
    providers: Seq<TcpMapping>,
    i: int,
    presented: Option<Seq<char>>,
)
    requires
        0 <= i < providers.len(),
        forall|j: int| i < j < providers.len() ==> (#[trigger] providers[j]).name@
            != providers[i].name@,
        !state.local.dom().contains(providers[i]@.name),
        state.may_bind(connection_id, providers[i]@.name),
        auth_admits(providers[i]@.auth, presented),
    ensures
        ({
            let provider = providers[i]@;
            let registered = state.after_bind(
                provider.name,
                EndpointView { connection_id, mux, auth: provider.auth },
            );
            &&& registered.visit(provider.name, presented) == Ok::<RouteView<M>, VisitError>(
                RouteView::Provider { mux, name: provider.name },
            )
            &&& target_map(providers).dom().contains(provider.name)
            &&& target_map(providers)[provider.name] == provider.addr
        }),
{
    lemma_by_name(providers, i);
}

/// Visitors reach what a node offers itself: a visitor whose auth value a provider
/// admits is connected to the provider's address. Of providers with one name, the
/// last one counts.
pub proof fn law_visitors_reach_local_providers<M>(
    state: ServeView<M>,
    providers: Seq<TcpMapping>,
    i: int,
    presented: Option<Seq<char>>,
)
    requires
        state.local == by_name(providers),
        0 <= i < providers.len(),
        forall|j: int| i < j < providers.len() ==> (#[trigger] providers[j]).name@
            != providers[i].name@,
        auth_admits(providers[i]@.auth, presented),
    ensures
        state.visit(providers[i]@.name, presented) == Ok::<RouteView<M>, VisitError>(
            RouteView::Local { addr: providers[i]@.addr },
        ),
{
    lemma_by_name(providers, i);
}

/// Access nodes with different names get different connection ids, unless they ask
/// for some.
pub proof fn law_names_make_different_ids(
    name: Seq<char>,
    other: Seq<char>,
    node: Seq<char>,
)
    requires
        name != other,
    ensures
        access_id(None, name) != access_id(None, other),
        visitor_id(None, name, node) != visitor_id(None, other, node),
{
    let start = "access-"@;
    let n = start.len() as int;
    if access_id(None, name) == access_id(None, other) {
        assert(name =~= access_id(None, name).skip(n));
        assert(other =~= access_id(None, other).skip(n));
    }
    let a = visitor_id(None, name, node);
    let b = visitor_id(None, other, node);
    if a == b {
        let tail = "-to-"@.len() + node.len();
        assert(name =~= a.subrange(n, a.len() - tail));
        assert(other =~= b.subrange(n, b.len() - tail));
    }
}

/// A visitor gets different connection ids for different nodes, unless it asks for
/// one.
pub proof fn law_nodes_make_different_ids(name: Seq<char>, node: Seq<char>, other: Seq<char>)
    requires
        node != other,
    ensures
        visitor_id(None, name, node) != visitor_id(None, name, other),
{
    let start = "access-"@ + name + "-to-"@;
    let a = visitor_id(None, name, node);
    let b = visitor_id(None, name, other);
    if a == b {
        assert(node =~= a.skip(start.len() as int));
        assert(other =~= b.skip(start.len() as int));
    }
}

/// A connection id that was asked for is taken as it is; else an access node's id is
/// `access-` and its name, and a visitor's is that, `-to-` and the name of the node
/// that it visits.
pub proof fn law_connection_ids_name_the_nodes(
    asked: Seq<char>,
    name: Seq<char>,
    node: Seq<char>,
)
    ensures
        access_id(Some(asked), name) == asked,
        visitor_id(Some(asked), name, node) == asked,
        access_id(None, name) == "access-"@ + name,
        visitor_id(None, name, node) == access_id(None, name) + "-to-"@ + node,
{
}

/// The addresses of providers are found by their names: a name is there exactly if
/// some provider has it, and stands for the address of the last one that has it.
pub proof fn law_the_last_provider_of_a_name_is_dialled(
    providers: Seq<TcpMapping>,
    name: Seq<char>,
)
    ensures
        target_map(providers).dom().contains(name) <==> exists|i: int|
            0 <= i < providers.len() && (#[trigger] providers[i]).name@ == name,
        target_map(providers).dom().contains(name) ==> exists|i: int|
            0 <= i < providers.len() && (#[trigger] providers[i]).name@ == name && (forall|j: int|
                i < j < providers.len() ==> (#[trigger] providers[j]).name@ != name)
                && target_map(providers)[name] == providers[i].addr@,
{
    law_the_last_mapping_of_a_name_counts(providers, name);
}

/// The lines of a listing of relay nodes: the node and the URL under which its
/// clients reach it stand in the fourth.
pub proof fn law_relay_listings(relay: Seq<char>, node: Seq<char>)
    ensures
        ({
            let lines = relay_listing(relay, node);
            &&& lines.len() == 6
            &&& lines[0].len() == 0
            &&& lines[1] == "Available Relay Nodes:"@
            &&& lines[2] == "--------------------------------------------------"@
            &&& lines[3] == "[1] ID: "@ + node + " | Relay: "@ + ws_url(relay, node, "client"@, None)
            &&& lines[4] == "--------------------------------------------------"@
            &&& lines[5]
                == "relay does not provide directory listing; pass -node <ID> to connect."@
        }),
{
}

/// The lines of a listing of a node: its name and the URL under which it is served
/// stand in the fourth, and behind it one line for each visitor, in order.
pub proof fn law_node_listings(
    relay: Seq<char>,
    name: Seq<char>,
    visitors: Seq<VisitorMapping>,
)
    ensures
        ({
            let lines = node_listing(relay, name, visitors);
            let n = visitors.len() as int;
            &&& lines.len() == n + 6
            &&& lines[0].len() == 0
            &&& lines[1] == "Configured node-access:"@
            &&& lines[2] == "--------------------------------------------------"@
            &&& lines[3] == "Self node: "@ + name + " | Relay: "@ + ws_url(
                relay,
                name,
                "server"@,
                None,
            )
            &&& forall|i: int|
                0 <= i < n ==> #[trigger] lines[4 + i] == "Visitor: "@ + visitors[i].node@ + ":"@
                    + visitors[i].service@ + " -> "@ + visitors[i].bind_addr@
            &&& lines[n + 4] == "--------------------------------------------------"@
            &&& lines[n + 5] == "relay does not provide directory listing."@
        }),
{
}

} // verus!
