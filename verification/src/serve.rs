//! The serving side: which connections are served, which providers are
//! registered, and where a visitor is sent.

use crate::mapping::{auth_admits, auth_matches, TcpMapping, TcpMappingView};
use crate::mux::{ControlMessage, OpenRequest};
use crate::text::{as_text, opt_string, same_text, texts};
use crate::text_map::TextMap;
use vstd::prelude::*;
use vstd::string::*;

verus! {

/// What the relay says on the control channel.
#[derive(Debug, Clone)]
pub enum RelayControlEvent {
    /// An access node has connected.
    Connected { connection_id: String },
    /// An access node has disconnected.
    Disconnected { connection_id: String },
    /// These access nodes are connected.
    Sync { connection_ids: Vec<String> },
    /// The answer to a ping.
    Pong,
}

/// What the control channel gave.
#[derive(Debug)]
pub enum ControlInput {
    /// A text that says what has happened.
    Event(RelayControlEvent),
    /// A text that cannot be read.
    Unreadable,
    /// A message that is no text.
    Other,
    /// An error.
    Failed,
    /// The end.
    Ended,
}

/// Why a node stops to follow its control channel.
#[derive(Debug, Clone, Copy, PartialEq, Eq, Structural)]
pub enum ControlEnd {
    /// A text could not be read.
    Unreadable,
    /// The channel gave an error.
    Failed,
    /// The channel is at its end.
    Ended,
}

/// What a node does about its control channel.
#[derive(Debug)]
pub enum ControlStep {
    /// Serve these access nodes from now on, and go on.
    Serve(Vec<String>),
    /// Stop.
    Stop(ControlEnd),
}

/// A provider that an access node has registered. `M` is the way to open a
/// stream to that node.
pub struct ProviderEndpoint<M> {
    pub connection_id: String,
    pub mux: M,
    pub auth: Option<String>,
}

/// What a `ProviderEndpoint` holds.
pub struct EndpointView<M> {
    pub connection_id: Seq<char>,
    pub mux: M,
    pub auth: Option<Seq<char>>,
}

impl<M> View for ProviderEndpoint<M> {
    type V = EndpointView<M>;

    open spec fn view(&self) -> EndpointView<M> {
        EndpointView {
            connection_id: self.connection_id@,
            mux: self.mux,
            auth: opt_string(self.auth),
        }
    }
}

/// What the serving side keeps.
pub struct ServeState<M> {
    active_connections: TextMap<()>,
    local_providers: TextMap<TcpMapping>,
    providers: TextMap<ProviderEndpoint<M>>,
}

/// What a `ServeState` holds.
#[verifier::ext_equal]
pub struct ServeView<M> {
    /// The access nodes that are served.
    pub active: Set<Seq<char>>,
    /// The providers of this node itself, by name.
    pub local: Map<Seq<char>, TcpMappingView>,
    /// The providers that access nodes have registered, by name.
    pub providers: Map<Seq<char>, EndpointView<M>>,
}

/// A map with its values replaced by their views.
pub open spec fn value_views<V: View>(m: Map<Seq<char>, V>) -> Map<Seq<char>, V::V> {
    Map::new(|key: Seq<char>| m.dom().contains(key), |key: Seq<char>| m[key]@)
}

impl<M> View for ServeState<M> {
    type V = ServeView<M>;

    closed spec fn view(&self) -> ServeView<M> {
        ServeView {
            active: self.active_connections@.dom(),
            local: value_views(self.local_providers@),
            providers: value_views(self.providers@),
        }
    }
}

/// Mappings by their names; of two with one name, the later counts.
pub open spec fn by_name(mappings: Seq<TcpMapping>) -> Map<Seq<char>, TcpMappingView>
    decreases mappings.len(),
{
    if mappings.len() == 0 {
        Map::empty()
    } else {
        by_name(mappings.drop_last()).insert(mappings.last().name@, mappings.last()@)
    }
}

/// The access nodes that an event of the relay names as connected.
pub open spec fn connected_ids(event: RelayControlEvent) -> Seq<Seq<char>> {
    match event {
        RelayControlEvent::Connected { connection_id } => seq![connection_id@],
        RelayControlEvent::Sync { connection_ids } => texts(connection_ids@),
        RelayControlEvent::Disconnected { .. } => Seq::empty(),
        RelayControlEvent::Pong => Seq::empty(),
    }
}

/// Those of `ids` that are not active, each once, in order.
pub open spec fn newly_connected(active: Set<Seq<char>>, ids: Seq<Seq<char>>) -> Seq<Seq<char>>
    decreases ids.len(),
{
    if ids.len() == 0 {
        Seq::empty()
    } else {
        let before = newly_connected(active, ids.drop_last());
        if active.contains(ids.last()) || ids.drop_last().contains(ids.last()) {
            before
        } else {
            before.push(ids.last())
        }
    }
}

/// Where a visitor is sent.
pub enum RouteView<M> {
    /// To a local address.
    Local { addr: Seq<char> },
    /// Through an access node to the provider with a name.
    Provider { mux: M, name: Seq<char> },
}

/// Where a visitor is sent.
pub enum VisitRoute<'a, M> {
    /// To a local address.
    Local { addr: &'a str },
    /// Through an access node, over a stream that is opened with a request.
    Provider { mux: &'a M, request: OpenRequest },
}

/// Why a visitor is sent away.
#[derive(Debug, Clone, Copy, PartialEq, Eq, Structural)]
pub enum VisitError {
    /// No provider has the name.
    NotFound,
    /// The provider asks for another auth value.
    AuthRejected,
}

impl VisitError {
    /// The error in words.
    pub open spec fn text(self) -> Seq<char> {
        match self {
            VisitError::NotFound => "provider not found"@,
            VisitError::AuthRejected => "visitor auth rejected"@,
        }
    }

    /// Gives the error in words.
    pub fn message(&self) -> (r: String)
        ensures
            r@ == self.text(),
    {
        match self {
            VisitError::NotFound => "provider not found".to_owned(),
            VisitError::AuthRejected => "visitor auth rejected".to_owned(),
        }
    }
}

impl<M> ServeView<M> {
    /// With an access node served.
    pub open spec fn started(self, connection_id: Seq<char>) -> ServeView<M> {
        ServeView { active: self.active.insert(connection_id), ..self }
    }

    /// With some access nodes served.
    pub open spec fn started_all(self, ids: Seq<Seq<char>>) -> ServeView<M> {
        ServeView { active: self.active.union(ids.to_set()), ..self }
    }

    /// Without an access node and the providers that it has registered.
    pub open spec fn ended(self, connection_id: Seq<char>) -> ServeView<M> {
        ServeView {
            active: self.active.remove(connection_id),
            local: self.local,
            providers: Map::new(
                |name: Seq<char>|
                    self.providers.dom().contains(name) && self.providers[name].connection_id
                        != connection_id,
                |name: Seq<char>| self.providers[name],
            ),
        }
    }

    /// Whether an access node may register a provider: no other one has.
    pub open spec fn may_bind(self, connection_id: Seq<char>, name: Seq<char>) -> bool {
        self.providers.dom().contains(name) ==> self.providers[name].connection_id == connection_id
    }

    /// After an access node has asked to register a provider.
    pub open spec fn after_bind(self, name: Seq<char>, endpoint: EndpointView<M>) -> ServeView<M> {
        if self.may_bind(endpoint.connection_id, name) {
            ServeView { providers: self.providers.insert(name, endpoint), ..self }
        } else {
            self
        }
    }

    /// Where a visitor is sent. A provider of this node itself comes first.
    pub open spec fn visit(self, name: Seq<char>, presented: Option<Seq<char>>) -> Result<
        RouteView<M>,
        VisitError,
    > {
        if self.local.dom().contains(name) {
            if auth_admits(self.local[name].auth, presented) {
                Ok(RouteView::Local { addr: self.local[name].addr })
            } else {
                Err(VisitError::AuthRejected)
            }
        } else if self.providers.dom().contains(name) {
            if auth_admits(self.providers[name].auth, presented) {
                Ok(RouteView::Provider { mux: self.providers[name].mux, name })
            } else {
                Err(VisitError::AuthRejected)
            }
        } else {
            Err(VisitError::NotFound)
        }
    }
}

/// What is said to an access node whose provider's name is taken.
pub open spec fn name_taken_text() -> Seq<char> {
    "provider name is already registered"@
}

impl<M> ServeState<M> {
    /// Nobody is served; this node itself offers `local_providers`.
    pub fn new(local_providers: Vec<TcpMapping>) -> (r: Self)
        ensures
            r@ == (ServeView::<M> {
                active: Set::empty(),
                local: by_name(local_providers@),
                providers: Map::empty(),
            }),
    {
        let ghost all = local_providers@;
        let mut rest = local_providers;
        let mut local: TextMap<TcpMapping> = TextMap::new();
        let mut i: usize = 0;
        let n: usize = rest.len();
        assert(value_views(local@) =~= by_name(all.take(0)));
        while i < n
            invariant
                i <= n,
                n == all.len(),
                rest@ == all.skip(i as int),
                value_views(local@) == by_name(all.take(i as int)),
            decreases n - i,
        {
            let mapping = rest.remove(0);
            let ghost before = local@;
            proof {
                assert(mapping == all[i as int]);
                assert(rest@ =~= all.skip(i + 1));
                assert(all.take(i + 1).drop_last() =~= all.take(i as int));
            }
            let name = mapping.name.clone();
            local.insert(name, mapping);
            assert(value_views(local@) =~= value_views(before).insert(mapping.name@, mapping@));
            i = i + 1;
        }
        assert(all.take(n as int) =~= all);
        let r = ServeState {
            active_connections: TextMap::new(),
            local_providers: local,
            providers: TextMap::new(),
        };
        assert(r@.active =~= Set::<Seq<char>>::empty());
        assert(r@.providers =~= Map::<Seq<char>, EndpointView<M>>::empty());
        r
    }

    /// Takes an access node in. Says whether it was not served before.
    pub fn start(&mut self, connection_id: &String) -> (r: bool)
        ensures
            r == !old(self)@.active.contains(connection_id@),
            final(self)@ == old(self)@.started(connection_id@),
    {
        if self.active_connections.get(connection_id.as_str()).is_some() {
            assert(self@.active.insert(connection_id@) =~= self@.active);
            return false;
        }
        let ghost before = self@.active;
        self.active_connections.insert(connection_id.clone(), ());
        assert(self@.active =~= before.insert(connection_id@));
        true
    }

    /// Acts on an event of the relay. Gives the access nodes that are to be served
    /// from now on.
    pub fn on_relay_event(&mut self, event: RelayControlEvent) -> (r: Vec<String>)
        ensures
            texts(r@) == newly_connected(old(self)@.active, connected_ids(event)),
            final(self)@ == old(self)@.started_all(connected_ids(event)),
            event matches RelayControlEvent::Connected { connection_id }
                ==> final(self)@.active.contains(connection_id@),
            event matches RelayControlEvent::Sync { connection_ids } ==> forall|i: int|
                0 <= i < connection_ids@.len() ==> final(self)@.active.contains(
                    (#[trigger] connection_ids@[i])@,
                ),
    {
        let ghost said = event;
        let ghost ids = connected_ids(event);
        let mut named: Vec<String> = Vec::new();
        match event {
            RelayControlEvent::Connected { connection_id } => {
                named.push(connection_id);
            },
            RelayControlEvent::Sync { connection_ids } => {
                named = connection_ids;
            },
            RelayControlEvent::Disconnected { .. } => {},
            RelayControlEvent::Pong => {},
        }
        assert(texts(named@) =~= ids);
        let mut new: Vec<String> = Vec::new();
        let mut i: usize = 0;
        assert(texts(new@) =~= newly_connected(self@.active, ids.take(0)));
        assert(self@.active.union(ids.take(0).to_set()) =~= self@.active);
        while i < named.len()
            invariant
                i <= named@.len(),
                texts(named@) == ids,
                texts(new@) == newly_connected(old(self)@.active, ids.take(i as int)),
                self@ == old(self)@.started_all(ids.take(i as int)),
            decreases named@.len() - i,
        {
            let ghost seen = ids.take(i as int);
            let ghost id = ids[i as int];
            let ghost before = new@;
            proof {
                assert(named@[i as int]@ == texts(named@)[i as int]);
                assert(ids.take(i + 1).drop_last() =~= seen);
                assert(ids.take(i + 1) =~= seen.push(id));
                assert(seen.push(id).to_set() =~= seen.to_set().insert(id)) by {
                    assert(seen.push(id)[i as int] == id);
                    assert forall|x: Seq<char>| seen.contains(x) implies seen.push(id).contains(x) by {
                        let k = choose|k: int| 0 <= k < seen.len() && seen[k] == x;
                        assert(seen.push(id)[k] == x);
                    }
                }
                assert(old(self)@.active.union(seen.to_set()).insert(id) =~= old(
                    self,
                )@.active.union(seen.push(id).to_set()));
            }
            if self.start(&named[i]) {
                new.push(named[i].clone());
                assert(texts(new@) =~= texts(before).push(id));
            }
            i = i + 1;
        }
        proof {
            assert(ids.take(ids.len() as int) =~= ids);
            match said {
                RelayControlEvent::Connected { connection_id } => {
                    assert(ids[0] == connection_id@);
                    assert(ids.to_set().contains(connection_id@));
                },
                RelayControlEvent::Sync { connection_ids } => {
                    assert forall|i: int| 0 <= i < connection_ids@.len() implies self@.active.contains(
                        (#[trigger] connection_ids@[i])@,
                    ) by {
                        assert(ids[i] == connection_ids@[i]@);
                        assert(ids.to_set().contains(ids[i]));
                    }
                },
                RelayControlEvent::Disconnected { .. } => {},
                RelayControlEvent::Pong => {},
            }
        }
        new
    }

    /// Acts on what the control channel gave.
    pub fn on_control(&mut self, input: ControlInput) -> (r: ControlStep)
        ensures
            match input {
                ControlInput::Event(event) => {
                    &&& r matches ControlStep::Serve(ids) && texts(ids@) == newly_connected(
                        old(self)@.active,
                        connected_ids(event),
                    )
                    &&& final(self)@ == old(self)@.started_all(connected_ids(event))
                },
                ControlInput::Other => {
                    &&& r matches ControlStep::Serve(ids) && ids@.len() == 0
                    &&& final(self)@ == old(self)@
                },
                ControlInput::Unreadable => r == ControlStep::Stop(ControlEnd::Unreadable)
                    && final(self)@ == old(self)@,
                ControlInput::Failed => r == ControlStep::Stop(ControlEnd::Failed) && final(self)@
                    == old(self)@,
                ControlInput::Ended => r == ControlStep::Stop(ControlEnd::Ended) && final(self)@
                    == old(self)@,
            },
    {
        match input {
            ControlInput::Event(event) => ControlStep::Serve(self.on_relay_event(event)),
            ControlInput::Unreadable => ControlStep::Stop(ControlEnd::Unreadable),
            ControlInput::Other => ControlStep::Serve(Vec::new()),
            ControlInput::Failed => ControlStep::Stop(ControlEnd::Failed),
            ControlInput::Ended => ControlStep::Stop(ControlEnd::Ended),
        }
    }

    /// Lets an access node go, with the providers that it has registered.
    pub fn ended(&mut self, connection_id: &str)
        ensures
            final(self)@ == old(self)@.ended(connection_id@),
    {
        let ghost before = self@;
        self.active_connections.remove(connection_id);
        let keep = |provider: &ProviderEndpoint<M>| -> (b: bool)
            ensures
                b == (provider.connection_id@ != connection_id@),
            { !same_text(provider.connection_id.as_str(), connection_id) };
        self.providers.retain(keep);
        assert(self@.active =~= before.active.remove(connection_id@));
        assert(self@.providers =~= before.ended(connection_id@).providers);
    }

    /// Registers a provider for an access node, unless another one has the name.
    /// Gives the answer.
    pub fn handle_bind(
        &mut self,
        connection_id: &str,
        name: String,
        auth: Option<String>,
        mux: M,
    ) -> (r: ControlMessage)
        ensures
            final(self)@ == old(self)@.after_bind(
                name@,
                EndpointView { connection_id: connection_id@, mux, auth: opt_string(auth) },
            ),
            r matches ControlMessage::BindAck { name: n, ok, error } && {
                &&& n@ == name@
                &&& ok == old(self)@.may_bind(connection_id@, name@)
                &&& opt_string(error) == (if ok {
                    None
                } else {
                    Some(name_taken_text())
                })
            },
    {
        if let Some(existing) = self.providers.get(name.as_str()) {
            if !same_text(existing.connection_id.as_str(), connection_id) {
                return ControlMessage::BindAck {
                    name,
                    ok: false,
                    error: Some("provider name is already registered".to_owned()),
                };
            }
        }
        let ghost before = self.providers@;
        let endpoint = ProviderEndpoint { connection_id: connection_id.to_owned(), mux, auth };
        self.providers.insert(name.clone(), endpoint);
        assert(value_views(self.providers@) =~= value_views(before).insert(name@, endpoint@));
        ControlMessage::BindAck { name, ok: true, error: None }
    }

    /// Decides where a visitor is sent.
    pub fn handle_visit<'a>(&'a self, name: &str, auth: &Option<String>) -> (r: Result<
        VisitRoute<'a, M>,
        VisitError,
    >)
        ensures
            match (r, self@.visit(name@, opt_string(*auth))) {
                (Ok(VisitRoute::Local { addr }), Ok(RouteView::Local { addr: a })) => addr@ == a,
                (
                    Ok(VisitRoute::Provider { mux, request }),
                    Ok(RouteView::Provider { mux: m, name: n }),
                ) => *mux == m && (request matches OpenRequest::ProviderConnect { name: asked }
                    && asked@ == n),
                (Err(e), Err(error)) => e == error,
                _ => false,
            },
    {
        if let Some(local) = self.local_providers.get(name) {
            if !auth_matches(as_text(&local.auth), as_text(auth)) {
                return Err(VisitError::AuthRejected);
            }
            return Ok(VisitRoute::Local { addr: local.addr.as_str() });
        }
        match self.providers.get(name) {
            None => Err(VisitError::NotFound),
            Some(provider) => {
                if !auth_matches(as_text(&provider.auth), as_text(auth)) {
                    return Err(VisitError::AuthRejected);
                }
                Ok(
                    VisitRoute::Provider {
                        mux: &provider.mux,
                        request: OpenRequest::ProviderConnect { name: name.to_owned() },
                    },
                )
            },
        }
    }
}

/// What happens on the data channel of an access node that is served.
pub enum PeerEvent {
    /// The access node opens a stream.
    Incoming(OpenRequest),
    /// The access node sends a message.
    Control(ControlMessage),
    /// The channel is closed.
    Closed,
}

/// What the serving side does about it.
pub enum ServeAction {
    /// Serve SOCKS5 on the stream.
    ServeSocks,
    /// Send the stream to a provider.
    Visit { name: String, auth: Option<String> },
    /// Register a provider.
    Bind { name: String, auth: Option<String> },
    /// Drop the stream: access nodes do not open such streams.
    UnexpectedStream(OpenRequest),
    /// Drop the message: access nodes do not send such messages.
    UnexpectedMessage(ControlMessage),
    /// Stop.
    Stop,
}

/// Decides what the serving side does.
pub fn serve_action(event: PeerEvent) -> (r: ServeAction)
    ensures
        match event {
            PeerEvent::Incoming(OpenRequest::Socks) => r == ServeAction::ServeSocks,
            PeerEvent::Incoming(OpenRequest::Visit { name, auth }) => r == (ServeAction::Visit {
                name,
                auth,
            }),
            PeerEvent::Incoming(request) => r == ServeAction::UnexpectedStream(request),
            PeerEvent::Control(ControlMessage::Bind { name, auth }) => r == (ServeAction::Bind {
                name,
                auth,
            }),
            PeerEvent::Control(message) => r == ServeAction::UnexpectedMessage(message),
            PeerEvent::Closed => r == ServeAction::Stop,
        },
{
    match event {
        PeerEvent::Incoming(OpenRequest::Socks) => ServeAction::ServeSocks,
        PeerEvent::Incoming(OpenRequest::Visit { name, auth }) => ServeAction::Visit {
            name,
            auth,
        },
        PeerEvent::Incoming(request) => ServeAction::UnexpectedStream(request),
        PeerEvent::Control(ControlMessage::Bind { name, auth }) => ServeAction::Bind {
            name,
            auth,
        },
        PeerEvent::Control(message) => ServeAction::UnexpectedMessage(message),
        PeerEvent::Closed => ServeAction::Stop,
    }
}

} // verus!
