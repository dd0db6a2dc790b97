//! Laws of the serving side.

use crate::mapping::{auth_admits, TcpMapping};
use crate::serve::{
    by_name, connected_ids, newly_connected, value_views, EndpointView, ProviderEndpoint,
    RelayControlEvent, RouteView, ServeView, VisitError,
};
use vstd::prelude::*;

verus! {

/// What can happen to the serving side.
pub enum ServeStep<M> {
    /// The relay names access nodes as connected.
    Connected { ids: Seq<Seq<char>> },
    /// An access node asks to register a provider.
    Bind { name: Seq<char>, endpoint: EndpointView<M> },
    /// The data channel of an access node ends.
    Ended { connection_id: Seq<char> },
}

/// The serving side after a step.
pub open spec fn stepped<M>(state: ServeView<M>, step: ServeStep<M>) -> ServeView<M> {
    match step {
        ServeStep::Connected { ids } => state.started_all(ids),
        ServeStep::Bind { name, endpoint } => state.after_bind(name, endpoint),
        ServeStep::Ended { connection_id } => state.ended(connection_id),
    }
}

/// The serving side after some steps.
pub open spec fn stepped_all<M>(state: ServeView<M>, steps: Seq<ServeStep<M>>) -> ServeView<M>
    decreases steps.len(),
{
    if steps.len() == 0 {
        state
    } else {
        stepped(stepped_all(state, steps.drop_last()), steps.last())
    }
}

/// Whether an access node has registered the provider with a name.
pub open spec fn registered<M>(
    state: ServeView<M>,
    name: Seq<char>,
    connection_id: Seq<char>,
) -> bool {
    state.providers.dom().contains(name) && state.providers[name].connection_id == connection_id
}

/// Whether every registered provider belongs to an access node that is served.
pub open spec fn providers_are_served<M>(state: ServeView<M>) -> bool {
    forall|name: Seq<char>| #[trigger]
        state.providers.dom().contains(name) ==> state.active.contains(
            state.providers[name].connection_id,
        )
}

/// Whether providers are asked for by access nodes that are served.
pub open spec fn binds_are_served<M>(state: ServeView<M>, steps: Seq<ServeStep<M>>) -> bool {
    forall|i: int|
        0 <= i < steps.len() ==> ((#[trigger] steps[i]) matches ServeStep::Bind { endpoint, .. }
            ==> stepped_all(state, steps.take(i)).active.contains(endpoint.connection_id))
}

/// A provider's name stays with the access node that has registered it, whatever
/// others ask for, until the data channel of that node ends.
pub proof fn law_names_stay_until_their_node_ends<M>(
    state: ServeView<M>,
    steps: Seq<ServeStep<M>>,
    name: Seq<char>,
    connection_id: Seq<char>,
)
    requires
        registered(state, name, connection_id),
        forall|i: int|
            0 <= i < steps.len() ==> #[trigger] steps[i] != (ServeStep::<M>::Ended {
                connection_id,
            }),
    ensures
        registered(stepped_all(state, steps), name, connection_id),
    decreases steps.len(),
{
    if steps.len() > 0 {
        let before = steps.drop_last();
        assert forall|i: int| 0 <= i < before.len() implies #[trigger] before[i] != (ServeStep::<
            M,
        >::Ended { connection_id }) by {
            assert(before[i] == steps[i]);
        }
        law_names_stay_until_their_node_ends(state, before, name, connection_id);
        assert(steps.last() == steps[steps.len() - 1]);
    }
}

/// An access node that asks for a name of another one is refused, and nothing
/// changes.
pub proof fn law_taken_names_are_refused<M>(
    state: ServeView<M>,
    name: Seq<char>,
    owner: Seq<char>,
    endpoint: EndpointView<M>,
)
    requires
        registered(state, name, owner),
        endpoint.connection_id != owner,
    ensures
        !state.may_bind(endpoint.connection_id, name),
        state.after_bind(name, endpoint) == state,
{
}

/// Registered providers belong to access nodes that are served, in every state
/// that is reached from one in which they do, as long as only nodes that are
/// served ask for providers.
pub proof fn law_registered_providers_are_served<M>(
    state: ServeView<M>,
    steps: Seq<ServeStep<M>>,
)
    requires
        providers_are_served(state),
        binds_are_served(state, steps),
    ensures
        providers_are_served(stepped_all(state, steps)),
    decreases steps.len(),
{
    if steps.len() > 0 {
        let before = steps.drop_last();
        let last = steps.len() - 1;
        assert forall|i: int| 0 <= i < before.len() implies ((#[trigger] before[i]) matches ServeStep::Bind {
            endpoint,
            ..
        } ==> stepped_all(state, before.take(i)).active.contains(endpoint.connection_id)) by {
            assert(before[i] == steps[i]);
            assert(before.take(i) =~= steps.take(i));
        }
        law_registered_providers_are_served(state, before);
        assert(before =~= steps.take(last));
        assert(steps.last() == steps[last]);
        let reached = stepped_all(state, before);
        let next = stepped_all(state, steps);
        assert forall|name: Seq<char>| #[trigger]
            next.providers.dom().contains(name) implies next.active.contains(
            next.providers[name].connection_id,
        ) by {
            match steps.last() {
                ServeStep::Connected { .. } => {
                    assert(reached.providers.dom().contains(name));
                },
                ServeStep::Bind { name: bound, endpoint } => {
                    if name != bound || !reached.may_bind(endpoint.connection_id, bound) {
                        assert(reached.providers.dom().contains(name));
                    }
                },
                ServeStep::Ended { .. } => {
                    assert(reached.providers.dom().contains(name));
                },
            }
        }
    }
}

/// When the data channel of an access node ends, nothing of that node is left,
/// its names are free for every node, and what others have registered and what
/// this node offers itself stays as it was.
pub proof fn law_ended_nodes_leave_nothing<M>(state: ServeView<M>, connection_id: Seq<char>)
    ensures
        !state.ended(connection_id).active.contains(connection_id),
        forall|other: Seq<char>|
            other != connection_id ==> (#[trigger] state.ended(connection_id).active.contains(other)
                <==> state.active.contains(other)),
        forall|name: Seq<char>| !#[trigger] registered(state.ended(connection_id), name, connection_id),
        forall|name: Seq<char>, other: Seq<char>|
            registered(state, name, connection_id) ==> #[trigger] state.ended(
                connection_id,
            ).may_bind(other, name),
        forall|name: Seq<char>, other: Seq<char>|
            other != connection_id && #[trigger] registered(state, name, other) ==> registered(
                state.ended(connection_id),
                name,
                other,
            ) && state.ended(connection_id).providers[name] == state.providers[name],
        state.ended(connection_id).local == state.local,
{
}

/// A visitor is admitted exactly if a provider has the name and asks for no auth
/// value or for the one that the visitor presents.
pub proof fn law_visitors_need_a_provider_and_its_auth<M>(
    state: ServeView<M>,
    name: Seq<char>,
    presented: Option<Seq<char>>,
)
    ensures
        state.visit(name, presented) is Ok <==> {
            ||| state.local.dom().contains(name) && auth_admits(state.local[name].auth, presented)
            ||| !state.local.dom().contains(name) && state.providers.dom().contains(name)
                && auth_admits(state.providers[name].auth, presented)
        },
        state.visit(name, presented) == Err::<RouteView<M>, VisitError>(VisitError::NotFound)
            <==> !state.local.dom().contains(name) && !state.providers.dom().contains(name),
{
}

/// What access nodes register under the name of a provider of this node itself
/// changes nothing for visitors of that name.
pub proof fn law_local_providers_come_first<M>(
    state: ServeView<M>,
    name: Seq<char>,
    endpoint: EndpointView<M>,
    presented: Option<Seq<char>>,
)
    requires
        state.local.dom().contains(name),
    ensures
        state.after_bind(name, endpoint).visit(name, presented) == state.visit(name, presented),
{
}

/// Once an access node has registered a provider, visitors with its auth value
/// are sent to that node, and others are rejected.
pub proof fn law_registered_providers_are_visited<M>(
    state: ServeView<M>,
    name: Seq<char>,
    endpoint: EndpointView<M>,
    presented: Option<Seq<char>>,
)
    requires
        !state.local.dom().contains(name),
        state.may_bind(endpoint.connection_id, name),
    ensures
        state.after_bind(name, endpoint).visit(name, presented) == (if auth_admits(
            endpoint.auth,
            presented,
        ) {
            Ok(RouteView::Provider { mux: endpoint.mux, name })
        } else {
            Err(VisitError::AuthRejected)
        }),
{
}

/// Once the data channel of an access node has ended, its providers are found no
/// more, unless this node offers the name itself.
pub proof fn law_ended_providers_are_not_found<M>(
    state: ServeView<M>,
    name: Seq<char>,
    connection_id: Seq<char>,
    presented: Option<Seq<char>>,
)
    requires
        registered(state, name, connection_id),
        !state.local.dom().contains(name),
    ensures
        state.ended(connection_id).visit(name, presented) == Err::<RouteView<M>, VisitError>(
            VisitError::NotFound,
        ),
{
}

/// Each access node that the relay names and that is not served yet starts being
/// served, once, and no other one.
pub proof fn law_nodes_start_once(active: Set<Seq<char>>, ids: Seq<Seq<char>>)
    ensures
        newly_connected(active, ids).no_duplicates(),
        forall|id: Seq<char>| #[trigger]
            newly_connected(active, ids).contains(id) <==> ids.contains(id) && !active.contains(id),
    decreases ids.len(),
{
    if ids.len() > 0 {
        let rest = ids.drop_last();
        let last = ids.last();
        let before = newly_connected(active, rest);
        let all = newly_connected(active, ids);
        law_nodes_start_once(active, rest);
        assert(ids =~= rest.push(last));
        assert forall|id: Seq<char>| #[trigger] all.contains(id) <==> ids.contains(id)
            && !active.contains(id) by {
            assert(ids.contains(id) <==> rest.contains(id) || id == last) by {
                if rest.contains(id) {
                    let k = choose|k: int| 0 <= k < rest.len() && rest[k] == id;
                    assert(ids[k] == id);
                }
                assert(ids[ids.len() - 1] == last);
            }
            if all == before.push(last) {
                if before.contains(id) {
                    let k = choose|k: int| 0 <= k < before.len() && before[k] == id;
                    assert(all[k] == id);
                }
                assert(all[before.len() as int] == last);
            }
            assert(before.contains(id) <==> rest.contains(id) && !active.contains(id));
        }
        assert(before.contains(last) <==> rest.contains(last) && !active.contains(last));
    }
}

/// An access node that is served is not started again, whatever the relay says.
pub proof fn law_served_nodes_are_not_started_again<M>(
    state: ServeView<M>,
    first: Seq<Seq<char>>,
    second: Seq<Seq<char>>,
    id: Seq<char>,
)
    requires
        first.contains(id),
    ensures
        !newly_connected(state.started_all(first).active, second).contains(id),
{
    law_nodes_start_once(state.started_all(first).active, second);
    assert(first.to_set().contains(id));
}

/// A notice that an access node has disconnected changes nothing, and neither does
/// a pong: a node is let go when its data channel ends.
pub proof fn law_notices_change_nothing<M>(state: ServeView<M>, event: RelayControlEvent)
    requires
        event is Disconnected || event is Pong,
    ensures
        newly_connected(state.active, connected_ids(event)) == Seq::<Seq<char>>::empty(),
        state.started_all(connected_ids(event)) == state,
{
    assert(state.started_all(connected_ids(event)).active =~= state.active);
}

proof fn lemma_started_all<M>(state: ServeView<M>, ids: Seq<Seq<char>>, id: Seq<char>)
    ensures
        state.started_all(ids).active.contains(id) <==> state.active.contains(id) || ids.contains(
            id,
        ),
        newly_connected(state.active, ids).contains(id) <==> ids.contains(id)
            && !state.active.contains(id),
{
    law_nodes_start_once(state.active, ids);
    assert(ids.to_set().contains(id) <==> ids.contains(id));
}

/// After the relay has named the access nodes that are connected, each of them is
/// served, whatever its place in the list; those that were not served before are
/// started, and nobody else.
pub proof fn law_synced_nodes_are_served<M>(
    state: ServeView<M>,
    connection_ids: Vec<String>,
    i: int,
    id: Seq<char>,
)
    requires
        0 <= i < connection_ids@.len(),
    ensures
        ({
            let ids = connected_ids(RelayControlEvent::Sync { connection_ids });
            let after = state.started_all(ids);
            let started = newly_connected(state.active, ids);
            let named = connection_ids@[i]@;
            &&& after.active.contains(named)
            &&& started.contains(named) <==> !state.active.contains(named)
            &&& after.active.contains(id) ==> state.active.contains(id) || exists|j: int|
                0 <= j < connection_ids@.len() && (#[trigger] connection_ids@[j])@ == id
            &&& state.active.contains(id) ==> after.active.contains(id) && !started.contains(id)
            &&& started.contains(id) ==> exists|j: int|
                0 <= j < connection_ids@.len() && (#[trigger] connection_ids@[j])@ == id
            &&& after.local == state.local
            &&& after.providers == state.providers
        }),
{
    let ids = connected_ids(RelayControlEvent::Sync { connection_ids });
    assert(ids[i] == connection_ids@[i]@);
    assert(ids.contains(connection_ids@[i]@));
    lemma_started_all(state, ids, connection_ids@[i]@);
    lemma_started_all(state, ids, id);
    if ids.contains(id) {
        let j = choose|j: int| 0 <= j < ids.len() && ids[j] == id;
        assert(connection_ids@[j]@ == id);
    }
}

/// After the relay has said that an access node has connected, that node is served;
/// it is the one to be started if it was not served before, and nobody else is.
pub proof fn law_connected_nodes_are_served<M>(
    state: ServeView<M>,
    connection_id: String,
    id: Seq<char>,
)
    ensures
        ({
            let ids = connected_ids(RelayControlEvent::Connected { connection_id });
            let after = state.started_all(ids);
            let started = newly_connected(state.active, ids);
            &&& after.active.contains(connection_id@)
            &&& started.contains(connection_id@) <==> !state.active.contains(connection_id@)
            &&& id != connection_id@ ==> !started.contains(id) && (after.active.contains(id)
                <==> state.active.contains(id))
            &&& after.local == state.local
            &&& after.providers == state.providers
        }),
{
    let ids = connected_ids(RelayControlEvent::Connected { connection_id });
    assert(ids[0] == connection_id@);
    assert(ids.contains(connection_id@));
    lemma_started_all(state, ids, connection_id@);
    lemma_started_all(state, ids, id);
}

/// A list without names starts nobody.
pub proof fn law_nobody_is_started_for_nothing<M>(state: ServeView<M>, connection_ids: Vec<String>)
    requires
        connection_ids@.len() == 0,
    ensures
        ({
            let ids = connected_ids(RelayControlEvent::Sync { connection_ids });
            &&& newly_connected(state.active, ids).len() == 0
            &&& state.started_all(ids) == state
        }),
{
    let ids = connected_ids(RelayControlEvent::Sync { connection_ids });
    assert(ids.len() == 0);
    assert(state.started_all(ids).active =~= state.active);
}

/// Access nodes are started in the order in which the relay names them: what a longer
/// list starts begins with what its start does.
pub proof fn law_nodes_start_in_order(active: Set<Seq<char>>, ids: Seq<Seq<char>>, n: int)
    requires
        0 <= n <= ids.len(),
    ensures
        newly_connected(active, ids.take(n)).is_prefix_of(newly_connected(active, ids)),
    decreases ids.len(),
{
    if n == ids.len() {
        assert(ids.take(n) =~= ids);
        assert(newly_connected(active, ids).take(newly_connected(active, ids).len() as int)
            =~= newly_connected(active, ids));
    } else {
        let rest = ids.drop_last();
        law_nodes_start_in_order(active, rest, n);
        assert(rest.take(n) =~= ids.take(n));
        let short = newly_connected(active, ids.take(n));
        let mid = newly_connected(active, rest);
        let all = newly_connected(active, ids);
        assert(short =~= mid.take(short.len() as int));
        assert(all.take(mid.len() as int) =~= mid);
        assert(short =~= all.take(short.len() as int));
    }
}

/// Serving one more access node adds that node and nothing else.
pub proof fn law_starting_adds_one_node<M>(
    state: ServeView<M>,
    connection_id: Seq<char>,
    other: Seq<char>,
)
    ensures
        state.started(connection_id).active.contains(connection_id),
        other != connection_id ==> (state.started(connection_id).active.contains(other)
            <==> state.active.contains(other)),
        state.started(connection_id).local == state.local,
        state.started(connection_id).providers == state.providers,
{
}

/// A registered provider is what was asked for: the node, the way to it and the auth
/// value.
pub proof fn law_endpoints_are_their_fields<M>(endpoint: ProviderEndpoint<M>)
    ensures
        endpoint@.connection_id == endpoint.connection_id@,
        endpoint@.mux == endpoint.mux,
        endpoint@.auth is Some <==> endpoint.auth is Some,
        endpoint.auth matches Some(a) ==> endpoint@.auth == Some(a@),
{
}

/// A map keeps its keys, and each value is replaced by what it holds.
pub proof fn law_value_views_keep_keys<V: View>(m: Map<Seq<char>, V>, key: Seq<char>)
    ensures
        value_views(m).dom().contains(key) <==> m.dom().contains(key),
        m.dom().contains(key) ==> value_views(m)[key] == m[key]@,
{
}

/// A name that nobody has, and one that the access node itself has, is given to the
/// node that asks for it, as it asks for it; other names, the nodes that are served
/// and what this node offers itself stay as they were.
pub proof fn law_free_names_are_given<M>(
    state: ServeView<M>,
    name: Seq<char>,
    endpoint: EndpointView<M>,
    other: Seq<char>,
)
    requires
        !state.providers.dom().contains(name) || state.providers[name].connection_id
            == endpoint.connection_id,
    ensures
        ({
            let after = state.after_bind(name, endpoint);
            &&& state.may_bind(endpoint.connection_id, name)
            &&& after.providers.dom().contains(name) && after.providers[name] == endpoint
            &&& other != name ==> (after.providers.dom().contains(other)
                <==> state.providers.dom().contains(other))
            &&& other != name && state.providers.dom().contains(other) ==> after.providers[other]
                == state.providers[other]
            &&& after.active == state.active
            &&& after.local == state.local
        }),
{
}

/// An access node that ends takes its own providers with it and no others; nothing
/// is registered by it.
pub proof fn law_ending_takes_own_providers_only<M>(
    state: ServeView<M>,
    connection_id: Seq<char>,
    name: Seq<char>,
)
    ensures
        ({
            let after = state.ended(connection_id);
            &&& after.providers.dom().contains(name) <==> state.providers.dom().contains(name)
                && state.providers[name].connection_id != connection_id
            &&& after.providers.dom().contains(name) ==> after.providers[name]
                == state.providers[name]
        }),
{
}

/// An admitted visitor is sent to the address of the provider that this node offers
/// itself, or else to the access node that has registered the provider, by the name
/// that was asked for; a visitor whose auth value does not fit is rejected.
pub proof fn law_visitors_are_sent_to_their_provider<M>(
    state: ServeView<M>,
    name: Seq<char>,
    presented: Option<Seq<char>>,
)
    ensures
        state.local.dom().contains(name) ==> {
            let offer = state.local[name];
            &&& auth_admits(offer.auth, presented) ==> (state.visit(name, presented) matches Ok(
                RouteView::Local { addr },
            ) && addr == offer.addr)
            &&& !auth_admits(offer.auth, presented) ==> (state.visit(name, presented) matches Err(e)
                && e == VisitError::AuthRejected)
        },
        !state.local.dom().contains(name) && state.providers.dom().contains(name) ==> {
            let offer = state.providers[name];
            &&& auth_admits(offer.auth, presented) ==> (state.visit(name, presented) matches Ok(
                RouteView::Provider { mux, name: to },
            ) && mux == offer.mux && to == name)
            &&& !auth_admits(offer.auth, presented) ==> (state.visit(name, presented) matches Err(e)
                && e == VisitError::AuthRejected)
        },
        !state.local.dom().contains(name) && !state.providers.dom().contains(name) ==> (
        state.visit(name, presented) matches Err(e) && e == VisitError::NotFound),
{
}

/// Mappings are found by their names: a name is there exactly if some mapping has it,
/// and stands for the last mapping that has it.
pub proof fn law_the_last_mapping_of_a_name_counts(mappings: Seq<TcpMapping>, name: Seq<char>)
    ensures
        by_name(mappings).dom().contains(name) <==> exists|i: int|
            0 <= i < mappings.len() && (#[trigger] mappings[i]).name@ == name,
        by_name(mappings).dom().contains(name) ==> exists|i: int|
            0 <= i < mappings.len() && (#[trigger] mappings[i]).name@ == name && (forall|j: int|
                i < j < mappings.len() ==> (#[trigger] mappings[j]).name@ != name)
                && by_name(mappings)[name] == mappings[i]@,
    decreases mappings.len(),
{
    if mappings.len() > 0 {
        let rest = mappings.drop_last();
        let last = mappings.len() - 1;
        law_the_last_mapping_of_a_name_counts(rest, name);
        if mappings[last].name@ == name {
            assert(by_name(mappings)[name] == mappings[last]@);
        } else {
            if by_name(rest).dom().contains(name) {
                let i = choose|i: int|
                    0 <= i < rest.len() && (#[trigger] rest[i]).name@ == name && (forall|j: int|
                        i < j < rest.len() ==> (#[trigger] rest[j]).name@ != name)
                        && by_name(rest)[name] == rest[i]@;
                assert(mappings[i] == rest[i]);
                assert forall|j: int| i < j < mappings.len() implies (#[trigger] mappings[j]).name@
                    != name by {
                    if j < last {
                        assert(mappings[j] == rest[j]);
                    }
                }
                assert(by_name(mappings)[name] == mappings[i]@);
            }
            if exists|i: int| 0 <= i < mappings.len() && (#[trigger] mappings[i]).name@ == name {
                let i = choose|i: int|
                    0 <= i < mappings.len() && (#[trigger] mappings[i]).name@ == name;
                assert(rest[i].name@ == name);
            }
        }
    }
}

} // verus!
