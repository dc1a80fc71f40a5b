//! What holds of every packet and command a drone handles.
use vstd::prelude::*;
use crate::packet::NodeId;
use crate::packet::NackType;
use crate::packet::PacketView;
use crate::packet::FloodRequestView;
use crate::packet::RouteView;
use crate::packet::PacketTypeView;
use crate::packet::current_hop_of;
use crate::packet::next_hop_of;
use crate::packet::is_last_hop_of;
use crate::packet::packet_advanced;
use crate::packet::incremented;
use crate::packet::trace_ids;
use crate::drone::ActionView;
use crate::drone::EventView;
use crate::drone::DroneView;
use crate::drone::DroneCommand;
use crate::drone::DroneFault;
use crate::drone::spec_forward;
use crate::drone::spec_error_nack;
use crate::drone::spec_routing_check;
use crate::drone::spec_manage_flood;
use crate::drone::spec_on_packet;
use crate::drone::spec_handle_command;
use crate::drone::spec_on_command;
use crate::drone::flood_forwards;
use crate::drone::with_neighbor;
use crate::drone::without_neighbor;
use crate::drone::other_than;

verus! {

/// Every packet among the actions goes to a neighbour.
pub open spec fn sends_to_neighbors(d: DroneView, a: Seq<ActionView>) -> bool {
    forall|i: int| 0 <= i < a.len() ==> (#[trigger] a[i] matches ActionView::Send { to, .. } ==> d.neighbors.contains(to))
}

/// The outcome, where it is a list of actions, sends only to neighbours.
pub open spec fn outcome_sends_to_neighbors(d: DroneView, r: Result<Seq<ActionView>, DroneFault>) -> bool {
    r matches Ok(a) ==> sends_to_neighbors(d, a)
}

proof fn lemma_forward_sends_to_neighbors(d: DroneView, p: PacketView, generated: bool)
    ensures
        outcome_sends_to_neighbors(d, spec_forward(d, p, generated)),
{
}

proof fn lemma_error_nack_sends_to_neighbors(d: DroneView, nt: NackType, p: PacketView)
    ensures
        outcome_sends_to_neighbors(d, spec_error_nack(d, nt, p)),
{
    let np = crate::drone::nack_for(d, p, nt);
    lemma_forward_sends_to_neighbors(d, np, true);
    match spec_forward(d, np, true) {
        Ok(a) => {
            let b = a.push(ActionView::Report(EventView::PacketDropped(p)));
            assert forall|i: int| 0 <= i < b.len() implies (#[trigger] b[i] matches ActionView::Send { to, .. }
                ==> d.neighbors.contains(to)) by {
                if i < a.len() {
                    assert(b[i] == a[i]);
                }
            }
        },
        Err(_) => {},
    }
}

proof fn lemma_routing_check_sends_to_neighbors(d: DroneView, p: PacketView, roll: int)
    ensures
        spec_routing_check(d, p, roll) matches Ok(Some(a)) ==> sends_to_neighbors(d, a),
{
    lemma_error_nack_sends_to_neighbors(d, NackType::UnexpectedRecipient(d.id), p);
    lemma_error_nack_sends_to_neighbors(d, NackType::DestinationIsDrone, p);
    lemma_error_nack_sends_to_neighbors(d, NackType::Dropped, p);
    match next_hop_of(p.routing_header) {
        Some(n) => lemma_error_nack_sends_to_neighbors(d, NackType::ErrorInRouting(n), p),
        None => {},
    }
}

/// What the flood request passed on to the neighbours consists of: reports
/// of it and sends of it, only to listed neighbours other than the sender.
proof fn lemma_flood_forwards_shape(ns: Seq<NodeId>, sender: NodeId, fp: PacketView)
    ensures
        forall|i: int| 0 <= i < flood_forwards(ns, sender, fp).len() ==> {
            let a = #[trigger] flood_forwards(ns, sender, fp)[i];
            ||| a == ActionView::Report(EventView::PacketSent(fp))
            ||| a matches ActionView::Send { to, packet } && ns.contains(to) && to != sender && packet == fp
        },
    decreases ns.len(),
{
    if ns.len() > 0 {
        let rest = flood_forwards(ns.drop_last(), sender, fp);
        lemma_flood_forwards_shape(ns.drop_last(), sender, fp);
        let all = flood_forwards(ns, sender, fp);
        assert forall|i: int| 0 <= i < all.len() implies {
            let a = #[trigger] all[i];
            ||| a == ActionView::Report(EventView::PacketSent(fp))
            ||| a matches ActionView::Send { to, packet } && ns.contains(to) && to != sender && packet == fp
        } by {
            if i < rest.len() {
                assert(all[i] == rest[i]);
                if let ActionView::Send { to, packet } = rest[i] {
                    let k = choose|k: int| 0 <= k < ns.drop_last().len() && ns.drop_last()[k] == to;
                    assert(ns[k] == to);
                }
            } else {
                assert(ns[ns.len() - 1] == ns.last());
            }
        }
    }
}

/// Every listed neighbour other than the sender is sent the flood request.
proof fn lemma_flood_forwards_cover(ns: Seq<NodeId>, sender: NodeId, fp: PacketView, n: NodeId)
    requires
        ns.contains(n),
        n != sender,
    ensures
        exists|i: int| 0 <= i < flood_forwards(ns, sender, fp).len()
            && #[trigger] flood_forwards(ns, sender, fp)[i] == (ActionView::Send { to: n, packet: fp }),
    decreases ns.len(),
{
    let rest = flood_forwards(ns.drop_last(), sender, fp);
    let all = flood_forwards(ns, sender, fp);
    if ns.last() == n {
        assert(all[all.len() - 1] == (ActionView::Send { to: n, packet: fp }));
    } else {
        let k = choose|k: int| 0 <= k < ns.len() && ns[k] == n;
        assert(ns.drop_last()[k] == n);
        lemma_flood_forwards_cover(ns.drop_last(), sender, fp, n);
        let i = choose|i: int| 0 <= i < rest.len() && #[trigger] rest[i] == (ActionView::Send { to: n, packet: fp });
        assert(all[i] == rest[i]);
    }
}

/// A drone only ever sends on channels it has: in every outcome of handling
/// a packet, each packet sent goes to a neighbour.
pub proof fn law_sends_only_to_neighbors(d: DroneView, p: PacketView, roll: int)
    ensures
        outcome_sends_to_neighbors(d, spec_on_packet(d, p, roll).1),
{
    lemma_routing_check_sends_to_neighbors(d, p, roll);
    lemma_forward_sends_to_neighbors(d, p, false);
    lemma_error_nack_sends_to_neighbors(d, NackType::ErrorInRouting(d.id), p);
    if let PacketTypeView::FloodRequest(f) = p.pack_type {
        if !d.is_crashing && f.path_trace.len() > 0 {
            let d2 = spec_manage_flood(d, p, f).0;
            let inc = incremented(f, d.id, crate::packet::NodeType::Drone);
            lemma_forward_sends_to_neighbors(d2, crate::packet::response_to(
                crate::drone::trimmed_for_response(f, d.id), (p.session_id + 1) as u64), false);
            lemma_forward_sends_to_neighbors(d2, crate::packet::response_to(
                crate::drone::trimmed_for_response(inc, d.id), (p.session_id + 1) as u64), false);
            let fp = PacketView {
                pack_type: PacketTypeView::FloodRequest(inc),
                routing_header: p.routing_header,
                session_id: p.session_id,
            };
            lemma_flood_forwards_shape(d.neighbors, f.path_trace.last().0, fp);
        }
    }
}

/// Every packet among the actions that is not a flood request is sent to the
/// node its route names as its current hop, and names this drone as the hop
/// before.
pub open spec fn sent_from_here(d: DroneView, a: Seq<ActionView>) -> bool {
    forall|i: int| 0 <= i < a.len() ==> (#[trigger] a[i] matches ActionView::Send { to, packet }
        ==> (!(packet.pack_type is FloodRequest) ==> {
            let r = packet.routing_header;
            &&& 1 <= r.hop_index < r.hops.len()
            &&& r.hops[r.hop_index] == to
            &&& r.hops[r.hop_index - 1] == d.id
        }))
}

proof fn lemma_forward_from_here(d: DroneView, q: PacketView, generated: bool)
    requires
        0 <= q.routing_header.hop_index < q.routing_header.hops.len(),
        q.routing_header.hops[q.routing_header.hop_index] == d.id,
    ensures
        spec_forward(d, q, generated) matches Ok(a) ==> sent_from_here(d, a),
{
}

proof fn lemma_error_nack_from_here(d: DroneView, nt: NackType, p: PacketView)
    requires
        current_hop_of(p.routing_header) matches Some(c) && (c == d.id || nt == NackType::UnexpectedRecipient(d.id)),
    ensures
        spec_error_nack(d, nt, p) matches Ok(a) ==> sent_from_here(d, a),
{
    let np = crate::drone::nack_for(d, p, nt);
    let h = p.routing_header.hop_index;
    assert(p.routing_header.hops.take(h + 1).reverse()[0] == p.routing_header.hops[h]);
    lemma_forward_from_here(d, np, true);
    match spec_forward(d, np, true) {
        Ok(a) => {
            let b = a.push(ActionView::Report(EventView::PacketDropped(p)));
            assert forall|i: int| 0 <= i < b.len() implies (#[trigger] b[i] matches ActionView::Send { to, packet }
                ==> (!(packet.pack_type is FloodRequest) ==> {
                    let r = packet.routing_header;
                    &&& 1 <= r.hop_index < r.hops.len()
                    &&& r.hops[r.hop_index] == to
                    &&& r.hops[r.hop_index - 1] == d.id
                })) by {
                if i < a.len() {
                    assert(b[i] == a[i]);
                }
            }
        },
        Err(_) => {},
    }
}

/// The drone only sends packets that come from it: every packet it sends,
/// but a flood request passed on unchanged in its route, goes to the node its
/// route names as the current hop and names this drone as the hop before.
pub proof fn law_sent_packets_come_from_this_drone(d: DroneView, p: PacketView, roll: int)
    ensures
        spec_on_packet(d, p, roll).1 matches Ok(a) ==> sent_from_here(d, a),
{
    let r = p.routing_header;
    if let Some(c) = current_hop_of(r) {
        lemma_error_nack_from_here(d, NackType::UnexpectedRecipient(d.id), p);
        if c == d.id {
            lemma_error_nack_from_here(d, NackType::DestinationIsDrone, p);
            lemma_error_nack_from_here(d, NackType::Dropped, p);
            lemma_error_nack_from_here(d, NackType::ErrorInRouting(d.id), p);
            if let Some(n) = next_hop_of(r) {
                lemma_error_nack_from_here(d, NackType::ErrorInRouting(n), p);
            }
            lemma_forward_from_here(d, p, false);
        }
    }
    if let PacketTypeView::FloodRequest(f) = p.pack_type {
        if !d.is_crashing && f.path_trace.len() > 0 {
            let d2 = spec_manage_flood(d, p, f).0;
            let inc = incremented(f, d.id, crate::packet::NodeType::Drone);
            let t = crate::drone::trimmed_for_response(inc, d.id);
            let resp = crate::packet::response_to(t, (p.session_id + 1) as u64);
            assert(t.path_trace.last().0 == d.id);
            assert(trace_ids(t.path_trace).reverse()[0] == t.path_trace.last().0);
            lemma_forward_from_here(d2, resp, false);
            let fp = PacketView {
                pack_type: PacketTypeView::FloodRequest(inc),
                routing_header: p.routing_header,
                session_id: p.session_id,
            };
            lemma_flood_forwards_shape(d.neighbors, f.path_trace.last().0, fp);
        }
    }
}

/// A packet that is not a flood request, reaching a running drone that is
/// its current hop and not its last, whose next hop is a neighbour, and
/// that is not a fragment dropped by the roll, goes on to its next hop
/// unchanged but for its hop index, and the controller hears that it was
/// sent; the drone's state does not change.
pub proof fn law_forwarding_passes_packet_on(d: DroneView, p: PacketView, roll: int)
    requires
        !d.is_crashing,
        !(p.pack_type is FloodRequest),
        current_hop_of(p.routing_header) == Some(d.id),
        !is_last_hop_of(p.routing_header),
        next_hop_of(p.routing_header) matches Some(n) && d.neighbors.contains(n),
        !(p.pack_type is MsgFragment && roll < d.drop_threshold),
    ensures
        spec_on_packet(d, p, roll) == (d, Ok::<Seq<ActionView>, DroneFault>(seq![
            ActionView::Send { to: next_hop_of(p.routing_header).unwrap(), packet: packet_advanced(p) },
            ActionView::TryReport(EventView::PacketSent(packet_advanced(p))),
        ])),
{
}

/// With a drop rate of one, every fragment that passes the routing checks
/// of a running drone is dropped: it is answered with a `Dropped` negative
/// acknowledgement, whatever the roll.
pub proof fn law_full_drop_rate_drops_every_fragment(d: DroneView, p: PacketView, roll: int)
    requires
        !d.is_crashing,
        d.drop_threshold >= 100,
        0 <= roll < 100,
        p.pack_type is MsgFragment,
        current_hop_of(p.routing_header) == Some(d.id),
        !is_last_hop_of(p.routing_header),
        next_hop_of(p.routing_header) matches Some(n) && d.neighbors.contains(n),
    ensures
        spec_on_packet(d, p, roll) == (d, spec_error_nack(d, NackType::Dropped, p)),
{
}

/// With a drop rate of zero no fragment is ever dropped: a fragment that
/// passes the routing checks of a running drone goes on, whatever the roll.
pub proof fn law_zero_drop_rate_drops_nothing(d: DroneView, p: PacketView, roll: int)
    requires
        !d.is_crashing,
        d.drop_threshold <= 0,
        0 <= roll < 100,
        p.pack_type is MsgFragment,
        current_hop_of(p.routing_header) == Some(d.id),
        !is_last_hop_of(p.routing_header),
        next_hop_of(p.routing_header) matches Some(n) && d.neighbors.contains(n),
    ensures
        spec_on_packet(d, p, roll) == (d, spec_forward(d, p, false)),
{
}

/// Only fragments are ever dropped: for any other packet but a flood
/// request, no outcome reports a dropped packet; a packet of that kind that
/// cannot go on is handed to the controller.
pub proof fn law_only_fragments_are_dropped(d: DroneView, p: PacketView, roll: int)
    requires
        !(p.pack_type is MsgFragment),
        !(p.pack_type is FloodRequest),
    ensures
        spec_on_packet(d, p, roll).1 matches Ok(a) ==> forall|i: int| 0 <= i < a.len()
            ==> !(#[trigger] a[i] matches ActionView::Report(EventView::PacketDropped(_))),
{
}

/// A negative acknowledgement for a fragment goes back to the node the
/// fragment came from, along the reversed route, and ends at the fragment's
/// source.
pub proof fn law_nack_goes_back_along_route(d: DroneView, p: PacketView, nt: NackType)
    requires
        p.pack_type is MsgFragment,
        spec_error_nack(d, nt, p) is Ok,
        0 <= p.routing_header.hop_index < p.routing_header.hops.len(),
    ensures
        ({
            let h = p.routing_header.hop_index;
            let hops = p.routing_header.hops;
            let a = spec_error_nack(d, nt, p).unwrap();
            &&& a[0] matches ActionView::Send { to, packet } && {
                &&& to == hops[h - 1]
                &&& packet.pack_type matches PacketTypeView::Nack(n) && n.nack_type == nt
                &&& packet.routing_header.hop_index == 1
                &&& nack_retraces(d, p, to, packet)
                &&& packet.routing_header.hops.last() == hops[0]
            }
            &&& a.last() == ActionView::Report(EventView::PacketDropped(p))
        }),
{
    let h = p.routing_header.hop_index;
    let back = p.routing_header.hops.take(h + 1).reverse();
    assert(back.len() == h + 1);
    assert(back[1] == p.routing_header.hops[h - 1]);
    assert(back[h] == p.routing_header.hops[0]);
    lemma_error_nack_retraces(d, nt, p);
}

/// What every negative acknowledgement of the fragment `p` that the drone
/// sends satisfies: its route is the route the fragment travelled so far,
/// `hops[0..=hop_index]`, reversed (so it has `hop_index + 1` hops), except
/// that for an unexpected recipient its first hop is this drone; it is sent
/// to the node the fragment came from and has already passed this drone;
/// it keeps the fragment's index and session.
pub open spec fn nack_retraces(d: DroneView, p: PacketView, to: NodeId, packet: PacketView) -> bool {
    let h = p.routing_header.hop_index;
    let hops = p.routing_header.hops;
    let back = packet.routing_header.hops;
    packet.pack_type matches PacketTypeView::Nack(n) ==> {
        &&& back.len() == h + 1
        &&& forall|j: int| 1 <= j <= h ==> #[trigger] back[j] == hops[h - j]
        &&& back[0] == if n.nack_type == NackType::UnexpectedRecipient(d.id) { d.id } else { hops[h] }
        &&& packet.routing_header.hop_index == 1
        &&& to == hops[h - 1]
        &&& n.fragment_index == p.pack_type->MsgFragment_0.fragment_index
        &&& packet.session_id == p.session_id
    }
}

proof fn lemma_error_nack_retraces(d: DroneView, nt: NackType, p: PacketView)
    requires
        p.pack_type is MsgFragment,
        0 <= p.routing_header.hop_index < p.routing_header.hops.len(),
    ensures
        spec_error_nack(d, nt, p) matches Ok(a) ==> forall|i: int| 0 <= i < a.len()
            ==> (#[trigger] a[i] matches ActionView::Send { to, packet } ==> nack_retraces(d, p, to, packet)),
{
    let h = p.routing_header.hop_index;
    let take = p.routing_header.hops.take(h + 1);
    let back = take.reverse();
    assert(back.len() == h + 1);
    assert forall|j: int| 0 <= j <= h implies #[trigger] back[j] == p.routing_header.hops[h - j] by {
        assert(take[h - j] == p.routing_header.hops[h - j]);
    }
    let np = crate::drone::nack_for(d, p, nt);
    match spec_forward(d, np, true) {
        Ok(a) => {
            let b = a.push(ActionView::Report(EventView::PacketDropped(p)));
            assert forall|i: int| 0 <= i < b.len() implies (#[trigger] b[i] matches ActionView::Send { to, packet }
                ==> nack_retraces(d, p, to, packet)) by {
                if i < a.len() {
                    assert(b[i] == a[i]);
                }
            }
        },
        Err(_) => {},
    }
}

/// A negative acknowledgement retraces the route the fragment travelled: in
/// every outcome of handling a fragment, running or crashing, each negative
/// acknowledgement sent has the reversed route travelled so far, position by
/// position, and goes to the node the fragment came from.
pub proof fn law_nack_retraces_route_travelled(d: DroneView, p: PacketView, roll: int)
    requires
        p.pack_type is MsgFragment,
    ensures
        spec_on_packet(d, p, roll).1 matches Ok(a) ==> forall|i: int| 0 <= i < a.len()
            ==> (#[trigger] a[i] matches ActionView::Send { to, packet } ==> nack_retraces(d, p, to, packet)),
{
    let r = p.routing_header;
    if 0 <= r.hop_index < r.hops.len() {
        lemma_error_nack_retraces(d, NackType::UnexpectedRecipient(d.id), p);
        lemma_error_nack_retraces(d, NackType::DestinationIsDrone, p);
        lemma_error_nack_retraces(d, NackType::Dropped, p);
        lemma_error_nack_retraces(d, NackType::ErrorInRouting(d.id), p);
        if let Some(n) = next_hop_of(r) {
            lemma_error_nack_retraces(d, NackType::ErrorInRouting(n), p);
        }
    }
}

/// Acknowledgements, negative acknowledgements and flood responses go on in
/// the same way whether the drone is crashing or not: one that reaches the
/// drone as its current hop, not its last, with a neighbour as next hop, is
/// sent to that next hop with its hop index moved on by one and nothing else
/// changed, and the controller hears that it was sent.
pub proof fn law_non_fragments_go_on_even_while_crashing(d: DroneView, p: PacketView, roll: int)
    requires
        p.pack_type is Ack || p.pack_type is Nack || p.pack_type is FloodResponse,
        0 <= p.routing_header.hop_index,
        p.routing_header.hop_index + 1 < p.routing_header.hops.len(),
        p.routing_header.hops[p.routing_header.hop_index] == d.id,
        d.neighbors.contains(p.routing_header.hops[p.routing_header.hop_index + 1]),
    ensures
        ({
            let h = p.routing_header.hop_index;
            let q = PacketView {
                routing_header: RouteView { hop_index: h + 1, hops: p.routing_header.hops },
                ..p
            };
            spec_on_packet(d, p, roll) == (d, Ok::<Seq<ActionView>, DroneFault>(seq![
                ActionView::Send { to: p.routing_header.hops[h + 1], packet: q },
                ActionView::TryReport(EventView::PacketSent(q)),
            ]))
        }),
{
}

/// A flood the drone has seen before is never passed on again: a running
/// drone answers it, so that every packet it sends is a flood response.
pub proof fn law_seen_flood_is_not_forwarded(d: DroneView, p: PacketView, roll: int)
    requires
        !d.is_crashing,
        p.pack_type matches PacketTypeView::FloodRequest(f) && d.received_flood_requests.contains((f.flood_id, f.initiator_id)),
    ensures
        spec_on_packet(d, p, roll).1 matches Ok(a) ==> forall|i: int| 0 <= i < a.len()
            ==> (#[trigger] a[i] matches ActionView::Send { packet, .. } ==> packet.pack_type is FloodResponse),
{
}

/// A running drone remembers every flood request with a non-empty path that
/// it handles; handling a packet changes nothing else of the drone, and the
/// floods it remembers only grow.
pub proof fn law_handling_keeps_configuration(d: DroneView, p: PacketView, roll: int)
    ensures
        ({
            let d2 = spec_on_packet(d, p, roll).0;
            &&& d2.id == d.id
            &&& d2.neighbors == d.neighbors
            &&& d2.drop_threshold == d.drop_threshold
            &&& d2.is_crashing == d.is_crashing
            &&& d.received_flood_requests.subset_of(d2.received_flood_requests)
            &&& match p.pack_type {
                PacketTypeView::FloodRequest(f) => !d.is_crashing && f.path_trace.len() > 0
                    ==> d2.received_flood_requests == d.received_flood_requests.insert((f.flood_id, f.initiator_id)),
                _ => true,
            }
        }),
{
}

/// How many packets among the actions go to `n`.
pub open spec fn sends_to(a: Seq<ActionView>, n: NodeId) -> nat
    decreases a.len(),
{
    if a.len() == 0 {
        0
    } else {
        sends_to(a.drop_last(), n) + if a.last() matches ActionView::Send { to, .. } && to == n { 1nat } else { 0nat }
    }
}

proof fn lemma_sends_to_append(x: Seq<ActionView>, y: Seq<ActionView>, n: NodeId)
    ensures
        sends_to(x + y, n) == sends_to(x, n) + sends_to(y, n),
    decreases y.len(),
{
    if y.len() > 0 {
        assert((x + y).drop_last() =~= x + y.drop_last());
        assert((x + y).last() == y.last());
        lemma_sends_to_append(x, y.drop_last(), n);
    } else {
        assert(x + y =~= x);
    }
}

proof fn lemma_flood_forwards_count(ns: Seq<NodeId>, sender: NodeId, fp: PacketView, n: NodeId)
    requires
        ns.no_duplicates(),
    ensures
        sends_to(flood_forwards(ns, sender, fp), n) == if ns.contains(n) && n != sender { 1nat } else { 0nat },
    decreases ns.len(),
{
    if ns.len() > 0 {
        let init = ns.drop_last();
        let last = ns.last();
        assert(init.no_duplicates());
        lemma_flood_forwards_count(init, sender, fp, n);
        let rest = flood_forwards(init, sender, fp);
        if last != sender {
            let tail = seq![ActionView::Report(EventView::PacketSent(fp)), ActionView::Send { to: last, packet: fp }];
            lemma_sends_to_append(rest, tail, n);
            assert(tail.drop_last() =~= seq![ActionView::Report(EventView::PacketSent(fp))]);
            assert(tail.drop_last().drop_last() =~= Seq::<ActionView>::empty());
            assert(sends_to(tail.drop_last().drop_last(), n) == 0);
            assert(sends_to(tail.drop_last(), n) == 0);
            assert(sends_to(tail, n) == if last == n { 1nat } else { 0nat });
        }
        if last == n {
            assert(!init.contains(n)) by {
                if init.contains(n) {
                    let k = choose|k: int| 0 <= k < init.len() && init[k] == n;
                    assert(ns[k] == ns[ns.len() - 1]);
                }
            }
            assert(ns[ns.len() - 1] == n);
        } else {
            assert(ns.contains(n) == init.contains(n)) by {
                if ns.contains(n) {
                    let k = choose|k: int| 0 <= k < ns.len() && ns[k] == n;
                    assert(k != ns.len() - 1);
                    assert(init[k] == n);
                }
                if init.contains(n) {
                    let k = choose|k: int| 0 <= k < init.len() && init[k] == n;
                    assert(ns[k] == n);
                }
            }
        }
    }
}

/// Flooding reaches every other neighbour once: where a running drone
/// passes a new flood request on, every neighbour but the sender is sent
/// the request, with this drone added to its path and route and session
/// unchanged, exactly once, and the sender is never sent it.
pub proof fn law_flood_reaches_every_other_neighbor(d: DroneView, p: PacketView, roll: int, n: NodeId)
    requires
        d.wf(),
        !d.is_crashing,
        p.pack_type matches PacketTypeView::FloodRequest(f) && {
            &&& f.path_trace.len() > 0
            &&& !d.received_flood_requests.contains((f.flood_id, f.initiator_id))
            &&& !f.path_trace.contains((d.id, crate::packet::NodeType::Drone))
            &&& !(d.neighbors.len() == 0 || (d.neighbors.contains(f.path_trace.last().0) && d.neighbors.len() == 1))
        },
    ensures
        ({
            let f = p.pack_type->FloodRequest_0;
            let sender = f.path_trace.last().0;
            let fp = PacketView {
                pack_type: PacketTypeView::FloodRequest(FloodRequestView {
                    flood_id: f.flood_id,
                    initiator_id: f.initiator_id,
                    path_trace: f.path_trace.push((d.id, crate::packet::NodeType::Drone)),
                }),
                routing_header: p.routing_header,
                session_id: p.session_id,
            };
            let a = spec_on_packet(d, p, roll).1.unwrap();
            &&& spec_on_packet(d, p, roll).1 is Ok
            &&& spec_on_packet(d, p, roll).0.received_flood_requests
                == d.received_flood_requests.insert((f.flood_id, f.initiator_id))
            &&& d.neighbors.contains(n) && n != sender ==> exists|i: int| 0 <= i < a.len()
                && #[trigger] a[i] == (ActionView::Send { to: n, packet: fp })
            &&& sends_to(a, n) == if d.neighbors.contains(n) && n != sender { 1nat } else { 0nat }
            &&& forall|i: int| 0 <= i < a.len() ==> (#[trigger] a[i] matches ActionView::Send { to, packet }
                ==> to != sender && packet == fp)
        }),
{
    let f = p.pack_type->FloodRequest_0;
    let sender = f.path_trace.last().0;
    let fp = PacketView {
        pack_type: PacketTypeView::FloodRequest(incremented(f, d.id, crate::packet::NodeType::Drone)),
        routing_header: p.routing_header,
        session_id: p.session_id,
    };
    lemma_flood_forwards_shape(d.neighbors, sender, fp);
    lemma_flood_forwards_count(d.neighbors, sender, fp, n);
    if d.neighbors.contains(n) && n != sender {
        lemma_flood_forwards_cover(d.neighbors, sender, fp, n);
    }
}

/// A flood response retraces the path of the request: where a running drone
/// answers a flood request, the response it sends carries a path that ends
/// with this drone, travels along that path reversed, so that it starts at
/// this drone and has already passed it, and belongs to the session after
/// the request's.
pub proof fn law_flood_response_retraces_path(d: DroneView, p: PacketView, roll: int)
    requires
        !d.is_crashing,
        p.pack_type is FloodRequest,
    ensures
        spec_on_packet(d, p, roll).1 matches Ok(a) ==> forall|i: int| 0 <= i < a.len()
            ==> (#[trigger] a[i] matches ActionView::Send { packet, .. }
                ==> (packet.pack_type matches PacketTypeView::FloodResponse(r) ==> {
                    let f = p.pack_type->FloodRequest_0;
                    let t = r.path_trace;
                    let hops = packet.routing_header.hops;
                    &&& r.flood_id == f.flood_id
                    &&& t == if f.path_trace.last().0 == d.id {
                        f.path_trace
                    } else {
                        f.path_trace.push((d.id, crate::packet::NodeType::Drone))
                    }
                    &&& hops.len() == t.len()
                    &&& forall|j: int| 0 <= j < t.len() ==> #[trigger] hops[j] == t[t.len() - 1 - j].0
                    &&& packet.routing_header.hops == trace_ids(r.path_trace).reverse()
                    &&& r.path_trace.last().0 == d.id
                    &&& packet.routing_header.hops[0] == d.id
                    &&& packet.routing_header.hop_index == 1
                    &&& packet.session_id == p.session_id + 1
                })),
{
    let f = p.pack_type->FloodRequest_0;
    if f.path_trace.len() > 0 {
        let fp = PacketView {
            pack_type: PacketTypeView::FloodRequest(incremented(f, d.id, crate::packet::NodeType::Drone)),
            routing_header: p.routing_header,
            session_id: p.session_id,
        };
        lemma_flood_forwards_shape(d.neighbors, f.path_trace.last().0, fp);
    }
}

/// A packet other than a flood request whose hop index lies outside its
/// route cannot be handled, and that is the only packet of its kind that
/// fails for this reason; a flood request never does.
pub proof fn law_missing_current_hop_is_a_fault(d: DroneView, p: PacketView, roll: int)
    ensures
        (spec_on_packet(d, p, roll).1 == Err::<Seq<ActionView>, DroneFault>(DroneFault::MissingCurrentHop))
            <==> (!(p.pack_type is FloodRequest) && current_hop_of(p.routing_header) is None),
{
}

/// Floods are told apart by the pair of flood identifier and initiator: a
/// remembered flood with the same identifier but another initiator changes
/// nothing of how a flood request is handled.
pub proof fn law_floods_told_apart_by_pair(d: DroneView, p: PacketView, roll: int, other: NodeId)
    requires
        p.pack_type matches PacketTypeView::FloodRequest(f) && other != f.initiator_id,
    ensures
        ({
            let f = p.pack_type->FloodRequest_0;
            let seen = DroneView {
                received_flood_requests: d.received_flood_requests.insert((f.flood_id, other)),
                ..d
            };
            &&& spec_on_packet(seen, p, roll).1 == spec_on_packet(d, p, roll).1
            &&& spec_on_packet(seen, p, roll).0 == DroneView {
                received_flood_requests: spec_on_packet(d, p, roll).0.received_flood_requests.insert((f.flood_id, other)),
                ..spec_on_packet(d, p, roll).0
            }
        }),
{
    let f = p.pack_type->FloodRequest_0;
    let k = (f.flood_id, other);
    assert(d.received_flood_requests.insert(k).insert((f.flood_id, f.initiator_id)) =~= d.received_flood_requests.insert((f.flood_id, f.initiator_id)).insert(k));
}

/// A crashing drone takes no part in floods: it ignores flood requests.
pub proof fn law_crashing_drone_ignores_floods(d: DroneView, p: PacketView, roll: int)
    requires
        d.is_crashing,
        p.pack_type is FloodRequest,
    ensures
        spec_on_packet(d, p, roll) == (d, Ok::<Seq<ActionView>, DroneFault>(Seq::empty())),
{
    assert(spec_on_packet(d, p, roll).1 == Ok::<Seq<ActionView>, DroneFault>(seq![]));
}

/// A crashing drone delivers no more fragments: a fragment that passes the
/// routing checks is answered with an error in routing at this drone.
pub proof fn law_crashing_drone_refuses_fragments(d: DroneView, p: PacketView, roll: int)
    requires
        d.is_crashing,
        p.pack_type is MsgFragment,
        spec_routing_check(d, p, roll) == Ok::<Option<Seq<ActionView>>, DroneFault>(None),
    ensures
        spec_on_packet(d, p, roll) == (d, spec_error_nack(d, NackType::ErrorInRouting(d.id), p)),
{
}

proof fn lemma_filter_without_absent(s: Seq<NodeId>, n: NodeId)
    requires
        !s.contains(n),
    ensures
        s.filter(other_than(n)) == s,
    decreases s.len(),
{
    reveal_with_fuel(Seq::<_>::filter, 1);
    if s.len() > 0 {
        assert(!s.drop_last().contains(n)) by {
            if s.drop_last().contains(n) {
                let k = choose|k: int| 0 <= k < s.drop_last().len() && s.drop_last()[k] == n;
                assert(s[k] == n);
            }
        }
        lemma_filter_without_absent(s.drop_last(), n);
        assert(s.drop_last().push(s.last()) =~= s);
    }
}

proof fn lemma_filter_no_longer_contains(s: Seq<NodeId>, n: NodeId)
    ensures
        !s.filter(other_than(n)).contains(n),
    decreases s.len(),
{
    reveal_with_fuel(Seq::<_>::filter, 1);
    if s.len() > 0 {
        lemma_filter_no_longer_contains(s.drop_last(), n);
        let sub = s.drop_last().filter(other_than(n));
        if other_than(n)(s.last()) {
            assert forall|k: int| 0 <= k < sub.push(s.last()).len() implies sub.push(s.last())[k] != n by {
                if k < sub.len() {
                    assert(sub.push(s.last())[k] == sub[k]);
                }
            }
        }
    }
}

/// Adding a channel makes the node a neighbour; removing it makes it none;
/// adding a new neighbour and removing it again gives back the neighbours
/// the drone had.
pub proof fn law_add_then_remove_channel(d: DroneView, n: NodeId)
    ensures
        spec_handle_command(d, DroneCommand::AddSender(n)).neighbors.contains(n),
        !spec_handle_command(d, DroneCommand::RemoveSender(n)).neighbors.contains(n),
        !d.neighbors.contains(n) ==> spec_handle_command(
            spec_handle_command(d, DroneCommand::AddSender(n)),
            DroneCommand::RemoveSender(n),
        ) == d,
{
    lemma_filter_no_longer_contains(d.neighbors, n);
    if !d.neighbors.contains(n) {
        assert(d.neighbors.push(n)[d.neighbors.len() as int] == n);
        lemma_filter_without_absent(d.neighbors, n);
        reveal_with_fuel(Seq::<_>::filter, 1);
        assert(d.neighbors.push(n).drop_last() =~= d.neighbors);
        assert(without_neighbor(with_neighbor(d.neighbors, n), n) =~= d.neighbors);
    } else {
        assert(with_neighbor(d.neighbors, n).contains(n));
    }
}

/// A new drop rate replaces the old one, whatever it was: after the command
/// the drop threshold of a running drone is the requested threshold brought
/// into 0..=100, all else unchanged, and the drone keeps running.
pub proof fn law_set_drop_rate_replaces_threshold(d: DroneView, t: i32)
    ensures
        spec_handle_command(d, DroneCommand::SetPacketDropRate(t)) == (DroneView {
            drop_threshold: if t < 0 { 0 } else if t > 100 { 100 } else { t },
            ..d
        }),
        !d.is_crashing ==> spec_on_command(d, Some(DroneCommand::SetPacketDropRate(t))) == (DroneView {
            drop_threshold: if t < 0 { 0 } else if t > 100 { 100 } else { t },
            ..d
        }, true),
{
}

/// A crash command marks a running drone as crashing and stops it at once;
/// a crashing drone stops at its next command receive, its state unchanged.
pub proof fn law_crash_stops_the_drone(d: DroneView, c: Option<DroneCommand>)
    ensures
        !d.is_crashing && c == Some(DroneCommand::Crash) ==> spec_on_command(d, c) == (
            DroneView { is_crashing: true, ..d }, false),
        d.is_crashing ==> spec_on_command(d, c) == (d, false),
{
}

} // verus!

verus! {

/// Something that reaches the drone: a packet, with the roll drawn for it,
/// or the result of a command receive.
pub enum Input {
    Packet(PacketView, int),
    Command(Option<DroneCommand>),
}

/// The drone after one input.
pub open spec fn step(d: DroneView, e: Input) -> DroneView {
    match e {
        Input::Packet(p, roll) => spec_on_packet(d, p, roll).0,
        Input::Command(c) => spec_on_command(d, c).0,
    }
}

/// The drone after a history of inputs.
pub open spec fn after(d: DroneView, h: Seq<Input>) -> DroneView
    decreases h.len(),
{
    if h.len() == 0 {
        d
    } else {
        step(after(d, h.drop_last()), h.last())
    }
}

/// What handling the input at position `i` of a history yields.
pub open spec fn outcome_at(d: DroneView, h: Seq<Input>, i: int) -> Result<Seq<ActionView>, DroneFault> {
    match h[i] {
        Input::Packet(p, roll) => spec_on_packet(after(d, h.take(i)), p, roll).1,
        Input::Command(_) => Ok(Seq::empty()),
    }
}

/// The action sends a flood request of the flood `k`.
pub open spec fn sends_flood(x: ActionView, k: (u64, NodeId)) -> bool {
    match x {
        ActionView::Send { packet, .. } => match packet.pack_type {
            PacketTypeView::FloodRequest(g) => (g.flood_id, g.initiator_id) == k,
            _ => false,
        },
        _ => false,
    }
}

/// The outcome passes on a flood request of the flood `k`.
pub open spec fn forwards_flood(r: Result<Seq<ActionView>, DroneFault>, k: (u64, NodeId)) -> bool {
    match r {
        Ok(a) => exists|i: int| 0 <= i < a.len() && #[trigger] sends_flood(a[i], k),
        Err(_) => false,
    }
}

proof fn lemma_forward_keeps_kind(d: DroneView, q: PacketView, generated: bool, k: (u64, NodeId))
    requires
        !(q.pack_type is FloodRequest),
    ensures
        !forwards_flood(spec_forward(d, q, generated), k),
{
}

proof fn lemma_error_nack_sends_no_flood(d: DroneView, nt: NackType, p: PacketView, k: (u64, NodeId))
    ensures
        !forwards_flood(spec_error_nack(d, nt, p), k),
{
    let np = crate::drone::nack_for(d, p, nt);
    lemma_forward_keeps_kind(d, np, true, k);
    match spec_forward(d, np, true) {
        Ok(a) => {
            let b = a.push(ActionView::Report(EventView::PacketDropped(p)));
            if exists|i: int| 0 <= i < b.len() && #[trigger] sends_flood(b[i], k) {
                let i = choose|i: int| 0 <= i < b.len() && #[trigger] sends_flood(b[i], k);
                assert(b[i] == a[i]);
            }
        },
        Err(_) => {},
    }
}

/// A drone passes a flood on only while running, only when it had not seen
/// the flood, and it remembers the flood as it does.
proof fn lemma_forwarding_is_first_sight(d: DroneView, p: PacketView, roll: int, k: (u64, NodeId))
    requires
        forwards_flood(spec_on_packet(d, p, roll).1, k),
    ensures
        !d.received_flood_requests.contains(k),
        spec_on_packet(d, p, roll).0.received_flood_requests.contains(k),
{
    if !(p.pack_type is FloodRequest) {
        lemma_forward_keeps_kind(d, p, false, k);
    }
    lemma_error_nack_sends_no_flood(d, NackType::UnexpectedRecipient(d.id), p, k);
    lemma_error_nack_sends_no_flood(d, NackType::DestinationIsDrone, p, k);
    lemma_error_nack_sends_no_flood(d, NackType::Dropped, p, k);
    lemma_error_nack_sends_no_flood(d, NackType::ErrorInRouting(d.id), p, k);
    if let Some(n) = next_hop_of(p.routing_header) {
        lemma_error_nack_sends_no_flood(d, NackType::ErrorInRouting(n), p, k);
    }
    if let PacketTypeView::FloodRequest(f) = p.pack_type {
        if !d.is_crashing && f.path_trace.len() > 0 {
            let d2 = spec_manage_flood(d, p, f).0;
            let inc = incremented(f, d.id, crate::packet::NodeType::Drone);
            let t = crate::drone::trimmed_for_response(inc, d.id);
            lemma_forward_keeps_kind(d2, crate::packet::response_to(t, (p.session_id + 1) as u64), false, k);
            let fp = PacketView {
                pack_type: PacketTypeView::FloodRequest(inc),
                routing_header: p.routing_header,
                session_id: p.session_id,
            };
            let sender = f.path_trace.last().0;
            lemma_flood_forwards_shape(d.neighbors, sender, fp);
            let a = spec_on_packet(d, p, roll).1.unwrap();
            let i = choose|i: int| 0 <= i < a.len() && #[trigger] sends_flood(a[i], k);
            assert(a[i] matches ActionView::Send { .. });
        }
    }
}

proof fn lemma_step_keeps_floods(d: DroneView, e: Input)
    ensures
        d.received_flood_requests.subset_of(step(d, e).received_flood_requests),
{
    if let Input::Packet(p, roll) = e {
        law_handling_keeps_configuration(d, p, roll);
    }
}

proof fn lemma_after_take(d: DroneView, h: Seq<Input>, j: int)
    requires
        0 <= j < h.len(),
    ensures
        after(d, h.take(j + 1)) == step(after(d, h.take(j)), h[j]),
{
    assert(h.take(j + 1).drop_last() =~= h.take(j));
}

/// The floods a drone remembers only grow over any history of packets and
/// commands.
pub proof fn law_remembered_floods_only_grow(d: DroneView, h: Seq<Input>, i: int, j: int)
    requires
        0 <= i <= j <= h.len(),
    ensures
        after(d, h.take(i)).received_flood_requests.subset_of(after(d, h.take(j)).received_flood_requests),
    decreases j - i,
{
    if i < j {
        law_remembered_floods_only_grow(d, h, i, j - 1);
        lemma_after_take(d, h, j - 1);
        lemma_step_keeps_floods(after(d, h.take(j - 1)), h[j - 1]);
    }
}

/// Floods cannot loop through a drone: over any history of packets and
/// commands, the drone passes each flood on at most once; once it has passed
/// a flood on, no later input makes it send a request of that flood again.
pub proof fn law_flood_forwarded_at_most_once(d: DroneView, h: Seq<Input>, i: int, j: int, k: (u64, NodeId))
    requires
        0 <= i < j < h.len(),
        forwards_flood(outcome_at(d, h, i), k),
    ensures
        !forwards_flood(outcome_at(d, h, j), k),
{
    if let Input::Packet(p, roll) = h[i] {
        lemma_forwarding_is_first_sight(after(d, h.take(i)), p, roll, k);
        lemma_after_take(d, h, i);
        law_remembered_floods_only_grow(d, h, i + 1, j);
        if let Input::Packet(q, roll2) = h[j] {
            if forwards_flood(outcome_at(d, h, j), k) {
                lemma_forwarding_is_first_sight(after(d, h.take(j)), q, roll2, k);
            }
        }
    }
}

} // verus!

verus! {

/// A fragment that reaches a running drone as its current hop, not its
/// last, with a neighbour as next hop, and whose roll is not below the drop
/// threshold, is sent to that next hop with its hop index moved on by one
/// and nothing else changed, and the controller hears that it was sent.
pub proof fn law_fragment_goes_on_unless_dropped(d: DroneView, p: PacketView, roll: int)
    requires
        !d.is_crashing,
        p.pack_type is MsgFragment,
        roll >= d.drop_threshold,
        0 <= p.routing_header.hop_index,
        p.routing_header.hop_index + 1 < p.routing_header.hops.len(),
        p.routing_header.hops[p.routing_header.hop_index] == d.id,
        d.neighbors.contains(p.routing_header.hops[p.routing_header.hop_index + 1]),
    ensures
        ({
            let h = p.routing_header.hop_index;
            let q = PacketView {
                routing_header: RouteView { hop_index: h + 1, hops: p.routing_header.hops },
                ..p
            };
            spec_on_packet(d, p, roll) == (d, Ok::<Seq<ActionView>, DroneFault>(seq![
                ActionView::Send { to: p.routing_header.hops[h + 1], packet: q },
                ActionView::TryReport(EventView::PacketSent(q)),
            ]))
        }),
{
}

/// An acknowledgement, negative acknowledgement or flood response that
/// cannot go on (it reached the wrong drone, or this drone is its last hop,
/// or its next hop is no neighbour) is handed to the controller as it came,
/// and nothing is sent.
pub proof fn law_stuck_non_fragment_goes_to_controller(d: DroneView, p: PacketView, roll: int)
    requires
        p.pack_type is Ack || p.pack_type is Nack || p.pack_type is FloodResponse,
        0 <= p.routing_header.hop_index < p.routing_header.hops.len(),
        ({
            let h = p.routing_header.hop_index;
            let hops = p.routing_header.hops;
            ||| hops[h] != d.id
            ||| h + 1 == hops.len()
            ||| !d.neighbors.contains(hops[h + 1])
        }),
    ensures
        spec_on_packet(d, p, roll) == (d, Ok::<Seq<ActionView>, DroneFault>(seq![
            ActionView::Report(EventView::ControllerShortcut(p)),
        ])),
{
}

/// A flood request that a running drone has seen before is answered with a
/// flood response: it carries the flood's identifier and the request's path
/// with this drone added at its end (unless the path already ends with it),
/// travels back along that path reversed, having passed this drone, in the
/// next session, and goes to the node before this drone on the path.
pub proof fn law_repeated_flood_is_answered(d: DroneView, p: PacketView, roll: int)
    requires
        !d.is_crashing,
        p.pack_type matches PacketTypeView::FloodRequest(f) && {
            let t = if f.path_trace.len() > 0 && f.path_trace.last().0 == d.id {
                f.path_trace
            } else {
                f.path_trace.push((d.id, crate::packet::NodeType::Drone))
            };
            &&& f.path_trace.len() > 0
            &&& d.received_flood_requests.contains((f.flood_id, f.initiator_id))
            &&& t.len() >= 2
            &&& d.neighbors.contains(t[t.len() - 2].0)
        },
        p.session_id < u64::MAX,
    ensures
        ({
            let f = p.pack_type->FloodRequest_0;
            let t = if f.path_trace.last().0 == d.id {
                f.path_trace
            } else {
                f.path_trace.push((d.id, crate::packet::NodeType::Drone))
            };
            let r = PacketView {
                pack_type: PacketTypeView::FloodResponse(crate::packet::FloodResponseView {
                    flood_id: f.flood_id,
                    path_trace: t,
                }),
                routing_header: RouteView {
                    hop_index: 1,
                    hops: Seq::new(t.len(), |j: int| t[t.len() - 1 - j].0),
                },
                session_id: (p.session_id + 1) as u64,
            };
            spec_on_packet(d, p, roll) == (d, Ok::<Seq<ActionView>, DroneFault>(seq![
                ActionView::Send { to: t[t.len() - 2].0, packet: r },
                ActionView::TryReport(EventView::PacketSent(r)),
            ]))
        }),
{
    let f = p.pack_type->FloodRequest_0;
    let inc = incremented(f, d.id, crate::packet::NodeType::Drone);
    let tr = crate::drone::trimmed_for_response(inc, d.id);
    let t = tr.path_trace;
    assert(inc.path_trace.drop_last() =~= f.path_trace);
    assert(trace_ids(t).reverse() =~= Seq::new(t.len(), |j: int| t[t.len() - 1 - j].0));
    let d2 = DroneView {
        received_flood_requests: d.received_flood_requests.insert((f.flood_id, f.initiator_id)),
        ..d
    };
    assert(d2.received_flood_requests =~= d.received_flood_requests);
}

/// Adding a channel adds exactly that node to the neighbours, keeping the
/// others in their order; removing one takes exactly that node away; the
/// neighbours stay listed once.
pub proof fn law_channels_change_exactly_one_neighbor(d: DroneView, n: NodeId)
    requires
        d.wf(),
    ensures
        ({
            let added = spec_handle_command(d, DroneCommand::AddSender(n)).neighbors;
            let removed = spec_handle_command(d, DroneCommand::RemoveSender(n)).neighbors;
            &&& added.to_set() == d.neighbors.to_set().insert(n)
            &&& added.take(d.neighbors.len() as int) == d.neighbors
            &&& added.no_duplicates()
            &&& removed.to_set() == d.neighbors.to_set().remove(n)
            &&& removed.no_duplicates()
        }),
{
    broadcast use vstd::seq_lib::group_seq_properties;
    let added = with_neighbor(d.neighbors, n);
    assert(added.take(d.neighbors.len() as int) =~= d.neighbors);
    assert(added.to_set() =~= d.neighbors.to_set().insert(n)) by {
        if !d.neighbors.contains(n) {
            assert(added =~= d.neighbors.push(n));
        }
    }
    if !d.neighbors.contains(n) {
        assert forall|i: int, j: int| 0 <= i < j < added.len() implies added[i] != added[j] by {
            if j == d.neighbors.len() {
                assert(d.neighbors[i] == added[i]);
            }
        }
    }
    lemma_filter_other_than(d.neighbors, n);
}

proof fn lemma_filter_other_than(s: Seq<NodeId>, n: NodeId)
    requires
        s.no_duplicates(),
    ensures
        s.filter(other_than(n)).to_set() == s.to_set().remove(n),
        s.filter(other_than(n)).no_duplicates(),
    decreases s.len(),
{
    broadcast use vstd::seq_lib::group_seq_properties;
    reveal_with_fuel(Seq::<_>::filter, 1);
    if s.len() == 0 {
        assert(s.to_set() =~= Set::empty());
        assert(s.filter(other_than(n)).to_set() =~= Set::empty());
    } else {
        let init = s.drop_last();
        let last = s.last();
        assert(init.no_duplicates());
        lemma_filter_other_than(init, n);
        assert(s =~= init.push(last));
        assert(!init.contains(last)) by {
            if init.contains(last) {
                let k = choose|k: int| 0 <= k < init.len() && init[k] == last;
                assert(s[k] == s[s.len() - 1]);
            }
        }
        let sub = init.filter(other_than(n));
        assert(s.to_set() =~= init.to_set().insert(last));
        if last != n {
            assert(!init.to_set().contains(last));
            assert(!sub.to_set().contains(last));
            assert(!sub.contains(last));
            assert(sub.push(last).to_set() =~= sub.to_set().insert(last));
            assert(s.filter(other_than(n)).to_set() =~= s.to_set().remove(n));
            assert forall|i: int, j: int| 0 <= i < j < sub.push(last).len()
                implies sub.push(last)[i] != sub.push(last)[j] by {
                if j == sub.len() {
                    assert(sub.contains(sub.push(last)[i]));
                    assert(sub.push(last)[i] == sub[i]);
                }
            }
        } else {
            assert(s.filter(other_than(n)).to_set() =~= s.to_set().remove(n));
        }
    }
}

/// A drone created from a list of neighbours has exactly the nodes of the
/// list as neighbours, each once.
pub proof fn law_new_keeps_each_neighbor_once(s: Seq<NodeId>)
    ensures
        crate::drone::distinct(s).to_set() == s.to_set(),
        crate::drone::distinct(s).no_duplicates(),
    decreases s.len(),
{
    broadcast use vstd::seq_lib::group_seq_properties;
    if s.len() == 0 {
        assert(s.to_set() =~= Set::empty());
        assert(crate::drone::distinct(s).to_set() =~= Set::empty());
    } else {
        let init = s.drop_last();
        let last = s.last();
        law_new_keeps_each_neighbor_once(init);
        let prev = crate::drone::distinct(init);
        assert(s =~= init.push(last));
        assert(s.to_set() =~= init.to_set().insert(last));
        if prev.contains(last) {
            assert(prev.to_set().contains(last));
            assert(prev.to_set().insert(last) =~= prev.to_set());
        } else {
            assert(prev.push(last).to_set() =~= prev.to_set().insert(last));
            assert forall|i: int, j: int| 0 <= i < j < prev.push(last).len()
                implies prev.push(last)[i] != prev.push(last)[j] by {
                if j == prev.len() {
                    assert(prev.push(last)[i] == prev[i]);
                }
            }
        }
    }
}

} // verus!
