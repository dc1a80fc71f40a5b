//! The decisions of a drone: what it does with each packet it receives and
//! each command of the simulation controller.
//!
//! A drone holds its identifier, the identifiers of the neighbours it has a
//! channel to, its drop threshold (the packet drop rate in hundredths), the
//! floods it has taken part in, and whether it is crashing. A fragment that
//! could go on is dropped when the drone's roll, drawn in 0..100, lies below
//! the drop threshold: never at threshold 0, always at threshold 100.
//! Handling a packet
//! yields the list of actions to perform, in order: packets to send to a
//! neighbour and events to report to the controller. Where a packet cannot
//! be handled at all (its route has no current hop, the next hop of a packet
//! the drone must send does not exist or is not a neighbour, the session
//! number of a flood response would overflow) the result is a `DroneFault`.
use vstd::prelude::*;
use rand::Rng;
use crate::packet::NodeId;
use crate::packet::NodeType;
use crate::packet::Nack;
use crate::packet::NackType;
use crate::packet::Packet;
use crate::packet::PacketType;
use crate::packet::PacketView;
use crate::packet::PacketTypeView;
use crate::packet::RouteView;
use crate::packet::FloodRequest;
use crate::packet::FloodRequestView;
use crate::packet::SourceRoutingHeader;
use crate::packet::current_hop_of;
use crate::packet::next_hop_of;
use crate::packet::is_last_hop_of;
use crate::packet::packet_advanced;
use crate::packet::fragment_index_of;
use crate::packet::incremented;
use crate::packet::response_to;

verus! {

/// A packet that the drone cannot handle.
#[derive(Clone, Copy, PartialEq, Eq, Structural, Debug)]
pub enum DroneFault {
    /// The hop index of the packet lies outside its route.
    MissingCurrentHop,
    /// A packet to send has no next hop.
    MissingNextHop,
    /// A packet to send has a next hop that is not a neighbour.
    NotANeighbor(NodeId),
    /// The session number of a flood response would exceed `u64::MAX`.
    SessionIdOverflow,
}

/// An event reported to the simulation controller.
#[derive(PartialEq, Eq, Debug)]
pub enum DroneEvent {
    PacketSent(Packet),
    PacketDropped(Packet),
    ControllerShortcut(Packet),
}

/// Something the drone does as it handles a packet.
#[derive(PartialEq, Eq, Debug)]
pub enum DroneAction {
    /// Send a packet on the channel to a neighbour.
    Send { to: NodeId, packet: Packet },
    /// Report an event to the controller; the report must get through.
    Report(DroneEvent),
    /// Report an event to the controller if the controller still listens.
    TryReport(DroneEvent),
}

/// A command of the simulation controller, as the drone's decisions see it.
#[derive(Clone, Copy, PartialEq, Eq, Structural, Debug)]
pub enum DroneCommand {
    /// A channel to a neighbour was added.
    AddSender(NodeId),
    /// The channel to a neighbour was removed.
    RemoveSender(NodeId),
    /// A new packet drop rate, as the new drop threshold (brought into
    /// 0..=100).
    SetPacketDropRate(i32),
    /// The drone is to crash: it handles what reaches it as a crashing
    /// drone until its next command receive, where it stops.
    Crash,
}

pub enum EventView {
    PacketSent(PacketView),
    PacketDropped(PacketView),
    ControllerShortcut(PacketView),
}

pub enum ActionView {
    Send { to: NodeId, packet: PacketView },
    Report(EventView),
    TryReport(EventView),
}

impl View for DroneEvent {
    type V = EventView;

    open spec fn view(&self) -> EventView {
        match self {
            DroneEvent::PacketSent(p) => EventView::PacketSent(p@),
            DroneEvent::PacketDropped(p) => EventView::PacketDropped(p@),
            DroneEvent::ControllerShortcut(p) => EventView::ControllerShortcut(p@),
        }
    }
}

impl View for DroneAction {
    type V = ActionView;

    open spec fn view(&self) -> ActionView {
        match self {
            DroneAction::Send { to, packet } => ActionView::Send { to: *to, packet: packet@ },
            DroneAction::Report(e) => ActionView::Report(e@),
            DroneAction::TryReport(e) => ActionView::TryReport(e@),
        }
    }
}

/// The actions of a list as mathematical values.
pub open spec fn actions_view(v: Seq<DroneAction>) -> Seq<ActionView> {
    v.map_values(|a: DroneAction| a@)
}

/// The outcome of handling a packet as mathematical values.
pub open spec fn outcome_view(r: Result<Vec<DroneAction>, DroneFault>) -> Result<Seq<ActionView>, DroneFault> {
    match r {
        Ok(v) => Ok(actions_view(v@)),
        Err(e) => Err(e),
    }
}

/// The outcome of the routing checks as mathematical values: `None` when the
/// packet may go on, else the actions that answer it.
pub open spec fn verdict_view(r: Result<Option<Vec<DroneAction>>, DroneFault>) -> Result<Option<Seq<ActionView>>, DroneFault> {
    match r {
        Ok(Some(v)) => Ok(Some(actions_view(v@))),
        Ok(None) => Ok(None),
        Err(e) => Err(e),
    }
}

/// The state of a drone as mathematical values.
pub struct DroneView {
    pub id: NodeId,
    pub neighbors: Seq<NodeId>,
    pub drop_threshold: i32,
    pub received_flood_requests: Set<(u64, NodeId)>,
    pub is_crashing: bool,
}

impl DroneView {
    /// Each neighbour is listed once, and the drop threshold is a drop rate
    /// between 0 and 1 in hundredths.
    pub open spec fn wf(self) -> bool {
        &&& self.neighbors.no_duplicates()
        &&& 0 <= self.drop_threshold <= 100
    }
}

// ---------------------------------------------------------------------
// What the drone does
// ---------------------------------------------------------------------

/// Sending a packet on to its next hop: the packet, its hop index moved on
/// by one, goes to the next hop, and the controller hears of it unless the
/// packet is a negative acknowledgement that the drone generated itself.
pub open spec fn spec_forward(d: DroneView, p: PacketView, generated: bool) -> Result<Seq<ActionView>, DroneFault> {
    match next_hop_of(p.routing_header) {
        None => Err(DroneFault::MissingNextHop),
        Some(n) => if !d.neighbors.contains(n) {
            Err(DroneFault::NotANeighbor(n))
        } else {
            let q = packet_advanced(p);
            if generated && p.pack_type is Nack {
                Ok(seq![ActionView::Send { to: n, packet: q }])
            } else {
                Ok(seq![ActionView::Send { to: n, packet: q }, ActionView::TryReport(EventView::PacketSent(q))])
            }
        },
    }
}

/// The route of a negative acknowledgement: the route travelled so far,
/// reversed, from its first hop; where the packet reached the wrong drone,
/// its first hop is that drone.
pub open spec fn nack_route(d: DroneView, r: RouteView, nack_type: NackType) -> RouteView {
    let back = r.hops.take(r.hop_index + 1).reverse();
    RouteView {
        hop_index: 0,
        hops: if nack_type == NackType::UnexpectedRecipient(d.id) { back.update(0, d.id) } else { back },
    }
}

/// The negative acknowledgement of a packet.
pub open spec fn nack_for(d: DroneView, p: PacketView, nack_type: NackType) -> PacketView {
    PacketView {
        pack_type: PacketTypeView::Nack(Nack { fragment_index: fragment_index_of(p), nack_type }),
        routing_header: nack_route(d, p.routing_header, nack_type),
        session_id: p.session_id,
    }
}

/// Answering a packet that cannot go on: a fragment or a flood request is
/// answered with a negative acknowledgement sent back along its route and
/// reported to the controller as dropped; any other packet is handed to the
/// controller.
pub open spec fn spec_error_nack(d: DroneView, nack_type: NackType, p: PacketView) -> Result<Seq<ActionView>, DroneFault> {
    match p.pack_type {
        PacketTypeView::FloodRequest(_) | PacketTypeView::MsgFragment(_) => {
            match spec_forward(d, nack_for(d, p, nack_type), true) {
                Ok(a) => Ok(a.push(ActionView::Report(EventView::PacketDropped(p)))),
                Err(e) => Err(e),
            }
        },
        _ => Ok(seq![ActionView::Report(EventView::ControllerShortcut(p))]),
    }
}

pub open spec fn refused(r: Result<Seq<ActionView>, DroneFault>) -> Result<Option<Seq<ActionView>>, DroneFault> {
    match r {
        Ok(a) => Ok(Some(a)),
        Err(e) => Err(e),
    }
}

/// The routing checks on a packet, given the random roll in 0..100:
/// `Ok(None)` when the packet may go on, else the answer to it.
pub open spec fn spec_routing_check(d: DroneView, p: PacketView, roll: int) -> Result<Option<Seq<ActionView>>, DroneFault> {
    let r = p.routing_header;
    match current_hop_of(r) {
        None => Err(DroneFault::MissingCurrentHop),
        Some(c) => if c != d.id {
            refused(spec_error_nack(d, NackType::UnexpectedRecipient(d.id), p))
        } else if is_last_hop_of(r) {
            refused(spec_error_nack(d, NackType::DestinationIsDrone, p))
        } else {
            match next_hop_of(r) {
                None => Err(DroneFault::MissingNextHop),
                Some(n) => if !d.neighbors.contains(n) {
                    refused(spec_error_nack(d, NackType::ErrorInRouting(n), p))
                } else if p.pack_type is MsgFragment && roll < d.drop_threshold {
                    refused(spec_error_nack(d, NackType::Dropped, p))
                } else {
                    Ok(None)
                },
            }
        },
    }
}

/// The key under which a flood is remembered.
pub open spec fn flood_key(f: FloodRequestView) -> (u64, NodeId) {
    (f.flood_id, f.initiator_id)
}

/// A path trace that ends twice in a row with this drone loses its last entry.
pub open spec fn trimmed_for_response(f: FloodRequestView, id: NodeId) -> FloodRequestView {
    let t = f.path_trace;
    if t.len() > 1 && t.last().0 == t[t.len() - 2].0 && t.last().0 == id {
        FloodRequestView { path_trace: t.drop_last(), ..f }
    } else {
        f
    }
}

/// Answering a flood request with a flood response in the next session.
pub open spec fn spec_flood_response(d: DroneView, p: PacketView, f: FloodRequestView) -> Result<Seq<ActionView>, DroneFault> {
    if p.session_id == u64::MAX {
        Err(DroneFault::SessionIdOverflow)
    } else {
        spec_forward(d, response_to(trimmed_for_response(f, d.id), (p.session_id + 1) as u64), false)
    }
}

/// The flood request passed on to each neighbour but the sender, in the
/// order of the neighbours: each time reported to the controller, then sent.
pub open spec fn flood_forwards(neighbors: Seq<NodeId>, sender: NodeId, fp: PacketView) -> Seq<ActionView>
    decreases neighbors.len(),
{
    if neighbors.len() == 0 {
        seq![]
    } else {
        let rest = flood_forwards(neighbors.drop_last(), sender, fp);
        let n = neighbors.last();
        if n != sender {
            rest + seq![ActionView::Report(EventView::PacketSent(fp)), ActionView::Send { to: n, packet: fp }]
        } else {
            rest
        }
    }
}

/// Taking part in a flood: the drone remembers the flood and adds itself to
/// the request's path; a flood it has seen, or whose path already held it,
/// is answered; otherwise the request goes on to every neighbour but the
/// sender, or, where there is no such neighbour, is answered.
pub open spec fn spec_manage_flood(d: DroneView, p: PacketView, f: FloodRequestView) -> (DroneView, Result<Seq<ActionView>, DroneFault>) {
    if f.path_trace.len() == 0 {
        (d, Ok(seq![]))
    } else {
        let sender = f.path_trace.last().0;
        let key = flood_key(f);
        let d2 = DroneView { received_flood_requests: d.received_flood_requests.insert(key), ..d };
        let inc = incremented(f, d.id, NodeType::Drone);
        if d.received_flood_requests.contains(key) || f.path_trace.contains((d.id, NodeType::Drone)) {
            (d2, spec_flood_response(d2, p, inc))
        } else {
            if d.neighbors.len() == 0 || (d.neighbors.contains(sender) && d.neighbors.len() == 1) {
                (d2, spec_flood_response(d2, p, inc))
            } else {
                let fp = PacketView {
                    pack_type: PacketTypeView::FloodRequest(inc),
                    routing_header: p.routing_header,
                    session_id: p.session_id,
                };
                (d2, Ok(flood_forwards(d.neighbors, sender, fp)))
            }
        }
    }
}

/// Handling a packet in normal operation, given the random roll in 0..100.
pub open spec fn spec_handle_packet(d: DroneView, p: PacketView, roll: int) -> (DroneView, Result<Seq<ActionView>, DroneFault>) {
    match p.pack_type {
        PacketTypeView::FloodRequest(f) => spec_manage_flood(d, p, f),
        _ => (d, match spec_routing_check(d, p, roll) {
            Err(e) => Err(e),
            Ok(Some(a)) => Ok(a),
            Ok(None) => spec_forward(d, p, false),
        }),
    }
}

/// Handling a packet while crashing, given the random roll in 0..100: flood
/// requests are ignored; a fragment that passes the routing checks is
/// answered with an error in routing at this drone; other packets go on.
pub open spec fn spec_handle_packet_while_crashing(d: DroneView, p: PacketView, roll: int) -> Result<Seq<ActionView>, DroneFault> {
    match p.pack_type {
        PacketTypeView::FloodRequest(_) => Ok(seq![]),
        _ => match spec_routing_check(d, p, roll) {
            Err(e) => Err(e),
            Ok(Some(a)) => Ok(a),
            Ok(None) => match p.pack_type {
                PacketTypeView::MsgFragment(_) => spec_error_nack(d, NackType::ErrorInRouting(d.id), p),
                _ => spec_forward(d, p, false),
            },
        },
    }
}

/// Handling a packet that arrived on the drone's own channel.
pub open spec fn spec_on_packet(d: DroneView, p: PacketView, roll: int) -> (DroneView, Result<Seq<ActionView>, DroneFault>) {
    if d.is_crashing {
        (d, spec_handle_packet_while_crashing(d, p, roll))
    } else {
        spec_handle_packet(d, p, roll)
    }
}

/// The neighbours with `id` added, if it was not there.
pub open spec fn with_neighbor(neighbors: Seq<NodeId>, id: NodeId) -> Seq<NodeId> {
    if neighbors.contains(id) { neighbors } else { neighbors.push(id) }
}

/// The neighbours without `id`.
pub open spec fn without_neighbor(neighbors: Seq<NodeId>, id: NodeId) -> Seq<NodeId> {
    neighbors.filter(other_than(id))
}

/// Holds of every node but `id`.
pub open spec fn other_than(id: NodeId) -> spec_fn(NodeId) -> bool {
    |n: NodeId| n != id
}

/// The neighbours of a list, each once, in the order of first occurrence.
pub open spec fn distinct(s: Seq<NodeId>) -> Seq<NodeId>
    decreases s.len(),
{
    if s.len() == 0 {
        seq![]
    } else {
        with_neighbor(distinct(s.drop_last()), s.last())
    }
}

/// Carrying out a command.
pub open spec fn spec_handle_command(d: DroneView, c: DroneCommand) -> DroneView {
    match c {
        DroneCommand::AddSender(n) => DroneView { neighbors: with_neighbor(d.neighbors, n), ..d },
        DroneCommand::RemoveSender(n) => DroneView { neighbors: without_neighbor(d.neighbors, n), ..d },
        DroneCommand::SetPacketDropRate(t) => DroneView { drop_threshold: clamped(t), ..d },
        DroneCommand::Crash => DroneView { is_crashing: true, ..d },
    }
}

/// Receiving from the command channel (`None` where the receive failed):
/// the new state, and whether the drone keeps running. A crashing drone
/// stops at the next receive; a crash command marks the drone as crashing
/// and stops it at once.
pub open spec fn spec_on_command(d: DroneView, c: Option<DroneCommand>) -> (DroneView, bool) {
    if d.is_crashing {
        (d, false)
    } else {
        match c {
            None => (d, true),
            Some(DroneCommand::Crash) => (spec_handle_command(d, DroneCommand::Crash), false),
            Some(cmd) => (spec_handle_command(d, cmd), true),
        }
    }
}

/// A drop threshold brought into 0..=100.
pub open spec fn clamped(t: i32) -> i32 {
    if t < 0 { 0 } else if t > 100 { 100 } else { t }
}

// ---------------------------------------------------------------------
// The drone
// ---------------------------------------------------------------------

/// Draws a number with `rand::thread_rng().gen_range(0..100)`. rand
/// documents that `gen_range` on a half-open range returns a value inside
/// it; nothing more is promised of the value.
#[verifier::external_body]
fn draw_roll() -> (roll: i32)
    ensures
        0 <= roll < 100,
{
    rand::thread_rng().gen_range(0..100)
}

fn trace_contains(trace: &Vec<(NodeId, NodeType)>, id: NodeId, ty: NodeType) -> (r: bool)
    ensures
        r == trace@.contains((id, ty)),
{
    let n = trace.len();
    for i in 0..n
        invariant
            n == trace.len(),
            forall|j: int| 0 <= j < i ==> trace@[j] != (id, ty),
    {
        if trace[i].0 == id && trace[i].1 == ty {
            assert(trace@[i as int] == (id, ty));
            return true;
        }
    }
    false
}

fn clamp_threshold(t: i32) -> (r: i32)
    ensures
        r == clamped(t),
{
    if t < 0 {
        0
    } else if t > 100 {
        100
    } else {
        t
    }
}

fn push_action(actions: &mut Vec<DroneAction>, a: DroneAction)
    ensures
        actions_view(final(actions)@) == actions_view(old(actions)@).push(a@),
{
    let ghost before = actions@;
    actions.push(a);
    assert(actions_view(actions@) =~= actions_view(before).push(a@));
}

/// The state of a drone.
pub struct BoberDrone {
    id: NodeId,
    neighbors: Vec<NodeId>,
    drop_threshold: i32,
    received_flood_requests: Vec<(u64, NodeId)>,
    is_crashing: bool,
}

impl View for BoberDrone {
    type V = DroneView;

    closed spec fn view(&self) -> DroneView {
        DroneView {
            id: self.id,
            neighbors: self.neighbors@,
            drop_threshold: self.drop_threshold,
            received_flood_requests: self.received_flood_requests@.to_set(),
            is_crashing: self.is_crashing,
        }
    }
}

impl BoberDrone {
    fn has_neighbor(&self, id: NodeId) -> (r: bool)
        ensures
            r == self@.neighbors.contains(id),
    {
        let n = self.neighbors.len();
        for i in 0..n
            invariant
                n == self.neighbors.len(),
                forall|j: int| 0 <= j < i ==> self.neighbors@[j] != id,
        {
            if self.neighbors[i] == id {
                assert(self.neighbors@[i as int] == id);
                return true;
            }
        }
        false
    }

    /// Forwards a packet to its next hop (see `spec_forward`).
    fn forward_packet(&self, packet: &Packet, generated_in_node: bool) -> (r: Result<Vec<DroneAction>, DroneFault>)
        ensures
            outcome_view(r) == spec_forward(self@, packet@, generated_in_node),
    {
        let mut new_packet = packet.copy();
        let next_hop = match new_packet.routing_header.next_hop() {
            Some(n) => n,
            None => return Err(DroneFault::MissingNextHop),
        };
        assert(new_packet.routing_header.hops@.len() == new_packet.routing_header.hops.len());
        new_packet.routing_header.increase_hop_index();
        if !self.has_neighbor(next_hop) {
            return Err(DroneFault::NotANeighbor(next_hop));
        }
        let quiet = generated_in_node && match &packet.pack_type {
            PacketType::Nack(_) => true,
            _ => false,
        };
        let mut actions: Vec<DroneAction> = Vec::new();
        if quiet {
            push_action(&mut actions, DroneAction::Send { to: next_hop, packet: new_packet });
        } else {
            let reported = new_packet.copy();
            push_action(&mut actions, DroneAction::Send { to: next_hop, packet: new_packet });
            push_action(&mut actions, DroneAction::TryReport(DroneEvent::PacketSent(reported)));
        }
        assert(actions_view(actions@) =~= spec_forward(self@, packet@, generated_in_node).unwrap());
        Ok(actions)
    }

    /// Creates a negative acknowledgement of the given kind for a packet and
    /// sends it back (see `spec_error_nack`).
    fn send_error_nack(&self, nack: NackType, packet: &Packet) -> (r: Result<Vec<DroneAction>, DroneFault>)
        requires
            packet@.routing_header.hop_index < packet@.routing_header.hops.len(),
        ensures
            outcome_view(r) == spec_error_nack(self@, nack, packet@),
    {
        match &packet.pack_type {
            PacketType::FloodRequest(_) | PacketType::MsgFragment(_) => {
                let rh = &packet.routing_header;
                assert(rh.hops@.len() == rh.hops.len());
                let mut srh_nack = rh.sub_route(0, rh.hop_index + 1).unwrap();
                srh_nack.reverse();
                srh_nack.reset_hop_index();
                if NackType::UnexpectedRecipient(self.id) == nack {
                    srh_nack.hops.set(0, self.id);
                }
                proof {
                    assert(rh@.hops.subrange(0, rh.hop_index + 1) =~= rh@.hops.take(rh@.hop_index + 1));
                }
                let nack_packet = Packet {
                    pack_type: PacketType::Nack(Nack { fragment_index: packet.get_fragment_index(), nack_type: nack }),
                    routing_header: srh_nack,
                    session_id: packet.session_id,
                };
                assert(nack_packet@ == nack_for(self@, packet@, nack));
                let mut actions = self.forward_packet(&nack_packet, true)?;
                push_action(&mut actions, DroneAction::Report(DroneEvent::PacketDropped(packet.copy())));
                Ok(actions)
            },
            _ => {
                let mut actions: Vec<DroneAction> = Vec::new();
                push_action(&mut actions, DroneAction::Report(DroneEvent::ControllerShortcut(packet.copy())));
                assert(actions_view(actions@) =~= seq![ActionView::Report(EventView::ControllerShortcut(packet@))]);
                Ok(actions)
            },
        }
    }

    /// The routing checks on a packet, given the random roll in 0..100
    /// (see `spec_routing_check`): `None` when the packet may go on, else the
    /// actions that answer it.
    pub fn check_if_packet_is_sendable(&self, packet: &Packet, roll: i32) -> (r: Result<Option<Vec<DroneAction>>, DroneFault>)
        ensures
            verdict_view(r) == spec_routing_check(self@, packet@, roll as int),
    {
        let rh = &packet.routing_header;
        let current = match rh.current_hop() {
            Some(c) => c,
            None => return Err(DroneFault::MissingCurrentHop),
        };
        if current != self.id {
            let a = self.send_error_nack(NackType::UnexpectedRecipient(self.id), packet)?;
            return Ok(Some(a));
        }
        if rh.is_last_hop() {
            let a = self.send_error_nack(NackType::DestinationIsDrone, packet)?;
            return Ok(Some(a));
        }
        let next_hop = match rh.next_hop() {
            Some(n) => n,
            None => return Err(DroneFault::MissingNextHop),
        };
        if !self.has_neighbor(next_hop) {
            let a = self.send_error_nack(NackType::ErrorInRouting(next_hop), packet)?;
            return Ok(Some(a));
        }
        let is_fragment = match &packet.pack_type {
            PacketType::MsgFragment(_) => true,
            _ => false,
        };
        if is_fragment && roll < self.drop_threshold {
            let a = self.send_error_nack(NackType::Dropped, packet)?;
            return Ok(Some(a));
        }
        Ok(None)
    }

    /// Answers a flood request with a flood response in the next session
    /// (see `spec_flood_response`).
    fn send_flood_response(&self, packet: &Packet, flood_request: &FloodRequest) -> (r: Result<Vec<DroneAction>, DroneFault>)
        ensures
            outcome_view(r) == spec_flood_response(self@, packet@, flood_request@),
    {
        let mut flood_request = flood_request.copy();
        let ghost trace = flood_request.path_trace@;
        let n = flood_request.path_trace.len();
        if n > 1 && flood_request.path_trace[n - 1].0 == flood_request.path_trace[n - 2].0
            && flood_request.path_trace[n - 1].0 == self.id {
            flood_request.path_trace.remove(n - 1);
            assert(flood_request.path_trace@ =~= trace.drop_last());
        }
        if packet.session_id == u64::MAX {
            return Err(DroneFault::SessionIdOverflow);
        }
        let response = flood_request.generate_response(packet.session_id + 1);
        self.forward_packet(&response, false)
    }

    /// Remembers a flood; true when it had not been seen before.
    fn remember_flood(&mut self, key: (u64, NodeId)) -> (fresh: bool)
        requires
            old(self)@.wf(),
        ensures
            final(self)@ == (DroneView {
                received_flood_requests: old(self)@.received_flood_requests.insert(key),
                ..old(self)@
            }),
            fresh == !old(self)@.received_flood_requests.contains(key),
    {
        broadcast use vstd::seq_lib::group_seq_properties;
        let n = self.received_flood_requests.len();
        for i in 0..n
            invariant
                n == self.received_flood_requests.len(),
                forall|j: int| 0 <= j < i ==> self.received_flood_requests@[j] != key,
        {
            if self.received_flood_requests[i].0 == key.0 && self.received_flood_requests[i].1 == key.1 {
                assert(self.received_flood_requests@.contains(key));
                assert(self@.received_flood_requests.insert(key) =~= self@.received_flood_requests);
                return false;
            }
        }
        let ghost before = self.received_flood_requests@;
        self.received_flood_requests.push(key);
        assert(self.received_flood_requests@.to_set() =~= before.to_set().insert(key));
        true
    }

    /// Takes part in a flood (see `spec_manage_flood`).
    fn manage_flood_request(&mut self, packet: &Packet, flood_request: &FloodRequest) -> (r: Result<Vec<DroneAction>, DroneFault>)
        requires
            old(self)@.wf(),
        ensures
            final(self)@.wf(),
            (final(self)@, outcome_view(r)) == spec_manage_flood(old(self)@, packet@, flood_request@),
    {
        let n = flood_request.path_trace.len();
        if n == 0 {
            let actions: Vec<DroneAction> = Vec::new();
            assert(actions_view(actions@) =~= seq![]);
            return Ok(actions);
        }
        let sender_id = flood_request.path_trace[n - 1].0;
        let fresh = self.remember_flood((flood_request.flood_id, flood_request.initiator_id));
        let incremented_request = flood_request.get_incremented(self.id, NodeType::Drone);
        if !fresh {
            return self.send_flood_response(packet, &incremented_request);
        }
        if trace_contains(&flood_request.path_trace, self.id, NodeType::Drone) {
            return self.send_flood_response(packet, &incremented_request);
        }
        if self.neighbors.len() == 0 || (self.has_neighbor(sender_id) && self.neighbors.len() == 1) {
            return self.send_flood_response(packet, &incremented_request);
        }
        let next_packet = Packet {
            pack_type: PacketType::FloodRequest(incremented_request),
            routing_header: packet.routing_header.copy(),
            session_id: packet.session_id,
        };
        let mut actions: Vec<DroneAction> = Vec::new();
        let count = self.neighbors.len();
        assert(actions_view(actions@) =~= flood_forwards(self.neighbors@.take(0), sender_id, next_packet@));
        for i in 0..count
            invariant
                count == self.neighbors.len(),
                actions_view(actions@) == flood_forwards(self.neighbors@.take(i as int), sender_id, next_packet@),
        {
            let node_id = self.neighbors[i];
            proof {
                assert(self.neighbors@.take(i + 1).drop_last() =~= self.neighbors@.take(i as int));
                assert(self.neighbors@.take(i + 1).last() == node_id);
            }
            if node_id != sender_id {
                push_action(&mut actions, DroneAction::Report(DroneEvent::PacketSent(next_packet.copy())));
                push_action(&mut actions, DroneAction::Send { to: node_id, packet: next_packet.copy() });
            }
        }
        assert(self.neighbors@.take(count as int) =~= self.neighbors@);
        Ok(actions)
    }

    /// Handles a packet in normal operation, given the random roll in
    /// 0..100 (see `spec_handle_packet`).
    pub fn handle_packet(&mut self, packet: &Packet, roll: i32) -> (r: Result<Vec<DroneAction>, DroneFault>)
        requires
            old(self)@.wf(),
        ensures
            final(self)@.wf(),
            (final(self)@, outcome_view(r)) == spec_handle_packet(old(self)@, packet@, roll as int),
    {
        match &packet.pack_type {
            PacketType::FloodRequest(flood_request) => self.manage_flood_request(packet, flood_request),
            _ => match self.check_if_packet_is_sendable(packet, roll)? {
                Some(actions) => Ok(actions),
                None => self.forward_packet(packet, false),
            },
        }
    }

    /// Handles a packet while crashing, given the random roll in 0..100
    /// (see `spec_handle_packet_while_crashing`).
    pub fn handle_packet_while_crashing(&self, packet: &Packet, roll: i32) -> (r: Result<Vec<DroneAction>, DroneFault>)
        ensures
            outcome_view(r) == spec_handle_packet_while_crashing(self@, packet@, roll as int),
    {
        match &packet.pack_type {
            PacketType::FloodRequest(_) => {
                let actions: Vec<DroneAction> = Vec::new();
                assert(actions_view(actions@) =~= seq![]);
                Ok(actions)
            },
            _ => match self.check_if_packet_is_sendable(packet, roll)? {
                Some(actions) => Ok(actions),
                None => match &packet.pack_type {
                    PacketType::MsgFragment(_) => self.send_error_nack(NackType::ErrorInRouting(self.id), packet),
                    _ => self.forward_packet(packet, false),
                },
            },
        }
    }

    /// Handles a packet that arrived on the drone's channel: the drone draws
    /// its random roll, then handles the packet as a crashing drone or in
    /// normal operation (see `spec_on_packet`).
    pub fn on_packet(&mut self, packet: &Packet) -> (r: Result<Vec<DroneAction>, DroneFault>)
        requires
            old(self)@.wf(),
        ensures
            final(self)@.wf(),
            exists|roll: int| 0 <= roll < 100
                && #[trigger] spec_on_packet(old(self)@, packet@, roll) == (final(self)@, outcome_view(r)),
    {
        let roll = draw_roll();
        let r = if self.is_crashing {
            self.handle_packet_while_crashing(packet, roll)
        } else {
            self.handle_packet(packet, roll)
        };
        assert(spec_on_packet(old(self)@, packet@, roll as int) == (self@, outcome_view(r)));
        r
    }

    /// Creates a drone with the given identifier, neighbours (each kept
    /// once, in the order of first occurrence) and drop threshold (brought
    /// into 0..=100, as a drop rate is kept between 0 and 1), that has
    /// seen no flood and is not crashing.
    pub fn new(id: NodeId, neighbors: Vec<NodeId>, drop_threshold: i32) -> (r: Self)
        ensures
            r@ == (DroneView {
                id,
                neighbors: distinct(neighbors@),
                drop_threshold: clamped(drop_threshold),
                received_flood_requests: Set::empty(),
                is_crashing: false,
            }),
            r@.wf(),
    {
        let mut drone = BoberDrone {
            id,
            neighbors: Vec::new(),
            drop_threshold: clamp_threshold(drop_threshold),
            received_flood_requests: Vec::new(),
            is_crashing: false,
        };
        assert(drone@.received_flood_requests =~= Set::empty());
        assert(distinct(neighbors@.take(0)) =~= drone.neighbors@);
        let n = neighbors.len();
        for i in 0..n
            invariant
                n == neighbors.len(),
                drone@.wf(),
                drone@ == (DroneView {
                    id,
                    neighbors: distinct(neighbors@.take(i as int)),
                    drop_threshold: clamped(drop_threshold),
                    received_flood_requests: Set::empty(),
                    is_crashing: false,
                }),
        {
            proof {
                assert(neighbors@.take(i + 1).drop_last() =~= neighbors@.take(i as int));
            }
            drone.add_channel(neighbors[i]);
        }
        assert(neighbors@.take(n as int) =~= neighbors@);
        drone
    }

    /// Adds a neighbour; true when it was already a neighbour.
    pub fn add_channel(&mut self, id: NodeId) -> (already: bool)
        requires
            old(self)@.wf(),
        ensures
            final(self)@ == (DroneView { neighbors: with_neighbor(old(self)@.neighbors, id), ..old(self)@ }),
            final(self)@.wf(),
            already == old(self)@.neighbors.contains(id),
    {
        if self.has_neighbor(id) {
            true
        } else {
            let ghost before = self.neighbors@;
            self.neighbors.push(id);
            assert forall|i: int, j: int| 0 <= i < j < self.neighbors@.len()
                implies self.neighbors@[i] != self.neighbors@[j] by {
                if j == before.len() {
                    assert(before[i] == self.neighbors@[i]);
                }
            }
            false
        }
    }

    /// Removes a neighbour; true when it was a neighbour.
    pub fn remove_channel(&mut self, id: &NodeId) -> (removed: bool)
        requires
            old(self)@.wf(),
        ensures
            final(self)@ == (DroneView { neighbors: without_neighbor(old(self)@.neighbors, *id), ..old(self)@ }),
            final(self)@.wf(),
            removed == old(self)@.neighbors.contains(*id),
    {
        let id = *id;
        let removed = self.has_neighbor(id);
        let ghost s = self.neighbors@;
        let ghost keep = other_than(id);
        let mut kept: Vec<NodeId> = Vec::new();
        let count = self.neighbors.len();
        assert(kept@ =~= s.take(0).filter(keep));
        for i in 0..count
            invariant
                count == self.neighbors.len(),
                s == self.neighbors@,
                s.no_duplicates(),
                keep == other_than(id),
                kept@ == s.take(i as int).filter(keep),
                kept@.no_duplicates(),
                forall|x: NodeId| kept@.contains(x) ==> s.take(i as int).contains(x),
        {
            let n = self.neighbors[i];
            proof {
                reveal_with_fuel(Seq::<_>::filter, 1);
                assert(s.take(i + 1).drop_last() =~= s.take(i as int));
                assert(s.take(i + 1).last() == n);
            }
            if n != id {
                let ghost before = kept@;
                proof {
                    if before.contains(n) {
                        let k = choose|k: int| 0 <= k < i && s.take(i as int)[k] == n;
                        assert(s[k] == s[i as int]);
                    }
                }
                kept.push(n);
                assert forall|a: int, b: int| 0 <= a < b < kept@.len()
                    implies kept@[a] != kept@[b] by {
                    if b == before.len() {
                        assert(before.contains(kept@[a]));
                    }
                }
                assert forall|x: NodeId| kept@.contains(x) implies s.take(i + 1).contains(x) by {
                    if x == n {
                        assert(s.take(i + 1)[i as int] == n);
                    } else {
                        let k = choose|k: int| 0 <= k < kept@.len() && kept@[k] == x;
                        assert(k < before.len());
                        assert(before[k] == x);
                        assert(before.contains(x));
                        assert(s.take(i as int).contains(x));
                        let m = choose|m: int| 0 <= m < i && s.take(i as int)[m] == x;
                        assert(s.take(i + 1)[m] == x);
                    }
                }
            } else {
                assert forall|x: NodeId| kept@.contains(x) implies s.take(i + 1).contains(x) by {
                    let m = choose|m: int| 0 <= m < i && s.take(i as int)[m] == x;
                    assert(s.take(i + 1)[m] == x);
                }
            }
        }
        assert(s.take(count as int) =~= s);
        self.neighbors = kept;
        removed
    }

    /// Sets the drop threshold, the packet drop rate in hundredths.
    /// A threshold below 0 sets 0 and one above 100 sets 100, as a drop rate
    /// is kept between 0 and 1.
    pub fn set_pdr(&mut self, drop_threshold: i32)
        ensures
            final(self)@ == (DroneView { drop_threshold: clamped(drop_threshold), ..old(self)@ }),
    {
        self.drop_threshold = clamp_threshold(drop_threshold);
    }

    /// Carries out a command (see `spec_handle_command`).
    pub fn handle_command(&mut self, command: DroneCommand)
        requires
            old(self)@.wf(),
        ensures
            final(self)@ == spec_handle_command(old(self)@, command),
            final(self)@.wf(),
    {
        match command {
            DroneCommand::AddSender(node_id) => {
                self.add_channel(node_id);
            },
            DroneCommand::SetPacketDropRate(drop_threshold) => {
                self.set_pdr(drop_threshold);
            },
            DroneCommand::Crash => {
                self.is_crashing = true;
            },
            DroneCommand::RemoveSender(node_id) => {
                self.remove_channel(&node_id);
            },
        }
    }

    /// Receives from the command channel (`None` where the receive failed):
    /// true while the drone keeps running (see `spec_on_command`).
    pub fn on_command(&mut self, command: Option<DroneCommand>) -> (keep_running: bool)
        requires
            old(self)@.wf(),
        ensures
            (final(self)@, keep_running) == spec_on_command(old(self)@, command),
            final(self)@.wf(),
    {
        if self.is_crashing {
            return false;
        }
        match command {
            None => true,
            Some(DroneCommand::Crash) => {
                self.handle_command(DroneCommand::Crash);
                false
            },
            Some(cmd) => {
                self.handle_command(cmd);
                true
            },
        }
    }

    pub fn id(&self) -> (r: NodeId)
        ensures
            r == self@.id,
    {
        self.id
    }

    pub fn drop_threshold(&self) -> (r: i32)
        ensures
            r == self@.drop_threshold,
    {
        self.drop_threshold
    }

    pub fn is_crashing(&self) -> (r: bool)
        ensures
            r == self@.is_crashing,
    {
        self.is_crashing
    }

    pub fn neighbors(&self) -> (r: Vec<NodeId>)
        ensures
            r@ == self@.neighbors,
    {
        self.neighbors.clone()
    }

    pub fn has_received_flood(&self, flood_id: u64, initiator_id: NodeId) -> (r: bool)
        ensures
            r == self@.received_flood_requests.contains((flood_id, initiator_id)),
    {
        let n = self.received_flood_requests.len();
        for i in 0..n
            invariant
                n == self.received_flood_requests.len(),
                forall|j: int| 0 <= j < i ==> self.received_flood_requests@[j] != (flood_id, initiator_id),
        {
            if self.received_flood_requests[i].0 == flood_id && self.received_flood_requests[i].1 == initiator_id {
                assert(self.received_flood_requests@[i as int] == (flood_id, initiator_id));
                return true;
            }
        }
        false
    }
}
} // verus!
