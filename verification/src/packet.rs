//! Packets of the drone network: source routing headers, fragments,
//! acknowledgements, negative acknowledgements and the flooding messages,
//! each with its mathematical view.
use vstd::prelude::*;

verus! {

/// The identifier of a node of the network.
pub type NodeId = u8;

/// The kind of a node that a flood request passed through.
#[derive(Clone, Copy, PartialEq, Eq, Structural, Debug)]
pub enum NodeType {
    Client,
    Drone,
    Server,
}

/// The route of a packet: the nodes it travels through and the position
/// of the node that holds it now.
#[derive(PartialEq, Eq, Debug)]
pub struct SourceRoutingHeader {
    pub hop_index: usize,
    pub hops: Vec<NodeId>,
}

/// A piece of a message.
#[derive(Clone, Copy, PartialEq, Eq, Debug)]
pub struct Fragment {
    pub fragment_index: u64,
    pub total_n_fragments: u64,
    pub length: u8,
    pub data: [u8; 128],
}

/// The acknowledgement of a fragment.
#[derive(Clone, Copy, PartialEq, Eq, Structural, Debug)]
pub struct Ack {
    pub fragment_index: u64,
}

/// Why a fragment was not delivered.
#[derive(Clone, Copy, PartialEq, Eq, Structural, Debug)]
pub enum NackType {
    ErrorInRouting(NodeId),
    DestinationIsDrone,
    Dropped,
    UnexpectedRecipient(NodeId),
}

/// The negative acknowledgement of a fragment.
#[derive(Clone, Copy, PartialEq, Eq, Structural, Debug)]
pub struct Nack {
    pub fragment_index: u64,
    pub nack_type: NackType,
}

/// A request to discover the topology, with the path it has travelled.
#[derive(PartialEq, Eq, Debug)]
pub struct FloodRequest {
    pub flood_id: u64,
    pub initiator_id: NodeId,
    pub path_trace: Vec<(NodeId, NodeType)>,
}

/// The answer to a flood request, carrying the path that the request took.
#[derive(PartialEq, Eq, Debug)]
pub struct FloodResponse {
    pub flood_id: u64,
    pub path_trace: Vec<(NodeId, NodeType)>,
}

/// What a packet carries.
#[derive(PartialEq, Eq, Debug)]
pub enum PacketType {
    MsgFragment(Fragment),
    Ack(Ack),
    Nack(Nack),
    FloodRequest(FloodRequest),
    FloodResponse(FloodResponse),
}

/// A packet with its route and session.
#[derive(PartialEq, Eq, Debug)]
pub struct Packet {
    pub pack_type: PacketType,
    pub routing_header: SourceRoutingHeader,
    pub session_id: u64,
}

// ---------------------------------------------------------------------
// Views
// ---------------------------------------------------------------------

/// The route of a packet as mathematical values.
pub struct RouteView {
    pub hop_index: int,
    pub hops: Seq<NodeId>,
}

pub struct FloodRequestView {
    pub flood_id: u64,
    pub initiator_id: NodeId,
    pub path_trace: Seq<(NodeId, NodeType)>,
}

pub struct FloodResponseView {
    pub flood_id: u64,
    pub path_trace: Seq<(NodeId, NodeType)>,
}

pub enum PacketTypeView {
    MsgFragment(Fragment),
    Ack(Ack),
    Nack(Nack),
    FloodRequest(FloodRequestView),
    FloodResponse(FloodResponseView),
}

pub struct PacketView {
    pub pack_type: PacketTypeView,
    pub routing_header: RouteView,
    pub session_id: u64,
}

impl View for SourceRoutingHeader {
    type V = RouteView;

    open spec fn view(&self) -> RouteView {
        RouteView { hop_index: self.hop_index as int, hops: self.hops@ }
    }
}

impl View for FloodRequest {
    type V = FloodRequestView;

    open spec fn view(&self) -> FloodRequestView {
        FloodRequestView {
            flood_id: self.flood_id,
            initiator_id: self.initiator_id,
            path_trace: self.path_trace@,
        }
    }
}

impl View for FloodResponse {
    type V = FloodResponseView;

    open spec fn view(&self) -> FloodResponseView {
        FloodResponseView { flood_id: self.flood_id, path_trace: self.path_trace@ }
    }
}

impl View for PacketType {
    type V = PacketTypeView;

    open spec fn view(&self) -> PacketTypeView {
        match self {
            PacketType::MsgFragment(f) => PacketTypeView::MsgFragment(*f),
            PacketType::Ack(a) => PacketTypeView::Ack(*a),
            PacketType::Nack(n) => PacketTypeView::Nack(*n),
            PacketType::FloodRequest(r) => PacketTypeView::FloodRequest(r@),
            PacketType::FloodResponse(r) => PacketTypeView::FloodResponse(r@),
        }
    }
}

impl View for Packet {
    type V = PacketView;

    open spec fn view(&self) -> PacketView {
        PacketView {
            pack_type: self.pack_type@,
            routing_header: self.routing_header@,
            session_id: self.session_id,
        }
    }
}

// ---------------------------------------------------------------------
// What the route operations compute
// ---------------------------------------------------------------------

/// The node that holds the packet now, if the hop index is inside the route.
pub open spec fn current_hop_of(r: RouteView) -> Option<NodeId> {
    if 0 <= r.hop_index < r.hops.len() {
        Some(r.hops[r.hop_index])
    } else {
        None
    }
}

/// The node the packet goes to next, if there is one.
pub open spec fn next_hop_of(r: RouteView) -> Option<NodeId> {
    if 0 <= r.hop_index + 1 < r.hops.len() {
        Some(r.hops[r.hop_index + 1])
    } else {
        None
    }
}

/// The packet is at the last node of its route.
pub open spec fn is_last_hop_of(r: RouteView) -> bool {
    r.hop_index + 1 == r.hops.len()
}

/// The route moved on by one hop.
pub open spec fn advanced(r: RouteView) -> RouteView {
    RouteView { hop_index: r.hop_index + 1, ..r }
}

/// The packet moved on by one hop, all else unchanged.
pub open spec fn packet_advanced(p: PacketView) -> PacketView {
    PacketView { routing_header: advanced(p.routing_header), ..p }
}

/// The fragment index that a packet reports: that of its fragment, else 0.
pub open spec fn fragment_index_of(p: PacketView) -> u64 {
    match p.pack_type {
        PacketTypeView::MsgFragment(f) => f.fragment_index,
        _ => 0,
    }
}

/// The identifiers of the nodes of a path trace, in order.
pub open spec fn trace_ids(t: Seq<(NodeId, NodeType)>) -> Seq<NodeId> {
    t.map_values(|e: (NodeId, NodeType)| e.0)
}

/// A flood request that has passed one more node.
pub open spec fn incremented(f: FloodRequestView, id: NodeId, ty: NodeType) -> FloodRequestView {
    FloodRequestView { path_trace: f.path_trace.push((id, ty)), ..f }
}

/// The flood response to a request: it travels back along the reversed path
/// trace, from its first hop, and carries the whole trace.
pub open spec fn response_to(f: FloodRequestView, session_id: u64) -> PacketView {
    PacketView {
        pack_type: PacketTypeView::FloodResponse(
            FloodResponseView { flood_id: f.flood_id, path_trace: f.path_trace },
        ),
        routing_header: RouteView { hop_index: 0, hops: trace_ids(f.path_trace).reverse() },
        session_id,
    }
}

// ---------------------------------------------------------------------
// Route operations
// ---------------------------------------------------------------------

fn copy_hops(v: &Vec<NodeId>) -> (r: Vec<NodeId>)
    ensures
        r@ == v@,
{
    v.clone()
}

fn copy_trace(v: &Vec<(NodeId, NodeType)>) -> (r: Vec<(NodeId, NodeType)>)
    ensures
        r@ == v@,
{
    let mut r: Vec<(NodeId, NodeType)> = Vec::new();
    let n = v.len();
    for i in 0..n
        invariant
            n == v.len(),
            r@ == v@.take(i as int),
    {
        r.push(v[i]);
        assert(r@ =~= v@.take(i + 1));
    }
    assert(r@ =~= v@);
    r
}

impl SourceRoutingHeader {
    pub fn copy(&self) -> (r: Self)
        ensures
            r@ == self@,
    {
        SourceRoutingHeader { hop_index: self.hop_index, hops: copy_hops(&self.hops) }
    }

    pub fn current_hop(&self) -> (r: Option<NodeId>)
        ensures
            r == current_hop_of(self@),
    {
        if self.hop_index < self.hops.len() {
            Some(self.hops[self.hop_index])
        } else {
            None
        }
    }

    pub fn next_hop(&self) -> (r: Option<NodeId>)
        ensures
            r == next_hop_of(self@),
    {
        if self.hop_index < self.hops.len() && self.hop_index + 1 < self.hops.len() {
            Some(self.hops[self.hop_index + 1])
        } else {
            None
        }
    }

    pub fn is_last_hop(&self) -> (r: bool)
        ensures
            r == is_last_hop_of(self@),
    {
        self.hops.len() > 0 && self.hop_index == self.hops.len() - 1
    }

    pub fn increase_hop_index(&mut self)
        requires
            old(self).hop_index < usize::MAX,
        ensures
            final(self)@ == advanced(old(self)@),
    {
        self.hop_index = self.hop_index + 1;
    }

    pub fn reset_hop_index(&mut self)
        ensures
            final(self)@ == (RouteView { hop_index: 0, ..old(self)@ }),
    {
        self.hop_index = 0;
    }

    pub fn reverse(&mut self)
        ensures
            final(self)@ == (RouteView { hops: old(self)@.hops.reverse(), ..old(self)@ }),
    {
        let n = self.hops.len();
        let mut r: Vec<NodeId> = Vec::new();
        for i in 0..n
            invariant
                n == self.hops.len(),
                r.len() == i,
                forall|j: int| 0 <= j < i ==> r@[j] == self.hops@[n - 1 - j],
        {
            r.push(self.hops[n - 1 - i]);
        }
        assert(r@ =~= self.hops@.reverse());
        self.hops = r;
    }

    /// The part of the route from `start` up to, not including, `end`, with
    /// the same hop index; `None` when the range does not lie in the route.
    pub fn sub_route(&self, start: usize, end: usize) -> (r: Option<Self>)
        ensures
            r is Some <==> start <= end <= self.hops.len(),
            r matches Some(s) ==> s@ == (RouteView {
                hops: self@.hops.subrange(start as int, end as int),
                ..self@
            }),
    {
        if start <= end && end <= self.hops.len() {
            let mut hops: Vec<NodeId> = Vec::new();
            for i in start..end
                invariant
                    start <= end <= self.hops.len(),
                    hops@ == self.hops@.subrange(start as int, i as int),
            {
                hops.push(self.hops[i]);
                assert(hops@ =~= self.hops@.subrange(start as int, i + 1));
            }
            Some(SourceRoutingHeader { hop_index: self.hop_index, hops })
        } else {
            None
        }
    }
}

impl FloodRequest {
    pub fn copy(&self) -> (r: Self)
        ensures
            r@ == self@,
    {
        FloodRequest {
            flood_id: self.flood_id,
            initiator_id: self.initiator_id,
            path_trace: copy_trace(&self.path_trace),
        }
    }

    /// The request after it has passed the node `id` of kind `ty`.
    pub fn get_incremented(&self, id: NodeId, ty: NodeType) -> (r: Self)
        ensures
            r@ == incremented(self@, id, ty),
    {
        let mut path_trace = copy_trace(&self.path_trace);
        path_trace.push((id, ty));
        FloodRequest { flood_id: self.flood_id, initiator_id: self.initiator_id, path_trace }
    }

    /// The flood response to this request in the given session.
    pub fn generate_response(&self, session_id: u64) -> (r: Packet)
        ensures
            r@ == response_to(self@, session_id),
    {
        let n = self.path_trace.len();
        let mut hops: Vec<NodeId> = Vec::new();
        for i in 0..n
            invariant
                n == self.path_trace.len(),
                hops.len() == i,
                forall|j: int| 0 <= j < i ==> hops@[j] == self.path_trace@[n - 1 - j].0,
        {
            hops.push(self.path_trace[n - 1 - i].0);
        }
        assert(hops@ =~= trace_ids(self.path_trace@).reverse());
        Packet {
            pack_type: PacketType::FloodResponse(
                FloodResponse { flood_id: self.flood_id, path_trace: copy_trace(&self.path_trace) },
            ),
            routing_header: SourceRoutingHeader { hop_index: 0, hops },
            session_id,
        }
    }
}

impl FloodResponse {
    pub fn copy(&self) -> (r: Self)
        ensures
            r@ == self@,
    {
        FloodResponse { flood_id: self.flood_id, path_trace: copy_trace(&self.path_trace) }
    }
}

impl PacketType {
    pub fn copy(&self) -> (r: Self)
        ensures
            r@ == self@,
    {
        match self {
            PacketType::MsgFragment(f) => PacketType::MsgFragment(*f),
            PacketType::Ack(a) => PacketType::Ack(*a),
            PacketType::Nack(n) => PacketType::Nack(*n),
            PacketType::FloodRequest(r) => PacketType::FloodRequest(r.copy()),
            PacketType::FloodResponse(r) => PacketType::FloodResponse(r.copy()),
        }
    }
}

impl Packet {
    pub fn copy(&self) -> (r: Self)
        ensures
            r@ == self@,
    {
        Packet {
            pack_type: self.pack_type.copy(),
            routing_header: self.routing_header.copy(),
            session_id: self.session_id,
        }
    }

    /// The fragment index of the packet: that of its fragment, else 0.
    pub fn get_fragment_index(&self) -> (r: u64)
        ensures
            r == fragment_index_of(self@),
    {
        match &self.pack_type {
            PacketType::MsgFragment(f) => f.fragment_index,
            _ => 0,
        }
    }

    pub fn new_fragment(routing_header: SourceRoutingHeader, session_id: u64, fragment: Fragment) -> (r: Self)
        ensures
            r@ == (PacketView {
                pack_type: PacketTypeView::MsgFragment(fragment),
                routing_header: routing_header@,
                session_id,
            }),
    {
        Packet { pack_type: PacketType::MsgFragment(fragment), routing_header, session_id }
    }

    pub fn new_ack(routing_header: SourceRoutingHeader, session_id: u64, fragment_index: u64) -> (r: Self)
        ensures
            r@ == (PacketView {
                pack_type: PacketTypeView::Ack(Ack { fragment_index }),
                routing_header: routing_header@,
                session_id,
            }),
    {
        Packet { pack_type: PacketType::Ack(Ack { fragment_index }), routing_header, session_id }
    }

    pub fn new_nack(routing_header: SourceRoutingHeader, session_id: u64, nack: Nack) -> (r: Self)
        ensures
            r@ == (PacketView {
                pack_type: PacketTypeView::Nack(nack),
                routing_header: routing_header@,
                session_id,
            }),
    {
        Packet { pack_type: PacketType::Nack(nack), routing_header, session_id }
    }

    pub fn new_flood_request(routing_header: SourceRoutingHeader, session_id: u64, flood_request: FloodRequest) -> (r: Self)
        ensures
            r@ == (PacketView {
                pack_type: PacketTypeView::FloodRequest(flood_request@),
                routing_header: routing_header@,
                session_id,
            }),
    {
        Packet { pack_type: PacketType::FloodRequest(flood_request), routing_header, session_id }
    }

    pub fn new_flood_response(routing_header: SourceRoutingHeader, session_id: u64, flood_response: FloodResponse) -> (r: Self)
        ensures
            r@ == (PacketView {
                pack_type: PacketTypeView::FloodResponse(flood_response@),
                routing_header: routing_header@,
                session_id,
            }),
    {
        Packet { pack_type: PacketType::FloodResponse(flood_response), routing_header, session_id }
    }
}

} // verus!
