//! The unit of network transport: a source-routing header, a session id and
//! exactly one payload variant (data fragment, acknowledgement, negative
//! acknowledgement, flood request or flood response).

use vstd::prelude::*;

verus! {

/// Identifier of a node in the overlay network.
pub type NodeId = u8;

/// Role a node plays in the overlay.
#[derive(Clone, Copy, Debug, PartialEq, Eq, Structural)]
pub enum NodeType {
    Client,
    Drone,
    Server,
}

/// Mathematical model of a [`SourceRoutingHeader`].
pub ghost struct SrhView {
    pub hops: Seq<NodeId>,
    pub hop_index: int,
}

/// Explicit source route: an ordered hop list plus a cursor indicating the
/// next hop to traverse.
#[derive(Debug)]
pub struct SourceRoutingHeader {
    pub hops: Vec<NodeId>,
    pub hop_index: usize,
}

impl View for SourceRoutingHeader {
    type V = SrhView;

    open spec fn view(&self) -> SrhView {
        SrhView { hops: self.hops@, hop_index: self.hop_index as int }
    }
}

impl SourceRoutingHeader {
    pub fn new(hops: Vec<NodeId>, hop_index: usize) -> (r: Self)
        ensures
            r@.hops == hops@,
            r@.hop_index == hop_index,
    {
        SourceRoutingHeader { hops, hop_index }
    }

    /// The hop the cursor currently points at, if the cursor is in range.
    pub open spec fn spec_current_hop(&self) -> Option<NodeId> {
        if self@.hop_index < self@.hops.len() {
            Some(self@.hops[self@.hop_index])
        } else {
            None
        }
    }

    pub fn current_hop(&self) -> (r: Option<NodeId>)
        ensures
            r == self.spec_current_hop(),
    {
        if self.hop_index < self.hops.len() {
            Some(self.hops[self.hop_index])
        } else {
            None
        }
    }

    /// Advance the cursor by one hop.
    pub fn increase_hop_index(&mut self)
        requires
            old(self).hop_index < usize::MAX,
        ensures
            final(self)@.hops == old(self)@.hops,
            final(self)@.hop_index == old(self)@.hop_index + 1,
    {
        self.hop_index = self.hop_index + 1;
    }

    /// The same route read backwards, with the cursor reset to the start.
    #[verifier::loop_isolation(false)]
    pub fn get_reversed(&self) -> (r: Self)
        ensures
            r@.hops == self@.hops.reverse(),
            r@.hop_index == 0,
    {
        let n = self.hops.len();
        let mut rev: Vec<NodeId> = Vec::new();
        let mut i: usize = 0;
        while i < n
            invariant
                i <= n,
                n == self.hops@.len(),
                rev@.len() == i,
                forall|j: int| 0 <= j < i ==> rev@[j] == self.hops@[n - 1 - j],
            decreases n - i,
        {
            rev.push(self.hops[n - 1 - i]);
            i = i + 1;
        }
        proof {
            assert(rev@ =~= self.hops@.reverse());
        }
        SourceRoutingHeader { hops: rev, hop_index: 0 }
    }

    /// A deep copy of the header.
    pub fn dup(&self) -> (r: Self)
        ensures
            r@ == self@,
    {
        SourceRoutingHeader { hops: copy_vec(&self.hops), hop_index: self.hop_index }
    }
}

/// Mathematical model of a [`Fragment`].
pub ghost struct FragmentView {
    pub fragment_index: u64,
    pub total_n_fragments: u64,
    pub data: Seq<u8>,
}

/// One bounded-size piece of a larger disassembled application message.
#[derive(Debug)]
pub struct Fragment {
    pub fragment_index: u64,
    pub total_n_fragments: u64,
    pub data: Vec<u8>,
}

impl View for Fragment {
    type V = FragmentView;

    open spec fn view(&self) -> FragmentView {
        FragmentView {
            fragment_index: self.fragment_index,
            total_n_fragments: self.total_n_fragments,
            data: self.data@,
        }
    }
}

impl Fragment {
    /// A deep copy of the fragment.
    pub fn dup(&self) -> (r: Self)
        ensures
            r@ == self@,
    {
        Fragment {
            fragment_index: self.fragment_index,
            total_n_fragments: self.total_n_fragments,
            data: copy_vec(&self.data),
        }
    }
}

/// Acknowledgement of one delivered fragment.
#[derive(Clone, Copy, Debug, PartialEq, Eq, Structural)]
pub struct Ack {
    pub fragment_index: u64,
}

/// Reason code carried by a negative acknowledgement.
#[derive(Clone, Copy, Debug, PartialEq, Eq, Structural)]
pub enum NackType {
    Dropped,
    DestinationIsDrone,
    ErrorInRouting(NodeId),
    UnexpectedRecipient(NodeId),
}

/// Negative acknowledgement: a specific fragment failed to reach its
/// destination, with a reason code.
#[derive(Clone, Copy, Debug, PartialEq, Eq, Structural)]
pub struct Nack {
    pub fragment_index: u64,
    pub nack_type: NackType,
}

/// Mathematical model of a [`FloodRequest`].
pub ghost struct FloodRequestView {
    pub flood_id: u64,
    pub initiator_id: NodeId,
    pub path_trace: Seq<(NodeId, NodeType)>,
}

/// Broadcast discovery packet that accumulates the path it traverses.
#[derive(Debug)]
pub struct FloodRequest {
    pub flood_id: u64,
    pub initiator_id: NodeId,
    pub path_trace: Vec<(NodeId, NodeType)>,
}

impl View for FloodRequest {
    type V = FloodRequestView;

    open spec fn view(&self) -> FloodRequestView {
        FloodRequestView {
            flood_id: self.flood_id,
            initiator_id: self.initiator_id,
            path_trace: self.path_trace@,
        }
    }
}

/// Mathematical model of a [`FloodResponse`].
pub ghost struct FloodResponseView {
    pub flood_id: u64,
    pub path_trace: Seq<(NodeId, NodeType)>,
}

/// Reply to a flood request, retracing the accumulated path back to the
/// initiator.
#[derive(Debug)]
pub struct FloodResponse {
    pub flood_id: u64,
    pub path_trace: Vec<(NodeId, NodeType)>,
}

impl View for FloodResponse {
    type V = FloodResponseView;

    open spec fn view(&self) -> FloodResponseView {
        FloodResponseView { flood_id: self.flood_id, path_trace: self.path_trace@ }
    }
}

/// The node ids along a path trace, in trace order.
pub open spec fn trace_ids(trace: Seq<(NodeId, NodeType)>) -> Seq<NodeId> {
    trace.map_values(|p: (NodeId, NodeType)| p.0)
}

impl FloodRequest {
    /// A deep copy of the request.
    pub fn dup(&self) -> (r: Self)
        ensures
            r@ == self@,
    {
        FloodRequest {
            flood_id: self.flood_id,
            initiator_id: self.initiator_id,
            path_trace: copy_vec(&self.path_trace),
        }
    }

    /// Turn the accumulated trace into a flood response packet: the response
    /// retraces the request's path backwards, so its routing header is the
    /// reversed trace with the cursor at the start.
    #[verifier::loop_isolation(false)]
    pub fn generate_response(&self, session_id: u64) -> (r: Packet)
        ensures
            r@.routing_header.hops == trace_ids(self@.path_trace).reverse(),
            r@.routing_header.hop_index == 0,
            r@.session_id == session_id,
            r@.pack_type matches PacketTypeView::FloodResponse(fr)
                && fr.flood_id == self@.flood_id
                && fr.path_trace == self@.path_trace,
    {
        let n = self.path_trace.len();
        let mut hops: Vec<NodeId> = Vec::new();
        let mut i: usize = 0;
        while i < n
            invariant
                i <= n,
                n == self.path_trace@.len(),
                hops@.len() == i,
                forall|j: int| 0 <= j < i ==> hops@[j] == self.path_trace@[n - 1 - j].0,
            decreases n - i,
        {
            hops.push(self.path_trace[n - 1 - i].0);
            i = i + 1;
        }
        proof {
            assert(hops@ =~= trace_ids(self@.path_trace).reverse());
        }
        Packet {
            routing_header: SourceRoutingHeader { hops, hop_index: 0 },
            session_id,
            pack_type: PacketType::FloodResponse(
                FloodResponse { flood_id: self.flood_id, path_trace: copy_vec(&self.path_trace) },
            ),
        }
    }
}

/// Mathematical model of a [`PacketType`].
pub ghost enum PacketTypeView {
    MsgFragment(FragmentView),
    Ack(Ack),
    Nack(Nack),
    FloodRequest(FloodRequestView),
    FloodResponse(FloodResponseView),
}

/// The payload variant carried by a packet.
#[derive(Debug)]
pub enum PacketType {
    MsgFragment(Fragment),
    Ack(Ack),
    Nack(Nack),
    FloodRequest(FloodRequest),
    FloodResponse(FloodResponse),
}

impl View for PacketType {
    type V = PacketTypeView;

    open spec fn view(&self) -> PacketTypeView {
        match self {
            PacketType::MsgFragment(f) => PacketTypeView::MsgFragment(f@),
            PacketType::Ack(a) => PacketTypeView::Ack(*a),
            PacketType::Nack(n) => PacketTypeView::Nack(*n),
            PacketType::FloodRequest(fr) => PacketTypeView::FloodRequest(fr@),
            PacketType::FloodResponse(fr) => PacketTypeView::FloodResponse(fr@),
        }
    }
}

impl PacketType {
    /// A deep copy of the payload.
    pub fn dup(&self) -> (r: Self)
        ensures
            r@ == self@,
    {
        match self {
            PacketType::MsgFragment(f) => PacketType::MsgFragment(f.dup()),
            PacketType::Ack(a) => PacketType::Ack(*a),
            PacketType::Nack(n) => PacketType::Nack(*n),
            PacketType::FloodRequest(fr) => PacketType::FloodRequest(fr.dup()),
            PacketType::FloodResponse(fr) => PacketType::FloodResponse(
                FloodResponse { flood_id: fr.flood_id, path_trace: copy_vec(&fr.path_trace) },
            ),
        }
    }
}

/// Mathematical model of a [`Packet`].
pub ghost struct PacketView {
    pub routing_header: SrhView,
    pub session_id: u64,
    pub pack_type: PacketTypeView,
}

/// The unit of network transport.
#[derive(Debug)]
pub struct Packet {
    pub routing_header: SourceRoutingHeader,
    pub session_id: u64,
    pub pack_type: PacketType,
}

impl View for Packet {
    type V = PacketView;

    open spec fn view(&self) -> PacketView {
        PacketView {
            routing_header: self.routing_header@,
            session_id: self.session_id,
            pack_type: self.pack_type@,
        }
    }
}

/// The ledger key component of a packet: the fragment index for a data
/// fragment, and zero as the control tag for every other payload.
pub open spec fn spec_fragment_index(p: PacketView) -> u64 {
    match p.pack_type {
        PacketTypeView::MsgFragment(f) => f.fragment_index,
        _ => 0,
    }
}

impl Packet {
    pub fn new_fragment(routing_header: SourceRoutingHeader, session_id: u64, fragment: Fragment)
        -> (r: Self)
        ensures
            r@ == (PacketView {
                routing_header: routing_header@,
                session_id,
                pack_type: PacketTypeView::MsgFragment(fragment@),
            }),
    {
        Packet { routing_header, session_id, pack_type: PacketType::MsgFragment(fragment) }
    }

    pub fn new_ack(routing_header: SourceRoutingHeader, session_id: u64, fragment_index: u64)
        -> (r: Self)
        ensures
            r@ == (PacketView {
                routing_header: routing_header@,
                session_id,
                pack_type: PacketTypeView::Ack(Ack { fragment_index }),
            }),
    {
        Packet { routing_header, session_id, pack_type: PacketType::Ack(Ack { fragment_index }) }
    }

    pub fn new_nack(routing_header: SourceRoutingHeader, session_id: u64, nack: Nack) -> (r: Self)
        ensures
            r@ == (PacketView {
                routing_header: routing_header@,
                session_id,
                pack_type: PacketTypeView::Nack(nack),
            }),
    {
        Packet { routing_header, session_id, pack_type: PacketType::Nack(nack) }
    }

    pub fn new_flood_request(
        routing_header: SourceRoutingHeader,
        session_id: u64,
        request: FloodRequest,
    ) -> (r: Self)
        ensures
            r@ == (PacketView {
                routing_header: routing_header@,
                session_id,
                pack_type: PacketTypeView::FloodRequest(request@),
            }),
    {
        Packet { routing_header, session_id, pack_type: PacketType::FloodRequest(request) }
    }

    pub fn new_flood_response(
        routing_header: SourceRoutingHeader,
        session_id: u64,
        response: FloodResponse,
    ) -> (r: Self)
        ensures
            r@ == (PacketView {
                routing_header: routing_header@,
                session_id,
                pack_type: PacketTypeView::FloodResponse(response@),
            }),
    {
        Packet { routing_header, session_id, pack_type: PacketType::FloodResponse(response) }
    }

    /// The ledger key component of this packet.
    pub fn get_fragment_index(&self) -> (r: u64)
        ensures
            r == spec_fragment_index(self@),
    {
        match &self.pack_type {
            PacketType::MsgFragment(f) => f.fragment_index,
            _ => 0,
        }
    }

    /// A deep copy of the packet.
    pub fn dup(&self) -> (r: Self)
        ensures
            r@ == self@,
    {
        Packet {
            routing_header: self.routing_header.dup(),
            session_id: self.session_id,
            pack_type: self.pack_type.dup(),
        }
    }
}

/// Element-wise copy of a vector of plain values.
#[verifier::loop_isolation(false)]
pub fn copy_vec<T: Copy>(v: &Vec<T>) -> (r: Vec<T>)
    ensures
        r@ == v@,
{
    let mut r: Vec<T> = Vec::new();
    let mut i: usize = 0;
    while i < v.len()
        invariant
            i <= v@.len(),
            r@ == v@.subrange(0, i as int),
        decreases v@.len() - i,
    {
        r.push(v[i]);
        i = i + 1;
    }
    proof {
        assert(r@ =~= v@);
    }
    r
}

} // verus!
