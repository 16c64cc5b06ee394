use vstd::prelude::*;
use crate::pipe::{Entity, EventTarget, SharedPipeAlloc, PipeState};
use crate::protocol_stack::{Chunk, ChunkView, BodyView, ChannelToken, ServiceToken, SecondLayerHeader, BlockType, Headers};
use crate::protocol_stack::line::LineId;
use crate::protocol_stack::node::{NodeAddress, NodeLayerState, AddressMap};
use crate::protocol_stack::second_layer::{
    SecondLayerCommand, SecondLayerEvent, ServiceRequestType, ServiceResultType, LineChannelResult,
};
use crate::protocol_stack::layer_pipe_item::{LayerPipeItem, LayerCommand, LayerEvent};
use crate::protocol_stack::token_table::{TokenTable, unexpired, lemma_unexpired_keeps_the_alive};
use crate::protocol_stack::expired_streams_cleaner::{node_command, node_event, node_command_item, node_event_item};
use crate::protocol_stack::address_map_resolver::service_block;

verus! {

/// The two lines a relayed channel joins: the one towards its source and the
/// one towards its destination, each known or not.
#[derive(Clone, Copy, PartialEq, Eq, Structural)]
pub struct ChannelJoint(pub Option<LineId>, pub Option<LineId>);

impl ChannelJoint {
    /// The line at the other end from `this`.
    pub open spec fn spec_other(&self, this: LineId) -> Option<LineId> {
        if self.0 == Some(this) {
            self.1
        } else if self.1 == Some(this) {
            self.0
        } else {
            None
        }
    }

    pub fn other(&self, this: LineId) -> (r: Option<LineId>)
        ensures
            r == self.spec_other(this),
    {
        if self.0 == Some(this) {
            self.1
        } else if self.1 == Some(this) {
            self.0
        } else {
            None
        }
    }
}

/// A channel between two nodes as one node on its way sees it.
#[derive(Clone, Copy, PartialEq, Eq, Structural)]
pub struct PeerChannel {
    pub node_addr: NodeAddress,
    /// The source of the channel, known at its destination only.
    pub src_addr: Option<NodeAddress>,
    pub channel_joint: ChannelJoint,
    pub dup_channel_req: bool,
}

impl PeerChannel {
    /// The channel at the node that asks for it, with the line towards the
    /// destination.
    pub fn from_origin(node_addr: NodeAddress, dest_line_id: LineId) -> (r: Self)
        ensures
            r == (PeerChannel { node_addr, src_addr: None, channel_joint: ChannelJoint(None, Some(dest_line_id)), dup_channel_req: false }),
    {
        PeerChannel { node_addr, src_addr: None, channel_joint: ChannelJoint(None, Some(dest_line_id)), dup_channel_req: false }
    }

    /// The channel at a node the request came to on `source_line_id`; the
    /// source is known at the destination only.
    pub fn from_incoming(node_addr: NodeAddress, src_addr: Option<NodeAddress>, source_line_id: LineId) -> (r: Self)
        ensures
            r == (PeerChannel { node_addr, src_addr, channel_joint: ChannelJoint(Some(source_line_id), None), dup_channel_req: false }),
    {
        PeerChannel { node_addr, src_addr, channel_joint: ChannelJoint(Some(source_line_id), None), dup_channel_req: false }
    }

    /// The channel starts at this node.
    pub open spec fn spec_is_origin(&self) -> bool {
        self.channel_joint.0 is None
    }

    /// The channel ends at this node.
    pub open spec fn spec_is_dest(&self) -> bool {
        self.src_addr is Some
    }

    pub fn is_origin(&self) -> (r: bool)
        ensures
            r == self.spec_is_origin(),
    {
        self.channel_joint.0.is_none()
    }

    pub fn is_dest(&self) -> (r: bool)
        ensures
            r == self.spec_is_dest(),
    {
        self.src_addr.is_some()
    }

    /// The line channel towards the destination is open: at the destination,
    /// the news of an incoming peer channel from the source takes the place
    /// of the item.
    fn on_first_layer_channel_established(&mut self, service_token: ServiceToken, dest_line_id: LineId,
        shared_alloc: &mut SharedPipeAlloc<LayerPipeItem>)
        requires
            old(shared_alloc)@.well_formed(),
        ensures
            final(shared_alloc)@.well_formed(),
            final(shared_alloc)@.bottom == old(shared_alloc)@.bottom,
            crate::pipe::grows(old(shared_alloc)@, final(shared_alloc)@),
            old(self).spec_is_dest() ==> *final(self) == (PeerChannel { node_addr: old(self).node_addr,
                    src_addr: old(self).src_addr, channel_joint: ChannelJoint(Some(dest_line_id), old(self).channel_joint.1),
                    dup_channel_req: old(self).dup_channel_req })
                && final(shared_alloc)@ == old(shared_alloc)@.replaced_front(node_event_item(dest_line_id,
                    SecondLayerEvent::IncomingPeerChannel(old(self).src_addr->0, service_token))),
            !old(self).spec_is_dest() ==> *final(self) == *old(self) && final(shared_alloc)@ == old(shared_alloc)@,
            final(self).src_addr == old(self).src_addr,
    {
        if let Some(src) = self.src_addr {
            self.channel_joint.0 = Some(dest_line_id);
            shared_alloc.replace_propagate_current(node_event(dest_line_id, SecondLayerEvent::IncomingPeerChannel(src, service_token)));
        }
    }

    /// A line channel came in on `dest_line_id`. The first time: at the origin
    /// the peer channel has started; elsewhere the line channel towards the
    /// source is asked for.
    fn on_incoming_first_layer_channel(&mut self, service_token: &ServiceToken, dest_line_id: LineId,
        shared_alloc: &mut SharedPipeAlloc<LayerPipeItem>)
        requires
            old(shared_alloc)@.well_formed(),
        ensures
            final(shared_alloc)@.well_formed(),
            final(shared_alloc)@.bottom == old(shared_alloc)@.bottom,
            crate::pipe::grows(old(shared_alloc)@, final(shared_alloc)@),
            old(self).dup_channel_req ==> *final(self) == *old(self) && final(shared_alloc)@ == old(shared_alloc)@,
            !old(self).dup_channel_req ==> *final(self) == (PeerChannel { node_addr: old(self).node_addr,
                src_addr: old(self).src_addr, channel_joint: ChannelJoint(old(self).channel_joint.0, Some(dest_line_id)),
                dup_channel_req: true }),
            !old(self).dup_channel_req && old(self).spec_is_origin() ==> final(shared_alloc)@ == old(shared_alloc)@.replaced_front(
                node_event_item(dest_line_id, SecondLayerEvent::ServiceStarted(*service_token))),
            !old(self).dup_channel_req && !old(self).spec_is_origin() ==> final(shared_alloc)@ == old(shared_alloc)@.replaced_front(
                node_command_item(old(self).channel_joint.0->0, SecondLayerCommand::ServiceRequest(*service_token, ServiceRequestType::LineChannel(false)))),
    {
        if self.dup_channel_req {
            return;
        }
        self.dup_channel_req = true;
        self.channel_joint.1 = Some(dest_line_id);
        match self.channel_joint.0 {
            None => {
                shared_alloc.replace_propagate_current(node_event(dest_line_id, SecondLayerEvent::ServiceStarted(*service_token)));
            },
            Some(source_line) => {
                shared_alloc.replace_propagate_current(node_command(source_line,
                    SecondLayerCommand::ServiceRequest(*service_token, ServiceRequestType::LineChannel(false))));
            },
        }
    }

    /// The channel is over on `line_id`: a relay passes the drop on to the
    /// other end in place of the item.
    fn on_drop(&self, service_token: ServiceToken, line_id: LineId, shared_alloc: &mut SharedPipeAlloc<LayerPipeItem>)
        requires
            old(shared_alloc)@.well_formed(),
        ensures
            final(shared_alloc)@.well_formed(),
            final(shared_alloc)@.bottom == old(shared_alloc)@.bottom,
            crate::pipe::grows(old(shared_alloc)@, final(shared_alloc)@),
            final(shared_alloc)@ == (if !self.spec_is_origin() && !self.spec_is_dest() && self.channel_joint.spec_other(line_id) is Some {
                old(shared_alloc)@.replaced_front(node_command_item(self.channel_joint.spec_other(line_id)->0,
                    SecondLayerCommand::DropService(service_token)))
            } else {
                old(shared_alloc)@
            }),
    {
        if !self.is_origin() && !self.is_dest() {
            if let Some(other_joint_end) = self.channel_joint.other(line_id) {
                shared_alloc.replace_propagate_current(node_command(other_joint_end, SecondLayerCommand::DropService(service_token)));
            }
        }
    }

    /// The channel was kept alive on `line_id`: a relay passes a check on to
    /// the other end in place of the item.
    fn keep_alive(&self, line_id: LineId, shared_alloc: &mut SharedPipeAlloc<LayerPipeItem>)
        requires
            old(shared_alloc)@.well_formed(),
        ensures
            final(shared_alloc)@.well_formed(),
            final(shared_alloc)@.bottom == old(shared_alloc)@.bottom,
            crate::pipe::grows(old(shared_alloc)@, final(shared_alloc)@),
            final(shared_alloc)@ == (if !self.spec_is_origin() && !self.spec_is_dest() && self.channel_joint.spec_other(line_id) is Some {
                old(shared_alloc)@.replaced_front(node_command_item(self.channel_joint.spec_other(line_id)->0,
                    SecondLayerCommand::CheckExpiredTokens))
            } else {
                old(shared_alloc)@
            }),
    {
        if !self.is_origin() && !self.is_dest() {
            if let Some(other_joint_end) = self.channel_joint.other(line_id) {
                shared_alloc.replace_propagate_current(node_command(other_joint_end, SecondLayerCommand::CheckExpiredTokens));
            }
        }
    }
}

/// What an active channel does with a service result `res` under `t` that
/// came in on `line`: data goes out, as it is, on the line at the other end
/// of the joint, done, in place of the item; at an end of the channel, the
/// result goes up as done; anything else is left alone.
pub open spec fn relayed(ch: PeerChannel, line: LineId, t: ServiceToken, res: ServiceResultType,
    a0: PipeState<LayerPipeItem>, a1: PipeState<LayerPipeItem>) -> bool {
    match ch.channel_joint.spec_other(line) {
        Some(o) => match res {
            ServiceResultType::LineChannel(LineChannelResult::Data(c)) => exists|c2: Chunk| #![auto] c2@ == c@
                && a1 == a0.pushed_done(node_command_item(o, SecondLayerCommand::SendAsIs(c2, Some(t)))).taken_front(),
            _ => a1 == a0,
        },
        None => a1 == a0.taken_front().pushed_done(a0.queue[0].0),
    }
}

/// The news that each request of `entries` whose token had expired at its
/// reading in `elapsed` is complete as expired, in their order.
pub open spec fn expired_news(entries: Seq<(ChannelToken, PeerChannel)>, elapsed: Seq<u128>) -> Seq<LayerPipeItem>
    decreases entries.len(),
{
    if entries.len() == 0 {
        Seq::empty()
    } else {
        let rest = expired_news(entries.drop_last(), elapsed);
        if entries.last().0.expired_at(elapsed[entries.len() - 1]) {
            rest.push(node_event_item(LineId(0), SecondLayerEvent::ServiceComplete(entries.last().0,
                ServiceResultType::LineChannel(LineChannelResult::Expired))))
        } else {
            rest
        }
    }
}

/// `item` sends, on `line`, an empty block with the header `h` under the
/// token `t`.
pub open spec fn sends_block(item: LayerPipeItem, line: LineId, h: SecondLayerHeader, t: ServiceToken) -> bool {
    item matches LayerPipeItem::SomeCommand(l, LayerCommand::SecondLayer(SecondLayerCommand::Send(c, h2, tk)))
        && l == line && h2 == h && tk == Some(t)
        && c@ == (ChunkView { first: None, second: None, body: BodyView::Data(Seq::empty()) })
}

/// The items the peer channel monitor acts on: channel requests that come in,
/// the results of services that it relays, the news of line channels, the
/// requests for peer channels, and the command to forget expired requests.
pub open spec fn peer_monitor_handles(item: LayerPipeItem) -> bool {
    ||| service_block(item) matches Some((_, _, hdr)) && hdr.block_type == BlockType::ChannelRequest
    ||| item matches LayerPipeItem::SomeEvent(_, LayerEvent::SecondLayer(SecondLayerEvent::ServiceMessage(_, res)))
            && !(res is SomeService)
    ||| item matches LayerPipeItem::SomeEvent(_, LayerEvent::SecondLayer(SecondLayerEvent::ServiceStarted(_)))
    ||| item matches LayerPipeItem::SomeEvent(_, LayerEvent::SecondLayer(SecondLayerEvent::IncomingDataChannel(_)))
    ||| item matches LayerPipeItem::SomeEvent(_, LayerEvent::SecondLayer(SecondLayerEvent::ServiceComplete(_, _)))
    ||| item matches LayerPipeItem::SomeEvent(_, LayerEvent::SecondLayer(SecondLayerEvent::FirstLayerChannelKeptAlive(_)))
    ||| item matches LayerPipeItem::SomeCommand(_, LayerCommand::SecondLayer(
            SecondLayerCommand::ServiceRequest(_, ServiceRequestType::PeerChannel(_))))
    ||| item matches LayerPipeItem::SomeCommand(_, LayerCommand::SecondLayer(SecondLayerCommand::CheckExpiredTokens))
}

/// The node entity that sets up channels between nodes over several lines,
/// relays what they carry and tears them down.
pub struct PeerChannelMonitor {
    node_addr: NodeAddress,
    active_channels: TokenTable<PeerChannel>,
    waiting_channels: TokenTable<PeerChannel>,
}

impl Entity for PeerChannelMonitor {
    closed spec fn inv(&self) -> bool {
        self.active_channels.wf() && self.waiting_channels.wf()
    }
}

/// What the peer channel monitor does with the item at hand.
enum PeerAction {
    ChannelRequest(ServiceToken, LineId, SecondLayerHeader),
    Relay(ServiceToken, LineId, Option<Chunk>),
    Started(ServiceToken, LineId),
    IncomingData(ServiceToken, LineId),
    Complete(ServiceToken, LineId),
    KeptAlive(ServiceToken, LineId),
    Request(ServiceToken, NodeAddress),
    CheckExpired,
    Pass,
}

impl PeerChannelMonitor {
    pub closed spec fn active(&self) -> TokenTable<PeerChannel> {
        self.active_channels
    }

    pub closed spec fn waiting(&self) -> TokenTable<PeerChannel> {
        self.waiting_channels
    }

    pub closed spec fn spec_node_addr(&self) -> NodeAddress {
        self.node_addr
    }

    pub fn new(node_addr: NodeAddress) -> (r: Self)
        ensures
            r.inv(),
            r.spec_node_addr() == node_addr,
            r.active().entries().len() == 0,
            r.waiting().entries().len() == 0,
    {
        PeerChannelMonitor { node_addr, active_channels: TokenTable::new(), waiting_channels: TokenTable::new() }
    }

    fn make_req_cmd(node_addr: NodeAddress, service_token: ServiceToken, line_id: LineId, dest_addr: NodeAddress) -> (r: LayerPipeItem)
        ensures
            sends_block(r, line_id, SecondLayerHeader::new_spec(BlockType::ChannelRequest, node_addr, dest_addr), service_token),
    {
        let hdr = SecondLayerHeader::new(BlockType::ChannelRequest, node_addr, dest_addr);
        let msg = Chunk::empty();
        node_command(line_id, SecondLayerCommand::Send(msg, hdr, Some(service_token)))
    }

    /// A request for a channel to `dest_addr`: if the map knows the way and
    /// the request is not waiting already, it waits, and the channel request
    /// goes out on the line towards the destination in place of the command.
    fn on_channel_request(&mut self, service_token: ServiceToken, dest_addr: NodeAddress, map: &AddressMap,
        shared_alloc: &mut SharedPipeAlloc<LayerPipeItem>)
        requires
            old(self).inv(),
            old(shared_alloc)@.well_formed(),
        ensures
            final(self).inv(),
            final(shared_alloc)@.well_formed(),
            final(shared_alloc)@.bottom == old(shared_alloc)@.bottom,
            crate::pipe::grows(old(shared_alloc)@, final(shared_alloc)@),
            final(self).active() == old(self).active(),
            (!map@.contains_key(dest_addr) || old(self).waiting().has(service_token))
                ==> *final(self) == *old(self) && final(shared_alloc)@ == old(shared_alloc)@,
            map@.contains_key(dest_addr) && !old(self).waiting().has(service_token)
                ==> final(self).waiting().has(service_token)
                && final(self).waiting().value_of(service_token) == (PeerChannel {
                    node_addr: old(self).node_addr, src_addr: None,
                    channel_joint: ChannelJoint(None, Some(map@[dest_addr].line_id)), dup_channel_req: false,
                }),
            map@.contains_key(dest_addr) && !old(self).waiting().has(service_token)
                ==> exists|item: LayerPipeItem| #[trigger] sends_block(item, map@[dest_addr].line_id,
                    SecondLayerHeader::new_spec(BlockType::ChannelRequest, old(self).spec_node_addr(), dest_addr), service_token)
                    && final(shared_alloc)@ == old(shared_alloc)@.replaced_front(item),
    {
        if let Some(dest_line_entry) = map.get(&dest_addr) {
            let node_addr = self.node_addr;
            if !self.waiting_channels.contains(&service_token) {
                self.waiting_channels.insert(service_token, PeerChannel::from_origin(node_addr, dest_line_entry.line_id));
                let req = Self::make_req_cmd(node_addr, service_token, dest_line_entry.line_id, dest_addr);
                let ghost it = req;
                shared_alloc.replace_propagate_current(req);
                assert(sends_block(it, map@[dest_addr].line_id,
                    SecondLayerHeader::new_spec(BlockType::ChannelRequest, old(self).spec_node_addr(), dest_addr), service_token));
            }
        }
    }

    /// A channel request for another node came in on `source_line_id`: at its
    /// destination, the line channel back is asked for in place of it;
    /// elsewhere, if the map knows the way, it is passed on as done towards
    /// the destination in place of the item.
    fn on_foreign_request(&self, service_token: ServiceToken, hdr: SecondLayerHeader, source_line_id: LineId,
        map: &AddressMap, shared_alloc: &mut SharedPipeAlloc<LayerPipeItem>)
        requires
            old(shared_alloc)@.well_formed(),
        ensures
            final(shared_alloc)@.well_formed(),
            final(shared_alloc)@.bottom == old(shared_alloc)@.bottom,
            crate::pipe::grows(old(shared_alloc)@, final(shared_alloc)@),
            hdr.dest == self.node_addr ==> final(shared_alloc)@ == old(shared_alloc)@.replaced_front(node_command_item(source_line_id,
                SecondLayerCommand::ServiceRequest(service_token, ServiceRequestType::LineChannel(false)))),
            hdr.dest != self.node_addr && !map@.contains_key(hdr.dest) ==> final(shared_alloc)@ == old(shared_alloc)@,
            hdr.dest != self.node_addr && map@.contains_key(hdr.dest) ==> exists|item: LayerPipeItem|
                #[trigger] sends_block(item, map@[hdr.dest].line_id, hdr, service_token)
                && final(shared_alloc)@ == old(shared_alloc)@.taken_front().pushed_done(item),
    {
        if hdr.dest == self.node_addr {
            shared_alloc.replace_propagate_current(node_command(source_line_id,
                SecondLayerCommand::ServiceRequest(service_token, ServiceRequestType::LineChannel(false))));
        } else {
            if let Some(dest_entry) = map.get(&hdr.dest) {
                let msg = Chunk::empty();
                shared_alloc.take_current();
                let item = node_command(dest_entry.line_id, SecondLayerCommand::Send(msg, hdr, Some(service_token)));
                let ghost it = item;
                shared_alloc.push_done(item);
                assert(sends_block(it, map@[hdr.dest].line_id, hdr, service_token));
            }
        }
    }

    /// The nanoseconds gone by since each waiting request's token was last
    /// touched, as the clock reads now, request by request.
    fn waiting_ages(&self) -> (r: Vec<u128>)
        ensures
            r@.len() == self.waiting().entries().len(),
    {
        let mut r: Vec<u128> = Vec::new();
        let mut i: usize = 0;
        while i < self.waiting_channels.len()
            invariant
                i <= self.waiting_channels.entries().len(),
                r@.len() == i,
            decreases self.waiting_channels.entries().len() - i,
        {
            r.push(self.waiting_channels.token_at(i).elapsed());
            i = i + 1;
        }
        r
    }

    /// Forgets the waiting requests whose tokens had expired when the time
    /// gone by since each was last touched read as in `elapsed`, request by
    /// request, each with the news that it is complete as expired pushed on,
    /// in their order; every other request keeps waiting.
    pub fn forget_waiting(&mut self, elapsed: &Vec<u128>, shared_alloc: &mut SharedPipeAlloc<LayerPipeItem>)
        requires
            old(self).inv(),
            old(shared_alloc)@.well_formed(),
            elapsed@.len() == old(self).waiting().entries().len(),
        ensures
            final(self).inv(),
            final(shared_alloc)@.well_formed(),
            final(shared_alloc)@.bottom == old(shared_alloc)@.bottom,
            crate::pipe::grows(old(shared_alloc)@, final(shared_alloc)@),
            final(self).active() == old(self).active(),
            final(self).spec_node_addr() == old(self).spec_node_addr(),
            final(self).waiting().entries() == unexpired(old(self).waiting().entries(), elapsed@),
            final(shared_alloc)@ == old(shared_alloc)@.extended(expired_news(old(self).waiting().entries(), elapsed@)),
    {
        let ghost e0 = self.waiting_channels.entries();
        let mut j: usize = 0;
        assert(e0.take(0) =~= Seq::<(ChannelToken, PeerChannel)>::empty());
        while j < elapsed.len()
            invariant
                self.inv(),
                *self == *old(self),
                e0 == old(self).waiting().entries(),
                elapsed@.len() == e0.len(),
                j <= e0.len(),
                shared_alloc@.well_formed(),
                shared_alloc@.bottom == old(shared_alloc)@.bottom,
                crate::pipe::grows(old(shared_alloc)@, shared_alloc@),
                shared_alloc@ == old(shared_alloc)@.extended(expired_news(e0.take(j as int), elapsed@)),
            decreases e0.len() - j,
        {
            let ghost news = expired_news(e0.take(j as int), elapsed@);
            assert(e0.take(j as int + 1).drop_last() =~= e0.take(j as int));
            assert(e0.take(j as int + 1).last() == e0[j as int]);
            let t = self.waiting_channels.token_at(j);
            if t.expired_after(elapsed[j]) {
                let item = node_event(LineId(0), SecondLayerEvent::ServiceComplete(t,
                    ServiceResultType::LineChannel(LineChannelResult::Expired)));
                shared_alloc.push(item);
                assert(news.push(item).drop_last() =~= news);
            }
            j = j + 1;
        }
        assert(e0.take(e0.len() as int) =~= e0);
        self.waiting_channels.retain_unexpired(elapsed);
    }

    /// The expired waiting requests are forgotten, as the clock reads now,
    /// each with the news that it is complete as expired pushed on.
    fn forget_expired_waiting(&mut self, shared_alloc: &mut SharedPipeAlloc<LayerPipeItem>)
        requires
            old(self).inv(),
            old(shared_alloc)@.well_formed(),
        ensures
            final(self).inv(),
            final(shared_alloc)@.well_formed(),
            final(shared_alloc)@.bottom == old(shared_alloc)@.bottom,
            crate::pipe::grows(old(shared_alloc)@, final(shared_alloc)@),
            final(self).active() == old(self).active(),
            exists|elapsed: Seq<u128>| elapsed.len() == old(self).waiting().entries().len()
                && final(self).waiting().entries() == unexpired(old(self).waiting().entries(), elapsed)
                && final(shared_alloc)@ == old(shared_alloc)@.extended(expired_news(old(self).waiting().entries(), elapsed)),
            forall|t: ChannelToken| final(self).waiting().has(t) ==> old(self).waiting().has(t),
            forall|j: int| 0 <= j < old(self).waiting().entries().len() && (#[trigger] old(self).waiting().entries()[j]).0.spec_expires() is None
                ==> final(self).waiting().entries().contains(old(self).waiting().entries()[j]),
            forall|k: int| 0 <= k < final(self).waiting().entries().len()
                ==> old(self).waiting().entries().contains(#[trigger] final(self).waiting().entries()[k]),
            final(self).spec_node_addr() == old(self).spec_node_addr(),
    {
        let ghost e0 = self.waiting_channels.entries();
        let ages = self.waiting_ages();
        self.forget_waiting(&ages, shared_alloc);
        proof {
            lemma_unexpired_keeps_the_alive(e0, ages@);
            let e1 = self.waiting_channels.entries();
            assert forall|k: int| 0 <= k < e1.len() implies e0.contains(#[trigger] e1[k]) by {
                let j = choose|j: int| 0 <= j < e0.len() && e0[j] == #[trigger] e1[k] && !e0[j].0.expired_at(ages@[j]);
            }
            assert forall|t: ChannelToken| self.waiting_channels.has(t) implies old(self).waiting_channels.has(t) by {
                let k = choose|k: int| 0 <= k < e1.len() && (#[trigger] e1[k]).0.spec_id() == t.spec_id();
                let j = choose|j: int| 0 <= j < e0.len() && e0[j] == #[trigger] e1[k] && !e0[j].0.expired_at(ages@[j]);
                assert(e0[j].0.spec_id() == t.spec_id());
            }
            assert forall|j: int| 0 <= j < e0.len() && (#[trigger] e0[j]).0.spec_expires() is None
                implies e1.contains(e0[j]) by {
                assert(!e0[j].0.expired_at(ages@[j]));
            }
        }
    }
}

/// A channel that waits at a node on its way, with its source side on line
/// `s`, is joined to the line `l` that a line channel comes in on: from then
/// on the channel is active with `s` and `l` at its two ends, and data under
/// its token that comes in on `s` goes out, as it is, on `l`.
pub proof fn lemma_joined_channel_relays(m: PeerChannelMonitor, shared: NodeLayerState, alloc: PipeState<LayerPipeItem>,
    next: PeerChannelMonitor, next_shared: NodeLayerState, next_alloc: PipeState<LayerPipeItem>,
    t: ServiceToken, l: LineId, s: LineId, c: Chunk,
    alloc2: PipeState<LayerPipeItem>, next2: PeerChannelMonitor, next_shared2: NodeLayerState, next_alloc2: PipeState<LayerPipeItem>)
    requires
        alloc.queue.len() > 0,
        alloc.queue[0].0 == LayerPipeItem::SomeEvent(l, LayerEvent::SecondLayer(SecondLayerEvent::IncomingDataChannel(t))),
        m.notified(shared, alloc, next, next_shared, next_alloc),
        m.waiting().has(t),
        !m.active().has(t),
        !m.waiting().value_of(t).dup_channel_req,
        m.waiting().value_of(t).channel_joint.0 == Some(s),
        s != l,
        alloc2.queue.len() > 0,
        alloc2.queue[0].0 == LayerPipeItem::SomeEvent(s, LayerEvent::SecondLayer(
            SecondLayerEvent::ServiceMessage(t, ServiceResultType::LineChannel(LineChannelResult::Data(c))))),
        next.notified(next_shared, alloc2, next2, next_shared2, next_alloc2),
    ensures
        next.active().has(t),
        next.active().value_of(t).channel_joint.spec_other(s) == Some(l),
        next.active().value_of(t).channel_joint.spec_other(l) == Some(s),
        exists|c2: Chunk| #![auto] c2@ == c@ && next_alloc2 == alloc2.pushed_done(
            node_command_item(l, SecondLayerCommand::SendAsIs(c2, Some(t)))).taken_front(),
{
}

impl EventTarget<LayerPipeItem, NodeLayerState> for PeerChannelMonitor {
    open spec fn passes(&self, item: LayerPipeItem) -> bool {
        !peer_monitor_handles(item)
    }

    open spec fn notified(&self, shared: NodeLayerState, alloc: PipeState<LayerPipeItem>, next: Self, next_shared: NodeLayerState,
        next_alloc: PipeState<LayerPipeItem>) -> bool {
        &&& (next_shared.address_map@ == shared.address_map@)
        &&& (alloc.queue[0].0 matches LayerPipeItem::SomeCommand(_, LayerCommand::SecondLayer(
                    SecondLayerCommand::ServiceRequest(t, ServiceRequestType::PeerChannel(dest)))) ==> {
                    let map = shared.address_map@;
                    &&& next.active() == self.active()
                    &&& (!map.contains_key(dest) || self.waiting().has(t))
                        ==> next == *self && next_alloc == alloc
                    &&& map.contains_key(dest) && !self.waiting().has(t)
                        ==> next.waiting().has(t) && next.waiting().value_of(t) == (PeerChannel {
                            node_addr: self.spec_node_addr(), src_addr: None,
                            channel_joint: ChannelJoint(None, Some(map[dest].line_id)), dup_channel_req: false,
                        })
                    &&& map.contains_key(dest) && !self.waiting().has(t)
                        ==> exists|item: LayerPipeItem| #[trigger] sends_block(item, map[dest].line_id,
                            SecondLayerHeader::new_spec(BlockType::ChannelRequest, self.spec_node_addr(), dest), t)
                            && next_alloc == alloc.replaced_front(item)
            })
        &&& (service_block(alloc.queue[0].0) matches Some((t, line, hdr)) ==> hdr.block_type == BlockType::ChannelRequest ==> {
                    let own = self.spec_node_addr();
                    &&& next.active() == self.active()
                    &&& self.waiting().has(t) ==> next == *self && next_alloc == alloc
                    &&& !self.waiting().has(t) ==> next.waiting().has(t) && next.waiting().value_of(t) == (PeerChannel {
                            node_addr: own, src_addr: if own == hdr.dest { Some(hdr.src) } else { None },
                            channel_joint: ChannelJoint(Some(line), None), dup_channel_req: false,
                        })
                    &&& !self.waiting().has(t) && hdr.dest == own ==> next_alloc == alloc.replaced_front(
                            node_command_item(line, SecondLayerCommand::ServiceRequest(t, ServiceRequestType::LineChannel(false))))
                    &&& !self.waiting().has(t) && hdr.dest != own && !shared.address_map@.contains_key(hdr.dest)
                        ==> next_alloc == alloc
                    &&& !self.waiting().has(t) && hdr.dest != own && shared.address_map@.contains_key(hdr.dest)
                        ==> exists|item: LayerPipeItem| #[trigger] sends_block(item, shared.address_map@[hdr.dest].line_id, hdr, t)
                            && next_alloc == alloc.taken_front().pushed_done(item)
            })
        &&& (alloc.queue[0].0 matches LayerPipeItem::SomeEvent(l, LayerEvent::SecondLayer(SecondLayerEvent::ServiceStarted(t))) ==> {
                    let ch = self.waiting().value_of(t);
                    &&& !self.waiting().has(t) ==> next == *self && next_alloc == alloc
                    &&& self.waiting().has(t) ==> !next.waiting().has(t) && next.active().has(t)
                    &&& self.waiting().has(t) && self.active().has(t) ==> next.active() == self.active()
                    &&& self.waiting().has(t) && !self.active().has(t) ==> next.active().value_of(t) == (if ch.spec_is_dest() {
                            PeerChannel { node_addr: ch.node_addr, src_addr: ch.src_addr,
                                channel_joint: ChannelJoint(Some(l), ch.channel_joint.1), dup_channel_req: ch.dup_channel_req }
                        } else {
                            ch
                        })
                    &&& self.waiting().has(t) && !self.active().has(t) && ch.spec_is_dest() ==> next_alloc == alloc.replaced_front(
                            node_event_item(l, SecondLayerEvent::IncomingPeerChannel(ch.src_addr->0, t)))
                    &&& self.waiting().has(t) && (self.active().has(t) || !ch.spec_is_dest()) ==> next_alloc == alloc
            })
        &&& (alloc.queue[0].0 matches LayerPipeItem::SomeEvent(l, LayerEvent::SecondLayer(SecondLayerEvent::IncomingDataChannel(t))) ==> {
                    let ch = self.waiting().value_of(t);
                    &&& !self.waiting().has(t) ==> next == *self && next_alloc == alloc
                    &&& self.waiting().has(t) ==> !next.waiting().has(t) && next.active().has(t)
                    &&& self.waiting().has(t) ==> next.active().value_of(t) == (if !self.active().has(t) && !ch.dup_channel_req {
                            PeerChannel { node_addr: ch.node_addr, src_addr: ch.src_addr,
                                channel_joint: ChannelJoint(ch.channel_joint.0, Some(l)), dup_channel_req: true }
                        } else {
                            ch
                        })
                    &&& self.waiting().has(t) && (self.active().has(t) || ch.dup_channel_req) ==> next_alloc == alloc
                    &&& self.waiting().has(t) && !self.active().has(t) && !ch.dup_channel_req && ch.spec_is_origin()
                        ==> next_alloc == alloc.replaced_front(node_event_item(l, SecondLayerEvent::ServiceStarted(t)))
                    &&& self.waiting().has(t) && !self.active().has(t) && !ch.dup_channel_req && !ch.spec_is_origin()
                        ==> next_alloc == alloc.replaced_front(node_command_item(ch.channel_joint.0->0,
                            SecondLayerCommand::ServiceRequest(t, ServiceRequestType::LineChannel(false))))
            })
        &&& (alloc.queue[0].0 matches LayerPipeItem::SomeEvent(l, LayerEvent::SecondLayer(SecondLayerEvent::ServiceComplete(t, _))) ==> {
                    let ch = self.active().value_of(t);
                    &&& !next.waiting().has(t) && !next.active().has(t)
                    &&& !self.active().has(t) ==> next_alloc == alloc
                    &&& self.active().has(t) ==> next_alloc == (if !ch.spec_is_origin() && !ch.spec_is_dest()
                            && ch.channel_joint.spec_other(l) is Some {
                            alloc.replaced_front(node_command_item(ch.channel_joint.spec_other(l)->0, SecondLayerCommand::DropService(t)))
                        } else {
                            alloc
                        })
            })
        &&& (alloc.queue[0].0 matches LayerPipeItem::SomeEvent(l, LayerEvent::SecondLayer(SecondLayerEvent::FirstLayerChannelKeptAlive(t))) ==> {
                    let ch = self.active().value_of(t);
                    &&& next == *self
                    &&& !self.active().has(t) ==> next_alloc == alloc
                    &&& self.active().has(t) ==> next_alloc == (if !ch.spec_is_origin() && !ch.spec_is_dest()
                            && ch.channel_joint.spec_other(l) is Some {
                            alloc.replaced_front(node_command_item(ch.channel_joint.spec_other(l)->0, SecondLayerCommand::CheckExpiredTokens))
                        } else {
                            alloc
                        })
            })
        &&& (alloc.queue[0].0 matches LayerPipeItem::SomeCommand(_, LayerCommand::SecondLayer(SecondLayerCommand::CheckExpiredTokens)) ==> {
                    &&& next.active() == self.active()
                    &&& next.spec_node_addr() == self.spec_node_addr()
                    &&& exists|elapsed: Seq<u128>| elapsed.len() == self.waiting().entries().len()
                        && next.waiting().entries() == unexpired(self.waiting().entries(), elapsed)
                        && next_alloc == alloc.extended(expired_news(self.waiting().entries(), elapsed))
                    &&& forall|t: ChannelToken| next.waiting().has(t) ==> self.waiting().has(t)
            })
        &&& (alloc.queue[0].0 matches LayerPipeItem::SomeEvent(line, LayerEvent::SecondLayer(SecondLayerEvent::ServiceMessage(t, res)))
                    ==> !(res is SomeService) ==> {
                    &&& next == *self
                    &&& !self.active().has(t) ==> next_alloc == alloc
                    &&& self.active().has(t) ==> relayed(self.active().value_of(t), line, t, res, alloc, next_alloc)
            })
        &&& (!peer_monitor_handles(alloc.queue[0].0) ==> next == *self && next_shared == shared
                    && next_alloc == alloc)
    }

    fn notify(&mut self, shared: &mut NodeLayerState, shared_alloc: &mut SharedPipeAlloc<LayerPipeItem>)
    {
        let action = match shared_alloc.current() {
            LayerPipeItem::SomeEvent(line_id, LayerEvent::SecondLayer(ev)) => match ev {
                SecondLayerEvent::ServiceMessage(service_token, ServiceResultType::SomeService(msg)) => {
                    match msg.header() {
                        Headers::SecondLayer(hdr) => {
                            if hdr.block_type == BlockType::ChannelRequest {
                                PeerAction::ChannelRequest(*service_token, *line_id, hdr)
                            } else {
                                PeerAction::Pass
                            }
                        },
                        _ => PeerAction::Pass,
                    }
                },
                SecondLayerEvent::ServiceMessage(service_token, res) => {
                    let data = match res.data() {
                        Some(msg) => Some(msg.duplicate()),
                        None => None,
                    };
                    PeerAction::Relay(*service_token, *line_id, data)
                },
                SecondLayerEvent::ServiceStarted(service_token) => PeerAction::Started(*service_token, *line_id),
                SecondLayerEvent::IncomingDataChannel(service_token) => PeerAction::IncomingData(*service_token, *line_id),
                SecondLayerEvent::ServiceComplete(service_token, _) => PeerAction::Complete(*service_token, *line_id),
                SecondLayerEvent::FirstLayerChannelKeptAlive(service_token) => PeerAction::KeptAlive(*service_token, *line_id),
                _ => PeerAction::Pass,
            },
            LayerPipeItem::SomeCommand(_, LayerCommand::SecondLayer(cmd)) => match cmd {
                SecondLayerCommand::ServiceRequest(service_token, ServiceRequestType::PeerChannel(dest)) =>
                    PeerAction::Request(*service_token, *dest),
                SecondLayerCommand::CheckExpiredTokens => PeerAction::CheckExpired,
                _ => PeerAction::Pass,
            },
            _ => PeerAction::Pass,
        };
        match action {
            PeerAction::ChannelRequest(service_token, source_line_id, hdr) => {
                let node_addr = self.node_addr;
                let src_addr = if node_addr == hdr.dest { Some(hdr.src) } else { None };
                if !self.waiting_channels.contains(&service_token) {
                    self.waiting_channels.insert(service_token, PeerChannel::from_incoming(node_addr, src_addr, source_line_id));
                    self.on_foreign_request(service_token, hdr, source_line_id, &shared.address_map, shared_alloc);
                }
            },
            PeerAction::Relay(service_token, line_id, data) => {
                if let Some(channel) = self.active_channels.get(&service_token) {
                    if let Some(other_joint_end) = channel.channel_joint.other(line_id) {
                        if let Some(msg) = data {
                            shared_alloc.push_done(node_command(other_joint_end, SecondLayerCommand::SendAsIs(msg, Some(service_token))));
                            shared_alloc.take_current();
                        }
                    } else {
                        if let Some(event) = shared_alloc.take_current() {
                            shared_alloc.push_done(event);
                        }
                    }
                }
            },
            PeerAction::Started(service_token, dest_line_id) => {
                if let Some(channel) = self.waiting_channels.remove(&service_token) {
                    if !self.active_channels.contains(&service_token) {
                        let mut channel = channel;
                        channel.on_first_layer_channel_established(service_token, dest_line_id, shared_alloc);
                        self.active_channels.insert(service_token, channel);
                    }
                }
            },
            PeerAction::IncomingData(service_token, dest_line_id) => {
                if let Some(channel) = self.waiting_channels.remove(&service_token) {
                    let mut channel = channel;
                    if !self.active_channels.contains(&service_token) {
                        channel.on_incoming_first_layer_channel(&service_token, dest_line_id, shared_alloc);
                    }
                    self.active_channels.insert(service_token, channel);
                }
            },
            PeerAction::Complete(service_token, dest_line_id) => {
                self.waiting_channels.remove(&service_token);
                if let Some(channel) = self.active_channels.remove(&service_token) {
                    channel.on_drop(service_token, dest_line_id, shared_alloc);
                }
            },
            PeerAction::KeptAlive(service_token, line_id) => {
                if let Some(channel) = self.active_channels.get(&service_token) {
                    channel.keep_alive(line_id, shared_alloc);
                }
            },
            PeerAction::Request(service_token, dest) => {
                self.on_channel_request(service_token, dest, &shared.address_map, shared_alloc);
            },
            PeerAction::CheckExpired => {
                self.forget_expired_waiting(shared_alloc);
            },
            PeerAction::Pass => {},
        }
    }
}

} // verus!
