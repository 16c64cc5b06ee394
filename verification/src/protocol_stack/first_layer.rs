use vstd::prelude::*;
use instant::Instant;
use crate::protocol_stack::{
    Chunk, TimerOwnerToken, ChannelToken, ServiceToken, ChunkType, FirstLayerHeader, SecondLayerHeader,
    BlockType, Headers, wrapped, outer_header,
};
use crate::protocol_stack::physical_layer::PhysicalLayerEvent;
use crate::protocol_stack::second_layer::{SecondLayerCommand, ServiceRequestType};
use crate::protocol_stack::layer_pipe_item::{LayerEvent, LayerCommand, LayerPipeItem};
use crate::protocol_stack::line::LineId;
use crate::pipe::{Entity, EventTarget, SharedPipeAlloc, PipeState, Item};
use crate::utils::IdCounter;

verus! {

/// What a round of pings on a line found: the mean one-way delay in
/// nanoseconds and the number of chunks that came back.
#[derive(Clone, Copy, PartialEq, Eq, Structural)]
pub struct LineStatistics {
    pub oneway_trip_delay: u128,
    pub returned_chunks: usize,
}

impl LineStatistics {
    pub fn new() -> (r: Self)
        ensures
            r.oneway_trip_delay == 0,
            r.returned_chunks == 0,
    {
        LineStatistics { oneway_trip_delay: 0, returned_chunks: 0 }
    }
}

/// What happens on the first layer.
pub enum FirstLayerEvent {
    ChunkReceived(Chunk, Instant),
    TimerFinished(TimerOwnerToken),
    LineOk(Chunk, u128),
    PingLineTimeout,
    HandshakeFailure(ChannelToken),
    ChannelEstablished(ChannelToken),
    IncomingDataChannel(ChannelToken),
    ChannelExpired(ChannelToken),
    ChannelKeptAlive(ChannelToken),
    ChannelDropped(ChannelToken),
    TooManyChannels(ChannelToken, usize),
    LineStatsStarted(ServiceToken),
    LineStatsReady(ServiceToken, LineStatistics),
    LineStatsFailure(ServiceToken),
    Nothing,
}

impl FirstLayerEvent {
    pub fn wrap(self) -> (r: LayerEvent)
        ensures
            r == LayerEvent::FirstLayer(self),
    {
        LayerEvent::FirstLayer(self)
    }

    /// Takes the event out, leaving nothing in its place.
    pub fn take(&mut self) -> (r: Self)
        ensures
            r == *old(self),
            *final(self) is Nothing,
    {
        let mut r = FirstLayerEvent::Nothing;
        std::mem::swap(self, &mut r);
        r
    }

    /// The first layer event a physical event comes up as.
    pub fn from_physical_layer(ev: PhysicalLayerEvent) -> (r: Self)
        ensures
            first_of_physical(ev, r),
            ev matches PhysicalLayerEvent::Received(p) ==> r == FirstLayerEvent::ChunkReceived(p.data, p.transmit_time),
            ev matches PhysicalLayerEvent::TimerFinished(t) ==> r == FirstLayerEvent::TimerFinished(t),
            ev is PingLineTimeout ==> r is PingLineTimeout,
            ev matches PhysicalLayerEvent::LineOk(c, d) ==> r == FirstLayerEvent::LineOk(c, d),
            ev is Nothing ==> r is Nothing,
    {
        match ev {
            PhysicalLayerEvent::Received(payload) => FirstLayerEvent::ChunkReceived(payload.data, payload.transmit_time),
            PhysicalLayerEvent::TimerFinished(token) => FirstLayerEvent::TimerFinished(token),
            PhysicalLayerEvent::PingLineTimeout => FirstLayerEvent::PingLineTimeout,
            PhysicalLayerEvent::LineOk(chunk, trip_delay) => FirstLayerEvent::LineOk(chunk, trip_delay),
            PhysicalLayerEvent::Nothing => FirstLayerEvent::Nothing,
        }
    }
}

/// `r` is what the physical event `ev` comes up as.
pub open spec fn first_of_physical(ev: PhysicalLayerEvent, r: FirstLayerEvent) -> bool {
    match ev {
        PhysicalLayerEvent::Received(p) => r == FirstLayerEvent::ChunkReceived(p.data, p.transmit_time),
        PhysicalLayerEvent::TimerFinished(t) => r == FirstLayerEvent::TimerFinished(t),
        PhysicalLayerEvent::PingLineTimeout => r is PingLineTimeout,
        PhysicalLayerEvent::LineOk(c, d) => r == FirstLayerEvent::LineOk(c, d),
        PhysicalLayerEvent::Nothing => r is Nothing,
    }
}

/// Each physical event comes up as its first layer counterpart: a payload
/// received as the chunk it carries, with its time of transmission; a timer
/// as the same timer; a ping that came back as the line being fine, with the
/// same chunk and trip time; a ping that did not as its timeout.
pub proof fn lemma_physical_events_come_up(ev: PhysicalLayerEvent, r: FirstLayerEvent)
    requires
        first_of_physical(ev, r),
    ensures
        ev matches PhysicalLayerEvent::Received(p) ==> r == FirstLayerEvent::ChunkReceived(p.data, p.transmit_time),
        ev matches PhysicalLayerEvent::TimerFinished(t) ==> r == FirstLayerEvent::TimerFinished(t),
        ev is PingLineTimeout ==> r is PingLineTimeout,
        ev matches PhysicalLayerEvent::LineOk(c, d) ==> r == FirstLayerEvent::LineOk(c, d),
        ev is Nothing ==> r is Nothing,
{
}

/// What the first layer is told to do.
pub enum FirstLayerCommand {
    StartTimer(TimerOwnerToken),
    PassToSend(Chunk, ChunkType, Option<ChannelToken>),
    Send(Chunk, FirstLayerHeader),
    PingLineForStats(usize, ChannelToken),
    LineStats(ServiceToken, usize),
    ChannelRequest(ChannelToken, bool),
    DropService(ServiceToken),
    CheckExpiredTokens,
    PollTraffic,
    Nothing,
}

/// The kind of first layer chunk that carries a block of the given kind.
pub open spec fn chunk_type_of(b: BlockType) -> ChunkType {
    if b == BlockType::Data {
        ChunkType::Data
    } else {
        ChunkType::Service
    }
}

fn chunk_type_for(b: BlockType) -> (r: ChunkType)
    ensures
        r == chunk_type_of(b),
{
    match b {
        BlockType::Data => ChunkType::Data,
        _ => ChunkType::Service,
    }
}

impl FirstLayerCommand {
    pub fn wrap(self) -> (r: LayerCommand)
        ensures
            r == LayerCommand::FirstLayer(self),
    {
        LayerCommand::FirstLayer(self)
    }

    /// Takes the command out, leaving nothing in its place.
    pub fn take(&mut self) -> (r: Self)
        ensures
            r == *old(self),
            *final(self) is Nothing,
    {
        let mut r = FirstLayerCommand::Nothing;
        std::mem::swap(self, &mut r);
        r
    }

    /// The first layer command a second layer command comes down to. A block
    /// to send is wrapped in its second layer header; a block sent as it is
    /// keeps its headers. Either is passed on to be sent as a data chunk when
    /// it carries data and as a service chunk otherwise. Address map and peer
    /// channel requests are the node layer's: they come down to nothing, as
    /// does a block sent as it is that carries no second layer header outside.
    pub fn from_second_layer(cmd: SecondLayerCommand) -> (r: Self)
        ensures
            first_of_second(cmd, r),
            cmd matches SecondLayerCommand::DropService(t) ==> r == FirstLayerCommand::DropService(t),
            cmd matches SecondLayerCommand::StartTimer(tk) ==> r == FirstLayerCommand::StartTimer(tk),
            cmd matches SecondLayerCommand::ServiceRequest(t, ServiceRequestType::LineChannel(e))
                ==> r == FirstLayerCommand::ChannelRequest(t, e),
            cmd matches SecondLayerCommand::ServiceRequest(t, ServiceRequestType::LineStats(b))
                ==> r == FirstLayerCommand::LineStats(t, b),
            cmd is PollTraffic ==> r is PollTraffic,
            cmd is CheckExpiredTokens ==> r is CheckExpiredTokens,
            cmd matches SecondLayerCommand::Send(c, h, t) ==> (r matches FirstLayerCommand::PassToSend(c2, ct, t2)
                && c2@ == wrapped(c@, Headers::SecondLayer(h)) && ct == chunk_type_of(h.block_type) && t2 == t),
    {
        match cmd {
            SecondLayerCommand::Send(mut block, header, channel_token) => {
                let chunk_type = chunk_type_for(header.block_type);
                block.swaddle(Headers::SecondLayer(header));
                FirstLayerCommand::PassToSend(block, chunk_type, channel_token)
            },
            SecondLayerCommand::SendAsIs(block, channel_token) => {
                match block.header() {
                    Headers::SecondLayer(hdr) => {
                        let chunk_type = chunk_type_for(hdr.block_type);
                        FirstLayerCommand::PassToSend(block, chunk_type, channel_token)
                    },
                    _ => FirstLayerCommand::Nothing,
                }
            },
            SecondLayerCommand::StartTimer(token) => FirstLayerCommand::StartTimer(token),
            SecondLayerCommand::ServiceRequest(service_token, req_type) => {
                match req_type {
                    ServiceRequestType::LineChannel(exclusive) => FirstLayerCommand::ChannelRequest(service_token, exclusive),
                    ServiceRequestType::LineStats(batch) => FirstLayerCommand::LineStats(service_token, batch),
                    ServiceRequestType::AddressMap(_) => FirstLayerCommand::Nothing,
                    ServiceRequestType::PeerChannel(_) => FirstLayerCommand::Nothing,
                }
            },
            SecondLayerCommand::DropService(service_token) => FirstLayerCommand::DropService(service_token),
            SecondLayerCommand::PollTraffic => FirstLayerCommand::PollTraffic,
            SecondLayerCommand::CheckExpiredTokens => FirstLayerCommand::CheckExpiredTokens,
            _ => FirstLayerCommand::Nothing,
        }
    }
}

/// `r` is what the second layer command `cmd` comes down to.
pub open spec fn first_of_second(cmd: SecondLayerCommand, r: FirstLayerCommand) -> bool {
    match cmd {
        SecondLayerCommand::Send(c, h, t) => r matches FirstLayerCommand::PassToSend(c2, ct, t2)
            && c2@ == wrapped(c@, Headers::SecondLayer(h)) && ct == chunk_type_of(h.block_type) && t2 == t,
        SecondLayerCommand::SendAsIs(c, t) => match outer_header(c@) {
            Headers::SecondLayer(h) => r == FirstLayerCommand::PassToSend(c, chunk_type_of(h.block_type), t),
            _ => r is Nothing,
        },
        SecondLayerCommand::StartTimer(tk) => r == FirstLayerCommand::StartTimer(tk),
        SecondLayerCommand::ServiceRequest(t, ServiceRequestType::LineChannel(e)) => r == FirstLayerCommand::ChannelRequest(t, e),
        SecondLayerCommand::ServiceRequest(t, ServiceRequestType::LineStats(b)) => r == FirstLayerCommand::LineStats(t, b),
        SecondLayerCommand::DropService(t) => r == FirstLayerCommand::DropService(t),
        SecondLayerCommand::PollTraffic => r is PollTraffic,
        SecondLayerCommand::CheckExpiredTokens => r is CheckExpiredTokens,
        _ => r is Nothing,
    }
}

/// Each second layer command that has a counterpart on the first layer comes
/// down as that counterpart, with the same token: a drop of a service as the
/// drop of its channel, a timer as the same timer, a request for a line
/// channel as a channel request, a request for line statistics as such a
/// request, and the polls and checks as themselves; a block to send is passed
/// on to be sent under the same token, wrapped in its second layer header.
pub proof fn lemma_second_layer_commands_come_down(cmd: SecondLayerCommand, f: FirstLayerCommand)
    requires
        first_of_second(cmd, f),
    ensures
        cmd matches SecondLayerCommand::DropService(t) ==> f == FirstLayerCommand::DropService(t),
        cmd matches SecondLayerCommand::StartTimer(tk) ==> f == FirstLayerCommand::StartTimer(tk),
        cmd matches SecondLayerCommand::ServiceRequest(t, ServiceRequestType::LineChannel(e))
            ==> f == FirstLayerCommand::ChannelRequest(t, e),
        cmd matches SecondLayerCommand::ServiceRequest(t, ServiceRequestType::LineStats(b))
            ==> f == FirstLayerCommand::LineStats(t, b),
        cmd is PollTraffic ==> f is PollTraffic,
        cmd is CheckExpiredTokens ==> f is CheckExpiredTokens,
        cmd matches SecondLayerCommand::Send(c, h, t) ==> (f matches FirstLayerCommand::PassToSend(c2, ct, t2)
            && c2@ == wrapped(c@, Headers::SecondLayer(h)) && t2 == t
            && (ct is Data <==> h.block_type == BlockType::Data)),
        !(f is Nothing) ==> !(cmd is Nothing) && !(cmd is PollService) && !(cmd is StartExpiredStreamsCleaner)
            && !(cmd is StopExpiredStreamsCleaner),
{
}

/// The first layer entity that gives a chunk passed on to be sent its first
/// layer header.
pub struct DefaultChunkSender {}

impl DefaultChunkSender {
    pub fn new() -> (r: Self)
        ensures
            r.inv(),
    {
        DefaultChunkSender {}
    }
}

impl Entity for DefaultChunkSender {
    open spec fn inv(&self) -> bool {
        true
    }
}

/// `out` is the command to send the chunk that `item` passes on to be sent,
/// with a first layer header of its kind and channel named by the identifier
/// `shared` gives, the counter then moving on to `next_shared`.
pub open spec fn sent_as(shared: IdCounter, item: LayerPipeItem, next_shared: IdCounter, out: LayerPipeItem) -> bool {
    &&& item matches LayerPipeItem::SomeCommand(_, LayerCommand::FirstLayer(FirstLayerCommand::PassToSend(c, ct, tk)))
    &&& out matches LayerPipeItem::SomeCommand(l, LayerCommand::FirstLayer(FirstLayerCommand::Send(c2, h)))
    &&& out->SomeCommand_0 == LineId(0)
    &&& out->SomeCommand_1->FirstLayer_0->Send_0@ == item->SomeCommand_1->FirstLayer_0->PassToSend_0@
    &&& out->SomeCommand_1->FirstLayer_0->Send_1 == (FirstLayerHeader {
            id: shared.peek(),
            chunk_type: item->SomeCommand_1->FirstLayer_0->PassToSend_1,
            channel_token: item->SomeCommand_1->FirstLayer_0->PassToSend_2,
        })
    &&& next_shared.peek() == (if shared.peek() == usize::MAX { 0 } else { shared.peek() + 1 })
}

impl EventTarget<LayerPipeItem, IdCounter> for DefaultChunkSender {
    open spec fn passes(&self, item: LayerPipeItem) -> bool {
        !(item matches LayerPipeItem::SomeCommand(_, LayerCommand::FirstLayer(FirstLayerCommand::PassToSend(_, _, _))))
    }

    /// A chunk passed on to be sent is rewritten into the command to send it.
    open spec fn rewrites_some(&self, item: LayerPipeItem) -> bool {
        item matches LayerPipeItem::SomeCommand(_, LayerCommand::FirstLayer(FirstLayerCommand::PassToSend(_, _, _)))
    }

    open spec fn rewrites(&self, shared: IdCounter, item: LayerPipeItem, next_shared: IdCounter, out: LayerPipeItem) -> bool {
        sent_as(shared, item, next_shared, out)
    }

    open spec fn notified(&self, shared: IdCounter, alloc: PipeState<LayerPipeItem>, next: Self, next_shared: IdCounter,
        next_alloc: PipeState<LayerPipeItem>) -> bool {
        &&& (!(alloc.queue[0].0 matches LayerPipeItem::SomeCommand(_, LayerCommand::FirstLayer(FirstLayerCommand::PassToSend(_, _, _))))
                    ==> next_alloc == alloc)
        &&& (alloc.queue[0].0 matches LayerPipeItem::SomeCommand(_, LayerCommand::FirstLayer(FirstLayerCommand::PassToSend(c, ct, tk)))
                    ==> exists|c2: Chunk, h: FirstLayerHeader| #![auto]
                        c2@ == c@ && h.chunk_type == ct && h.channel_token == tk && h.id == shared.peek()
                        && next_alloc == alloc.replaced_front(
                            LayerPipeItem::SomeCommand(LineId(0), LayerCommand::FirstLayer(FirstLayerCommand::Send(c2, h))),
                        ))
    }

    /// A chunk passed on to be sent is replaced by the command to send it with
    /// a first layer header of its kind and channel, named by an identifier
    /// from `ids`; that command then moves on. Any other item is left alone.
    fn notify(&mut self, ids: &mut IdCounter, shared_alloc: &mut SharedPipeAlloc<LayerPipeItem>)
    {
        let pending = match shared_alloc.current() {
            LayerPipeItem::SomeCommand(_, LayerCommand::FirstLayer(FirstLayerCommand::PassToSend(chunk, chunk_type, channel_token))) =>
                Some((chunk.duplicate(), *chunk_type, *channel_token)),
            _ => None,
        };
        if let Some((clone, chunk_type, channel_token)) = pending {
            let ghost sh0 = *ids;
            let hdr = FirstLayerHeader::new(ids, chunk_type, channel_token);
            let item = LayerPipeItem::SomeCommand(LineId(0), LayerCommand::FirstLayer(FirstLayerCommand::Send(clone, hdr)));
            let ghost it = item;
            shared_alloc.replace_propagate_current(item);
            assert(sent_as(sh0, old(shared_alloc)@.queue[0].0, *ids, it));
            assert(old(self).rewrites(sh0, old(shared_alloc)@.queue[0].0, *ids, it));
            assert(it.spec_dir() == old(shared_alloc)@.queue[0].0.spec_dir());
        }
    }
}

} // verus!
