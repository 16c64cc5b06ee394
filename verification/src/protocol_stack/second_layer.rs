use vstd::prelude::*;
use crate::protocol_stack::{
    Chunk, TimerOwnerToken, ChannelToken, ServiceToken, ChunkType, SecondLayerHeader, Headers,
    outer_header, unwrapped,
};
use crate::protocol_stack::node::NodeAddress;
use crate::protocol_stack::first_layer::{FirstLayerEvent, LineStatistics};
use crate::protocol_stack::layer_pipe_item::{LayerEvent, LayerCommand};

verus! {

/// A service a node can be asked for.
#[derive(Clone, Copy, PartialEq, Eq, Structural)]
pub enum ServiceRequestType {
    /// A channel on a line, exclusive or not.
    LineChannel(bool),
    /// Statistics of a line from a batch of pings.
    LineStats(usize),
    /// The routes to a node, or to every node.
    AddressMap(NodeAddress),
    /// A channel to a node, across as many lines as it takes.
    PeerChannel(NodeAddress),
}

/// What a service hands back.
pub enum ServiceResultType {
    LineChannel(LineChannelResult),
    LineStats(LineStatsResult),
    AddressMapUpdate(NodeAddress),
    SomeService(Chunk),
}

impl ServiceResultType {
    /// The data a line channel carried, if that is what this is.
    pub fn data(&self) -> (r: Option<&Chunk>)
        ensures
            r == (match self {
                ServiceResultType::LineChannel(LineChannelResult::Data(c)) => Some(c),
                _ => None,
            }),
    {
        match self {
            ServiceResultType::LineChannel(res) => res.data(),
            _ => None,
        }
    }
}

/// What a line channel hands back.
pub enum LineChannelResult {
    Data(Chunk),
    Expired,
    Dropped,
    TooManyChannels(usize),
    Disconnected,
    LineNotAvailable,
    NeverActivated,
    NodeNotFound,
    Unspecified,
    Nothing,
}

impl LineChannelResult {
    /// The data carried, if that is what this is.
    pub fn data(&self) -> (r: Option<&Chunk>)
        ensures
            r == (match self {
                LineChannelResult::Data(c) => Some(c),
                _ => None,
            }),
    {
        match self {
            LineChannelResult::Data(data) => Some(data),
            _ => None,
        }
    }
}

/// What a line statistics service hands back.
pub enum LineStatsResult {
    Ready(LineStatistics),
    Failure,
    LineNotAvailable,
}

/// What happens on the second layer.
pub enum SecondLayerEvent {
    BlockReceived(Chunk),
    OnSocketShutdown,
    OnSocketConnected,
    ServiceStarted(ServiceToken),
    ServiceMessage(ServiceToken, ServiceResultType),
    ServiceComplete(ServiceToken, ServiceResultType),
    IncomingDataChannel(ChannelToken),
    IncomingPeerChannel(NodeAddress, ServiceToken),
    FirstLayerChannelKeptAlive(ChannelToken),
    TimerFinished(TimerOwnerToken),
    Nothing,
}

/// What the second layer is told to do.
pub enum SecondLayerCommand {
    StartTimer(TimerOwnerToken),
    Send(Chunk, SecondLayerHeader, Option<ChannelToken>),
    SendAsIs(Chunk, Option<ChannelToken>),
    ServiceRequest(ServiceToken, ServiceRequestType),
    DropService(ServiceToken),
    PollService(ServiceToken),
    /// Start checking for expired streams every so many nanoseconds.
    StartExpiredStreamsCleaner(u128),
    StopExpiredStreamsCleaner,
    CheckExpiredTokens,
    PollTraffic,
    Nothing,
}

impl SecondLayerCommand {
    pub fn wrap(self) -> (r: LayerCommand)
        ensures
            r == LayerCommand::SecondLayer(self),
    {
        LayerCommand::SecondLayer(self)
    }

    /// Takes the command out, leaving nothing in its place.
    pub fn take(&mut self) -> (r: Self)
        ensures
            r == *old(self),
            *final(self) is Nothing,
    {
        let mut r = SecondLayerCommand::Nothing;
        std::mem::swap(self, &mut r);
        r
    }
}

impl SecondLayerEvent {
    pub fn wrap(self) -> (r: LayerEvent)
        ensures
            r == LayerEvent::SecondLayer(self),
    {
        LayerEvent::SecondLayer(self)
    }

    /// Takes the event out, leaving nothing in its place.
    pub fn take(&mut self) -> (r: Self)
        ensures
            r == *old(self),
            *final(self) is Nothing,
    {
        let mut r = SecondLayerEvent::Nothing;
        std::mem::swap(self, &mut r);
        r
    }

    pub fn default_event() -> (r: Self)
        ensures
            r is Nothing,
    {
        SecondLayerEvent::Nothing
    }

    /// The second layer event a first layer event comes up as. A received
    /// chunk loses its first layer header: on a channel it is a service
    /// message, with the data on a data channel or the block on a service
    /// channel; otherwise it is a block received. Channel events become the
    /// start or the completion of the service the channel serves.
    pub fn from_first_layer(event: FirstLayerEvent) -> (r: Self)
        ensures
            second_of_first(event, r),
            event matches FirstLayerEvent::TimerFinished(t) ==> r == SecondLayerEvent::TimerFinished(t),
            event matches FirstLayerEvent::ChannelEstablished(t) ==> r == SecondLayerEvent::ServiceStarted(t),
            event matches FirstLayerEvent::LineStatsStarted(t) ==> r == SecondLayerEvent::ServiceStarted(t),
            event matches FirstLayerEvent::IncomingDataChannel(t) ==> r == SecondLayerEvent::IncomingDataChannel(t),
            event matches FirstLayerEvent::ChannelKeptAlive(t) ==> r == SecondLayerEvent::FirstLayerChannelKeptAlive(t),
            event matches FirstLayerEvent::ChannelExpired(t) ==> r == SecondLayerEvent::ServiceComplete(t,
                ServiceResultType::LineChannel(LineChannelResult::Expired)),
            event matches FirstLayerEvent::ChannelDropped(t) ==> r == SecondLayerEvent::ServiceComplete(t,
                ServiceResultType::LineChannel(LineChannelResult::Dropped)),
            event matches FirstLayerEvent::TooManyChannels(t, n) ==> r == SecondLayerEvent::ServiceComplete(t,
                ServiceResultType::LineChannel(LineChannelResult::TooManyChannels(n))),
            event matches FirstLayerEvent::HandshakeFailure(t) ==> r == SecondLayerEvent::ServiceComplete(t,
                ServiceResultType::LineChannel(LineChannelResult::LineNotAvailable)),
            event matches FirstLayerEvent::LineStatsReady(t, st) ==> r == SecondLayerEvent::ServiceComplete(t,
                ServiceResultType::LineStats(LineStatsResult::Ready(st))),
            event matches FirstLayerEvent::LineStatsFailure(t) ==> r == SecondLayerEvent::ServiceComplete(t,
                ServiceResultType::LineStats(LineStatsResult::Failure)),
            event matches FirstLayerEvent::ChunkReceived(c, _) ==> (outer_header(c@) matches Headers::FirstLayer(h)
                ==> (h.channel_token matches Some(t) ==> (h.chunk_type is Data
                ==> (r matches SecondLayerEvent::ServiceMessage(t2, ServiceResultType::LineChannel(LineChannelResult::Data(c2)))
                    && t2 == t && c2@ == unwrapped(c@))))),
            event matches FirstLayerEvent::ChunkReceived(c, _) ==> (outer_header(c@) matches Headers::FirstLayer(h)
                ==> (h.channel_token matches Some(t) ==> (h.chunk_type is Service
                ==> (r matches SecondLayerEvent::ServiceMessage(t2, ServiceResultType::SomeService(c2))
                    && t2 == t && c2@ == unwrapped(c@))))),
            event matches FirstLayerEvent::ChunkReceived(c, _) ==> (outer_header(c@) matches Headers::FirstLayer(h)
                ==> (h.channel_token is None || (!(h.chunk_type is Data) && !(h.chunk_type is Service))
                ==> (r matches SecondLayerEvent::BlockReceived(c2) && c2@ == unwrapped(c@)))),
            event matches FirstLayerEvent::ChunkReceived(c, _) ==> (!(outer_header(c@) is FirstLayer)
                ==> (r matches SecondLayerEvent::BlockReceived(c2) && c2@ == unwrapped(c@))),
    {
        match event {
            FirstLayerEvent::ChunkReceived(mut chunk, _at) => {
                let hdr = chunk.unswaddle();
                match hdr {
                    Headers::FirstLayer(hdr) => match hdr.channel_token {
                        Some(token) => match hdr.chunk_type {
                            ChunkType::Data => SecondLayerEvent::ServiceMessage(
                                token,
                                ServiceResultType::LineChannel(LineChannelResult::Data(chunk)),
                            ),
                            ChunkType::Service => SecondLayerEvent::ServiceMessage(
                                token,
                                ServiceResultType::SomeService(chunk),
                            ),
                            _ => SecondLayerEvent::BlockReceived(chunk),
                        },
                        None => SecondLayerEvent::BlockReceived(chunk),
                    },
                    _ => SecondLayerEvent::BlockReceived(chunk),
                }
            },
            FirstLayerEvent::TimerFinished(token) => SecondLayerEvent::TimerFinished(token),
            FirstLayerEvent::ChannelEstablished(channel_token) => SecondLayerEvent::ServiceStarted(channel_token),
            FirstLayerEvent::IncomingDataChannel(channel_token) => SecondLayerEvent::IncomingDataChannel(channel_token),
            FirstLayerEvent::ChannelExpired(channel_token) => SecondLayerEvent::ServiceComplete(
                channel_token,
                ServiceResultType::LineChannel(LineChannelResult::Expired),
            ),
            FirstLayerEvent::ChannelKeptAlive(channel_token) => SecondLayerEvent::FirstLayerChannelKeptAlive(channel_token),
            FirstLayerEvent::ChannelDropped(channel_token) => SecondLayerEvent::ServiceComplete(
                channel_token,
                ServiceResultType::LineChannel(LineChannelResult::Dropped),
            ),
            FirstLayerEvent::TooManyChannels(service_token, n) => SecondLayerEvent::ServiceComplete(
                service_token,
                ServiceResultType::LineChannel(LineChannelResult::TooManyChannels(n)),
            ),
            FirstLayerEvent::HandshakeFailure(channel_token) => SecondLayerEvent::ServiceComplete(
                channel_token,
                ServiceResultType::LineChannel(LineChannelResult::LineNotAvailable),
            ),
            FirstLayerEvent::LineStatsStarted(service_token) => SecondLayerEvent::ServiceStarted(service_token),
            FirstLayerEvent::LineStatsReady(service_token, stats) => SecondLayerEvent::ServiceComplete(
                service_token,
                ServiceResultType::LineStats(LineStatsResult::Ready(stats)),
            ),
            FirstLayerEvent::LineStatsFailure(service_token) => SecondLayerEvent::ServiceComplete(
                service_token,
                ServiceResultType::LineStats(LineStatsResult::Failure),
            ),
            _ => SecondLayerEvent::Nothing,
        }
    }
}

/// `r` is what a chunk received comes up as.
pub open spec fn second_of_received(c: Chunk, r: SecondLayerEvent) -> bool {
    let rest = unwrapped(c@);
    match outer_header(c@) {
        Headers::FirstLayer(h) => match h.channel_token {
            Some(t) => match h.chunk_type {
                ChunkType::Data => r matches SecondLayerEvent::ServiceMessage(t2, ServiceResultType::LineChannel(LineChannelResult::Data(c2)))
                    && t2 == t && c2@ == rest,
                ChunkType::Service => r matches SecondLayerEvent::ServiceMessage(t2, ServiceResultType::SomeService(c2))
                    && t2 == t && c2@ == rest,
                _ => r matches SecondLayerEvent::BlockReceived(c2) && c2@ == rest,
            },
            None => r matches SecondLayerEvent::BlockReceived(c2) && c2@ == rest,
        },
        _ => r matches SecondLayerEvent::BlockReceived(c2) && c2@ == rest,
    }
}

/// `r` is what the first layer event `ev` comes up as.
pub open spec fn second_of_first(ev: FirstLayerEvent, r: SecondLayerEvent) -> bool {
    match ev {
        FirstLayerEvent::ChunkReceived(c, _) => second_of_received(c, r),
        FirstLayerEvent::TimerFinished(t) => r == SecondLayerEvent::TimerFinished(t),
        FirstLayerEvent::ChannelEstablished(t) => r == SecondLayerEvent::ServiceStarted(t),
        FirstLayerEvent::IncomingDataChannel(t) => r == SecondLayerEvent::IncomingDataChannel(t),
        FirstLayerEvent::ChannelExpired(t) => r matches SecondLayerEvent::ServiceComplete(t2, ServiceResultType::LineChannel(LineChannelResult::Expired)) && t2 == t,
        FirstLayerEvent::ChannelKeptAlive(t) => r == SecondLayerEvent::FirstLayerChannelKeptAlive(t),
        FirstLayerEvent::ChannelDropped(t) => r matches SecondLayerEvent::ServiceComplete(t2, ServiceResultType::LineChannel(LineChannelResult::Dropped)) && t2 == t,
        FirstLayerEvent::TooManyChannels(t, n) => r matches SecondLayerEvent::ServiceComplete(t2, ServiceResultType::LineChannel(LineChannelResult::TooManyChannels(n2))) && t2 == t && n2 == n,
        FirstLayerEvent::HandshakeFailure(t) => r matches SecondLayerEvent::ServiceComplete(t2, ServiceResultType::LineChannel(LineChannelResult::LineNotAvailable)) && t2 == t,
        FirstLayerEvent::LineStatsStarted(t) => r == SecondLayerEvent::ServiceStarted(t),
        FirstLayerEvent::LineStatsReady(t, s) => r matches SecondLayerEvent::ServiceComplete(t2, ServiceResultType::LineStats(LineStatsResult::Ready(s2))) && t2 == t && s2 == s,
        FirstLayerEvent::LineStatsFailure(t) => r matches SecondLayerEvent::ServiceComplete(t2, ServiceResultType::LineStats(LineStatsResult::Failure)) && t2 == t,
        _ => r is Nothing,
    }
}

/// Each first layer event with a counterpart on the second layer comes up as
/// that counterpart, with the same token: a timer as the same timer, an
/// established channel or started statistics as a started service, an
/// incoming channel and a kept-alive channel as themselves, and each end of a
/// channel or of a statistics request as the completion of its service with
/// the matching result; a chunk received on a data or service channel comes
/// up, stripped of its first layer header, as a message of that service, and
/// any other chunk as a block received.
pub proof fn lemma_first_layer_events_come_up(ev: FirstLayerEvent, r: SecondLayerEvent)
    requires
        second_of_first(ev, r),
    ensures
        ev matches FirstLayerEvent::TimerFinished(t) ==> r == SecondLayerEvent::TimerFinished(t),
        ev matches FirstLayerEvent::ChannelEstablished(t) ==> r == SecondLayerEvent::ServiceStarted(t),
        ev matches FirstLayerEvent::LineStatsStarted(t) ==> r == SecondLayerEvent::ServiceStarted(t),
        ev matches FirstLayerEvent::IncomingDataChannel(t) ==> r == SecondLayerEvent::IncomingDataChannel(t),
        ev matches FirstLayerEvent::ChannelKeptAlive(t) ==> r == SecondLayerEvent::FirstLayerChannelKeptAlive(t),
        ev matches FirstLayerEvent::ChannelExpired(t) ==> r == SecondLayerEvent::ServiceComplete(t,
            ServiceResultType::LineChannel(LineChannelResult::Expired)),
        ev matches FirstLayerEvent::ChannelDropped(t) ==> r == SecondLayerEvent::ServiceComplete(t,
            ServiceResultType::LineChannel(LineChannelResult::Dropped)),
        ev matches FirstLayerEvent::TooManyChannels(t, n) ==> r == SecondLayerEvent::ServiceComplete(t,
            ServiceResultType::LineChannel(LineChannelResult::TooManyChannels(n))),
        ev matches FirstLayerEvent::HandshakeFailure(t) ==> r == SecondLayerEvent::ServiceComplete(t,
            ServiceResultType::LineChannel(LineChannelResult::LineNotAvailable)),
        ev matches FirstLayerEvent::LineStatsReady(t, st) ==> r == SecondLayerEvent::ServiceComplete(t,
            ServiceResultType::LineStats(LineStatsResult::Ready(st))),
        ev matches FirstLayerEvent::LineStatsFailure(t) ==> r == SecondLayerEvent::ServiceComplete(t,
            ServiceResultType::LineStats(LineStatsResult::Failure)),
        ev matches FirstLayerEvent::ChunkReceived(c, _) ==> (outer_header(c@) matches Headers::FirstLayer(h)
            ==> (h.channel_token matches Some(t) ==> (h.chunk_type is Data
            ==> (r matches SecondLayerEvent::ServiceMessage(t2, ServiceResultType::LineChannel(LineChannelResult::Data(c2)))
                && t2 == t && c2@ == unwrapped(c@))))),
        ev matches FirstLayerEvent::ChunkReceived(c, _) ==> (outer_header(c@) matches Headers::FirstLayer(h)
            ==> (h.channel_token matches Some(t) ==> (h.chunk_type is Service
            ==> (r matches SecondLayerEvent::ServiceMessage(t2, ServiceResultType::SomeService(c2))
                && t2 == t && c2@ == unwrapped(c@))))),
        ev matches FirstLayerEvent::ChunkReceived(c, _) ==> (outer_header(c@) matches Headers::FirstLayer(h)
            ==> (h.channel_token is None || (!(h.chunk_type is Data) && !(h.chunk_type is Service))
            ==> (r matches SecondLayerEvent::BlockReceived(c2) && c2@ == unwrapped(c@)))),
        ev matches FirstLayerEvent::ChunkReceived(c, _) ==> (!(outer_header(c@) is FirstLayer)
            ==> (r matches SecondLayerEvent::BlockReceived(c2) && c2@ == unwrapped(c@))),
{
}

} // verus!
