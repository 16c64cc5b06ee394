use vstd::prelude::*;
use instant::Instant;
use crate::protocol_stack::{Chunk, TimerOwnerToken, ChannelToken, Headers, wrapped, BodyView};
use crate::protocol_stack::first_layer::FirstLayerCommand;
use crate::protocol_stack::layer_pipe_item::{LayerEvent, LayerCommand, LayerPipeItem};
use crate::protocol_stack::{MessageBody, FirstLayerHeader, ChunkType};
use crate::protocol_stack::line::{LineId, LineDelay};
use crate::pipe::{Entity, EventTarget, SharedPipeAlloc, PipeState};
use crate::utils::IdCounter;
use crate::clock::elapsed_nanos;

verus! {

/// What a transmission on a line is for.
#[derive(Clone, Copy, PartialEq, Eq, Structural)]
pub enum TransmissionType {
    Data,
    PingReq,
    PingAck,
}

/// A chunk received on a line, with the time it was sent at.
pub struct PayloadTimestamped {
    pub data: Chunk,
    pub transmit_time: Instant,
    pub chunk_type: TransmissionType,
}

/// What happens on the physical layer.
pub enum PhysicalLayerEvent {
    Received(PayloadTimestamped),
    TimerFinished(TimerOwnerToken),
    /// A ping came back after the given nanoseconds.
    LineOk(Chunk, u128),
    PingLineTimeout,
    Nothing,
}

impl PhysicalLayerEvent {
    pub fn wrap(self) -> (r: LayerEvent)
        ensures
            r == LayerEvent::PhysicalLayer(self),
    {
        LayerEvent::PhysicalLayer(self)
    }

    /// Takes the event out, leaving nothing in its place.
    pub fn take(&mut self) -> (r: Self)
        ensures
            r == *old(self),
            *final(self) is Nothing,
    {
        let mut r = PhysicalLayerEvent::Nothing;
        std::mem::swap(self, &mut r);
        r
    }
}

/// What the physical layer is told to do.
pub enum PhysicalLayerCommand {
    Transmit(Chunk, TransmissionType),
    StartTimer(TimerOwnerToken),
    PingLine(usize, ChannelToken),
    Nothing,
}

impl PhysicalLayerCommand {
    pub fn wrap(self) -> (r: LayerCommand)
        ensures
            r == LayerCommand::PhysicalLayer(self),
    {
        LayerCommand::PhysicalLayer(self)
    }

    /// Takes the command out, leaving nothing in its place.
    pub fn take(&mut self) -> (r: Self)
        ensures
            r == *old(self),
            *final(self) is Nothing,
    {
        let mut r = PhysicalLayerCommand::Nothing;
        std::mem::swap(self, &mut r);
        r
    }

    /// The physical command a first layer command comes down to: a chunk to
    /// send is wrapped in its first layer header and transmitted as data.
    pub fn from_first_layer(cmd: FirstLayerCommand) -> (r: Self)
        ensures
            physical_of_first(cmd, r),
            cmd matches FirstLayerCommand::Send(c, h) ==> (r matches PhysicalLayerCommand::Transmit(c2, tt)
                && c2@ == wrapped(c@, Headers::FirstLayer(h)) && tt == TransmissionType::Data),
            cmd matches FirstLayerCommand::StartTimer(tk) ==> r == PhysicalLayerCommand::StartTimer(tk),
            cmd matches FirstLayerCommand::PingLineForStats(b, t) ==> r == PhysicalLayerCommand::PingLine(b, t),
        !(cmd is Send) && !(cmd is StartTimer) && !(cmd is PingLineForStats) ==> r is Nothing,
    {
        match cmd {
            FirstLayerCommand::Send(mut chunk, header) => {
                chunk.swaddle(Headers::FirstLayer(header));
                PhysicalLayerCommand::Transmit(chunk, TransmissionType::Data)
            },
            FirstLayerCommand::StartTimer(token) => PhysicalLayerCommand::StartTimer(token),
            FirstLayerCommand::PingLineForStats(batch, channel_token) => PhysicalLayerCommand::PingLine(batch, channel_token),
            _ => PhysicalLayerCommand::Nothing,
        }
    }
}

/// `r` is what the first layer command `cmd` comes down to.
pub open spec fn physical_of_first(cmd: FirstLayerCommand, r: PhysicalLayerCommand) -> bool {
    match cmd {
        FirstLayerCommand::Send(c, h) => r matches PhysicalLayerCommand::Transmit(c2, t)
            && c2@ == wrapped(c@, Headers::FirstLayer(h)) && t == TransmissionType::Data,
        FirstLayerCommand::StartTimer(tk) => r == PhysicalLayerCommand::StartTimer(tk),
        FirstLayerCommand::PingLineForStats(b, t) => r == PhysicalLayerCommand::PingLine(b, t),
        _ => r is Nothing,
    }
}

/// A first layer command that reaches the line comes down as its physical
/// counterpart: a chunk to send is transmitted as data, wrapped in its first
/// layer header; a timer as the same timer; a ping for statistics as a ping
/// of the line in the same batch under the same token. No other command
/// reaches the line.
pub proof fn lemma_first_layer_commands_reach_the_line(cmd: FirstLayerCommand, r: PhysicalLayerCommand)
    requires
        physical_of_first(cmd, r),
    ensures
        cmd matches FirstLayerCommand::Send(c, h) ==> (r matches PhysicalLayerCommand::Transmit(c2, tt)
            && c2@ == wrapped(c@, Headers::FirstLayer(h)) && tt == TransmissionType::Data),
        cmd matches FirstLayerCommand::StartTimer(tk) ==> r == PhysicalLayerCommand::StartTimer(tk),
        cmd matches FirstLayerCommand::PingLineForStats(b, t) ==> r == PhysicalLayerCommand::PingLine(b, t),
        !(cmd is Send) && !(cmd is StartTimer) && !(cmd is PingLineForStats) ==> r is Nothing,
{
}

impl PayloadTimestamped {
    pub fn duplicate(&self) -> (r: Self)
        ensures
            r.data@ == self.data@,
            r.transmit_time == self.transmit_time,
            r.chunk_type == self.chunk_type,
    {
        PayloadTimestamped { data: self.data.duplicate(), transmit_time: self.transmit_time, chunk_type: self.chunk_type }
    }
}

fn physical_command(cmd: PhysicalLayerCommand) -> (r: LayerPipeItem)
    ensures
        r == LayerPipeItem::SomeCommand(LineId(0), LayerCommand::PhysicalLayer(cmd)),
{
    LayerPipeItem::SomeCommand(LineId(0), LayerCommand::PhysicalLayer(cmd))
}

fn physical_event(ev: PhysicalLayerEvent) -> (r: LayerPipeItem)
    ensures
        r == LayerPipeItem::SomeEvent(LineId(0), LayerEvent::PhysicalLayer(ev)),
{
    LayerPipeItem::SomeEvent(LineId(0), LayerEvent::PhysicalLayer(ev))
}

/// The physical entity that pings a line to measure it, and answers pings.
pub struct LinePing {
    line_delay: LineDelay,
    timer_token: Option<TimerOwnerToken>,
}

impl LinePing {
    pub closed spec fn pinging(&self) -> Option<TimerOwnerToken> {
        self.timer_token
    }

    pub closed spec fn spec_line_delay(&self) -> LineDelay {
        self.line_delay
    }

    pub fn new(line_delay: LineDelay) -> (r: Self)
        ensures
            r.pinging() is None,
            r.spec_line_delay() == line_delay,
    {
        LinePing { line_delay, timer_token: None }
    }

    fn is_ping_req(chunk: &PayloadTimestamped) -> (r: bool)
        ensures
            r == (chunk.chunk_type == TransmissionType::PingReq),
    {
        match chunk.chunk_type {
            TransmissionType::PingReq => true,
            _ => false,
        }
    }
}

impl Entity for LinePing {
    open spec fn inv(&self) -> bool {
        true
    }
}

/// Whether the timer `tt` firing ends the ping under way, if any.
pub open spec fn ends_ping(pinging: Option<TimerOwnerToken>, tt: TimerOwnerToken) -> bool {
    match pinging {
        Some(t) => tt.same_spec(t),
        None => false,
    }
}

/// A physical command on the default line, as an item.
pub open spec fn physical_item(c: PhysicalLayerCommand) -> LayerPipeItem {
    LayerPipeItem::SomeCommand(LineId(0), LayerCommand::PhysicalLayer(c))
}

/// `items` are `batch` ping requests on the channel `ct`: each transmits a
/// chunk that says "line stats" under a first layer data header for `ct`.
pub open spec fn ping_requests(items: Seq<LayerPipeItem>, batch: usize, ct: ChannelToken) -> bool {
    &&& items.len() == batch
    &&& forall|k: int| 0 <= k < batch ==> ((#[trigger] items[k]) matches LayerPipeItem::SomeCommand(l, LayerCommand::PhysicalLayer(
            PhysicalLayerCommand::Transmit(c, tt))) && l == LineId(0) && tt == TransmissionType::PingReq
            && c@.second is None && c@.body == BodyView::Data("line stats"@)
            && (c@.first matches Some(h) && h.chunk_type == ChunkType::Data && h.channel_token == Some(ct)))
}

/// What the pinger does with a chunk `c` that came in, from the pipe `a0` to
/// `a1`: while pinging, the chunk is replaced by the news that the line is
/// fine, with the time the chunk took; a ping request is answered by sending
/// its data back as an acknowledgement.
pub open spec fn ping_answered(pinging: bool, c: PayloadTimestamped, a0: PipeState<LayerPipeItem>, a1: PipeState<LayerPipeItem>) -> bool {
    let req = c.chunk_type == TransmissionType::PingReq;
    &&& !pinging && !req ==> a1 == a0
    &&& !pinging && req ==> exists|d: Chunk| #![auto] d@ == c.data@
        && a1 == a0.replaced_front(physical_item(PhysicalLayerCommand::Transmit(d, TransmissionType::PingAck)))
    &&& pinging && !req ==> exists|d: Chunk, trip: u128| #![auto] d@ == c.data@
        && a1 == a0.replaced_front(LayerPipeItem::SomeEvent(LineId(0), LayerEvent::PhysicalLayer(PhysicalLayerEvent::LineOk(d, trip))))
    &&& pinging && req ==> exists|d: Chunk, d2: Chunk, trip: u128| #![auto] d@ == c.data@ && d2@ == c.data@
        && a1 == a0.replaced_front(LayerPipeItem::SomeEvent(LineId(0), LayerEvent::PhysicalLayer(PhysicalLayerEvent::LineOk(d, trip))))
            .replaced_front(physical_item(PhysicalLayerCommand::Transmit(d2, TransmissionType::PingAck)))
}

/// The items the pinger acts on.
pub open spec fn pinger_handles(item: LayerPipeItem) -> bool {
    ||| item matches LayerPipeItem::SomeCommand(_, LayerCommand::PhysicalLayer(PhysicalLayerCommand::PingLine(_, _)))
    ||| item matches LayerPipeItem::SomeEvent(_, LayerEvent::PhysicalLayer(PhysicalLayerEvent::Received(_)))
    ||| item matches LayerPipeItem::SomeEvent(_, LayerEvent::PhysicalLayer(PhysicalLayerEvent::TimerFinished(_)))
}

/// What the pinger does with the item at hand.
enum PingAction {
    Ping(usize, ChannelToken),
    Received(PayloadTimestamped),
    Timer(TimerOwnerToken),
    Pass,
}

impl EventTarget<LayerPipeItem, IdCounter> for LinePing {
    open spec fn passes(&self, item: LayerPipeItem) -> bool {
        !pinger_handles(item)
    }

    open spec fn notified(&self, shared: IdCounter, alloc: PipeState<LayerPipeItem>, next: Self, next_shared: IdCounter,
        next_alloc: PipeState<LayerPipeItem>) -> bool {
        &&& (self.pinging() is Some && next.pinging() is None ==>
                    (alloc.queue[0].0 matches LayerPipeItem::SomeEvent(_, LayerEvent::PhysicalLayer(PhysicalLayerEvent::TimerFinished(t)))
                    && t.same_spec(self.pinging()->0)))
        &&& (self.pinging() is None && next.pinging() is Some ==>
                    (alloc.queue[0].0 matches LayerPipeItem::SomeCommand(_, LayerCommand::PhysicalLayer(PhysicalLayerCommand::PingLine(_, _)))))
        &&& (alloc.queue[0].0 matches LayerPipeItem::SomeCommand(_, LayerCommand::PhysicalLayer(PhysicalLayerCommand::PingLine(_, _))) ==> {
                    &&& self.pinging() is Some ==> next == *self && next_alloc == alloc
                    &&& self.pinging() is None ==> next.pinging() is Some
            })
        &&& (alloc.queue[0].0 matches LayerPipeItem::SomeCommand(_, LayerCommand::PhysicalLayer(PhysicalLayerCommand::PingLine(batch, ct)))
                ==> self.pinging() is None ==> exists|tk: TimerOwnerToken, pings: Seq<LayerPipeItem>|
                    #![trigger ping_requests(pings, batch, ct), tk.spec_id()]
                    next.pinging() == Some(tk) && tk.spec_id() == shared.peek()
                    && tk.spec_delay() == 2 * self.spec_line_delay().spec_probable_delay()
                    && ping_requests(pings, batch, ct)
                    && next_alloc == alloc.replaced_front(physical_item(PhysicalLayerCommand::StartTimer(tk))).extended(pings)
                        .replaced_front(physical_item(PhysicalLayerCommand::StartTimer(tk))))
        &&& (alloc.queue[0].0 matches LayerPipeItem::SomeEvent(_, LayerEvent::PhysicalLayer(PhysicalLayerEvent::Received(c))) ==>
                ping_answered(self.pinging() is Some, c, alloc, next_alloc))
        &&& (alloc.queue[0].0 matches LayerPipeItem::SomeEvent(_, LayerEvent::PhysicalLayer(PhysicalLayerEvent::TimerFinished(tt))) ==> {
                    &&& ends_ping(self.pinging(), tt) ==> next.pinging() is None
                        && next_alloc == alloc.replaced_front(
                            LayerPipeItem::SomeEvent(LineId(0), LayerEvent::PhysicalLayer(PhysicalLayerEvent::PingLineTimeout)))
                    &&& !ends_ping(self.pinging(), tt) ==> next == *self && next_alloc == alloc
            })
        &&& (alloc.queue[0].0 matches LayerPipeItem::SomeEvent(_, LayerEvent::PhysicalLayer(PhysicalLayerEvent::Received(c))) ==> {
                    &&& next == *self
                    &&& self.pinging() is None && c.chunk_type != TransmissionType::PingReq ==> next_alloc == alloc
            })
        &&& (!pinger_handles(alloc.queue[0].0) ==> next == *self && next_alloc == alloc)
    }

    /// A request to ping, when no ping is under way, starts a timer of twice
    /// the probable delay and transmits the batch of pings. A chunk received
    /// while pinging tells the line is fine; a ping received is answered.
    /// The pinging timer firing ends the ping with a timeout.
    fn notify(&mut self, ids: &mut IdCounter, shared_alloc: &mut SharedPipeAlloc<LayerPipeItem>)
    {
        let action = match shared_alloc.current() {
            LayerPipeItem::SomeCommand(_, LayerCommand::PhysicalLayer(PhysicalLayerCommand::PingLine(batch, channel_token))) =>
                PingAction::Ping(*batch, *channel_token),
            LayerPipeItem::SomeEvent(_, LayerEvent::PhysicalLayer(PhysicalLayerEvent::Received(chunk))) =>
                PingAction::Received(chunk.duplicate()),
            LayerPipeItem::SomeEvent(_, LayerEvent::PhysicalLayer(PhysicalLayerEvent::TimerFinished(token))) =>
                PingAction::Timer(*token),
            _ => PingAction::Pass,
        };
        match action {
            PingAction::Ping(batch, channel_token) => {
                if self.timer_token.is_none() {
                    let expected_delay = 2 * self.line_delay.probable_delay();
                    let ghost a0 = shared_alloc@;
                    let ghost id0 = ids.peek();
                    let timer = TimerOwnerToken::new(ids, expected_delay);
                    self.timer_token = Some(timer);
                    shared_alloc.replace_propagate_current(physical_command(PhysicalLayerCommand::StartTimer(timer)));
                    let mut pings: Vec<LayerPipeItem> = Vec::new();
                    let mut k: usize = 0;
                    while k < batch
                        invariant
                            k <= batch,
                            pings@.len() == k,
                            forall|j: int| 0 <= j < k ==> ((#[trigger] pings@[j]) matches LayerPipeItem::SomeCommand(l, LayerCommand::PhysicalLayer(
                                PhysicalLayerCommand::Transmit(c, tt))) && l == LineId(0) && tt == TransmissionType::PingReq
                                && c@.second is None && c@.body == BodyView::Data("line stats"@)
                                && (c@.first matches Some(h) && h.chunk_type == ChunkType::Data && h.channel_token == Some(channel_token))),
                        decreases batch - k,
                    {
                        let header = FirstLayerHeader::new(ids, ChunkType::Data, Some(channel_token));
                        let mut chunk = Chunk::from_message(MessageBody::Data("line stats".to_owned()));
                        chunk.swaddle(Headers::FirstLayer(header));
                        pings.push(physical_command(PhysicalLayerCommand::Transmit(chunk, TransmissionType::PingReq)));
                        k = k + 1;
                    }
                    let ghost ps = pings@;
                    shared_alloc.extend(pings);
                    shared_alloc.replace_propagate_current(physical_command(PhysicalLayerCommand::StartTimer(timer)));
                    assert(ping_requests(ps, batch, channel_token) && timer.spec_id() == id0
                        && shared_alloc@ == a0.replaced_front(physical_item(PhysicalLayerCommand::StartTimer(timer))).extended(ps)
                            .replaced_front(physical_item(PhysicalLayerCommand::StartTimer(timer))));
                }
            },
            PingAction::Received(chunk) => {
                let ghost a0 = shared_alloc@;
                let ghost mut a1 = shared_alloc@;
                if self.timer_token.is_some() {
                    let trip = elapsed_nanos(&chunk.transmit_time);
                    let d = chunk.data.duplicate();
                    let ghost dd = d;
                    shared_alloc.replace_propagate_current(physical_event(PhysicalLayerEvent::LineOk(d, trip)));
                    proof {
                        a1 = shared_alloc@;
                        assert(a1 == a0.replaced_front(LayerPipeItem::SomeEvent(LineId(0), LayerEvent::PhysicalLayer(PhysicalLayerEvent::LineOk(dd, trip)))));
                    }
                }
                if Self::is_ping_req(&chunk) {
                    let ghost d2 = chunk.data;
                    shared_alloc.replace_propagate_current(physical_command(PhysicalLayerCommand::Transmit(chunk.data, TransmissionType::PingAck)));
                    assert(shared_alloc@ == a1.replaced_front(physical_item(PhysicalLayerCommand::Transmit(d2, TransmissionType::PingAck))));
                }
            },
            PingAction::Timer(token) => {
                if let Some(t) = self.timer_token {
                    if token.same(&t) {
                        self.timer_token = None;
                        shared_alloc.replace_propagate_current(physical_event(PhysicalLayerEvent::PingLineTimeout));
                    }
                }
            },
            PingAction::Pass => {},
        }
    }
}

} // verus!
