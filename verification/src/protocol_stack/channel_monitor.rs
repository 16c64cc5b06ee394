use vstd::prelude::*;
use crate::pipe::{Entity, EventTarget, SharedPipeAlloc, PipeState};
use crate::utils::IdCounter;
use crate::protocol_stack::{
    Chunk, ChunkView, BodyView, ChannelToken, ChunkType, FirstLayerHeader, Headers, MessageBody, TimerOwnerToken, outer_header,
};
use crate::protocol_stack::line::{LineDelay, LineId};
use crate::protocol_stack::node::NodeAddress;
use crate::protocol_stack::first_layer::{FirstLayerCommand, FirstLayerEvent};
use crate::protocol_stack::layer_pipe_item::{LayerPipeItem, LayerCommand, LayerEvent};

verus! {

/// How many channels a line may carry: up to a number, or one alone.
#[derive(Clone, Copy, PartialEq, Eq, Structural)]
pub enum ChannelMode {
    Inclusive(usize),
    Exclusive,
}

impl ChannelMode {
    pub open spec fn spec_max_channels(&self) -> usize {
        match self {
            ChannelMode::Inclusive(n) => *n,
            ChannelMode::Exclusive => 1,
        }
    }

    pub fn max_channels(&self) -> (r: usize)
        ensures
            r == self.spec_max_channels(),
    {
        match self {
            ChannelMode::Inclusive(n) => *n,
            ChannelMode::Exclusive => 1,
        }
    }
}

/// A channel request waiting for its response, with the timer that makes it
/// try again and the number of tries made so far.
#[derive(Clone, Copy)]
pub struct RetrialToken {
    pub timer_token: TimerOwnerToken,
    pub retrials: u32,
}

/// The first layer entity that opens, keeps alive and drops the channels on a
/// line.
pub struct ChannelMonitor {
    node_addr: NodeAddress,
    active_tokens: Vec<ChannelToken>,
    waiting_tokens: Vec<(ChannelToken, RetrialToken)>,
    line_delay: LineDelay,
    mode: ChannelMode,
    max_channels: usize,
}

/// An event on the default line.
pub open spec fn event_item(ev: FirstLayerEvent) -> LayerPipeItem {
    LayerPipeItem::SomeEvent(LineId(0), LayerEvent::FirstLayer(ev))
}

/// A command for the default line.
pub open spec fn command_item(cmd: FirstLayerCommand) -> LayerPipeItem {
    LayerPipeItem::SomeCommand(LineId(0), LayerCommand::FirstLayer(cmd))
}

fn event(ev: FirstLayerEvent) -> (r: LayerPipeItem)
    ensures
        r == event_item(ev),
{
    LayerPipeItem::SomeEvent(LineId(0), LayerEvent::FirstLayer(ev))
}

fn command(cmd: FirstLayerCommand) -> (r: LayerPipeItem)
    ensures
        r == command_item(cmd),
{
    LayerPipeItem::SomeCommand(LineId(0), LayerCommand::FirstLayer(cmd))
}

/// A chunk whose body is `text`.
fn text_chunk(text: &str) -> (r: Chunk)
    ensures
        r@ == (ChunkView { first: None, second: None, body: BodyView::Data(text@) }),
{
    Chunk::from_message(MessageBody::Data(text.to_owned()))
}

impl ChannelMonitor {
    /// How many times a channel request is sent before giving up, and how
    /// many copies of a drop or keep-alive request are sent.
    pub const RETRIALS: u32 = 3;

    pub closed spec fn active(&self) -> Seq<ChannelToken> {
        self.active_tokens@
    }

    pub closed spec fn waiting(&self) -> Seq<(ChannelToken, RetrialToken)> {
        self.waiting_tokens@
    }

    pub closed spec fn spec_mode(&self) -> ChannelMode {
        self.mode
    }

    pub closed spec fn spec_max_channels(&self) -> usize {
        self.max_channels
    }

    pub closed spec fn spec_node_addr(&self) -> NodeAddress {
        self.node_addr
    }

    pub closed spec fn spec_line_delay(&self) -> LineDelay {
        self.line_delay
    }

    /// The channels open or being opened.
    pub open spec fn spec_total(&self) -> int {
        (self.active().len() + self.waiting().len()) as int
    }

    /// Whether a request for `t` is waiting for its response.
    pub open spec fn is_waiting(&self, t: ChannelToken) -> bool {
        exists|i: int| 0 <= i < self.waiting().len() && (#[trigger] self.waiting()[i]).0.spec_id() == t.spec_id()
    }

    /// Whether `t` is an open channel.
    pub open spec fn is_active(&self, t: ChannelToken) -> bool {
        exists|i: int| 0 <= i < self.active().len() && (#[trigger] self.active()[i]).spec_id() == t.spec_id()
    }

    pub fn new(node_addr: NodeAddress, line_delay: LineDelay, max_channels: usize) -> (r: Self)
        ensures
            r.inv(),
            r.active().len() == 0,
            r.waiting().len() == 0,
            r.spec_mode() == ChannelMode::Inclusive(max_channels),
            r.spec_max_channels() == max_channels,
            r.spec_node_addr() == node_addr,
            r.spec_line_delay() == line_delay,
    {
        ChannelMonitor {
            node_addr,
            active_tokens: Vec::new(),
            waiting_tokens: Vec::new(),
            line_delay,
            mode: ChannelMode::Inclusive(max_channels),
            max_channels,
        }
    }

    /// The number of channels open or being opened.
    pub fn total_channels(&self) -> (r: usize)
        requires
            self.inv(),
        ensures
            r == self.spec_total(),
    {
        self.active_tokens.len() + self.waiting_tokens.len()
    }

    fn active_position(&self, t: &ChannelToken) -> (r: Option<usize>)
        ensures
            match r {
                Some(i) => i < self.active().len() && self.active()[i as int].spec_id() == t.spec_id(),
                None => !self.is_active(*t),
            },
    {
        let mut i: usize = 0;
        while i < self.active_tokens.len()
            invariant
                i <= self.active_tokens@.len(),
                forall|j: int| 0 <= j < i ==> self.active_tokens@[j].spec_id() != t.spec_id(),
            decreases self.active_tokens@.len() - i,
        {
            if self.active_tokens[i].id() == t.id() {
                return Some(i);
            }
            i = i + 1;
        }
        None
    }

    fn waiting_position(&self, t: &ChannelToken) -> (r: Option<usize>)
        ensures
            match r {
                Some(i) => i < self.waiting().len() && self.waiting()[i as int].0.spec_id() == t.spec_id(),
                None => !self.is_waiting(*t),
            },
    {
        let mut i: usize = 0;
        while i < self.waiting_tokens.len()
            invariant
                i <= self.waiting_tokens@.len(),
                forall|j: int| 0 <= j < i ==> self.waiting_tokens@[j].0.spec_id() != t.spec_id(),
            decreases self.waiting_tokens@.len() - i,
        {
            if self.waiting_tokens[i].0.id() == t.id() {
                return Some(i);
            }
            i = i + 1;
        }
        None
    }

    fn remove_waiting(&mut self, i: usize)
        requires
            old(self).inv(),
            i < old(self).waiting().len(),
        ensures
            final(self).inv(),
            final(self).waiting() == old(self).waiting().remove(i as int),
            final(self).active() == old(self).active(),
            final(self).spec_mode() == old(self).spec_mode(),
            final(self).spec_max_channels() == old(self).spec_max_channels(),
    {
        let ghost old_w = self.waiting_tokens@;
        self.waiting_tokens.remove(i);
        assert forall|a: int, b: int| 0 <= a < b < self.waiting_tokens@.len()
            implies (#[trigger] self.waiting_tokens@[a]).0.spec_id() != (#[trigger] self.waiting_tokens@[b]).0.spec_id() by {
            let oa = if a < i { a } else { a + 1 };
            let ob = if b < i { b } else { b + 1 };
            assert(self.waiting_tokens@[a] == old_w[oa]);
            assert(self.waiting_tokens@[b] == old_w[ob]);
        }
        assert forall|a: int| 0 <= a < self.waiting_tokens@.len()
            implies (#[trigger] self.waiting_tokens@[a]).1.retrials <= Self::RETRIALS by {
            let oa = if a < i { a } else { a + 1 };
            assert(self.waiting_tokens@[a] == old_w[oa]);
        }
    }

    /// Decides whether the line may take one more channel, exclusive or not,
    /// and sets the mode if it may.
    pub fn set_mode(&mut self, exclusive: bool) -> (r: bool)
        requires
            old(self).inv(),
        ensures
            final(self).inv(),
            final(self).active() == old(self).active(),
            final(self).waiting() == old(self).waiting(),
            final(self).spec_max_channels() == old(self).spec_max_channels(),
            final(self).spec_line_delay() == old(self).spec_line_delay(),
            exclusive ==> r == (1 > old(self).spec_total()),
            !exclusive ==> r == (old(self).spec_max_channels() > old(self).spec_total()),
            r ==> final(self).spec_mode() == (if exclusive {
                ChannelMode::Exclusive
            } else {
                ChannelMode::Inclusive(old(self).spec_max_channels())
            }),
            r ==> final(self).spec_total() < final(self).spec_mode().spec_max_channels(),
            !r ==> final(self).spec_mode() == old(self).spec_mode(),
    {
        if exclusive {
            if ChannelMode::Exclusive.max_channels() > self.total_channels() {
                self.mode = ChannelMode::Exclusive;
                return true;
            }
        } else if self.max_channels > self.total_channels() {
            self.mode = ChannelMode::Inclusive(self.max_channels);
            return true;
        }
        false
    }

    /// Pushes the copies of a drop request for `channel_token`.
    fn make_drop_request(&self, ids: &mut IdCounter, channel_token: ChannelToken, shared_alloc: &mut SharedPipeAlloc<LayerPipeItem>)
        requires
            old(shared_alloc)@.well_formed(),
        ensures
            final(shared_alloc)@.well_formed(),
            final(shared_alloc)@.bottom == old(shared_alloc)@.bottom,
            crate::pipe::grows(old(shared_alloc)@, final(shared_alloc)@),
            final(shared_alloc)@.queue.len() >= old(shared_alloc)@.queue.len(),
            final(ids).peek() == next_peek(old(ids).peek()),
            exists|items: Seq<LayerPipeItem>| drop_requests(items, channel_token, old(ids).peek())
                && final(shared_alloc)@ == old(shared_alloc)@.extended(items),
    {
        let drop_request = text_chunk("first layer channel drop");
        let header = FirstLayerHeader::new(ids, ChunkType::ChannelDrop, Some(channel_token));
        let mut items: Vec<LayerPipeItem> = Vec::new();
        let mut k: u32 = 0;
        while k < Self::RETRIALS
            invariant
                k <= Self::RETRIALS,
                send_copies(items@, drop_chunk(), header, k as nat),
                drop_request@ == drop_chunk(),
            decreases Self::RETRIALS - k,
        {
            items.push(command(FirstLayerCommand::Send(drop_request.duplicate(), header)));
            k = k + 1;
        }
        proof {
            crate::pipe::lemma_extend_keeps_well_formed(shared_alloc@, items@);
            lemma_extend_keeps_queue(shared_alloc@, items@);
        }
        shared_alloc.extend(items);
    }

    /// Sends a request for `channel_token`, with a timer to try again: a new
    /// request waits with a fresh timer; a request already waiting is sent
    /// again with its timer unless the channel is open meanwhile.
    fn send_channel_request(&mut self, ids: &mut IdCounter, channel_token: ChannelToken, shared_alloc: &mut SharedPipeAlloc<LayerPipeItem>)
        requires
            old(self).inv(),
            old(shared_alloc)@.well_formed(),
            old(self).spec_total() < usize::MAX || old(self).is_waiting(channel_token),
        ensures
            final(self).inv(),
            final(shared_alloc)@.well_formed(),
            final(shared_alloc)@.bottom == old(shared_alloc)@.bottom,
            crate::pipe::grows(old(shared_alloc)@, final(shared_alloc)@),
            final(shared_alloc)@.queue == old(shared_alloc)@.queue,
            final(self).active() == old(self).active(),
            final(self).spec_mode() == old(self).spec_mode(),
            final(self).spec_max_channels() == old(self).spec_max_channels(),
            final(self).is_waiting(channel_token),
            old(self).is_waiting(channel_token) ==> final(self).waiting() == old(self).waiting(),
            !old(self).is_waiting(channel_token) ==> final(self).waiting().len() == old(self).waiting().len() + 1,
            forall|i: int| 0 <= i < old(self).waiting().len() && (#[trigger] old(self).waiting()[i]).0.spec_id() == channel_token.spec_id()
                ==> (old(self).is_active(channel_token) ==> final(shared_alloc)@ == old(shared_alloc)@ && *final(self) == *old(self))
                && (!old(self).is_active(channel_token) ==> *final(self) == *old(self)
                    && request_sent(old(shared_alloc)@, final(shared_alloc)@, channel_token, old(self).waiting()[i].1.timer_token, old(ids).peek())),
            !old(self).is_waiting(channel_token) ==> exists|tk: TimerOwnerToken| #![auto] tk.spec_id() == next_peek(old(ids).peek())
                && tk.spec_delay() == 2 * old(self).spec_line_delay().spec_probable_delay()
                && final(self).waiting() == old(self).waiting().push((channel_token, RetrialToken { timer_token: tk, retrials: 0 }))
                && request_sent(old(shared_alloc)@, final(shared_alloc)@, channel_token, tk, old(ids).peek()),
    {
        let request = text_chunk("first layer channel request");
        let ghost id0 = ids.peek();
        let header = FirstLayerHeader::new(ids, ChunkType::ChannelRequest(false), Some(channel_token));
        let mut timer_token: Option<TimerOwnerToken> = None;
        match self.waiting_position(&channel_token) {
            Some(i) => {
                assert(self.waiting()[i as int].0.spec_id() == channel_token.spec_id());
                proof {
                    assert forall|j: int| 0 <= j < self.waiting().len() && (#[trigger] self.waiting()[j]).0.spec_id() == channel_token.spec_id()
                        implies j == i by {
                        if j < i {
                            assert(self.waiting_tokens@[j].0.spec_id() != self.waiting_tokens@[i as int].0.spec_id());
                        } else if j > i {
                            assert(self.waiting_tokens@[i as int].0.spec_id() != self.waiting_tokens@[j].0.spec_id());
                        }
                    }
                }
                if self.active_position(&channel_token).is_none() {
                    timer_token = Some(self.waiting_tokens[i].1.timer_token);
                }
            },
            None => {
                let delay = 2 * self.line_delay.probable_delay();
                let retrial_token = RetrialToken { timer_token: TimerOwnerToken::new(ids, delay), retrials: 0 };
                timer_token = Some(retrial_token.timer_token);
                let ghost old_w = self.waiting_tokens@;
                self.waiting_tokens.push((channel_token, retrial_token));
                assert forall|a: int, b: int| 0 <= a < b < self.waiting_tokens@.len()
                    implies (#[trigger] self.waiting_tokens@[a]).0.spec_id() != (#[trigger] self.waiting_tokens@[b]).0.spec_id() by {
                    if b == old_w.len() {
                        assert(self.waiting_tokens@[a] == old_w[a]);
                    } else {
                        assert(self.waiting_tokens@[a] == old_w[a]);
                        assert(self.waiting_tokens@[b] == old_w[b]);
                    }
                }
                assert forall|a: int| 0 <= a < self.waiting_tokens@.len()
                    implies (#[trigger] self.waiting_tokens@[a]).1.retrials <= Self::RETRIALS by {
                    if a < old_w.len() {
                        assert(self.waiting_tokens@[a] == old_w[a]);
                    }
                }
                assert(self.waiting()[old_w.len() as int].0.spec_id() == channel_token.spec_id());
            },
        }
        if let Some(timer_token) = timer_token {
            let ghost c = request;
            shared_alloc.push_done(command(FirstLayerCommand::StartTimer(timer_token)));
            shared_alloc.push_done(command(FirstLayerCommand::Send(request, header)));
            assert(header == (FirstLayerHeader { id: id0, chunk_type: ChunkType::ChannelRequest(false), channel_token: Some(channel_token) }));
            assert(c@ == request_chunk());
        }
    }

    /// The response to a request for `channel_token` opens the channel if the
    /// request was waiting and the channel is not open yet; the response is
    /// replaced by the news that the channel is open, or that it has expired.
    fn on_response(&mut self, channel_token: &ChannelToken, shared_alloc: &mut SharedPipeAlloc<LayerPipeItem>)
        requires
            old(self).inv(),
            old(shared_alloc)@.well_formed(),
        ensures
            final(self).inv(),
            final(shared_alloc)@.well_formed(),
            final(shared_alloc)@.bottom == old(shared_alloc)@.bottom,
            crate::pipe::grows(old(shared_alloc)@, final(shared_alloc)@),
            final(self).spec_total() <= old(self).spec_total(),
            !old(self).is_waiting(*channel_token) ==> *final(self) == *old(self) && final(shared_alloc)@ == old(shared_alloc)@,
            old(self).is_waiting(*channel_token) ==> !final(self).is_waiting(*channel_token),
            final(self).spec_mode() == old(self).spec_mode(),
            final(self).spec_max_channels() == old(self).spec_max_channels(),
    {
        if let Some(i) = self.waiting_position(channel_token) {
            let ghost old_self = *self;
            self.remove_waiting(i);
            assert(!self.is_waiting(*channel_token)) by {
                if self.is_waiting(*channel_token) {
                    let j = choose|j: int| 0 <= j < self.waiting().len() && (#[trigger] self.waiting()[j]).0.spec_id() == channel_token.spec_id();
                    let oj = if j < i { j } else { j + 1 };
                    assert(self.waiting()[j] == old_self.waiting()[oj]);
                    assert(old_self.waiting()[i as int].0.spec_id() == channel_token.spec_id());
                }
            }
            if self.active_position(channel_token).is_none() {
                let mut channel_token = *channel_token;
                if channel_token.touch() {
                    self.active_tokens.push(channel_token);
                    shared_alloc.replace_propagate_current(event(FirstLayerEvent::ChannelEstablished(channel_token)));
                } else {
                    shared_alloc.replace_propagate_current(event(FirstLayerEvent::ChannelExpired(channel_token)));
                }
            }
        }
    }

    /// Accepts a channel requested from the other end, if the mode leaves room
    /// for it and it is not open yet: the response goes out as done, and the
    /// request is replaced by the news of an incoming channel.
    fn accept_from_foreign(&mut self, ids: &mut IdCounter, header: FirstLayerHeader, shared_alloc: &mut SharedPipeAlloc<LayerPipeItem>)
        requires
            old(self).inv(),
            old(shared_alloc)@.well_formed(),
        ensures
            final(self).inv(),
            final(shared_alloc)@.well_formed(),
            final(shared_alloc)@.bottom == old(shared_alloc)@.bottom,
            crate::pipe::grows(old(shared_alloc)@, final(shared_alloc)@),
            final(self).waiting() == old(self).waiting(),
            final(self).spec_mode() == old(self).spec_mode(),
            final(self).spec_max_channels() == old(self).spec_max_channels(),
            old(self).spec_mode().spec_max_channels() <= old(self).spec_total() ==> *final(self) == *old(self),
            old(self).spec_mode().spec_max_channels() > old(self).spec_total() ==> match header.channel_token {
                None => *final(self) == *old(self) && final(shared_alloc)@ == old(shared_alloc)@,
                Some(t) => (old(self).is_active(t) ==> *final(self) == *old(self) && final(shared_alloc)@ == old(shared_alloc)@)
                    && (!old(self).is_active(t) ==> exists|age: u128|
                        (t.expired_at(age) ==> *final(self) == *old(self) && final(shared_alloc)@ == old(shared_alloc)@)
                        && (!t.expired_at(age) ==> foreign_accepted(*old(self), *final(self), old(shared_alloc)@, final(shared_alloc)@, header, t)))
                    && (!old(self).is_active(t) && t.spec_expires() is None
                        ==> foreign_accepted(*old(self), *final(self), old(shared_alloc)@, final(shared_alloc)@, header, t)),
            },
    {
        if self.mode.max_channels() > self.total_channels() {
            let mut header = header;
            header.chunk_type = ChunkType::ChannelResponse;
            if let Some(token) = header.channel_token {
                if self.active_position(&token).is_none() {
                    let mut token = token;
                    let age = token.elapsed();
                    if token.touch_after(age) {
                        self.active_tokens.push(token);
                        let resp = text_chunk("first layer channel response");
                        shared_alloc.push_done(command(FirstLayerCommand::Send(resp, header)));
                        shared_alloc.replace_propagate_current(event(FirstLayerEvent::IncomingDataChannel(token)));
                    }
                }
            }
        }
    }

    /// Closes `channel_token`: an open channel is dropped, with drop requests
    /// sent to the other end and the item replaced by the news that the
    /// channel expired or was dropped; a waiting request is forgotten, with
    /// drop requests sent.
    fn drop_channel_inner(&mut self, ids: &mut IdCounter, channel_token: ChannelToken, expired: bool, shared_alloc: &mut SharedPipeAlloc<LayerPipeItem>)
        requires
            old(self).inv(),
            old(shared_alloc)@.well_formed(),
        ensures
            final(self).inv(),
            final(shared_alloc)@.well_formed(),
            final(shared_alloc)@.bottom == old(shared_alloc)@.bottom,
            crate::pipe::grows(old(shared_alloc)@, final(shared_alloc)@),
            final(self).spec_total() <= old(self).spec_total(),
            final(self).spec_mode() == old(self).spec_mode(),
            final(self).spec_max_channels() == old(self).spec_max_channels(),
            !old(self).is_active(channel_token) && !old(self).is_waiting(channel_token) ==> *final(self) == *old(self) && final(shared_alloc)@ == old(shared_alloc)@,
            old(self).is_active(channel_token) ==> final(self).active().len() == old(self).active().len() - 1
                && final(self).waiting() == old(self).waiting()
                && exists|items: Seq<LayerPipeItem>| drop_requests(items, channel_token, old(ids).peek())
                    && final(shared_alloc)@ == old(shared_alloc)@.extended(items).replaced_front(event_item(
                        if expired { FirstLayerEvent::ChannelExpired(channel_token) } else { FirstLayerEvent::ChannelDropped(channel_token) })),
            !old(self).is_active(channel_token) && old(self).is_waiting(channel_token) ==> !final(self).is_waiting(channel_token)
                && final(self).waiting().len() == old(self).waiting().len() - 1
                && final(self).active() == old(self).active()
                && exists|items: Seq<LayerPipeItem>| drop_requests(items, channel_token, old(ids).peek())
                    && final(shared_alloc)@ == old(shared_alloc)@.extended(items),
    {
        if let Some(ind) = self.active_position(&channel_token) {
            self.active_tokens.swap_remove(ind);
            self.make_drop_request(ids, channel_token, shared_alloc);
            if expired {
                shared_alloc.replace_propagate_current(event(FirstLayerEvent::ChannelExpired(channel_token)));
            } else {
                shared_alloc.replace_propagate_current(event(FirstLayerEvent::ChannelDropped(channel_token)));
            }
        } else if let Some(i) = self.waiting_position(&channel_token) {
            let ghost old_self = *self;
            self.remove_waiting(i);
            assert(!self.is_waiting(channel_token)) by {
                if self.is_waiting(channel_token) {
                    let j = choose|j: int| 0 <= j < self.waiting().len() && (#[trigger] self.waiting()[j]).0.spec_id() == channel_token.spec_id();
                    let oj = if j < i { j } else { j + 1 };
                    assert(self.waiting()[j] == old_self.waiting()[oj]);
                    assert(old_self.waiting()[i as int].0.spec_id() == channel_token.spec_id());
                }
            }
            self.make_drop_request(ids, channel_token, shared_alloc);
        }
    }

    /// The other end dropped `channel_token`: an open channel is closed and the
    /// item replaced by the news that it was dropped.
    fn on_drop_request(&mut self, channel_token: &ChannelToken, shared_alloc: &mut SharedPipeAlloc<LayerPipeItem>)
        requires
            old(self).inv(),
            old(shared_alloc)@.well_formed(),
        ensures
            final(self).inv(),
            final(shared_alloc)@.well_formed(),
            final(shared_alloc)@.bottom == old(shared_alloc)@.bottom,
            crate::pipe::grows(old(shared_alloc)@, final(shared_alloc)@),
            final(self).waiting() == old(self).waiting(),
            final(self).spec_mode() == old(self).spec_mode(),
            final(self).spec_max_channels() == old(self).spec_max_channels(),
            old(self).is_active(*channel_token) ==> final(self).active().len() == old(self).active().len() - 1
                && final(shared_alloc)@ == old(shared_alloc)@.replaced_front(event_item(FirstLayerEvent::ChannelDropped(*channel_token))),
            !old(self).is_active(*channel_token) ==> *final(self) == *old(self) && final(shared_alloc)@ == old(shared_alloc)@,
    {
        if let Some(ind) = self.active_position(channel_token) {
            self.active_tokens.swap_remove(ind);
            shared_alloc.replace_propagate_current(event(FirstLayerEvent::ChannelDropped(*channel_token)));
        }
    }

    /// A timer fired. If it belongs to a waiting request, the request is tried
    /// again, or given up after three tries with the item replaced by a
    /// handshake failure. Otherwise the item is replaced by the news of the
    /// timer finishing.
    fn on_line_timeout(&mut self, ids: &mut IdCounter, timer_token: TimerOwnerToken, shared_alloc: &mut SharedPipeAlloc<LayerPipeItem>)
        requires
            old(self).inv(),
            old(shared_alloc)@.well_formed(),
        ensures
            final(self).inv(),
            final(shared_alloc)@.well_formed(),
            final(shared_alloc)@.bottom == old(shared_alloc)@.bottom,
            crate::pipe::grows(old(shared_alloc)@, final(shared_alloc)@),
            final(self).spec_total() <= old(self).spec_total(),
            final(self).spec_mode() == old(self).spec_mode(),
            final(self).spec_max_channels() == old(self).spec_max_channels(),
            (forall|i: int| 0 <= i < old(self).waiting().len()
                ==> !(#[trigger] old(self).waiting()[i]).1.timer_token.same_spec(timer_token))
                ==> *final(self) == *old(self) && *final(ids) == *old(ids)
                && final(shared_alloc)@ == old(shared_alloc)@.replaced_front(event_item(FirstLayerEvent::TimerFinished(timer_token))),
            forall|i: int| 0 <= i < old(self).waiting().len() && (#[trigger] old(self).waiting()[i]).1.timer_token.same_spec(timer_token)
                && (forall|j: int| 0 <= j < i ==> !(#[trigger] old(self).waiting()[j]).1.timer_token.same_spec(timer_token))
                ==> timed_out(*old(self), *final(self), old(shared_alloc)@, final(shared_alloc)@, i, old(ids).peek()),
    {
        let mut i: usize = 0;
        while i < self.waiting_tokens.len()
            invariant
                i <= self.waiting_tokens@.len(),
                *self == *old(self),
                forall|j: int| 0 <= j < i ==> !(#[trigger] self.waiting_tokens@[j]).1.timer_token.same_spec(timer_token),
            ensures
                i < self.waiting_tokens@.len() ==> self.waiting_tokens@[i as int].1.timer_token.same_spec(timer_token),
            decreases self.waiting_tokens@.len() - i,
        {
            if self.waiting_tokens[i].1.timer_token.same(&timer_token) {
                break;
            }
            i = i + 1;
        }
        if i < self.waiting_tokens.len() {
            assert(self.waiting_tokens@[i as int].1.timer_token.same_spec(timer_token));
            assert(old(self).waiting()[i as int].1.timer_token.same_spec(timer_token));
            let (ch_t, rt) = self.waiting_tokens[i];
            let retrials = rt.retrials + 1;
            if retrials > Self::RETRIALS {
                self.remove_waiting(i);
                shared_alloc.replace_propagate_current(event(FirstLayerEvent::HandshakeFailure(ch_t)));
            } else {
                let ghost old_w = self.waiting_tokens@;
                self.waiting_tokens.set(i, (ch_t, RetrialToken { timer_token: rt.timer_token, retrials }));
                assert forall|a: int, b: int| 0 <= a < b < self.waiting_tokens@.len()
                    implies (#[trigger] self.waiting_tokens@[a]).0.spec_id() != (#[trigger] self.waiting_tokens@[b]).0.spec_id() by {
                    assert(self.waiting_tokens@[a].0 == old_w[a].0);
                    assert(self.waiting_tokens@[b].0 == old_w[b].0);
                }
                assert forall|a: int| 0 <= a < self.waiting_tokens@.len()
                    implies (#[trigger] self.waiting_tokens@[a]).1.retrials <= Self::RETRIALS by {
                    if a != i {
                        assert(self.waiting_tokens@[a] == old_w[a]);
                    }
                }
                assert(self.waiting_tokens@[i as int].0.spec_id() == ch_t.spec_id());
                assert(self.waiting_tokens@ == old(self).waiting().update(i as int,
                    (ch_t, RetrialToken { timer_token: rt.timer_token, retrials })));
                assert(self.active() == old(self).active());
                assert(self.is_active(ch_t) == old(self).is_active(ch_t));
                self.send_channel_request(ids, ch_t, shared_alloc);
            }
        } else {
            shared_alloc.replace_propagate_current(event(FirstLayerEvent::TimerFinished(timer_token)));
        }
    }

    /// Too many channels to open `channel_token`: the news is pushed on.
    fn on_too_many_channels(&self, channel_token: ChannelToken, shared_alloc: &mut SharedPipeAlloc<LayerPipeItem>)
        requires
            self.inv(),
            old(shared_alloc)@.well_formed(),
        ensures
            final(shared_alloc)@ == old(shared_alloc)@.pushed(
                event_item(FirstLayerEvent::TooManyChannels(channel_token, self.spec_total() as usize)),
            ),
            final(shared_alloc)@.well_formed(),
            final(shared_alloc)@.bottom == old(shared_alloc)@.bottom,
            crate::pipe::grows(old(shared_alloc)@, final(shared_alloc)@),
    {
        shared_alloc.push(event(FirstLayerEvent::TooManyChannels(channel_token, self.total_channels())));
    }

    /// The nanoseconds gone by since each open channel was last touched, as
    /// the clock reads now, channel by channel.
    fn active_ages(&self) -> (r: Vec<u128>)
        ensures
            r@.len() == self.active().len(),
    {
        let mut r: Vec<u128> = Vec::new();
        let mut i: usize = 0;
        while i < self.active_tokens.len()
            invariant
                i <= self.active_tokens@.len(),
                r@.len() == i,
            decreases self.active_tokens@.len() - i,
        {
            r.push(self.active_tokens[i].elapsed());
            i = i + 1;
        }
        r
    }

    /// Checks the open channels: an expired one is closed, with drop requests
    /// and the news that it expired pushed on; for any other, keep-alive
    /// requests are pushed. The check itself goes no further.
    fn check_expired_tokens(&mut self, ids: &mut IdCounter, shared_alloc: &mut SharedPipeAlloc<LayerPipeItem>)
        requires
            old(self).inv(),
            old(shared_alloc)@.well_formed(),
            old(shared_alloc)@.queue.len() > 0,
        ensures
            final(self).inv(),
            final(shared_alloc)@.well_formed(),
            final(shared_alloc)@.bottom == old(shared_alloc)@.bottom,
            crate::pipe::grows(old(shared_alloc)@, final(shared_alloc)@),
            final(self).waiting() == old(self).waiting(),
            final(self).active().len() <= old(self).active().len(),
            final(self).spec_mode() == old(self).spec_mode(),
            final(self).spec_max_channels() == old(self).spec_max_channels(),
            forall|j: int| 0 <= j < old(self).active().len() && (#[trigger] old(self).active()[j]).spec_expires() is None
                ==> final(self).active().contains(old(self).active()[j]),
            forall|j: int| 0 <= j < final(self).active().len() ==> old(self).active().contains(#[trigger] final(self).active()[j]),
            final(shared_alloc)@.taken == old(shared_alloc)@.queue[0].1,
            final(shared_alloc)@.queue.len() >= old(shared_alloc)@.queue.len() - 1,
            final(shared_alloc)@.queue.subrange(0, old(shared_alloc)@.queue.len() - 1) == old(shared_alloc)@.queue.drop_first(),
            expiry_checked(old(shared_alloc)@, final(shared_alloc)@, old(self).active(), final(self).active(), old(ids).peek(), final(ids).peek()),
    {
        let ages = self.active_ages();
        let mut kept: Vec<ChannelToken> = Vec::new();
        let mut i: usize = 0;
        let ghost q0 = shared_alloc@.queue;
        let ghost ts = self.active_tokens@;
        let ghost mut exp: Seq<bool> = Seq::empty();
        let ghost mut states: Seq<PipeState<LayerPipeItem>> = seq![shared_alloc@];
        let ghost mut idseq: Seq<usize> = seq![ids.peek()];
        while i < self.active_tokens.len()
            invariant
                self.inv(),
                i <= self.active_tokens@.len(),
                kept@.len() <= i,
                q0 == old(shared_alloc)@.queue,
                shared_alloc@.queue.len() >= q0.len(),
                shared_alloc@.queue.subrange(0, q0.len() as int) == q0,
                forall|j: int| 0 <= j < i && (#[trigger] old(self).active()[j]).spec_expires() is None
                    ==> kept@.contains(old(self).active()[j]),
                forall|j: int| 0 <= j < kept@.len() ==> old(self).active().contains(#[trigger] kept@[j]),
                ts == old(self).active(),
                exp.len() == i && states.len() == i + 1 && idseq.len() == i + 1,
                states[0] == old(shared_alloc)@ && idseq[0] == old(ids).peek(),
                states[i as int] == shared_alloc@ && idseq[i as int] == ids.peek(),
                forall|k: int| #![trigger idseq[k]] 0 <= k < i ==> idseq[k + 1] == next_peek(idseq[k]),
                forall|k: int| #![trigger states[k]] 0 <= k < i ==> check_step(states[k], states[k + 1], ts[k], exp[k], idseq[k]),
                forall|k: int| #![trigger exp[k]] 0 <= k < i ==> exp[k] == ts[k].expired_at(ages@[k]),
                ages@.len() == ts.len(),
                kept@ == kept_tokens(ts.subrange(0, i as int), exp),
                self.active_tokens@ == old(self).active_tokens@,
                self.waiting_tokens@ == old(self).waiting_tokens@,
                self.mode == old(self).mode,
                self.max_channels == old(self).max_channels,
                shared_alloc@.well_formed(),
                shared_alloc@.bottom == old(shared_alloc)@.bottom,
                crate::pipe::grows(old(shared_alloc)@, shared_alloc@),
                shared_alloc@.queue.len() > 0,
            decreases self.active_tokens@.len() - i,
        {
            let token = self.active_tokens[i];
            let ghost s0 = shared_alloc@;
            let ghost k0 = kept@;
            let ghost e_prev = exp;
            let ghost st_prev = states;
            let ghost id_prev = idseq;
            let ghost peek0 = ids.peek();
            assert(ts[i as int] == token);
            assert(old(self).active().contains(token)) by {
                assert(old(self).active()[i as int] == token);
            }
            if token.expired_after(ages[i]) {
                let drop_request = text_chunk("first layer channel drop");
                let ghost id_i = ids.peek();
                let header = FirstLayerHeader::new(ids, ChunkType::ChannelDrop, Some(token));
                self.push_copies(drop_request, header, shared_alloc);
                let ghost s1 = shared_alloc@;
                let ghost items = choose|items: Seq<LayerPipeItem>| send_copies(items, drop_request@, header, 3)
                    && s1 == s0.extended(items);
                proof {
                    lemma_extend_keeps_queue_prefix(s0, items);
                }
                shared_alloc.push(event(FirstLayerEvent::ChannelExpired(token)));
                proof {
                    assert(header == (FirstLayerHeader { id: id_i, chunk_type: ChunkType::ChannelDrop, channel_token: Some(token) }));
                    assert(send_copies(items, drop_chunk(), header, 3));
                    assert(check_step(s0, shared_alloc@, token, true, id_i));
                    let k0s = kept_tokens(ts.subrange(0, i as int), exp);
                    assert(ts.subrange(0, i + 1).drop_last() =~= ts.subrange(0, i as int));
                    assert(exp.push(true).drop_last() =~= exp);
                    exp = exp.push(true);
                    states = states.push(shared_alloc@);
                    idseq = idseq.push(ids.peek());
                    assert(kept_tokens(ts.subrange(0, i + 1), exp) == k0s);
                    lemma_push_keeps_queue_prefix(s1, event_item(FirstLayerEvent::ChannelExpired(token)));
                    assert(shared_alloc@.queue.subrange(0, q0.len() as int)
                        =~= shared_alloc@.queue.subrange(0, s1.queue.len() as int).subrange(0, q0.len() as int));
                    assert(s1.queue.subrange(0, q0.len() as int)
                        =~= s1.queue.subrange(0, s0.queue.len() as int).subrange(0, q0.len() as int));
                }
            } else {
                let keep_alive_request = text_chunk("first layer channel keep alive");
                let ghost id_i = ids.peek();
                let header = FirstLayerHeader::new(ids, ChunkType::ChannelKeepAlive, Some(token));
                self.push_copies(keep_alive_request, header, shared_alloc);
                proof {
                    let items = choose|items: Seq<LayerPipeItem>| send_copies(items, keep_alive_request@, header, 3)
                        && shared_alloc@ == s0.extended(items);
                    lemma_extend_keeps_queue_prefix(s0, items);
                    assert(header == (FirstLayerHeader { id: id_i, chunk_type: ChunkType::ChannelKeepAlive, channel_token: Some(token) }));
                    assert(send_copies(items, keep_alive_chunk(), header, 3));
                    assert(check_step(s0, shared_alloc@, token, false, id_i));
                    assert(ts.subrange(0, i + 1).drop_last() =~= ts.subrange(0, i as int));
                    assert(exp.push(false).drop_last() =~= exp);
                    assert(ts.subrange(0, i + 1).last() == token);
                    exp = exp.push(false);
                    states = states.push(shared_alloc@);
                    idseq = idseq.push(ids.peek());
                    assert(shared_alloc@.queue.subrange(0, q0.len() as int)
                        =~= shared_alloc@.queue.subrange(0, s0.queue.len() as int).subrange(0, q0.len() as int));
                }
                kept.push(token);
                proof {
                    assert(kept@ == kept_tokens(ts.subrange(0, i + 1), exp));
                    assert(kept@[k0.len() as int] == token);
                    assert forall|j: int| 0 <= j < kept@.len() implies old(self).active().contains(#[trigger] kept@[j]) by {
                        if j < k0.len() {
                            assert(kept@[j] == k0[j]);
                        }
                    }
                }
            }
            proof {
                assert(ids.peek() == next_peek(peek0));
                assert(states[i + 1] == shared_alloc@ && states[i as int] == s0);
                assert(check_step(states[i as int], states[i + 1], ts[i as int], exp[i as int], idseq[i as int]));
                assert forall|k: int| #![trigger idseq[k]] 0 <= k < i + 1 implies idseq[k + 1] == next_peek(idseq[k]) by {
                    if k < i {
                        assert(idseq[k] == id_prev[k] && idseq[k + 1] == id_prev[k + 1]);
                    }
                }
                assert forall|k: int| #![trigger states[k]] 0 <= k < i + 1 implies check_step(states[k], states[k + 1], ts[k], exp[k], idseq[k]) by {
                    if k < i {
                        assert(exp[k] == e_prev[k]);
                        assert(states[k] == st_prev[k] && states[k + 1] == st_prev[k + 1]);
                        assert(idseq[k] == id_prev[k]);
                    }
                }
                assert forall|k: int| #![trigger exp[k]] 0 <= k < i + 1 implies exp[k] == ts[k].expired_at(ages@[k]) by {
                    if k < i {
                        assert(exp[k] == e_prev[k]);
                    }
                }
                assert forall|j: int| 0 <= j < i + 1 && (#[trigger] old(self).active()[j]).spec_expires() is None
                    implies kept@.contains(old(self).active()[j]) by {
                    if j < i {
                        assert(k0.contains(old(self).active()[j]));
                        let m = choose|m: int| 0 <= m < k0.len() && k0[m] == old(self).active()[j];
                        assert(kept@[m] == k0[m]);
                    } else {
                        assert(old(self).active()[j] == token);
                        assert(kept@[k0.len() as int] == token);
                    }
                }
            }
            i = i + 1;
        }
        self.active_tokens = kept;
        let ghost s2 = shared_alloc@;
        shared_alloc.take_current();
        proof {
            assert(ts.subrange(0, ts.len() as int) =~= ts);
            assert(exp =~= expired_at_readings(ts, ages@));
            assert(ages@.len() == ts.len() && states.len() == ts.len() + 1 && idseq.len() == ts.len() + 1
                && states[0] == old(shared_alloc)@ && idseq[0] == old(ids).peek() && idseq[ts.len() as int] == ids.peek()
                && (forall|k: int| #![trigger expired_at_readings(ts, ages@)[k]] 0 <= k < ts.len() ==> idseq[k + 1] == next_peek(idseq[k])
                    && check_step(states[k], states[k + 1], ts[k], expired_at_readings(ts, ages@)[k], idseq[k]))
                && self.active() == kept_tokens(ts, expired_at_readings(ts, ages@))
                && shared_alloc@ == states[ts.len() as int].taken_front());
            assert(s2.queue[0] == q0[0]) by {
                assert(s2.queue.subrange(0, q0.len() as int)[0] == s2.queue[0]);
            }
            assert(shared_alloc@.queue.subrange(0, q0.len() - 1) =~= q0.drop_first()) by {
                assert forall|j: int| 0 <= j < q0.len() - 1 implies shared_alloc@.queue[j] == q0.drop_first()[j] by {
                    assert(s2.queue.subrange(0, q0.len() as int)[j + 1] == s2.queue[j + 1]);
                }
            }
        }
    }

    /// Pushes `RETRIALS` copies of a chunk to send with `header`.
    fn push_copies(&self, chunk: Chunk, header: FirstLayerHeader, shared_alloc: &mut SharedPipeAlloc<LayerPipeItem>)
        requires
            old(shared_alloc)@.well_formed(),
            old(shared_alloc)@.queue.len() > 0,
        ensures
            final(shared_alloc)@.well_formed(),
            final(shared_alloc)@.bottom == old(shared_alloc)@.bottom,
            crate::pipe::grows(old(shared_alloc)@, final(shared_alloc)@),
            final(shared_alloc)@.queue.len() > 0,
            exists|items: Seq<LayerPipeItem>| send_copies(items, chunk@, header, 3)
                && final(shared_alloc)@ == old(shared_alloc)@.extended(items),
    {
        let mut items: Vec<LayerPipeItem> = Vec::new();
        let mut k: u32 = 0;
        while k < Self::RETRIALS
            invariant
                k <= Self::RETRIALS,
                send_copies(items@, chunk@, header, k as nat),
            decreases Self::RETRIALS - k,
        {
            items.push(command(FirstLayerCommand::Send(chunk.duplicate(), header)));
            k = k + 1;
        }
        proof {
            lemma_extend_keeps_queue(shared_alloc@, items@);
        }
        shared_alloc.extend(items);
    }
}

/// `items` are `n` commands, for the default line, to send a chunk that
/// holds `c` with `header`.
pub open spec fn send_copies(items: Seq<LayerPipeItem>, c: ChunkView, header: FirstLayerHeader, n: nat) -> bool {
    &&& items.len() == n
    &&& forall|i: int| 0 <= i < n ==> ((#[trigger] items[i]) matches LayerPipeItem::SomeCommand(lid, LayerCommand::FirstLayer(
            FirstLayerCommand::Send(c2, h))) && lid == LineId(0) && c2@ == c && h == header)
}

/// The chunk of a drop request.
pub open spec fn drop_chunk() -> ChunkView {
    ChunkView { first: None, second: None, body: BodyView::Data("first layer channel drop"@) }
}

/// `items` are the copies of a drop request for `t`, with a header named by
/// the identifier `id`.
pub open spec fn drop_requests(items: Seq<LayerPipeItem>, t: ChannelToken, id: usize) -> bool {
    exists|h: FirstLayerHeader| #![auto] h.id == id && h.chunk_type == ChunkType::ChannelDrop && h.channel_token == Some(t)
        && send_copies(items, drop_chunk(), h, 3)
}

/// The chunk of a keep-alive request.
pub open spec fn keep_alive_chunk() -> ChunkView {
    ChunkView { first: None, second: None, body: BodyView::Data("first layer channel keep alive"@) }
}

/// One open channel `t` checked, from the pipe `a0` to `a1`, with a header
/// named by `id`: an expired one is sent three drop requests, then the news
/// that it expired is pushed on; any other is sent three keep-alive requests.
pub open spec fn check_step(a0: PipeState<LayerPipeItem>, a1: PipeState<LayerPipeItem>, t: ChannelToken, expired: bool,
    id: usize) -> bool {
    exists|items: Seq<LayerPipeItem>| #![trigger a0.extended(items)] send_copies(items, if expired { drop_chunk() } else { keep_alive_chunk() },
        FirstLayerHeader { id, chunk_type: if expired { ChunkType::ChannelDrop } else { ChunkType::ChannelKeepAlive }, channel_token: Some(t) }, 3)
        && a1 == (if expired { a0.extended(items).pushed(event_item(FirstLayerEvent::ChannelExpired(t))) } else { a0.extended(items) })
}

/// The channels of `ts` that stay open, in order, where `exp` says which
/// expired.
pub open spec fn kept_tokens(ts: Seq<ChannelToken>, exp: Seq<bool>) -> Seq<ChannelToken>
    decreases ts.len(),
{
    if ts.len() == 0 || exp.len() != ts.len() {
        Seq::empty()
    } else {
        let rest = kept_tokens(ts.drop_last(), exp.drop_last());
        if exp.last() { rest } else { rest.push(ts.last()) }
    }
}

/// Which of the channels `ts` had expired when the time gone by since each
/// was last touched read as in `ages`, channel by channel.
pub open spec fn expired_at_readings(ts: Seq<ChannelToken>, ages: Seq<u128>) -> Seq<bool> {
    Seq::new(ts.len(), |i: int| ts[i].expired_at(ages[i]))
}

/// The check of the open channels `ts`, in order, from the pipe `a0` to `a1`
/// and the identifier counter from `id0` to `id1`, leaving `kept` open. The
/// clock is read once for each channel (`ages`), and a channel has expired
/// when more time than its lifetime has gone by at its reading; each channel
/// is checked as `check_step` says, with the next identifier; the check
/// itself is then taken.
pub open spec fn expiry_checked(a0: PipeState<LayerPipeItem>, a1: PipeState<LayerPipeItem>, ts: Seq<ChannelToken>,
    kept: Seq<ChannelToken>, id0: usize, id1: usize) -> bool {
    exists|ages: Seq<u128>, states: Seq<PipeState<LayerPipeItem>>, ids: Seq<usize>|
        #![trigger kept_tokens(ts, expired_at_readings(ts, ages)), states[0], ids[0]]
        ages.len() == ts.len() && states.len() == ts.len() + 1 && ids.len() == ts.len() + 1
        && states[0] == a0 && ids[0] == id0 && ids[ts.len() as int] == id1
        && (forall|i: int| #![trigger expired_at_readings(ts, ages)[i]] 0 <= i < ts.len() ==> ids[i + 1] == next_peek(ids[i])
            && check_step(states[i], states[i + 1], ts[i], expired_at_readings(ts, ages)[i], ids[i]))
        && kept == kept_tokens(ts, expired_at_readings(ts, ages))
        && a1 == states[ts.len() as int].taken_front()
}

/// The chunk of a channel request.
pub open spec fn request_chunk() -> ChunkView {
    ChunkView { first: None, second: None, body: BodyView::Data("first layer channel request"@) }
}

/// The request for a channel `t`, with a timer `tk` to try again, sent from
/// the pipe `a0` to `a1` with a header named by `id`: the command to start
/// the timer and the request go out as done.
pub open spec fn request_sent(a0: PipeState<LayerPipeItem>, a1: PipeState<LayerPipeItem>, t: ChannelToken, tk: TimerOwnerToken,
    id: usize) -> bool {
    exists|c: Chunk| #![auto] c@ == request_chunk() && a1 == a0.pushed_done(command_item(FirstLayerCommand::StartTimer(tk)))
        .pushed_done(command_item(FirstLayerCommand::Send(c, FirstLayerHeader {
            id, chunk_type: ChunkType::ChannelRequest(false), channel_token: Some(t) })))
}

/// The timer of the `i`th waiting request fired, from the monitor `m0` and
/// pipe `a0` to `m1` and `a1`: after three tries the request is given up and
/// the timer's news is replaced by a handshake failure; otherwise the try is
/// counted and, unless the channel is open meanwhile, the request is sent
/// again with the same timer, under a header named by `id`.
pub open spec fn timed_out(m0: ChannelMonitor, m1: ChannelMonitor, a0: PipeState<LayerPipeItem>, a1: PipeState<LayerPipeItem>,
    i: int, id: usize) -> bool {
    let w = m0.waiting()[i];
    &&& m1.active() == m0.active()
    &&& w.1.retrials + 1 > ChannelMonitor::RETRIALS ==> m1.waiting() == m0.waiting().remove(i)
        && a1 == a0.replaced_front(event_item(FirstLayerEvent::HandshakeFailure(w.0)))
    &&& w.1.retrials + 1 <= ChannelMonitor::RETRIALS ==> m1.waiting() == m0.waiting().update(i,
            (w.0, RetrialToken { timer_token: w.1.timer_token, retrials: (w.1.retrials + 1) as u32 }))
        && (m0.is_active(w.0) ==> a1 == a0)
        && (!m0.is_active(w.0) ==> request_sent(a0, a1, w.0, w.1.timer_token, id))
}

/// The chunk of a response to a channel request.
pub open spec fn response_chunk() -> ChunkView {
    ChunkView { first: None, second: None, body: BodyView::Data("first layer channel response"@) }
}

/// The identifier an identifier counter gives after `p`.
pub open spec fn next_peek(p: usize) -> usize {
    if p == usize::MAX { 0 } else { (p + 1) as usize }
}

/// Pushing an item keeps the items queued before it where they were.
proof fn lemma_push_keeps_queue_prefix(s: PipeState<LayerPipeItem>, item: LayerPipeItem)
    ensures
        s.pushed(item).queue.len() >= s.queue.len(),
        s.pushed(item).queue.subrange(0, s.queue.len() as int) == s.queue,
{
    assert(s.queue.push((item, 0usize)).subrange(0, s.queue.len() as int) =~= s.queue);
    assert(s.queue.subrange(0, s.queue.len() as int) =~= s.queue);
    if s.pushed(item).queue.len() > s.queue.len() {
        assert(s.pushed(item).queue.subrange(0, s.queue.len() as int) =~= s.queue);
    }
}

/// Pushing items keeps the items queued before them where they were.
proof fn lemma_extend_keeps_queue_prefix(s: PipeState<LayerPipeItem>, items: Seq<LayerPipeItem>)
    ensures
        s.extended(items).queue.len() >= s.queue.len(),
        s.extended(items).queue.subrange(0, s.queue.len() as int) == s.queue,
    decreases items.len(),
{
    if items.len() > 0 {
        lemma_extend_keeps_queue_prefix(s, items.drop_last());
        let m = s.extended(items.drop_last());
        lemma_push_keeps_queue_prefix(m, items.last());
        assert(s.extended(items).queue.subrange(0, s.queue.len() as int)
            =~= m.pushed(items.last()).queue.subrange(0, m.queue.len() as int).subrange(0, s.queue.len() as int));
    } else {
        assert(s.queue.subrange(0, s.queue.len() as int) =~= s.queue);
    }
}

/// Pushing items never shortens the queue.
proof fn lemma_extend_keeps_queue(s: PipeState<LayerPipeItem>, items: Seq<LayerPipeItem>)
    ensures
        s.extended(items).queue.len() >= s.queue.len(),
    decreases items.len(),
{
    if items.len() > 0 {
        lemma_extend_keeps_queue(s, items.drop_last());
    }
}

impl Entity for ChannelMonitor {
    /// Requests wait once each, and have been tried at most three times; the
    /// channels open or waiting can be counted.
    closed spec fn inv(&self) -> bool {
        &&& forall|a: int, b: int| 0 <= a < b < self.waiting_tokens@.len()
            ==> (#[trigger] self.waiting_tokens@[a]).0.spec_id() != (#[trigger] self.waiting_tokens@[b]).0.spec_id()
        &&& forall|a: int| 0 <= a < self.waiting_tokens@.len() ==> (#[trigger] self.waiting_tokens@[a]).1.retrials <= Self::RETRIALS
        &&& self.active_tokens@.len() + self.waiting_tokens@.len() <= usize::MAX
    }
}

/// What the channel monitor does with the item at hand.
enum MonitorAction {
    Received(Headers),
    Timeout(TimerOwnerToken),
    Request(ChannelToken, bool),
    CheckExpired,
    Drop(ChannelToken),
    Pass,
}

/// Whether a line with `total` channels open or being opened, of which it
/// may carry `max`, may take one more, exclusive or not.
pub open spec fn may_take_channel(exclusive: bool, total: int, max: usize) -> bool {
    if exclusive { total < 1 } else { total < max }
}

/// A foreign request with `hdr` for `t` is accepted, from `m0` to `m1` and
/// from `p0` to `p1`: the token, with its identifier and lifetime, joins the
/// open channels, a channel response under the same header goes out as done,
/// and the news of an incoming data channel takes the place of the item.
pub open spec fn foreign_accepted(m0: ChannelMonitor, m1: ChannelMonitor, p0: PipeState<LayerPipeItem>,
    p1: PipeState<LayerPipeItem>, hdr: FirstLayerHeader, t: ChannelToken) -> bool {
    exists|t2: ChannelToken, c: Chunk| #![auto] t2.spec_id() == t.spec_id() && t2.spec_expires() == t.spec_expires()
        && c@ == response_chunk()
        && m1.active() == m0.active().push(t2)
        && p1 == p0.pushed_done(command_item(FirstLayerCommand::Send(c,
            FirstLayerHeader { chunk_type: ChunkType::ChannelResponse, ..hdr })))
            .replaced_front(event_item(FirstLayerEvent::IncomingDataChannel(t2)))
}

/// What a chunk that came in with `hdr` does to the monitor, from `m0` to
/// `m1`, and to the pipe, from `p0` to `p1`: a response ends the wait for its
/// channel, and one that nothing waits for changes nothing; a request changes
/// nothing while the line is full; a drop request closes its open channel and
/// is replaced by the news that it was dropped, and one for no open channel
/// changes nothing; any other chunk leaves the requests waiting as they are,
/// and changes nothing unless it names an open channel.
pub open spec fn received_effect(m0: ChannelMonitor, m1: ChannelMonitor, p0: PipeState<LayerPipeItem>,
    p1: PipeState<LayerPipeItem>, hdr: FirstLayerHeader) -> bool {
    &&& m1.spec_mode() == m0.spec_mode()
    &&& m1.spec_max_channels() == m0.spec_max_channels()
    &&& hdr.chunk_type is ChannelResponse ==> match hdr.channel_token {
            Some(t) => (!m0.is_waiting(t) ==> m1 == m0 && p1 == p0) && (m0.is_waiting(t) ==> !m1.is_waiting(t)),
            None => m1 == m0 && p1 == p0,
        }
    &&& hdr.chunk_type is ChannelRequest ==> m1.waiting() == m0.waiting()
            && (m0.spec_mode().spec_max_channels() <= m0.spec_total() ==> m1 == m0)
    &&& hdr.chunk_type is ChannelRequest && m0.spec_mode().spec_max_channels() > m0.spec_total() ==> match hdr.channel_token {
            Some(t) => (m0.is_active(t) ==> m1 == m0 && p1 == p0)
                && (!m0.is_active(t) ==> exists|age: u128| (t.expired_at(age) ==> m1 == m0 && p1 == p0)
                    && (!t.expired_at(age) ==> foreign_accepted(m0, m1, p0, p1, hdr, t)))
                && (!m0.is_active(t) && t.spec_expires() is None ==> foreign_accepted(m0, m1, p0, p1, hdr, t)),
            None => m1 == m0 && p1 == p0,
        }
    &&& hdr.chunk_type is ChannelDrop ==> m1.waiting() == m0.waiting() && match hdr.channel_token {
            Some(t) => (m0.is_active(t) ==> m1.active().len() == m0.active().len() - 1
                    && p1 == p0.replaced_front(event_item(FirstLayerEvent::ChannelDropped(t))))
                && (!m0.is_active(t) ==> m1 == m0 && p1 == p0),
            None => m1 == m0 && p1 == p0,
        }
    &&& !(hdr.chunk_type is ChannelResponse) && !(hdr.chunk_type is ChannelRequest) && !(hdr.chunk_type is ChannelDrop)
        ==> m1.waiting() == m0.waiting() && m1.active().len() == m0.active().len() && match hdr.channel_token {
            Some(t) => !m0.is_active(t) ==> m1 == m0 && p1 == p0,
            None => m1 == m0 && p1 == p0,
        }
}

/// Whether `h` is a first layer header on no channel that does not ask
/// for one.
pub open spec fn off_channel(h: Headers) -> bool {
    h matches Headers::FirstLayer(f) && f.channel_token is None && !(f.chunk_type is ChannelRequest)
}

/// The items the channel monitor acts on.
pub open spec fn monitor_handles(item: LayerPipeItem) -> bool {
    ||| item matches LayerPipeItem::SomeEvent(_, LayerEvent::FirstLayer(FirstLayerEvent::ChunkReceived(c, _)))
            && outer_header(c@) is FirstLayer
    ||| item matches LayerPipeItem::SomeEvent(_, LayerEvent::FirstLayer(FirstLayerEvent::TimerFinished(_)))
    ||| item matches LayerPipeItem::SomeCommand(_, LayerCommand::FirstLayer(FirstLayerCommand::ChannelRequest(_, _)))
    ||| item matches LayerPipeItem::SomeCommand(_, LayerCommand::FirstLayer(FirstLayerCommand::CheckExpiredTokens))
    ||| item matches LayerPipeItem::SomeCommand(_, LayerCommand::FirstLayer(FirstLayerCommand::DropService(_)))
}

/// While its mode leaves room, a line takes a channel that the other end
/// asks for, however many are open already, as long as the token is not open
/// and had not expired at the reading of the clock: the token joins the open
/// channels, the response goes out, and the news of an incoming data channel
/// takes the place of the chunk; an expired one changes nothing. A token with
/// no lifetime is always taken, one more open channel than before, with the
/// requests waiting as they were.
pub proof fn lemma_room_accepts_foreign_request(m: ChannelMonitor, shared: IdCounter, alloc: PipeState<LayerPipeItem>,
    next: ChannelMonitor, next_shared: IdCounter, next_alloc: PipeState<LayerPipeItem>, hdr: FirstLayerHeader, t: ChannelToken)
    requires
        alloc.queue.len() > 0,
        alloc.queue[0].0 matches LayerPipeItem::SomeEvent(_, LayerEvent::FirstLayer(FirstLayerEvent::ChunkReceived(c, _)))
            && outer_header(c@) == Headers::FirstLayer(hdr),
        hdr.chunk_type is ChannelRequest,
        hdr.channel_token == Some(t),
        m.notified(shared, alloc, next, next_shared, next_alloc),
        m.spec_mode().spec_max_channels() > m.spec_total(),
        !m.is_active(t),
    ensures
        exists|age: u128| (t.expired_at(age) ==> next == m && next_alloc == alloc)
            && (!t.expired_at(age) ==> foreign_accepted(m, next, alloc, next_alloc, hdr, t)),
        next.waiting() == m.waiting(),
        t.spec_expires() is None ==> foreign_accepted(m, next, alloc, next_alloc, hdr, t)
            && next.active().len() == m.active().len() + 1
            && next.is_active(t),
{
    if t.spec_expires() is None {
        let (t2, c) = choose|t2: ChannelToken, c: Chunk| #![auto] t2.spec_id() == t.spec_id() && t2.spec_expires() == t.spec_expires()
            && c@ == response_chunk()
            && next.active() == m.active().push(t2)
            && next_alloc == alloc.pushed_done(command_item(FirstLayerCommand::Send(c,
                FirstLayerHeader { chunk_type: ChunkType::ChannelResponse, ..hdr })))
                .replaced_front(event_item(FirstLayerEvent::IncomingDataChannel(t2)));
        assert(next.active()[m.active().len() as int] == t2);
    }
}

impl EventTarget<LayerPipeItem, IdCounter> for ChannelMonitor {
    /// The monitor lets by what it does not act on, a timer on the default
    /// line that no waiting request owns, and a chunk on no channel that asks
    /// for none.
    open spec fn passes(&self, item: LayerPipeItem) -> bool {
        ||| !monitor_handles(item)
        ||| item matches LayerPipeItem::SomeEvent(_, LayerEvent::FirstLayer(FirstLayerEvent::ChunkReceived(c, _)))
            && off_channel(outer_header(c@))
        ||| item matches LayerPipeItem::SomeEvent(lid, LayerEvent::FirstLayer(FirstLayerEvent::TimerFinished(tt)))
            && lid == LineId(0)
            && forall|i: int| 0 <= i < self.waiting().len() ==> !(#[trigger] self.waiting()[i]).1.timer_token.same_spec(tt)
    }

    open spec fn notified(&self, shared: IdCounter, alloc: PipeState<LayerPipeItem>, next: Self, next_shared: IdCounter,
        next_alloc: PipeState<LayerPipeItem>) -> bool {
        &&& (alloc.queue[0].0 matches LayerPipeItem::SomeCommand(_, LayerCommand::FirstLayer(FirstLayerCommand::ChannelRequest(t, exclusive)))
                    ==> (may_take_channel(exclusive, self.spec_total(), self.spec_max_channels()) ==> {
                        &&& next.is_waiting(t) && next.active() == self.active()
                        &&& forall|i: int| 0 <= i < self.waiting().len() && (#[trigger] self.waiting()[i]).0.spec_id() == t.spec_id()
                            ==> next.waiting() == self.waiting()
                            && (self.is_active(t) ==> next_alloc == alloc)
                            && (!self.is_active(t) ==> request_sent(alloc, next_alloc, t, self.waiting()[i].1.timer_token, shared.peek()))
                        &&& !self.is_waiting(t) ==> exists|tk: TimerOwnerToken| #![auto] tk.spec_id() == next_peek(shared.peek())
                            && tk.spec_delay() == 2 * self.spec_line_delay().spec_probable_delay()
                            && next.waiting() == self.waiting().push((t, RetrialToken { timer_token: tk, retrials: 0 }))
                            && request_sent(alloc, next_alloc, t, tk, shared.peek())
                    }))
        &&& (alloc.queue[0].0 matches LayerPipeItem::SomeCommand(_, LayerCommand::FirstLayer(FirstLayerCommand::ChannelRequest(t, exclusive)))
                    ==> (!may_take_channel(exclusive, self.spec_total(), self.spec_max_channels())
                        ==> next_alloc == alloc.pushed(
                            event_item(FirstLayerEvent::TooManyChannels(t, self.spec_total() as usize)))
                        && next.active() == self.active()
                        && next.waiting() == self.waiting()))
        &&& (alloc.queue[0].0 matches LayerPipeItem::SomeEvent(_, LayerEvent::FirstLayer(FirstLayerEvent::ChunkReceived(c, _)))
                    ==> outer_header(c@) matches Headers::FirstLayer(hdr)
                    ==> received_effect(*self, next, alloc, next_alloc, hdr))
        &&& (alloc.queue[0].0 matches LayerPipeItem::SomeEvent(_, LayerEvent::FirstLayer(FirstLayerEvent::TimerFinished(tt))) ==> {
                    &&& next.spec_total() <= self.spec_total()
                    &&& (forall|i: int| 0 <= i < self.waiting().len() ==> !(#[trigger] self.waiting()[i]).1.timer_token.same_spec(tt))
                        ==> next == *self
                        && next_alloc == alloc.replaced_front(event_item(FirstLayerEvent::TimerFinished(tt)))
                    &&& forall|i: int| 0 <= i < self.waiting().len() && (#[trigger] self.waiting()[i]).1.timer_token.same_spec(tt)
                        && (forall|j: int| 0 <= j < i ==> !(#[trigger] self.waiting()[j]).1.timer_token.same_spec(tt))
                        ==> timed_out(*self, next, alloc, next_alloc, i, shared.peek())
            })
        &&& (alloc.queue[0].0 matches LayerPipeItem::SomeCommand(_, LayerCommand::FirstLayer(FirstLayerCommand::DropService(t))) ==> {
                    &&& next.spec_total() <= self.spec_total()
                    &&& !self.is_active(t) && !self.is_waiting(t) ==> next == *self && next_alloc == alloc
                    &&& self.is_active(t) ==> next.active().len() == self.active().len() - 1
                        && next.waiting() == self.waiting()
                        && exists|items: Seq<LayerPipeItem>| #[trigger] drop_requests(items, t, shared.peek())
                            && next_alloc == alloc.extended(items).replaced_front(event_item(FirstLayerEvent::ChannelDropped(t)))
                    &&& !self.is_active(t) && self.is_waiting(t) ==> !next.is_waiting(t)
                        && next.waiting().len() == self.waiting().len() - 1
                        && next.active() == self.active()
                        && exists|items: Seq<LayerPipeItem>| #[trigger] drop_requests(items, t, shared.peek())
                            && next_alloc == alloc.extended(items)
            })
        &&& (alloc.queue[0].0 matches LayerPipeItem::SomeCommand(_, LayerCommand::FirstLayer(FirstLayerCommand::CheckExpiredTokens)) ==> {
                    &&& next.waiting() == self.waiting()
                    &&& next.active().len() <= self.active().len()
                    &&& expiry_checked(alloc, next_alloc, self.active(), next.active(), shared.peek(), next_shared.peek())
            })
        &&& (!monitor_handles(alloc.queue[0].0) ==> next == *self && next_alloc == alloc)
    }

    /// A channel request that the line may take waits for its response; one
    /// it may not take is answered at once that there are too many channels,
    /// and nothing else changes. The other items are handled as their own
    /// handlers say.
    fn notify(&mut self, ids: &mut IdCounter, shared_alloc: &mut SharedPipeAlloc<LayerPipeItem>)
    {
        let action = match shared_alloc.current() {
            LayerPipeItem::SomeEvent(_, LayerEvent::FirstLayer(FirstLayerEvent::ChunkReceived(chunk, _))) => MonitorAction::Received(chunk.header()),
            LayerPipeItem::SomeEvent(_, LayerEvent::FirstLayer(FirstLayerEvent::TimerFinished(t))) => MonitorAction::Timeout(*t),
            LayerPipeItem::SomeCommand(_, LayerCommand::FirstLayer(FirstLayerCommand::ChannelRequest(t, exclusive))) => MonitorAction::Request(*t, *exclusive),
            LayerPipeItem::SomeCommand(_, LayerCommand::FirstLayer(FirstLayerCommand::CheckExpiredTokens)) => MonitorAction::CheckExpired,
            LayerPipeItem::SomeCommand(_, LayerCommand::FirstLayer(FirstLayerCommand::DropService(t))) => MonitorAction::Drop(*t),
            _ => MonitorAction::Pass,
        };
        match action {
            MonitorAction::Received(Headers::FirstLayer(hdr)) => self.on_received(ids, hdr, shared_alloc),
            MonitorAction::Timeout(t) => {
                proof {
                    crate::pipe::lemma_replace_same_is_advance(shared_alloc@);
                }
                self.on_line_timeout(ids, t, shared_alloc)
            },
            MonitorAction::Request(t, exclusive) => {
                if self.set_mode(exclusive) {
                    self.send_channel_request(ids, t, shared_alloc);
                } else {
                    self.on_too_many_channels(t, shared_alloc);
                }
            },
            MonitorAction::CheckExpired => self.check_expired_tokens(ids, shared_alloc),
            MonitorAction::Drop(t) => self.drop_channel_inner(ids, t, false, shared_alloc),
            _ => {},
        }
    }
}

impl ChannelMonitor {
    /// A chunk came in with `hdr`: a response, a request or a drop request for
    /// a channel is handled as such; a keep-alive or any other chunk on an
    /// open channel keeps that channel alive, the keep-alive being replaced by
    /// its news and any other chunk going out as done.
    fn on_received(&mut self, ids: &mut IdCounter, hdr: FirstLayerHeader, shared_alloc: &mut SharedPipeAlloc<LayerPipeItem>)
        requires
            old(self).inv(),
            old(shared_alloc)@.well_formed(),
        ensures
            final(self).inv(),
            final(shared_alloc)@.well_formed(),
            final(shared_alloc)@.bottom == old(shared_alloc)@.bottom,
            crate::pipe::grows(old(shared_alloc)@, final(shared_alloc)@),
            received_effect(*old(self), *final(self), old(shared_alloc)@, final(shared_alloc)@, hdr),
            !(hdr.chunk_type is ChannelRequest) ==> *final(ids) == *old(ids),
    {
        match hdr.chunk_type {
            ChunkType::ChannelResponse => {
                if let Some(t) = hdr.channel_token {
                    self.on_response(&t, shared_alloc);
                }
            },
            ChunkType::ChannelRequest(_) => {
                self.accept_from_foreign(ids, hdr, shared_alloc);
            },
            ChunkType::ChannelDrop => {
                if let Some(t) = hdr.channel_token {
                    self.on_drop_request(&t, shared_alloc);
                }
            },
            ChunkType::ChannelKeepAlive => {
                if let Some(t) = hdr.channel_token {
                    if let Some(i) = self.active_position(&t) {
                        let mut token = self.active_tokens[i];
                        token.touch();
                        self.active_tokens.set(i, token);
                        shared_alloc.replace_propagate_current(event(FirstLayerEvent::ChannelKeptAlive(token)));
                    }
                }
            },
            _ => {
                if let Some(t) = hdr.channel_token {
                    if let Some(i) = self.active_position(&t) {
                        let mut token = self.active_tokens[i];
                        token.touch();
                        self.active_tokens.set(i, token);
                        if let Some(chunk_received_event) = shared_alloc.take_current() {
                            shared_alloc.push_done(chunk_received_event);
                        }
                    }
                }
            },
        }
    }
}

} // verus!
