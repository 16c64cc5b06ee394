use vstd::prelude::*;
use std::collections::VecDeque;
use crate::pipe::{send_run, Entity, EventTarget, LayerState, Pipe, SharedPipeAlloc, PipeState, PropagationDirecion, Item, all_pass, routed,
    lemma_routed_single, lemma_routed_empty, rewrite_path};
use crate::utils::IdCounter;
use crate::protocol_stack::line::{LineId, LineDelay};
use crate::protocol_stack::node::{NodeAddress, NodeLayerState, AddressMap};
use crate::protocol_stack::physical_layer::{PhysicalLayerCommand, PhysicalLayerEvent, LinePing};
use crate::protocol_stack::first_layer::{DefaultChunkSender, FirstLayerCommand, FirstLayerEvent, first_of_second, first_of_physical, sent_as};
use crate::protocol_stack::physical_layer::physical_of_first;
use crate::protocol_stack::second_layer::second_of_first;
use crate::protocol_stack::second_layer::{SecondLayerCommand, SecondLayerEvent};
use crate::protocol_stack::channel_monitor::{ChannelMonitor, ChannelMode};
use crate::protocol_stack::expired_streams_cleaner::ExpiredStreamsCleaner;
use crate::protocol_stack::address_map_resolver::AddressMapResolver;
use crate::protocol_stack::peer_channel::PeerChannelMonitor;
use crate::protocol_stack::layer_pipe_item::{LayerPipeItem, LayerCommand, LayerEvent, NodeCommand, NodeEvent, lowered, raised};
use crate::protocol_stack::{Chunk, ChunkView, ChunkType, ChannelToken, FirstLayerHeader, Headers, wrapped, outer_header};
use crate::protocol_stack::first_layer::chunk_type_of;
use crate::protocol_stack::physical_layer::TransmissionType;

verus! {

/// Every item is an event.
pub open spec fn all_events(items: Seq<(LayerPipeItem, bool)>) -> bool {
    forall|i: int| 0 <= i < items.len() ==> (#[trigger] items[i]).0 is SomeEvent
}

/// Every item is a command.
pub open spec fn all_commands(items: Seq<(LayerPipeItem, bool)>) -> bool {
    forall|i: int| 0 <= i < items.len() ==> (#[trigger] items[i]).0 is SomeCommand
}

/// The items of a queue, each moved down a layer.
fn lowered_vec(q: VecDeque<(LayerPipeItem, bool)>) -> (r: Vec<(LayerPipeItem, bool)>)
    ensures
        r@.len() == q@.len(),
        forall|i: int| 0 <= i < r@.len() ==> !((#[trigger] r@[i]).0 is SomeEvent),
        lowered_all(q@, r@),
{
    let mut q = q;
    let mut r: Vec<(LayerPipeItem, bool)> = Vec::new();
    let ghost all = q@;
    let ghost n = q@.len();
    while q.len() > 0
        invariant
            r@.len() + q@.len() == n,
            all.len() == n,
            q@ == all.subrange(r@.len() as int, n as int),
            forall|i: int| 0 <= i < r@.len() ==> !((#[trigger] r@[i]).0 is SomeEvent),
            forall|i: int| 0 <= i < r@.len() ==> lowered(all[i].0, (#[trigger] r@[i]).0) && r@[i].1 == all[i].1,
        decreases q@.len(),
    {
        let ghost k = r@.len();
        let (mut item, done) = q.pop_front().unwrap();
        assert((item, done) == all[k as int]);
        item.to_lower();
        r.push((item, done));
        assert(q@ =~= all.subrange(r@.len() as int, n as int));
    }
    r
}

/// The items of a queue, each moved up a layer.
fn raised_vec(q: VecDeque<(LayerPipeItem, bool)>) -> (r: Vec<(LayerPipeItem, bool)>)
    ensures
        r@.len() == q@.len(),
        forall|i: int| 0 <= i < r@.len() ==> !((#[trigger] r@[i]).0 is SomeCommand),
        raised_all(q@, r@),
{
    let mut q = q;
    let mut r: Vec<(LayerPipeItem, bool)> = Vec::new();
    let ghost all = q@;
    let ghost n = q@.len();
    while q.len() > 0
        invariant
            r@.len() + q@.len() == n,
            all.len() == n,
            q@ == all.subrange(r@.len() as int, n as int),
            forall|i: int| 0 <= i < r@.len() ==> !((#[trigger] r@[i]).0 is SomeCommand),
            forall|i: int| 0 <= i < r@.len() ==> raised(all[i].0, (#[trigger] r@[i]).0) && r@[i].1 == all[i].1,
        decreases q@.len(),
    {
        let ghost k = r@.len();
        let (mut item, done) = q.pop_front().unwrap();
        assert((item, done) == all[k as int]);
        item.to_upper();
        r.push((item, done));
        assert(q@ =~= all.subrange(r@.len() as int, n as int));
    }
    r
}

/// Each item of `r` is the item of `q` at its place moved down a layer, with
/// the same flag.
pub open spec fn lowered_all(q: Seq<(LayerPipeItem, bool)>, r: Seq<(LayerPipeItem, bool)>) -> bool {
    &&& r.len() == q.len()
    &&& forall|i: int| 0 <= i < r.len() ==> lowered(q[i].0, (#[trigger] r[i]).0) && r[i].1 == q[i].1
}

/// Each item of `r` is the item of `q` at its place moved up a layer, with
/// the same flag.
pub open spec fn raised_all(q: Seq<(LayerPipeItem, bool)>, r: Seq<(LayerPipeItem, bool)>) -> bool {
    &&& r.len() == q.len()
    &&& forall|i: int| 0 <= i < r.len() ==> raised(q[i].0, (#[trigger] r[i]).0) && r[i].1 == q[i].1
}

/// The second layer event an item carries.
pub open spec fn second_event_of(item: LayerPipeItem) -> SecondLayerEvent {
    match item {
        LayerPipeItem::SomeEvent(_, LayerEvent::SecondLayer(e)) => e,
        _ => SecondLayerEvent::Nothing,
    }
}

/// The physical command an item carries.
pub open spec fn physical_command_of(item: LayerPipeItem) -> PhysicalLayerCommand {
    match item {
        LayerPipeItem::SomeCommand(_, LayerCommand::PhysicalLayer(c)) => c,
        _ => PhysicalLayerCommand::Nothing,
    }
}

/// Appends the second layer events that the items carry.
fn extend_events(res_events: &mut Vec<SecondLayerEvent>, items: VecDeque<(LayerPipeItem, bool)>)
    requires
        all_events(items@),
    ensures
        final(res_events)@.len() == old(res_events)@.len() + items@.len(),
        final(res_events)@.subrange(0, old(res_events)@.len() as int) == old(res_events)@,
        forall|i: int| 0 <= i < items@.len() ==> final(res_events)@[old(res_events)@.len() + i] == second_event_of((#[trigger] items@[i]).0),
        final(res_events)@ == old(res_events)@ + second_events(items@),
{
    let mut items = items;
    let ghost start = res_events@;
    let ghost n0 = items@.len();
    let ghost all = items@;
    while items.len() > 0
        invariant
            all_events(items@),
            res_events@.len() + items@.len() == start.len() + n0,
            res_events@.len() >= start.len(),
            res_events@.subrange(0, start.len() as int) == start,
            all.len() == n0,
            items@ == all.subrange(res_events@.len() - start.len(), n0 as int),
            forall|i: int| 0 <= i < res_events@.len() - start.len() ==> res_events@[start.len() + i] == second_event_of((#[trigger] all[i]).0),
        decreases items@.len(),
    {
        let ghost before = items@;
        let (item, _) = items.pop_front().unwrap();
        assert(before[0].0 is SomeEvent);
        assert forall|i: int| 0 <= i < items@.len() implies (#[trigger] items@[i]).0 is SomeEvent by {
            assert(items@[i] == before[i + 1]);
        }
        let ev = item.as_event().unwrap();
        res_events.push(ev.into_second_layer());
        assert(res_events@.subrange(0, start.len() as int) =~= start);
        assert(items@ =~= all.subrange(res_events@.len() - start.len(), n0 as int));
    }
    assert(res_events@ =~= start + second_events(all)) by {
        assert forall|i: int| 0 <= i < res_events@.len() implies #[trigger] res_events@[i] == (start + second_events(all))[i] by {
            if i >= start.len() {
                assert(res_events@[start.len() + (i - start.len())] == second_event_of(all[i - start.len()].0));
            } else {
                assert(res_events@[i] == res_events@.subrange(0, start.len() as int)[i]);
            }
        }
    }
}

/// Appends the physical commands that the items carry.
fn extend_commands(res_cmds: &mut Vec<PhysicalLayerCommand>, items: VecDeque<(LayerPipeItem, bool)>)
    requires
        all_commands(items@),
    ensures
        final(res_cmds)@.len() == old(res_cmds)@.len() + items@.len(),
        final(res_cmds)@.subrange(0, old(res_cmds)@.len() as int) == old(res_cmds)@,
        forall|i: int| 0 <= i < items@.len() ==> final(res_cmds)@[old(res_cmds)@.len() + i] == physical_command_of((#[trigger] items@[i]).0),
        final(res_cmds)@ == old(res_cmds)@ + physical_commands(items@),
{
    let mut items = items;
    let ghost start = res_cmds@;
    let ghost n0 = items@.len();
    let ghost all = items@;
    while items.len() > 0
        invariant
            all_commands(items@),
            res_cmds@.len() + items@.len() == start.len() + n0,
            res_cmds@.len() >= start.len(),
            res_cmds@.subrange(0, start.len() as int) == start,
            all.len() == n0,
            items@ == all.subrange(res_cmds@.len() - start.len(), n0 as int),
            forall|i: int| 0 <= i < res_cmds@.len() - start.len() ==> res_cmds@[start.len() + i] == physical_command_of((#[trigger] all[i]).0),
        decreases items@.len(),
    {
        let ghost before = items@;
        let (item, _) = items.pop_front().unwrap();
        assert(before[0].0 is SomeCommand);
        assert forall|i: int| 0 <= i < items@.len() implies (#[trigger] items@[i]).0 is SomeCommand by {
            assert(items@[i] == before[i + 1]);
        }
        let cmd = item.as_cmd().unwrap();
        res_cmds.push(cmd.into_physical_layer());
        assert(res_cmds@.subrange(0, start.len() as int) =~= start);
        assert(items@ =~= all.subrange(res_cmds@.len() - start.len(), n0 as int));
    }
    assert(res_cmds@ =~= start + physical_commands(all)) by {
        assert forall|i: int| 0 <= i < res_cmds@.len() implies #[trigger] res_cmds@[i] == (start + physical_commands(all))[i] by {
            if i >= start.len() {
                assert(res_cmds@[start.len() + (i - start.len())] == physical_command_of(all[i - start.len()].0));
            } else {
                assert(res_cmds@[i] == res_cmds@.subrange(0, start.len() as int)[i]);
            }
        }
    }
}

/// The items that left a pipe at the top are events; those that left at the
/// bottom are commands.
proof fn lemma_outputs_by_side(bot: Seq<(LayerPipeItem, bool)>, top: Seq<(LayerPipeItem, bool)>)
    requires
        forall|i: int| 0 <= i < bot.len() ==> (#[trigger] bot[i]).0.spec_dir() == PropagationDirecion::Down,
        forall|i: int| 0 <= i < top.len() ==> (#[trigger] top[i]).0.spec_dir() == PropagationDirecion::Up,
    ensures
        all_commands(bot),
        all_events(top),
{
    assert forall|i: int| 0 <= i < bot.len() implies (#[trigger] bot[i]).0 is SomeCommand by {
        assert(bot[i].0.spec_dir() == PropagationDirecion::Down);
    }
    assert forall|i: int| 0 <= i < top.len() implies (#[trigger] top[i]).0 is SomeEvent by {
        assert(top[i].0.spec_dir() == PropagationDirecion::Up);
    }
}

/// A layer with no entity.
pub struct NoEntity {}

impl Entity for NoEntity {
    open spec fn inv(&self) -> bool {
        true
    }
}

impl EventTarget<LayerPipeItem, IdCounter> for NoEntity {
    open spec fn passes(&self, item: LayerPipeItem) -> bool {
        true
    }

    open spec fn notified(&self, shared: IdCounter, alloc: PipeState<LayerPipeItem>, next: Self, next_shared: IdCounter,
        next_alloc: PipeState<LayerPipeItem>) -> bool {
        next == *self && next_shared == shared && next_alloc == alloc
    }

    fn notify(&mut self, ids: &mut IdCounter, shared_alloc: &mut SharedPipeAlloc<LayerPipeItem>) {
    }
}

/// The entities of the first layer.
pub enum FirstLayerEntity {
    Monitor(ChannelMonitor),
    Sender(DefaultChunkSender),
}

impl Entity for FirstLayerEntity {
    open spec fn inv(&self) -> bool {
        match self {
            FirstLayerEntity::Monitor(m) => m.inv(),
            FirstLayerEntity::Sender(s) => s.inv(),
        }
    }

    open spec fn kind(&self) -> int {
        match self {
            FirstLayerEntity::Monitor(_) => 0,
            FirstLayerEntity::Sender(_) => 1,
        }
    }
}

impl EventTarget<LayerPipeItem, IdCounter> for FirstLayerEntity {
    open spec fn passes(&self, item: LayerPipeItem) -> bool {
        match *self {
            FirstLayerEntity::Monitor(m) => m.passes(item),
            FirstLayerEntity::Sender(s) => s.passes(item),
        }
    }

    open spec fn rewrites_some(&self, item: LayerPipeItem) -> bool {
        match *self {
            FirstLayerEntity::Monitor(_) => false,
            FirstLayerEntity::Sender(s) => s.rewrites_some(item),
        }
    }

    open spec fn rewrites(&self, shared: IdCounter, item: LayerPipeItem, next_shared: IdCounter, out: LayerPipeItem) -> bool {
        match *self {
            FirstLayerEntity::Monitor(_) => false,
            FirstLayerEntity::Sender(s) => s.rewrites(shared, item, next_shared, out),
        }
    }

    /// Each kind of entity does what its own notification does, and stays of
    /// its kind.
    open spec fn notified(&self, shared: IdCounter, alloc: PipeState<LayerPipeItem>, next: Self, next_shared: IdCounter,
        next_alloc: PipeState<LayerPipeItem>) -> bool {
        match (*self, next) {
            (FirstLayerEntity::Monitor(m0), FirstLayerEntity::Monitor(m1)) => m0.notified(shared, alloc, m1, next_shared, next_alloc),
            (FirstLayerEntity::Sender(s0), FirstLayerEntity::Sender(s1)) => s0.notified(shared, alloc, s1, next_shared, next_alloc),
            _ => false,
        }
    }

    fn notify(&mut self, ids: &mut IdCounter, shared_alloc: &mut SharedPipeAlloc<LayerPipeItem>) {
        let ghost ids0 = *ids;
        let ghost a0 = shared_alloc@;
        match self {
            FirstLayerEntity::Monitor(m) => m.notify(ids, shared_alloc),
            FirstLayerEntity::Sender(s) => {
                let ghost s0 = *s;
                s.notify(ids, shared_alloc);
                proof {
                    if s0.rewrites_some(a0.queue[0].0) {
                        let out = choose|out: LayerPipeItem| #[trigger] s0.rewrites(ids0, a0.queue[0].0, *ids, out)
                            && out.spec_dir() == a0.queue[0].0.spec_dir() && shared_alloc@ == a0.replaced_front(out);
                        assert(FirstLayerEntity::Sender(s0).rewrites(ids0, a0.queue[0].0, *ids, out));
                    }
                }
            },
        }
    }
}

/// The entities of a node's own layer.
pub enum NodeEntity {
    Cleaner(ExpiredStreamsCleaner),
    Resolver(AddressMapResolver),
    Peers(PeerChannelMonitor),
}

impl Entity for NodeEntity {
    open spec fn inv(&self) -> bool {
        match self {
            NodeEntity::Cleaner(c) => c.inv(),
            NodeEntity::Resolver(r) => r.inv(),
            NodeEntity::Peers(p) => p.inv(),
        }
    }

    open spec fn kind(&self) -> int {
        match self {
            NodeEntity::Cleaner(_) => 0,
            NodeEntity::Resolver(_) => 1,
            NodeEntity::Peers(_) => 2,
        }
    }
}

impl EventTarget<LayerPipeItem, NodeLayerState> for NodeEntity {
    open spec fn passes(&self, item: LayerPipeItem) -> bool {
        match *self {
            NodeEntity::Cleaner(c) => c.passes(item),
            NodeEntity::Resolver(r) => r.passes(item),
            NodeEntity::Peers(p) => p.passes(item),
        }
    }

    /// Each kind of entity does what its own notification does, and stays of
    /// its kind.
    open spec fn notified(&self, shared: NodeLayerState, alloc: PipeState<LayerPipeItem>, next: Self, next_shared: NodeLayerState,
        next_alloc: PipeState<LayerPipeItem>) -> bool {
        match (*self, next) {
            (NodeEntity::Cleaner(c0), NodeEntity::Cleaner(c1)) => c0.notified(shared, alloc, c1, next_shared, next_alloc),
            (NodeEntity::Resolver(r0), NodeEntity::Resolver(r1)) => r0.notified(shared, alloc, r1, next_shared, next_alloc),
            (NodeEntity::Peers(p0), NodeEntity::Peers(p1)) => p0.notified(shared, alloc, p1, next_shared, next_alloc),
            _ => false,
        }
    }

    fn notify(&mut self, shared: &mut NodeLayerState, shared_alloc: &mut SharedPipeAlloc<LayerPipeItem>) {
        match self {
            NodeEntity::Cleaner(c) => c.notify(shared, shared_alloc),
            NodeEntity::Resolver(r) => r.notify(shared, shared_alloc),
            NodeEntity::Peers(p) => p.notify(shared, shared_alloc),
        }
    }
}

/// The first layer of a new line's stack: a channel monitor for
/// `node_addr` with nothing open or waiting and room for `max_channels`,
/// above a chunk sender.
pub open spec fn fresh_first_layer(es: Seq<FirstLayerEntity>, node_addr: NodeAddress, line_delay: LineDelay,
    max_channels: usize) -> bool {
    &&& es.len() == 2
    &&& es[0] matches FirstLayerEntity::Monitor(m) && m.active().len() == 0 && m.waiting().len() == 0
        && m.spec_mode() == ChannelMode::Inclusive(max_channels) && m.spec_max_channels() == max_channels
        && m.spec_node_addr() == node_addr && m.spec_line_delay() == line_delay
    &&& es[1] is Sender
}

/// A node's layer as it starts: the expired streams cleaner, not running,
/// the address map resolver with no service, and the peer channel monitor
/// with no channel, all for `node_addr` and its `lines`.
pub open spec fn fresh_node_layer(es: Seq<NodeEntity>, node_addr: NodeAddress, lines: Seq<LineId>) -> bool {
    &&& es.len() == 3
    &&& es[0] matches NodeEntity::Cleaner(c) && c.timer() is None && c.spec_lines() == lines
    &&& es[1] matches NodeEntity::Resolver(r) && r.services().entries().len() == 0
        && r.spec_node_addr() == node_addr && r.spec_lines() == lines
    &&& es[2] matches NodeEntity::Peers(p) && p.active().entries().len() == 0 && p.waiting().entries().len() == 0
        && p.spec_node_addr() == node_addr
}

/// Whether the entities of a first layer let by what the second layer
/// command `cmd` comes down to.
pub open spec fn first_layer_lets_down(es: Seq<FirstLayerEntity>, cmd: SecondLayerCommand) -> bool {
    forall|f: FirstLayerCommand| #[trigger] first_of_second(cmd, f)
        ==> all_pass::<LayerPipeItem, IdCounter, FirstLayerEntity>(es, LayerPipeItem::SomeCommand(LineId(0), LayerCommand::FirstLayer(f)))
}

/// Whether the entities of a first layer let by what the physical event `ev`
/// comes up to.
pub open spec fn first_layer_lets_up(es: Seq<FirstLayerEntity>, ev: PhysicalLayerEvent) -> bool {
    forall|f: FirstLayerEvent| #[trigger] first_of_physical(ev, f)
        ==> all_pass::<LayerPipeItem, IdCounter, FirstLayerEntity>(es, LayerPipeItem::SomeEvent(LineId(0), LayerEvent::FirstLayer(f)))
}

/// The physical layer of a line's stack.
pub struct PhysicalLayerProtocolStack {
    pipe: Pipe<LayerPipeItem, LinePing>,
}

impl PhysicalLayerProtocolStack {
    /// No entity is hooked on the physical layer.
    pub closed spec fn wf(&self) -> bool {
        self.pipe.well_formed() && self.pipe.entities().len() == 0
    }

    /// What sending `items` through the layer does, from this layer and the
    /// counter `ids0` to `next` and `ids1`: the commands that leave at the
    /// bottom, `down`, as they are, and the events that leave at the top moved
    /// up a layer, `up`.
    pub closed spec fn sent(&self, ids0: IdCounter, items: Seq<(LayerPipeItem, bool)>, next: Self, ids1: IdCounter,
        down: Seq<(LayerPipeItem, bool)>, up: Seq<(LayerPipeItem, bool)>) -> bool {
        exists|raw_up: Seq<(LayerPipeItem, bool)>| #[trigger] self.pipe.spec_sent(ids0, items, next.pipe, ids1, down, raw_up)
            && raised_all(raw_up, up)
    }

    /// A physical layer; the pinger is made but not hooked.
    pub fn new(line_delay: LineDelay) -> (r: Self)
        ensures
            r.wf(),
    {
        let pipe = Pipe::new();
        let _ping = LinePing::new(line_delay);
        PhysicalLayerProtocolStack { pipe }
    }

    /// Sends the items through; the events that come out at the top move up.
    fn propagate_items(&mut self, ids: &mut IdCounter, items: Vec<(LayerPipeItem, bool)>) -> (r: (VecDeque<(LayerPipeItem, bool)>, Vec<(LayerPipeItem, bool)>))
        requires
            old(self).wf(),
        ensures
            final(self).wf(),
            all_commands(r.0@),
            forall|i: int| 0 <= i < r.1@.len() ==> !((#[trigger] r.1@[i]).0 is SomeCommand),
            r.0@ == routed(items@, PropagationDirecion::Down),
            raised_all(routed(items@, PropagationDirecion::Up), r.1@),
            *final(ids) == *old(ids),
            old(self).sent(*old(ids), items@, *final(self), *final(ids), r.0@, r.1@),
    {
        let (cmds, evs) = self.pipe.send(ids, items);
        proof {
            lemma_outputs_by_side(cmds@, evs@);
        }
        (cmds, raised_vec(evs))
    }
}

/// What a second layer command hands the first layer to send: for
/// `Send(c, h, t)`, `c` with the header `h`; for `SendAsIs(c, t)`, `c` as it
/// is, when its outer header is a second layer one. Each with the kind of
/// chunk that header's block is, and the channel `t`.
pub open spec fn handed_to_send(cmd: SecondLayerCommand) -> Option<(ChunkView, ChunkType, Option<ChannelToken>)> {
    match cmd {
        SecondLayerCommand::Send(c, h, t) => Some((wrapped(c@, Headers::SecondLayer(h)), chunk_type_of(h.block_type), t)),
        SecondLayerCommand::SendAsIs(c, t) => match outer_header(c@) {
            Headers::SecondLayer(h) => Some((c@, chunk_type_of(h.block_type), t)),
            _ => None,
        },
        _ => None,
    }
}

/// `chunk`, transmitted as `tt`, carries what the second layer command `cmd`
/// hands the first layer to send: it is data, and it is that chunk with a
/// first layer header of its kind on its channel, named by the identifier
/// that `ids` gives next.
pub open spec fn carries_sent(cmd: SecondLayerCommand, ids: IdCounter, chunk: Chunk, tt: TransmissionType) -> bool {
    match handed_to_send(cmd) {
        Some((v, ct, t)) => tt == TransmissionType::Data
            && chunk@ == wrapped(v, Headers::FirstLayer(FirstLayerHeader { id: ids.peek(), chunk_type: ct, channel_token: t })),
        None => false,
    }
}

/// `p` transmits the chunk that carries the second layer command `cmd`.
pub open spec fn transmits_sent(cmd: SecondLayerCommand, ids: IdCounter, p: PhysicalLayerCommand) -> bool {
    p matches PhysicalLayerCommand::Transmit(c2, tt) && carries_sent(cmd, ids, c2, tt)
}

/// Whether `item` is a chunk passed on to be sent, which the chunk sender
/// rewrites into the command to send it.
pub open spec fn sender_rewrites(item: LayerPipeItem) -> bool {
    item matches LayerPipeItem::SomeCommand(_, LayerCommand::FirstLayer(FirstLayerCommand::PassToSend(_, _, _)))
}

/// The first layer of a line's stack: the channel monitor above the chunk sender.
pub struct FirstLayerProtocolStack {
    pipe: Pipe<LayerPipeItem, FirstLayerEntity>,
}

impl FirstLayerProtocolStack {
    /// The channel monitor stands above the chunk sender.
    pub closed spec fn wf(&self) -> bool {
        &&& self.pipe.well_formed()
        &&& self.pipe.entities().len() == 2
        &&& self.pipe.entities()[0] is Monitor
        &&& self.pipe.entities()[1] is Sender
    }

    /// The entities, from the top one down.
    pub closed spec fn entities(&self) -> Seq<FirstLayerEntity> {
        self.pipe.entities()
    }

    /// What sending `items` through the layer does: what leaves at the bottom
    /// moved down a layer, `down`, and what leaves at the top moved up, `up`.
    pub closed spec fn sent(&self, ids0: IdCounter, items: Seq<(LayerPipeItem, bool)>, next: Self, ids1: IdCounter,
        down: Seq<(LayerPipeItem, bool)>, up: Seq<(LayerPipeItem, bool)>) -> bool {
        exists|raw_down: Seq<(LayerPipeItem, bool)>, raw_up: Seq<(LayerPipeItem, bool)>|
            #[trigger] self.pipe.spec_sent(ids0, items, next.pipe, ids1, raw_down, raw_up)
            && lowered_all(raw_down, down) && raised_all(raw_up, up)
    }

    pub fn new(node_addr: NodeAddress, line_delay: LineDelay, max_channels: usize) -> (r: Self)
        ensures
            r.wf(),
            fresh_first_layer(r.entities(), node_addr, line_delay, max_channels),
    {
        let mut pipe = Pipe::new();
        pipe.hook(FirstLayerEntity::Monitor(ChannelMonitor::new(node_addr, line_delay, max_channels)));
        pipe.hook(FirstLayerEntity::Sender(DefaultChunkSender::new()));
        FirstLayerProtocolStack { pipe }
    }

    /// Sends the items through; commands that come out at the bottom move
    /// down, events that come out at the top move up.
    fn propagate_items(&mut self, ids: &mut IdCounter, items: Vec<(LayerPipeItem, bool)>) -> (r: (Vec<(LayerPipeItem, bool)>, Vec<(LayerPipeItem, bool)>))
        requires
            old(self).wf(),
        ensures
            final(self).wf(),
            forall|i: int| 0 <= i < r.0@.len() ==> !((#[trigger] r.0@[i]).0 is SomeEvent),
            forall|i: int| 0 <= i < r.1@.len() ==> !((#[trigger] r.1@[i]).0 is SomeCommand),
            (forall|i: int| 0 <= i < items@.len() ==> (#[trigger] items@[i]).1 || all_pass(old(self).entities(), items@[i].0))
                ==> lowered_all(routed(items@, PropagationDirecion::Down), r.0@)
                && raised_all(routed(items@, PropagationDirecion::Up), r.1@)
                && final(self).entities() == old(self).entities() && *final(ids) == *old(ids),
            items@.len() == 1 && !items@[0].1 && sender_rewrites(items@[0].0) ==> {
                &&& r.1@.len() == 0
                &&& r.0@.len() == 1
                &&& !r.0@[0].1
                &&& exists|o: LayerPipeItem| #[trigger] sent_as(*old(ids), items@[0].0, *final(ids), o) && lowered(o, r.0@[0].0)
            },
            old(self).sent(*old(ids), items@, *final(self), *final(ids), r.0@, r.1@),
    {
        let ghost es = self.pipe.entities();
        let ghost it = items@[0].0;
        let ghost single = items@.len() == 1 && !items@[0].1 && sender_rewrites(items@[0].0);
        proof {
            if single {
                assert(rewrite_path::<LayerPipeItem, IdCounter, FirstLayerEntity>(es, it, 0, 1)) by {
                    assert(es[0].passes(it));
                }
            }
        }
        let (cmds, evs) = self.pipe.send(ids, items);
        proof {
            let es1 = self.pipe.entities();
            assert(es1[0].kind() == es[0].kind() && es1[1].kind() == es[1].kind());
        }
        (lowered_vec(cmds), raised_vec(evs))
    }
}

/// The second layer of a line's stack, with no entity.
pub struct SecondLayerProtocolStack {
    pipe: Pipe<LayerPipeItem, NoEntity>,
}

impl SecondLayerProtocolStack {
    /// No entity is hooked on the second layer.
    pub closed spec fn wf(&self) -> bool {
        self.pipe.well_formed() && self.pipe.entities().len() == 0
    }

    /// What sending `items` through the layer does: what leaves at the bottom
    /// moved down a layer, `down`, and what leaves at the top as it is, `up`.
    pub closed spec fn sent(&self, ids0: IdCounter, items: Seq<(LayerPipeItem, bool)>, next: Self, ids1: IdCounter,
        down: Seq<(LayerPipeItem, bool)>, up: Seq<(LayerPipeItem, bool)>) -> bool {
        exists|raw_down: Seq<(LayerPipeItem, bool)>| #[trigger] self.pipe.spec_sent(ids0, items, next.pipe, ids1, raw_down, up)
            && lowered_all(raw_down, down)
    }

    pub fn new() -> (r: Self)
        ensures
            r.wf(),
    {
        SecondLayerProtocolStack { pipe: Pipe::new() }
    }

    /// Sends the items through; commands that come out at the bottom move down.
    fn propagate_items(&mut self, ids: &mut IdCounter, items: Vec<(LayerPipeItem, bool)>) -> (r: (Vec<(LayerPipeItem, bool)>, VecDeque<(LayerPipeItem, bool)>))
        requires
            old(self).wf(),
        ensures
            final(self).wf(),
            forall|i: int| 0 <= i < r.0@.len() ==> !((#[trigger] r.0@[i]).0 is SomeEvent),
            all_events(r.1@),
            lowered_all(routed(items@, PropagationDirecion::Down), r.0@),
            r.1@ == routed(items@, PropagationDirecion::Up),
            *final(ids) == *old(ids),
            old(self).sent(*old(ids), items@, *final(self), *final(ids), r.0@, r.1@),
    {
        let (cmds, evs) = self.pipe.send(ids, items);
        proof {
            lemma_outputs_by_side(cmds@, evs@);
        }
        (lowered_vec(cmds), evs)
    }
}

/// The second layer events the items carry, in order.
pub open spec fn second_events(items: Seq<(LayerPipeItem, bool)>) -> Seq<SecondLayerEvent> {
    items.map_values(|x: (LayerPipeItem, bool)| second_event_of(x.0))
}

/// The physical commands the items carry, in order.
pub open spec fn physical_commands(items: Seq<(LayerPipeItem, bool)>) -> Seq<PhysicalLayerCommand> {
    items.map_values(|x: (LayerPipeItem, bool)| physical_command_of(x.0))
}

/// The moments of a line's stack while one item goes through it and what it
/// raises comes back: the counter of identifiers, what left each layer at the
/// bottom and at the top at each crossing, and each layer as it stood.
pub struct LineSteps {
    pub ids: Seq<IdCounter>,
    pub downs: Seq<Seq<(LayerPipeItem, bool)>>,
    pub ups: Seq<Seq<(LayerPipeItem, bool)>>,
    pub physical: Seq<PhysicalLayerProtocolStack>,
    pub first: Seq<FirstLayerProtocolStack>,
    pub second: Seq<SecondLayerProtocolStack>,
}

/// The protocol stack of one end of a line: physical, first and second layers.
pub struct ProtocolStack {
    layer0: PhysicalLayerProtocolStack,
    layer1: FirstLayerProtocolStack,
    layer2: SecondLayerProtocolStack,
}

impl ProtocolStack {
    pub closed spec fn wf(&self) -> bool {
        self.layer0.wf() && self.layer1.wf() && self.layer2.wf()
    }

    /// The entities of the first layer, from the top one down.
    pub closed spec fn first_layer(&self) -> Seq<FirstLayerEntity> {
        self.layer1.entities()
    }

    /// How a second layer command goes down the stack, from this stack and the
    /// counter `ids0` to `next` and `ids1`, through the moments `w`: the second
    /// layer lowers it; the first layer sends on what comes down, and what it
    /// raises goes through the second layer; the physical layer sends on what
    /// the first lets down, and what it raises goes back up through the first
    /// and second layers. `pc` are the physical commands that leave at the
    /// bottom, and `ev` the second layer events that leave at the top, in the
    /// order they left.
    pub closed spec fn command_chain(&self, ids0: IdCounter, cmd: SecondLayerCommand, next: Self, ids1: IdCounter,
        pc: Seq<PhysicalLayerCommand>, ev: Seq<SecondLayerEvent>, w: LineSteps) -> bool {
        let item = LayerPipeItem::SomeCommand(LineId(0), LayerCommand::SecondLayer(cmd));
        &&& w.ids.len() == 7 && w.downs.len() == 6 && w.ups.len() == 6
        &&& w.physical.len() == 2 && w.first.len() == 3 && w.second.len() == 4
        &&& w.ids[0] == ids0 && w.ids[6] == ids1
        &&& w.physical[0] == self.layer0 && w.first[0] == self.layer1 && w.second[0] == self.layer2
        &&& w.second[0].sent(w.ids[0], seq![(item, false)], w.second[1], w.ids[1], w.downs[0], w.ups[0])
        &&& w.first[0].sent(w.ids[1], w.downs[0], w.first[1], w.ids[2], w.downs[1], w.ups[1])
        &&& w.second[1].sent(w.ids[2], w.ups[1], w.second[2], w.ids[3], w.downs[2], w.ups[2])
        &&& w.physical[0].sent(w.ids[3], w.downs[1], w.physical[1], w.ids[4], w.downs[3], w.ups[3])
        &&& w.first[1].sent(w.ids[4], w.ups[3], w.first[2], w.ids[5], w.downs[4], w.ups[4])
        &&& w.second[2].sent(w.ids[5], w.ups[4], w.second[3], w.ids[6], w.downs[5], w.ups[5])
        &&& next == (ProtocolStack { layer0: w.physical[1], layer1: w.first[2], layer2: w.second[3] })
        &&& pc == physical_commands(w.downs[3])
        &&& ev == second_events(w.ups[0]) + second_events(w.ups[2]) + second_events(w.ups[5])
    }

    /// A second layer command goes down the stack as `command_chain` says,
    /// through some moments.
    pub closed spec fn command_run(&self, ids0: IdCounter, cmd: SecondLayerCommand, next: Self, ids1: IdCounter,
        pc: Seq<PhysicalLayerCommand>, ev: Seq<SecondLayerEvent>) -> bool {
        exists|w: LineSteps| #[trigger] self.command_chain(ids0, cmd, next, ids1, pc, ev, w)
    }

    /// How a physical event goes up the stack, through the moments `w`: the
    /// physical layer raises it, and what it lets down is sent; the first
    /// layer takes what comes up, and what it lets down goes through the
    /// physical layer; the second layer takes what comes up from the first,
    /// and what it lets down goes through the first and physical layers.
    /// `pc` are the physical commands that leave at the bottom, and `ev` the
    /// second layer events that leave at the top, in the order they left.
    pub closed spec fn event_chain(&self, ids0: IdCounter, event: PhysicalLayerEvent, next: Self, ids1: IdCounter,
        pc: Seq<PhysicalLayerCommand>, ev: Seq<SecondLayerEvent>, w: LineSteps) -> bool {
        let item = LayerPipeItem::SomeEvent(LineId(0), LayerEvent::PhysicalLayer(event));
        &&& w.ids.len() == 7 && w.downs.len() == 6 && w.ups.len() == 6
        &&& w.physical.len() == 4 && w.first.len() == 3 && w.second.len() == 2
        &&& w.ids[0] == ids0 && w.ids[6] == ids1
        &&& w.physical[0] == self.layer0 && w.first[0] == self.layer1 && w.second[0] == self.layer2
        &&& w.physical[0].sent(w.ids[0], seq![(item, false)], w.physical[1], w.ids[1], w.downs[0], w.ups[0])
        &&& w.first[0].sent(w.ids[1], w.ups[0], w.first[1], w.ids[2], w.downs[1], w.ups[1])
        &&& w.physical[1].sent(w.ids[2], w.downs[1], w.physical[2], w.ids[3], w.downs[2], w.ups[2])
        &&& w.second[0].sent(w.ids[3], w.ups[1], w.second[1], w.ids[4], w.downs[3], w.ups[3])
        &&& w.first[1].sent(w.ids[4], w.downs[3], w.first[2], w.ids[5], w.downs[4], w.ups[4])
        &&& w.physical[2].sent(w.ids[5], w.downs[4], w.physical[3], w.ids[6], w.downs[5], w.ups[5])
        &&& next == (ProtocolStack { layer0: w.physical[3], layer1: w.first[2], layer2: w.second[1] })
        &&& pc == physical_commands(w.downs[0]) + physical_commands(w.downs[2]) + physical_commands(w.downs[5])
        &&& ev == second_events(w.ups[3])
    }

    /// A physical event goes up the stack as `event_chain` says, through some
    /// moments.
    pub closed spec fn event_run(&self, ids0: IdCounter, event: PhysicalLayerEvent, next: Self, ids1: IdCounter,
        pc: Seq<PhysicalLayerCommand>, ev: Seq<SecondLayerEvent>) -> bool {
        exists|w: LineSteps| #[trigger] self.event_chain(ids0, event, next, ids1, pc, ev, w)
    }

    /// The first layer holds the channel monitor above the chunk sender.
    pub proof fn lemma_first_layer_shape(&self)
        requires
            self.wf(),
        ensures
            self.first_layer().len() == 2,
            self.first_layer()[0] is Monitor,
            self.first_layer()[1] is Sender,
    {
    }

    pub fn new(node_addr: NodeAddress, line_id: LineId, line_delay: LineDelay, max_first_layer_channels: usize) -> (r: Self)
        ensures
            r.wf(),
            fresh_first_layer(r.first_layer(), node_addr, line_delay, max_first_layer_channels),
    {
        ProtocolStack {
            layer0: PhysicalLayerProtocolStack::new(line_delay),
            layer1: FirstLayerProtocolStack::new(node_addr, line_delay, max_first_layer_channels),
            layer2: SecondLayerProtocolStack::new(),
        }
    }

    /// Carries a second layer command down the stack, and the events it
    /// raises on the way back up; identifiers are taken from `ids`. The physical commands that come out at the
    /// bottom are appended to `res_cmds`, the second layer events that come
    /// out at the top to `res_events`.
    pub fn propagate_command(&mut self, ids: &mut IdCounter, cmd: SecondLayerCommand, res_cmds: &mut Vec<PhysicalLayerCommand>, res_events: &mut Vec<SecondLayerEvent>)
        requires
            old(self).wf(),
        ensures
            final(self).wf(),
            final(res_cmds)@.subrange(0, old(res_cmds)@.len() as int) == old(res_cmds)@,
            final(res_events)@.subrange(0, old(res_events)@.len() as int) == old(res_events)@,
            final(res_cmds)@.len() >= old(res_cmds)@.len(),
            final(res_events)@.len() >= old(res_events)@.len(),
            first_layer_lets_down(old(self).first_layer(), cmd) ==> {
                &&& final(res_events)@ == old(res_events)@
                &&& final(res_cmds)@.len() == old(res_cmds)@.len() + 1
                &&& exists|f: FirstLayerCommand| #[trigger] first_of_second(cmd, f) && physical_of_first(f, final(res_cmds)@.last())
            },
            handed_to_send(cmd) is Some ==> {
                &&& final(res_events)@ == old(res_events)@
                &&& final(res_cmds)@.len() == old(res_cmds)@.len() + 1
                &&& transmits_sent(cmd, *old(ids), final(res_cmds)@.last())
                &&& final(ids).peek() == (if old(ids).peek() == usize::MAX { 0 } else { old(ids).peek() + 1 })
            },
            old(self).command_run(*old(ids), cmd, *final(self), *final(ids),
                final(res_cmds)@.subrange(old(res_cmds)@.len() as int, final(res_cmds)@.len() as int),
                final(res_events)@.subrange(old(res_events)@.len() as int, final(res_events)@.len() as int)),
    {
        let ghost ids0 = *ids;
        let ghost st0 = *self;
        let ghost sends = handed_to_send(cmd) is Some;
        let ghost c0 = res_cmds@;
        let ghost e0 = res_events@;
        let ghost es = self.layer1.entities();
        let ghost lets = first_layer_lets_down(es, cmd);
        let item = LayerPipeItem::SomeCommand(LineId(0), LayerCommand::SecondLayer(cmd));
        let mut input: Vec<(LayerPipeItem, bool)> = Vec::new();
        input.push((item, false));
        proof {
            assert(input@ =~= seq![(item, false)]);
            lemma_routed_single((item, false), PropagationDirecion::Down);
            lemma_routed_single((item, false), PropagationDirecion::Up);
        }
        let (cmds2, evs2) = self.layer2.propagate_items(ids, input);
        let ghost d0 = cmds2@;
        let ghost u0 = evs2@;
        let ghost l2_1 = self.layer2;
        let ghost i1 = *ids;
        let ghost f_item = cmds2@[0].0;
        proof {
            assert(cmds2@.len() == 1 && evs2@.len() == 0);
            assert(lowered(item, f_item));
            assert(cmds2@[0] == (f_item, false));
        }
        let ghost f = f_item->SomeCommand_1->FirstLayer_0;
        proof {
            assert(f_item == LayerPipeItem::SomeCommand(LineId(0), LayerCommand::FirstLayer(f)));
            assert(first_of_second(cmd, f));
            if lets {
                assert(all_pass::<LayerPipeItem, IdCounter, FirstLayerEntity>(es, f_item));
            }
        }
        extend_events(res_events, evs2);
        let ghost e1 = res_events@;
        let (cmds1, evs1) = self.layer1.propagate_items(ids, cmds2);
        let ghost d1 = cmds1@;
        let ghost u1 = evs1@;
        let ghost l1_1 = self.layer1;
        let ghost i2 = *ids;
        let ghost ids1 = *ids;
        let ghost p_item = cmds1@[0].0;
        proof {
            if sends {
                assert(cmds2@ =~= seq![(f_item, false)]);
                assert(sender_rewrites(f_item));
                assert(cmds1@.len() == 1 && evs1@.len() == 0);
                assert(cmds1@ =~= seq![(p_item, false)]);
                lemma_routed_single((p_item, false), PropagationDirecion::Down);
                lemma_routed_single((p_item, false), PropagationDirecion::Up);
            }
            if lets {
                lemma_routed_single((f_item, false), PropagationDirecion::Down);
                lemma_routed_single((f_item, false), PropagationDirecion::Up);
                assert(cmds2@ =~= seq![(f_item, false)]);
                assert(cmds1@.len() == 1 && evs1@.len() == 0);
                assert(lowered(f_item, p_item));
                assert(cmds1@[0] == (p_item, false));
                assert(cmds1@ =~= seq![(p_item, false)]);
                lemma_routed_single((p_item, false), PropagationDirecion::Down);
                lemma_routed_single((p_item, false), PropagationDirecion::Up);
            }
            lemma_routed_empty::<LayerPipeItem>(PropagationDirecion::Down);
            lemma_routed_empty::<LayerPipeItem>(PropagationDirecion::Up);
        }
        let (x2b, evs2b) = self.layer2.propagate_items(ids, evs1);
        let ghost d2 = x2b@;
        let ghost u2 = evs2b@;
        let ghost l2_2 = self.layer2;
        let ghost i3 = *ids;
        extend_events(res_events, evs2b);
        let ghost e2 = res_events@;
        let (cmds0, evs0) = self.layer0.propagate_items(ids, cmds1);
        let ghost d3 = cmds0@;
        let ghost u3 = evs0@;
        let ghost l0_1 = self.layer0;
        let ghost i4 = *ids;
        proof {
            if lets || sends {
                assert(evs1@ =~= Seq::<(LayerPipeItem, bool)>::empty());
                assert(evs0@.len() == 0);
                assert(evs0@ =~= Seq::<(LayerPipeItem, bool)>::empty());
            }
        }
        let (x1b, evs1b) = self.layer1.propagate_items(ids, evs0);
        let ghost d4 = x1b@;
        let ghost u4 = evs1b@;
        let ghost l1_2 = self.layer1;
        let ghost i5 = *ids;
        proof {
            if lets || sends {
                assert(evs1b@.len() == 0);
                assert(evs1b@ =~= Seq::<(LayerPipeItem, bool)>::empty());
            }
        }
        let (x2c, evs2c) = self.layer2.propagate_items(ids, evs1b);
        let ghost d5 = x2c@;
        let ghost u5 = evs2c@;
        let ghost l2_3 = self.layer2;
        let ghost i6 = *ids;
        extend_events(res_events, evs2c);
        extend_commands(res_cmds, cmds0);
        proof {
            if lets {
                assert(res_events@ =~= e0);
                assert(res_cmds@.last() == physical_command_of(p_item));
                assert(physical_of_first(f, res_cmds@.last()));
            }
            if sends {
                assert(res_events@ =~= e0);
                assert(res_cmds@.last() == physical_command_of(p_item));
                let o = choose|o: LayerPipeItem| #[trigger] sent_as(ids0, f_item, ids1, o) && lowered(o, p_item);
                assert(transmits_sent(cmd, ids0, res_cmds@.last()));
            }
        }
        proof {
            assert(res_events@.subrange(0, e0.len() as int) =~= e1.subrange(0, e0.len() as int));
            assert(e1.subrange(0, e0.len() as int) =~= e2.subrange(0, e0.len() as int));
            let w = LineSteps {
                ids: seq![ids0, i1, i2, i3, i4, i5, i6],
                downs: seq![d0, d1, d2, d3, d4, d5],
                ups: seq![u0, u1, u2, u3, u4, u5],
                physical: seq![st0.layer0, l0_1],
                first: seq![st0.layer1, l1_1, l1_2],
                second: seq![st0.layer2, l2_1, l2_2, l2_3],
            };
            assert(res_cmds@.subrange(c0.len() as int, res_cmds@.len() as int) =~= physical_commands(d3));
            assert(res_events@.subrange(e0.len() as int, res_events@.len() as int)
                =~= second_events(u0) + second_events(u2) + second_events(u5));
            assert(st0.command_chain(ids0, cmd, *self, *ids, res_cmds@.subrange(c0.len() as int, res_cmds@.len() as int),
                res_events@.subrange(e0.len() as int, res_events@.len() as int), w));
        }
    }

    /// Carries a physical event up the stack, and the commands it raises on
    /// the way back down; identifiers are taken from `ids`. The physical commands that come out at the bottom
    /// are appended to `res_cmds`, the second layer events that come out at
    /// the top to `res_events`.
    pub fn propagate_event(&mut self, ids: &mut IdCounter, event: PhysicalLayerEvent, res_cmds: &mut Vec<PhysicalLayerCommand>, res_events: &mut Vec<SecondLayerEvent>)
        requires
            old(self).wf(),
        ensures
            final(self).wf(),
            final(res_cmds)@.subrange(0, old(res_cmds)@.len() as int) == old(res_cmds)@,
            final(res_events)@.subrange(0, old(res_events)@.len() as int) == old(res_events)@,
            final(res_cmds)@.len() >= old(res_cmds)@.len(),
            final(res_events)@.len() >= old(res_events)@.len(),
            first_layer_lets_up(old(self).first_layer(), event) ==> {
                &&& final(res_cmds)@ == old(res_cmds)@
                &&& final(res_events)@.len() == old(res_events)@.len() + 1
                &&& exists|f: FirstLayerEvent| #[trigger] first_of_physical(event, f) && second_of_first(f, final(res_events)@.last())
            },
            old(self).event_run(*old(ids), event, *final(self), *final(ids),
                final(res_cmds)@.subrange(old(res_cmds)@.len() as int, final(res_cmds)@.len() as int),
                final(res_events)@.subrange(old(res_events)@.len() as int, final(res_events)@.len() as int)),
    {
        let ghost ids0 = *ids;
        let ghost st0 = *self;
        let ghost c0 = res_cmds@;
        let ghost e0 = res_events@;
        let ghost es = self.layer1.entities();
        let ghost lets = first_layer_lets_up(es, event);
        let item = LayerPipeItem::SomeEvent(LineId(0), LayerEvent::PhysicalLayer(event));
        let mut input: Vec<(LayerPipeItem, bool)> = Vec::new();
        input.push((item, false));
        proof {
            assert(input@ =~= seq![(item, false)]);
            lemma_routed_single((item, false), PropagationDirecion::Down);
            lemma_routed_single((item, false), PropagationDirecion::Up);
            lemma_routed_empty::<LayerPipeItem>(PropagationDirecion::Down);
            lemma_routed_empty::<LayerPipeItem>(PropagationDirecion::Up);
        }
        let (cmds0, evs0) = self.layer0.propagate_items(ids, input);
        let ghost d0 = cmds0@;
        let ghost u0 = evs0@;
        let ghost l0_1 = self.layer0;
        let ghost i1 = *ids;
        let ghost f_item = evs0@[0].0;
        proof {
            assert(cmds0@.len() == 0 && evs0@.len() == 1);
            assert(raised(item, f_item));
            assert(evs0@[0] == (f_item, false));
            assert(evs0@ =~= seq![(f_item, false)]);
        }
        let ghost f = f_item->SomeEvent_1->FirstLayer_0;
        proof {
            assert(f_item == LayerPipeItem::SomeEvent(LineId(0), LayerEvent::FirstLayer(f)));
            assert(first_of_physical(event, f));
            if lets {
                assert(all_pass::<LayerPipeItem, IdCounter, FirstLayerEntity>(es, f_item));
            }
            lemma_routed_single((f_item, false), PropagationDirecion::Down);
            lemma_routed_single((f_item, false), PropagationDirecion::Up);
        }
        extend_commands(res_cmds, cmds0);
        let ghost c1 = res_cmds@;
        let (cmds1, evs1) = self.layer1.propagate_items(ids, evs0);
        let ghost d1 = cmds1@;
        let ghost u1 = evs1@;
        let ghost l1_1 = self.layer1;
        let ghost i2 = *ids;
        let ghost s_item = evs1@[0].0;
        proof {
            if lets {
                assert(cmds1@.len() == 0 && evs1@.len() == 1);
                assert(cmds1@ =~= Seq::<(LayerPipeItem, bool)>::empty());
                assert(raised(f_item, s_item));
                assert(evs1@[0] == (s_item, false));
                assert(evs1@ =~= seq![(s_item, false)]);
                lemma_routed_single((s_item, false), PropagationDirecion::Down);
                lemma_routed_single((s_item, false), PropagationDirecion::Up);
            }
        }
        let (cmds0b, y0b) = self.layer0.propagate_items(ids, cmds1);
        let ghost d2 = cmds0b@;
        let ghost u2 = y0b@;
        let ghost l0_2 = self.layer0;
        let ghost i3 = *ids;
        extend_commands(res_cmds, cmds0b);
        let ghost c2 = res_cmds@;
        let (cmds2, evs2) = self.layer2.propagate_items(ids, evs1);
        let ghost d3 = cmds2@;
        let ghost u3 = evs2@;
        let ghost l2_1 = self.layer2;
        let ghost i4 = *ids;
        proof {
            if lets {
                assert(cmds2@.len() == 0);
                assert(cmds2@ =~= Seq::<(LayerPipeItem, bool)>::empty());
                assert(evs2@ =~= seq![(s_item, false)]);
            }
        }
        let (cmds1b, y1b) = self.layer1.propagate_items(ids, cmds2);
        let ghost d4 = cmds1b@;
        let ghost u4 = y1b@;
        let ghost l1_2 = self.layer1;
        let ghost i5 = *ids;
        proof {
            if lets {
                assert(cmds1b@.len() == 0);
                assert(cmds1b@ =~= Seq::<(LayerPipeItem, bool)>::empty());
            }
        }
        let (cmds0c, y0c) = self.layer0.propagate_items(ids, cmds1b);
        let ghost d5 = cmds0c@;
        let ghost u5 = y0c@;
        let ghost l0_3 = self.layer0;
        let ghost i6 = *ids;
        extend_commands(res_cmds, cmds0c);
        extend_events(res_events, evs2);
        proof {
            if lets {
                assert(res_cmds@ =~= c0);
                assert(res_events@.last() == second_event_of(s_item));
                assert(second_of_first(f, res_events@.last()));
            }
        }
        proof {
            assert(res_cmds@.subrange(0, c0.len() as int) =~= c1.subrange(0, c0.len() as int));
            assert(c1.subrange(0, c0.len() as int) =~= c2.subrange(0, c0.len() as int));
            let w = LineSteps {
                ids: seq![ids0, i1, i2, i3, i4, i5, i6],
                downs: seq![d0, d1, d2, d3, d4, d5],
                ups: seq![u0, u1, u2, u3, u4, u5],
                physical: seq![st0.layer0, l0_1, l0_2, l0_3],
                first: seq![st0.layer1, l1_1, l1_2],
                second: seq![st0.layer2, l2_1],
            };
            assert(res_cmds@.subrange(c0.len() as int, res_cmds@.len() as int)
                =~= physical_commands(d0) + physical_commands(d2) + physical_commands(d5));
            assert(res_events@.subrange(e0.len() as int, res_events@.len() as int) =~= second_events(u3));
            assert(st0.event_chain(ids0, event, *self, *ids, res_cmds@.subrange(c0.len() as int, res_cmds@.len() as int),
                res_events@.subrange(e0.len() as int, res_events@.len() as int), w));
        }
    }
}

/// A node's own layer: the expired streams cleaner, the address map resolver
/// and the peer channel monitor, from the top down.
pub struct NodeLayer {
    pipe: Pipe<LayerPipeItem, NodeEntity>,
}

impl NodeLayer {
    pub closed spec fn wf(&self) -> bool {
        self.pipe.well_formed()
    }

    /// The entities, from the top one down.
    pub closed spec fn entities(&self) -> Seq<NodeEntity> {
        self.pipe.entities()
    }

    /// The allocation of the layer's pipe.
    pub closed spec fn allocation(&self) -> PipeState<LayerPipeItem> {
        self.pipe.allocation()
    }

    /// What sending `items` through the layer does, from this layer and the
    /// shared state `sh0` to `next` and `sh1`: `down` leaves at the bottom and
    /// `up` at the top.
    pub closed spec fn sent(&self, sh0: NodeLayerState, items: Seq<(LayerPipeItem, bool)>, next: Self, sh1: NodeLayerState,
        down: Seq<(LayerPipeItem, bool)>, up: Seq<(LayerPipeItem, bool)>) -> bool {
        self.pipe.spec_sent(sh0, items, next.pipe, sh1, down, up)
    }

    pub fn new(node_addr: NodeAddress, lines: Vec<LineId>) -> (r: Self)
        ensures
            r.wf(),
            fresh_node_layer(r.entities(), node_addr, lines@),
    {
        let mut pipe = Pipe::new();
        pipe.hook(NodeEntity::Cleaner(ExpiredStreamsCleaner::new(node_addr, lines.clone())));
        pipe.hook(NodeEntity::Resolver(AddressMapResolver::new(node_addr, lines)));
        pipe.hook(NodeEntity::Peers(PeerChannelMonitor::new(node_addr)));
        NodeLayer { pipe }
    }

    fn propagate_items(&mut self, shared: &mut NodeLayerState, items: Vec<(LayerPipeItem, bool)>) -> (r: (VecDeque<(LayerPipeItem, bool)>, VecDeque<(LayerPipeItem, bool)>))
        requires
            old(self).wf(),
        ensures
            final(self).wf(),
            all_commands(r.0@),
            all_events(r.1@),
            (forall|i: int| 0 <= i < items@.len() ==> (#[trigger] items@[i]).1 || all_pass(old(self).entities(), items@[i].0))
                ==> r.0@ == routed(items@, PropagationDirecion::Down) && r.1@ == routed(items@, PropagationDirecion::Up)
                && final(self).entities() == old(self).entities() && *final(shared) == *old(shared),
            exists|bounds: Seq<(Seq<NodeEntity>, NodeLayerState, PipeState<LayerPipeItem>)>| #[trigger] send_run(items@, bounds)
                && bounds[0] == (old(self).entities(), *old(shared),
                    PipeState { top: Seq::<(LayerPipeItem, bool)>::empty(), bot: Seq::<(LayerPipeItem, bool)>::empty(), ..old(self).allocation() })
                && bounds.last().0 == final(self).entities() && bounds.last().1 == *final(shared)
                && r.0@ == bounds.last().2.bot && r.1@ == bounds.last().2.top
                && final(self).allocation() == (PipeState { top: Seq::<(LayerPipeItem, bool)>::empty(),
                    bot: Seq::<(LayerPipeItem, bool)>::empty(), ..bounds.last().2 }),
            old(self).sent(*old(shared), items@, *final(self), *final(shared), r.0@, r.1@),
    {
        let (cmds, evs) = self.pipe.send(shared, items);
        proof {
            lemma_outputs_by_side(cmds@, evs@);
        }
        (cmds, evs)
    }
}

/// The protocol stack of a node, above the stacks of its lines; it holds the
/// node's address map.
pub struct NodeProtocolStack {
    layer3: NodeLayer,
    state: NodeLayerState,
}

impl NodeProtocolStack {
    pub closed spec fn wf(&self) -> bool {
        self.layer3.wf()
    }

    pub closed spec fn spec_address_map(&self) -> AddressMap {
        self.state.address_map
    }

    /// The entities of the node's layer, from the top one down.
    pub closed spec fn node_layer(&self) -> Seq<NodeEntity> {
        self.layer3.entities()
    }

    /// The allocation of the node layer's pipe.
    pub closed spec fn node_allocation(&self) -> PipeState<LayerPipeItem> {
        self.layer3.allocation()
    }

    /// The state the node's entities share, with the counter of
    /// identifiers the stack holds between calls.
    pub closed spec fn layer_state(&self) -> NodeLayerState {
        self.state
    }

    /// How `item` goes through the node's layer, from this stack and the
    /// counter `ids0` to `next` and `ids1`: the entities share the stack's
    /// state with the counter in it; `cmds` are the items that leave at the
    /// bottom and `evs` those that leave at the top, in order.
    pub closed spec fn item_run(&self, ids0: IdCounter, item: LayerPipeItem, next: Self, ids1: IdCounter,
        cmds: Seq<LayerPipeItem>, evs: Seq<LayerPipeItem>) -> bool {
        exists|sh1: NodeLayerState, down: Seq<(LayerPipeItem, bool)>, up: Seq<(LayerPipeItem, bool)>|
            #[trigger] self.layer3.sent(NodeLayerState { ids: ids0, ..self.state }, seq![(item, false)], next.layer3, sh1, down, up)
            && ids1 == sh1.ids && next.state == (NodeLayerState { ids: self.state.ids, ..sh1 })
            && cmds == down.map_values(|x: (LayerPipeItem, bool)| x.0) && evs == up.map_values(|x: (LayerPipeItem, bool)| x.0)
    }

    /// The node's stack for its lines, around the node's address map, which
    /// outlives any one connection of the node.
    pub fn new(node_addr: NodeAddress, lines: Vec<LineId>, address_map: AddressMap) -> (r: Self)
        ensures
            r.wf(),
            r.spec_address_map() == address_map,
    {
        NodeProtocolStack { layer3: NodeLayer::new(node_addr, lines), state: NodeLayerState::new(address_map) }
    }

    /// Gives the node's address map back when the stack is done with.
    pub fn into_address_map(self) -> (r: AddressMap)
        ensures
            r == self.spec_address_map(),
    {
        self.state.address_map
    }

    /// The node's address map.
    pub fn address_map(&self) -> (r: &AddressMap)
        ensures
            *r == self.spec_address_map(),
    {
        &self.state.address_map
    }

    /// Carries a node command through the node's layer; the commands that
    /// come out at the bottom are appended to `res_cmds`, the events that come
    /// out at the top to `res_events`.
    pub fn propagate_command(&mut self, ids: &mut IdCounter, cmd: NodeCommand, res_cmds: &mut Vec<LayerPipeItem>, res_events: &mut Vec<LayerPipeItem>)
        requires
            old(self).wf(),
        ensures
            final(self).wf(),
            final(res_cmds)@.subrange(0, old(res_cmds)@.len() as int) == old(res_cmds)@,
            final(res_events)@.subrange(0, old(res_events)@.len() as int) == old(res_events)@,
            final(res_cmds)@.len() >= old(res_cmds)@.len(),
            final(res_events)@.len() >= old(res_events)@.len(),
            forall|i: int| old(res_cmds)@.len() <= i < final(res_cmds)@.len() ==> (#[trigger] final(res_cmds)@[i]) is SomeCommand,
            forall|i: int| old(res_events)@.len() <= i < final(res_events)@.len() ==> (#[trigger] final(res_events)@[i]) is SomeEvent,
            all_pass::<LayerPipeItem, NodeLayerState, NodeEntity>(old(self).node_layer(), LayerPipeItem::SomeCommand(cmd.0, LayerCommand::SecondLayer(cmd.1)))
                ==> final(res_events)@ == old(res_events)@ && final(res_cmds)@ == old(res_cmds)@.push(LayerPipeItem::SomeCommand(cmd.0, LayerCommand::SecondLayer(cmd.1)))
                && final(self).node_layer() == old(self).node_layer() && final(self).spec_address_map() == old(self).spec_address_map()
                && *final(ids) == *old(ids),
            exists|bounds: Seq<(Seq<NodeEntity>, NodeLayerState, PipeState<LayerPipeItem>)>|
                #[trigger] send_run(seq![(LayerPipeItem::SomeCommand(cmd.0, LayerCommand::SecondLayer(cmd.1)), false)], bounds)
                && bounds[0] == (old(self).node_layer(), NodeLayerState { ids: *old(ids), ..old(self).layer_state() },
                    PipeState { top: Seq::<(LayerPipeItem, bool)>::empty(), bot: Seq::<(LayerPipeItem, bool)>::empty(),
                        ..old(self).node_allocation() })
                && bounds.last().0 == final(self).node_layer()
                && *final(ids) == bounds.last().1.ids
                && final(self).layer_state() == (NodeLayerState { ids: old(self).layer_state().ids, ..bounds.last().1 })
                && final(res_cmds)@ == old(res_cmds)@ + bounds.last().2.bot.map_values(|x: (LayerPipeItem, bool)| x.0)
                && final(res_events)@ == old(res_events)@ + bounds.last().2.top.map_values(|x: (LayerPipeItem, bool)| x.0),
            old(self).item_run(*old(ids), LayerPipeItem::SomeCommand(cmd.0, LayerCommand::SecondLayer(cmd.1)), *final(self), *final(ids),
                final(res_cmds)@.subrange(old(res_cmds)@.len() as int, final(res_cmds)@.len() as int),
                final(res_events)@.subrange(old(res_events)@.len() as int, final(res_events)@.len() as int)),
    {
        let ghost item = LayerPipeItem::SomeCommand(cmd.0, LayerCommand::SecondLayer(cmd.1));
        let ghost passing = all_pass::<LayerPipeItem, NodeLayerState, NodeEntity>(self.layer3.entities(), item);
        let mut input: Vec<(LayerPipeItem, bool)> = Vec::new();
        input.push((LayerPipeItem::from_node_command(cmd), false));
        proof {
            assert(input@ =~= seq![(item, false)]);
            lemma_routed_single((item, false), PropagationDirecion::Down);
            lemma_routed_single((item, false), PropagationDirecion::Up);
        }
        let ghost st0 = *self;
        let ghost ids0 = *ids;
        std::mem::swap(&mut self.state.ids, ids);
        assert(self.state == (NodeLayerState { ids: ids0, ..st0.state }));
        let (cmds, evs) = self.layer3.propagate_items(&mut self.state, input);
        let ghost sh1 = self.state;
        std::mem::swap(&mut self.state.ids, ids);
        let ghost c0 = res_cmds@;
        let ghost e0 = res_events@;
        let ghost cs = cmds@;
        let ghost es = evs@;
        append_items(res_events, evs);
        append_items(res_cmds, cmds);
        proof {
            assert forall|i: int| c0.len() <= i < res_cmds@.len() implies (#[trigger] res_cmds@[i]) is SomeCommand by {
                assert(cs[i - c0.len()].0 is SomeCommand);
            }
            assert forall|i: int| e0.len() <= i < res_events@.len() implies (#[trigger] res_events@[i]) is SomeEvent by {
                assert(es[i - e0.len()].0 is SomeEvent);
            }
            assert(res_cmds@ =~= c0 + cs.map_values(|x: (LayerPipeItem, bool)| x.0));
            assert(res_events@ =~= e0 + es.map_values(|x: (LayerPipeItem, bool)| x.0));
            assert(res_cmds@.subrange(c0.len() as int, res_cmds@.len() as int) =~= cs.map_values(|x: (LayerPipeItem, bool)| x.0));
            assert(res_events@.subrange(e0.len() as int, res_events@.len() as int) =~= es.map_values(|x: (LayerPipeItem, bool)| x.0));
            assert(st0.layer3.sent(NodeLayerState { ids: ids0, ..st0.state }, seq![(item, false)], self.layer3, sh1, cs, es));
            assert(self.state == (NodeLayerState { ids: st0.state.ids, ..sh1 }));
        }
    }

    /// Carries a node event through the node's layer; the commands that come
    /// out at the bottom are appended to `res_cmds`, the events that come out
    /// at the top to `res_events`.
    pub fn propagate_event(&mut self, ids: &mut IdCounter, event: NodeEvent, res_cmds: &mut Vec<LayerPipeItem>, res_events: &mut Vec<LayerPipeItem>)
        requires
            old(self).wf(),
        ensures
            final(self).wf(),
            final(res_cmds)@.subrange(0, old(res_cmds)@.len() as int) == old(res_cmds)@,
            final(res_events)@.subrange(0, old(res_events)@.len() as int) == old(res_events)@,
            final(res_cmds)@.len() >= old(res_cmds)@.len(),
            final(res_events)@.len() >= old(res_events)@.len(),
            forall|i: int| old(res_cmds)@.len() <= i < final(res_cmds)@.len() ==> (#[trigger] final(res_cmds)@[i]) is SomeCommand,
            forall|i: int| old(res_events)@.len() <= i < final(res_events)@.len() ==> (#[trigger] final(res_events)@[i]) is SomeEvent,
            all_pass::<LayerPipeItem, NodeLayerState, NodeEntity>(old(self).node_layer(), LayerPipeItem::SomeEvent(event.0, LayerEvent::SecondLayer(event.1)))
                ==> final(res_cmds)@ == old(res_cmds)@ && final(res_events)@ == old(res_events)@.push(LayerPipeItem::SomeEvent(event.0, LayerEvent::SecondLayer(event.1)))
                && final(self).node_layer() == old(self).node_layer() && final(self).spec_address_map() == old(self).spec_address_map(),
            old(self).item_run(*old(ids), LayerPipeItem::SomeEvent(event.0, LayerEvent::SecondLayer(event.1)), *final(self), *final(ids),
                final(res_cmds)@.subrange(old(res_cmds)@.len() as int, final(res_cmds)@.len() as int),
                final(res_events)@.subrange(old(res_events)@.len() as int, final(res_events)@.len() as int)),
    {
        let ghost item = LayerPipeItem::SomeEvent(event.0, LayerEvent::SecondLayer(event.1));
        let ghost passing = all_pass::<LayerPipeItem, NodeLayerState, NodeEntity>(self.layer3.entities(), item);
        let mut input: Vec<(LayerPipeItem, bool)> = Vec::new();
        input.push((LayerPipeItem::from_node_event(event), false));
        proof {
            assert(input@ =~= seq![(item, false)]);
            lemma_routed_single((item, false), PropagationDirecion::Down);
            lemma_routed_single((item, false), PropagationDirecion::Up);
        }
        let ghost st0 = *self;
        let ghost ids0 = *ids;
        std::mem::swap(&mut self.state.ids, ids);
        assert(self.state == (NodeLayerState { ids: ids0, ..st0.state }));
        let (cmds, evs) = self.layer3.propagate_items(&mut self.state, input);
        let ghost sh1 = self.state;
        std::mem::swap(&mut self.state.ids, ids);
        let ghost c0 = res_cmds@;
        let ghost e0 = res_events@;
        let ghost cs = cmds@;
        let ghost es = evs@;
        append_items(res_events, evs);
        append_items(res_cmds, cmds);
        proof {
            assert forall|i: int| c0.len() <= i < res_cmds@.len() implies (#[trigger] res_cmds@[i]) is SomeCommand by {
                assert(cs[i - c0.len()].0 is SomeCommand);
            }
            assert forall|i: int| e0.len() <= i < res_events@.len() implies (#[trigger] res_events@[i]) is SomeEvent by {
                assert(es[i - e0.len()].0 is SomeEvent);
            }
            assert(res_cmds@ =~= c0 + cs.map_values(|x: (LayerPipeItem, bool)| x.0));
            assert(res_events@ =~= e0 + es.map_values(|x: (LayerPipeItem, bool)| x.0));
            assert(res_cmds@.subrange(c0.len() as int, res_cmds@.len() as int) =~= cs.map_values(|x: (LayerPipeItem, bool)| x.0));
            assert(res_events@.subrange(e0.len() as int, res_events@.len() as int) =~= es.map_values(|x: (LayerPipeItem, bool)| x.0));
            assert(st0.layer3.sent(NodeLayerState { ids: ids0, ..st0.state }, seq![(item, false)], self.layer3, sh1, cs, es));
            assert(self.state == (NodeLayerState { ids: st0.state.ids, ..sh1 }));
        }
    }
}

/// Appends the items, without their flags.
fn append_items(res: &mut Vec<LayerPipeItem>, items: VecDeque<(LayerPipeItem, bool)>)
    ensures
        final(res)@.len() == old(res)@.len() + items@.len(),
        final(res)@.subrange(0, old(res)@.len() as int) == old(res)@,
        forall|i: int| 0 <= i < items@.len() ==> final(res)@[old(res)@.len() + i] == (#[trigger] items@[i]).0,
{
    let mut items = items;
    let ghost start = res@;
    let ghost all = items@;
    let n: usize = items.len();
    let mut k: usize = 0;
    while items.len() > 0
        invariant
            all.len() == n,
            items@ == all.subrange(k as int, all.len() as int),
            k <= all.len(),
            res@.len() == start.len() + k,
            res@.subrange(0, start.len() as int) == start,
            forall|i: int| 0 <= i < k ==> res@[start.len() + i] == (#[trigger] all[i]).0,
        decreases items@.len(),
    {
        let (item, _) = items.pop_front().unwrap();
        res.push(item);
        k = k + 1;
        assert(items@ =~= all.subrange(k as int, all.len() as int));
        assert(res@.subrange(0, start.len() as int) =~= start);
    }
}

} // verus!
