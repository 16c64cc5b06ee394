use vstd::prelude::*;
use crate::protocol_stack::Chunk;
use crate::protocol_stack::line::{LineId, LineDelay, LineTransceiverId};
use crate::protocol_stack::node::NodeAddress;
use crate::protocol_stack::physical_layer::{PhysicalLayerCommand, PhysicalLayerEvent, TransmissionType};
use crate::protocol_stack::second_layer::{SecondLayerCommand, SecondLayerEvent};
use crate::protocol_stack::protocol_layers::{ProtocolStack, FirstLayerEntity, fresh_first_layer, first_layer_lets_down, first_layer_lets_up,
    transmits_sent, carries_sent, handed_to_send};
use crate::protocol_stack::first_layer::{FirstLayerCommand, FirstLayerEvent, first_of_second, first_of_physical};
use crate::protocol_stack::physical_layer::physical_of_first;
use crate::protocol_stack::second_layer::second_of_first;
use crate::utils::IdCounter;
use crate::protocol_stack::{outer_header, unwrapped, wrapped, Headers};
use crate::protocol_stack::channel_monitor::off_channel;
use crate::protocol_stack::layer_pipe_item::{LayerPipeItem, LayerEvent};
use crate::pipe::{all_pass, EventTarget};

verus! {

/// What a socket is made from: the end of the line it sits on, the line's
/// delay and how many first layer channels it may carry.
#[derive(Clone, Copy)]
pub struct SocketProfile {
    pub id: LineTransceiverId,
    pub line_delay: LineDelay,
    pub max_first_layer_channels: usize,
}

impl SocketProfile {
    pub fn new(id: LineTransceiverId, line_delay: LineDelay, max_first_layer_channels: usize) -> (r: Self)
        ensures
            r.id == id,
            r.line_delay == line_delay,
            r.max_first_layer_channels == max_first_layer_channels,
    {
        SocketProfile { id, line_delay, max_first_layer_channels }
    }

    /// The line the socket sits on.
    pub open spec fn spec_line_id(&self) -> LineId {
        self.id.spec_val()
    }

    pub fn line_id(&self) -> (r: LineId)
        ensures
            r == self.spec_line_id(),
    {
        *self.id.as_val_ref()
    }
}

/// Why a command could not be handed to a node.
pub enum SocketError {
    CommandStreamFull(LineId, SecondLayerCommand),
    CommandStreamDisconnected(LineId, SecondLayerCommand),
    NodeDisconnected(NodeAddress),
}

/// The transmissions that the commands ask for, taken from the last command
/// to the first.
pub open spec fn transmits_of(cmds: Seq<PhysicalLayerCommand>) -> Seq<(Chunk, TransmissionType)>
    decreases cmds.len(),
{
    if cmds.len() == 0 {
        Seq::empty()
    } else {
        let rest = transmits_of(cmds.drop_last());
        match cmds.last() {
            PhysicalLayerCommand::Transmit(c, t) => seq![(c, t)] + rest,
            _ => rest,
        }
    }
}

/// What a socket transmits for a block handed to it on no channel reaches the
/// other end of the line on no channel, and taking its first layer header off
/// there gives back the block as it was handed: for `Send(c, h, None)`, `c`
/// under `h`. So the other end's socket hands it up as the block received.
pub proof fn lemma_sent_block_arrives(cmd: SecondLayerCommand, ids: IdCounter, chunk: Chunk, tt: TransmissionType)
    requires
        carries_sent(cmd, ids, chunk, tt),
        handed_to_send(cmd) matches Some((v, ct, t)) && t is None && v.first is None,
    ensures
        tt == TransmissionType::Data,
        off_channel(outer_header(chunk@)),
        unwrapped(chunk@) == handed_to_send(cmd).unwrap().0,
        cmd matches SecondLayerCommand::Send(c, h, _) ==> unwrapped(chunk@) == wrapped(c@, Headers::SecondLayer(h)),
{
    assert(unwrapped(chunk@) =~= handed_to_send(cmd).unwrap().0);
}

/// Takes every command out, from the last to the first, and keeps the
/// transmissions among them; the other commands are dropped.
pub fn send_commands_on_stream(cmds: &mut Vec<PhysicalLayerCommand>) -> (r: Vec<(Chunk, TransmissionType)>)
    ensures
        final(cmds)@.len() == 0,
        r@ == transmits_of(old(cmds)@),
{
    let ghost total = transmits_of(cmds@);
    let mut r: Vec<(Chunk, TransmissionType)> = Vec::new();
    while cmds.len() > 0
        invariant
            r@ + transmits_of(cmds@) == total,
        decreases cmds@.len(),
    {
        let ghost before = cmds@;
        let cmd = cmds.pop().unwrap();
        proof {
            assert(cmds@ == before.drop_last());
        }
        match cmd {
            PhysicalLayerCommand::Transmit(chunk, chunk_type) => {
                let ghost r0 = r@;
                r.push((chunk, chunk_type));
                assert(r@ + transmits_of(cmds@) =~= r0 + transmits_of(before));
            },
            _ => {},
        }
    }
    assert(r@ =~= total);
    r
}

/// What a socket gives back: the second layer events for the node, in the
/// order they came out of the stack, and the transmissions to make on the
/// line.
pub struct SocketOutput {
    pub events: Vec<SecondLayerEvent>,
    pub transmits: Vec<(Chunk, TransmissionType)>,
}

/// One end of a line as a node sees it: the line's protocol stack.
pub struct Socket {
    node_addr: NodeAddress,
    profile: SocketProfile,
    protocol_stack: ProtocolStack,
    cmds: Vec<PhysicalLayerCommand>,
    events: Vec<SecondLayerEvent>,
}

impl Socket {
    pub closed spec fn wf(&self) -> bool {
        &&& self.protocol_stack.wf()
        &&& self.cmds@.len() == 0
        &&& self.events@.len() == 0
    }

    pub closed spec fn spec_profile(&self) -> SocketProfile {
        self.profile
    }

    /// What a second layer command does to the socket, from this socket and
    /// the counter `ids0` to `next` and `ids1`: it goes down the line's stack
    /// (`command_run`), and the socket hands out `transmits`, the
    /// transmissions among the physical commands that leave the stack, from
    /// the last to the first, and `events`, the second layer events that leave
    /// it, in order.
    pub closed spec fn answers_command(&self, ids0: IdCounter, cmd: SecondLayerCommand, next: Self, ids1: IdCounter,
        transmits: Seq<(Chunk, TransmissionType)>, events: Seq<SecondLayerEvent>) -> bool {
        &&& next.node_addr == self.node_addr && next.profile == self.profile
        &&& exists|pc: Seq<PhysicalLayerCommand>| #[trigger] self.protocol_stack.command_run(ids0, cmd, next.protocol_stack, ids1, pc, events)
            && transmits == transmits_of(pc)
    }

    /// What a physical event does to the socket: it goes up the line's stack
    /// (`event_run`), and the socket hands out the transmissions and events
    /// that leave it, as for a command.
    pub closed spec fn answers_event(&self, ids0: IdCounter, event: PhysicalLayerEvent, next: Self, ids1: IdCounter,
        transmits: Seq<(Chunk, TransmissionType)>, events: Seq<SecondLayerEvent>) -> bool {
        &&& next.node_addr == self.node_addr && next.profile == self.profile
        &&& exists|pc: Seq<PhysicalLayerCommand>| #[trigger] self.protocol_stack.event_run(ids0, event, next.protocol_stack, ids1, pc, events)
            && transmits == transmits_of(pc)
    }

    /// The entities of the first layer of the line's stack.
    pub closed spec fn spec_first_layer(&self) -> Seq<FirstLayerEntity> {
        self.protocol_stack.first_layer()
    }

    /// The first layer of a socket holds the channel monitor above the chunk
    /// sender.
    pub proof fn lemma_first_layer_shape(&self)
        requires
            self.wf(),
        ensures
            self.spec_first_layer().len() == 2,
            self.spec_first_layer()[0] is Monitor,
            self.spec_first_layer()[1] is Sender,
    {
        self.protocol_stack.lemma_first_layer_shape();
    }

    pub fn new(node_addr: NodeAddress, profile: SocketProfile) -> (r: Self)
        ensures
            r.wf(),
            r.spec_profile() == profile,
            fresh_first_layer(r.spec_first_layer(), node_addr, profile.line_delay, profile.max_first_layer_channels),
    {
        let protocol_stack = ProtocolStack::new(
            node_addr,
            *profile.id.as_val_ref(),
            profile.line_delay,
            profile.max_first_layer_channels,
        );
        Socket { node_addr, profile, protocol_stack, cmds: Vec::new(), events: Vec::new() }
    }

    pub fn profile(&self) -> (r: &SocketProfile)
        ensures
            *r == self.spec_profile(),
    {
        &self.profile
    }

    pub fn connect(&mut self)
        requires
            old(self).wf(),
        ensures
            final(self).wf(),
            final(self).spec_profile() == old(self).spec_profile(),
    {
    }

    /// Forgets whatever the socket still had pending.
    pub fn disconnect(&mut self)
        requires
            old(self).wf(),
        ensures
            final(self).wf(),
            final(self).spec_profile() == old(self).spec_profile(),
    {
        self.events.clear();
        self.cmds.clear();
    }

    /// Hands the pending commands and events out.
    fn flush(&mut self) -> (r: SocketOutput)
        requires
            old(self).protocol_stack.wf(),
        ensures
            final(self).wf(),
            final(self).spec_profile() == old(self).spec_profile(),
            r.events@ == old(self).events@,
            r.transmits@ == transmits_of(old(self).cmds@),
            final(self).protocol_stack == old(self).protocol_stack,
            final(self).node_addr == old(self).node_addr,
            final(self).profile == old(self).profile,
    {
        let transmits = send_commands_on_stream(&mut self.cmds);
        let mut events: Vec<SecondLayerEvent> = Vec::new();
        std::mem::swap(&mut events, &mut self.events);
        SocketOutput { events, transmits }
    }

    /// Carries a second layer command down the line's stack; identifiers are
    /// taken from `ids`.
    pub fn on_command(&mut self, ids: &mut IdCounter, cmd: SecondLayerCommand) -> (r: SocketOutput)
        requires
            old(self).wf(),
        ensures
            final(self).wf(),
            final(self).spec_profile() == old(self).spec_profile(),
            first_layer_lets_down(old(self).spec_first_layer(), cmd) ==> r.events@.len() == 0
                && exists|f: FirstLayerCommand, p: PhysicalLayerCommand| #[trigger] first_of_second(cmd, f) && #[trigger] physical_of_first(f, p)
                    && r.transmits@ == transmits_of(seq![p]),
            handed_to_send(cmd) is Some ==> r.events@.len() == 0
                && final(ids).peek() == (if old(ids).peek() == usize::MAX { 0 } else { old(ids).peek() + 1 })
                && r.transmits@.len() == 1 && carries_sent(cmd, *old(ids), r.transmits@[0].0, r.transmits@[0].1),
            old(self).answers_command(*old(ids), cmd, *final(self), *final(ids), r.transmits@, r.events@),
    {
        let ghost ids0 = *ids;
        self.protocol_stack.propagate_command(ids, cmd, &mut self.cmds, &mut self.events);
        proof {
            assert(self.cmds@.subrange(0, self.cmds@.len() as int) =~= self.cmds@);
            assert(self.events@.subrange(0, self.events@.len() as int) =~= self.events@);
        }
        proof {
            if first_layer_lets_down(old(self).spec_first_layer(), cmd) || handed_to_send(cmd) is Some {
                assert(self.cmds@ =~= seq![self.cmds@.last()]);
            }
            if handed_to_send(cmd) is Some {
                assert(transmits_sent(cmd, ids0, self.cmds@.last()));
                assert(self.cmds@.drop_last() =~= Seq::<PhysicalLayerCommand>::empty());
            }
        }
        let ghost cm = self.cmds@;
        let out = self.flush();
        proof {
            if handed_to_send(cmd) is Some {
                assert(transmits_of(cm.drop_last()) =~= Seq::<(Chunk, TransmissionType)>::empty());
                assert(out.transmits@ =~= seq![(cm.last()->Transmit_0, cm.last()->Transmit_1)]);
            }
        }
        out
    }

    /// Carries a physical event up the line's stack; identifiers are taken
    /// from `ids`.
    pub fn on_event(&mut self, ids: &mut IdCounter, event: PhysicalLayerEvent) -> (r: SocketOutput)
        requires
            old(self).wf(),
        ensures
            final(self).wf(),
            final(self).spec_profile() == old(self).spec_profile(),
            first_layer_lets_up(old(self).spec_first_layer(), event) ==> r.transmits@.len() == 0 && r.events@.len() == 1
                && exists|f: FirstLayerEvent| #[trigger] first_of_physical(event, f) && second_of_first(f, r.events@[0]),
            event matches PhysicalLayerEvent::Received(p) ==> (off_channel(outer_header(p.data@)) ==> r.transmits@.len() == 0
                && r.events@.len() == 1 && (r.events@[0] matches SecondLayerEvent::BlockReceived(c2) && c2@ == unwrapped(p.data@))),
            old(self).answers_event(*old(ids), event, *final(self), *final(ids), r.transmits@, r.events@),
    {
        proof {
            self.protocol_stack.lemma_first_layer_shape();
            if event is Received && off_channel(outer_header(event->Received_0.data@)) {
                let es = self.spec_first_layer();
                assert forall|f: FirstLayerEvent| #[trigger] first_of_physical(event, f) implies
                    all_pass::<LayerPipeItem, IdCounter, FirstLayerEntity>(es, LayerPipeItem::SomeEvent(LineId(0), LayerEvent::FirstLayer(f))) by {
                    let it = LayerPipeItem::SomeEvent(LineId(0), LayerEvent::FirstLayer(f));
                    assert(es[0].passes(it));
                    assert(es[1].passes(it));
                }
                assert(first_layer_lets_up(self.spec_first_layer(), event));
            }
        }
        self.protocol_stack.propagate_event(ids, event, &mut self.cmds, &mut self.events);
        proof {
            assert(self.cmds@.subrange(0, self.cmds@.len() as int) =~= self.cmds@);
            assert(self.events@.subrange(0, self.events@.len() as int) =~= self.events@);
        }
        proof {
            if first_layer_lets_up(old(self).spec_first_layer(), event) {
                assert(self.cmds@ =~= Seq::<PhysicalLayerCommand>::empty());
                assert(self.events@ =~= seq![self.events@.last()]);
            }
        }
        self.flush()
    }
}

} // verus!
