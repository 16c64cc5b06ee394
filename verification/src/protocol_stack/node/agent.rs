use vstd::prelude::*;
use crate::protocol_stack::{Chunk, TimerOwnerToken};
use crate::protocol_stack::line::{LineId, LineTransceiverId};
use crate::protocol_stack::node::{NodeAddress, AddressMap, NodeLayerState};
use crate::protocol_stack::node::socket::{Socket, SocketProfile, SocketOutput};
use crate::protocol_stack::physical_layer::{PhysicalLayerEvent, TransmissionType};
use crate::protocol_stack::second_layer::{SecondLayerCommand, SecondLayerEvent};
use crate::protocol_stack::layer_pipe_item::{LayerPipeItem, LayerCommand, LayerEvent, NodeCommand, NodeEvent};
use crate::protocol_stack::protocol_layers::{NodeProtocolStack, NodeEntity, FirstLayerEntity, first_layer_lets_up, carries_sent, handed_to_send};
use crate::protocol_stack::first_layer::{FirstLayerEvent, first_of_physical};
use crate::protocol_stack::second_layer::second_of_first;
use crate::pipe::{all_pass, EventTarget};
use crate::protocol_stack::{outer_header, unwrapped};
use crate::protocol_stack::channel_monitor::off_channel;
use crate::utils::IdCounter;

verus! {

/// What a node's agent is told to do with its lines.
pub enum ControlCommand {
    ConnectLine(LineId),
    DisconnectLine(LineId),
}

/// What a step of a node's agent asks for: timers to start, events to hand
/// to the node's frontend, and transmissions to make, each on the end of
/// the line it names.
pub struct AgentOutput {
    pub timers: Vec<(LineId, TimerOwnerToken)>,
    pub node_events: Vec<NodeEvent>,
    pub transmits: Vec<(LineTransceiverId, Chunk, TransmissionType)>,
}

impl AgentOutput {
    pub fn new() -> (r: Self)
        ensures
            r.timers@.len() == 0,
            r.node_events@.len() == 0,
            r.transmits@.len() == 0,
    {
        AgentOutput { timers: Vec::new(), node_events: Vec::new(), transmits: Vec::new() }
    }
}

/// The second layer event a layer event carries; nothing for another layer.
pub open spec fn second_event_of(ev: LayerEvent) -> SecondLayerEvent {
    match ev {
        LayerEvent::SecondLayer(e) => e,
        _ => SecondLayerEvent::Nothing,
    }
}

/// The node events that the items carry, taken from the last item to the
/// first; items that are not events are dropped.
pub open spec fn node_events_of(items: Seq<LayerPipeItem>) -> Seq<NodeEvent>
    decreases items.len(),
{
    if items.len() == 0 {
        Seq::empty()
    } else {
        let rest = node_events_of(items.drop_last());
        match items.last() {
            LayerPipeItem::SomeEvent(lid, ev) => seq![NodeEvent(lid, second_event_of(ev))] + rest,
            _ => rest,
        }
    }
}

/// Every event among the items is among the node events they carry.
proof fn lemma_node_events_of_has(items: Seq<LayerPipeItem>, j: int)
    requires
        0 <= j < items.len(),
        items[j] is SomeEvent,
    ensures
        node_events_of(items).contains(NodeEvent(items[j]->SomeEvent_0, second_event_of(items[j]->SomeEvent_1))),
    decreases items.len(),
{
    let x = NodeEvent(items[j]->SomeEvent_0, second_event_of(items[j]->SomeEvent_1));
    let rest = node_events_of(items.drop_last());
    if j == items.len() - 1 {
        assert(node_events_of(items) == seq![x] + rest);
        assert(node_events_of(items)[0] == x);
    } else {
        assert(items.drop_last()[j] == items[j]);
        lemma_node_events_of_has(items.drop_last(), j);
        let m = choose|m: int| 0 <= m < rest.len() && rest[m] == x;
        match items.last() {
            LayerPipeItem::SomeEvent(lid, ev) => {
                assert(node_events_of(items) == seq![NodeEvent(lid, second_event_of(ev))] + rest);
                assert(node_events_of(items)[m + 1] == x);
            },
            _ => {
                assert(node_events_of(items) == rest);
            },
        }
    }
}

/// Takes every item out, from the last to the first, and appends the node
/// events among them to `out`.
pub fn drain_node_events(events: &mut Vec<LayerPipeItem>, out: &mut Vec<NodeEvent>)
    ensures
        final(events)@.len() == 0,
        final(out)@ == old(out)@ + node_events_of(old(events)@),
{
    let ghost total = out@ + node_events_of(events@);
    while events.len() > 0
        invariant
            out@ + node_events_of(events@) == total,
        decreases events@.len(),
    {
        let ghost before = events@;
        let item = events.pop().unwrap();
        proof {
            assert(events@ == before.drop_last());
        }
        match item {
            LayerPipeItem::SomeEvent(lid, ev) => {
                let ghost o0 = out@;
                out.push(NodeEvent(lid, ev.into_second_layer()));
                assert(out@ + node_events_of(events@) =~= o0 + node_events_of(before));
            },
            _ => {},
        }
    }
    assert(out@ =~= total);
}

/// The line of each socket, in order.
pub open spec fn socket_lines(sockets: Seq<Socket>) -> Seq<LineId> {
    sockets.map_values(|s: Socket| s.spec_profile().spec_line_id())
}

/// Every socket is well formed, and no two sit on the same line.
pub open spec fn sockets_wf(sockets: Seq<Socket>) -> bool {
    &&& forall|i: int| 0 <= i < sockets.len() ==> (#[trigger] sockets[i]).wf()
    &&& forall|i: int, j: int| 0 <= i < j < sockets.len() ==>
        (#[trigger] sockets[i]).spec_profile().spec_line_id() != (#[trigger] sockets[j]).spec_profile().spec_line_id()
}

/// The line of each profile, in order.
pub open spec fn profile_lines(profiles: Seq<SocketProfile>) -> Seq<LineId> {
    profiles.map_values(|p: SocketProfile| p.spec_line_id())
}

/// The lines of the profiles, in order.
pub fn profile_line_ids(profiles: &Vec<SocketProfile>) -> (r: Vec<LineId>)
    ensures
        r@ == profile_lines(profiles@),
{
    let mut r: Vec<LineId> = Vec::new();
    let mut k: usize = 0;
    while k < profiles.len()
        invariant
            k <= profiles@.len(),
            r@ == profile_lines(profiles@.subrange(0, k as int)),
        decreases profiles@.len() - k,
    {
        r.push(profiles[k].line_id());
        proof {
            assert(profiles@.subrange(0, k + 1) =~= profiles@.subrange(0, k as int).push(profiles@[k as int]));
            assert(r@ =~= profile_lines(profiles@.subrange(0, k + 1)));
        }
        k = k + 1;
    }
    assert(profiles@.subrange(0, profiles@.len() as int) =~= profiles@);
    r
}

/// The commands that connect a node's lines once its loops run: one for
/// each profile, in order.
pub fn connect_line_commands(profiles: &Vec<SocketProfile>) -> (r: Vec<ControlCommand>)
    ensures
        r@.len() == profiles@.len(),
        forall|i: int| 0 <= i < r@.len() ==> #[trigger] r@[i] == ControlCommand::ConnectLine(profiles@[i].spec_line_id()),
{
    let mut r: Vec<ControlCommand> = Vec::new();
    let mut k: usize = 0;
    while k < profiles.len()
        invariant
            k <= profiles@.len(),
            r@.len() == k,
            forall|i: int| 0 <= i < k ==> #[trigger] r@[i] == ControlCommand::ConnectLine(profiles@[i].spec_line_id()),
        decreases profiles@.len() - k,
    {
        r.push(ControlCommand::ConnectLine(profiles[k].line_id()));
        k = k + 1;
    }
    r
}

/// The command that connects or disconnects one of a connected node's
/// lines; none for a node that is not connected, or a line it has no
/// profile for.
pub fn toggle_line_command(connected: bool, profiles: &Vec<SocketProfile>, line_id: LineId, connect: bool) -> (r: Option<ControlCommand>)
    ensures
        r is Some <==> connected && profile_lines(profiles@).contains(line_id),
        r matches Some(c) ==> c == (if connect { ControlCommand::ConnectLine(line_id) } else { ControlCommand::DisconnectLine(line_id) }),
{
    if !connected {
        return None;
    }
    let mut k: usize = 0;
    while k < profiles.len()
        invariant
            connected,
            k <= profiles@.len(),
            forall|i: int| 0 <= i < k ==> profiles@[i].spec_line_id() != line_id,
        decreases profiles@.len() - k,
    {
        if profiles[k].line_id() == line_id {
            proof {
                assert(profile_lines(profiles@)[k as int] == line_id);
                assert(profile_lines(profiles@).contains(line_id));
            }
            return Some(if connect { ControlCommand::ConnectLine(line_id) } else { ControlCommand::DisconnectLine(line_id) });
        }
        k = k + 1;
    }
    proof {
        if profile_lines(profiles@).contains(line_id) {
            let j = profile_lines(profiles@).index_of(line_id);
            assert(profiles@[j].spec_line_id() == line_id);
        }
    }
    None
}

/// What a node's agent holds at one moment, with the counter of identifiers
/// and what it has handed out so far: its sockets, the node's stack, the
/// commands and events pending, the timers to start, the transmissions to
/// make and the events for the frontend.
#[verifier::ext_equal]
pub struct AgentState {
    pub sockets: Seq<Socket>,
    pub stack: NodeProtocolStack,
    pub cmds: Seq<LayerPipeItem>,
    pub events: Seq<LayerPipeItem>,
    pub ids: IdCounter,
    pub timers: Seq<(LineId, TimerOwnerToken)>,
    pub transmits: Seq<(LineTransceiverId, Chunk, TransmissionType)>,
    pub node_events: Seq<NodeEvent>,
}

/// `x` with the transmissions `tr` made on the end of the line `id`, in order.
pub open spec fn transmitted(x: AgentState, id: LineTransceiverId, tr: Seq<(Chunk, TransmissionType)>) -> AgentState {
    AgentState { transmits: x.transmits + tr.map_values(|t: (Chunk, TransmissionType)| (id, t.0, t.1)), ..x }
}

/// The event `ev` from the line `line` goes up the node's stack, from `x` to
/// `y`: what the stack lets down is added to the pending commands, what it
/// lets up to the pending events.
pub open spec fn event_up(x: AgentState, line: LineId, ev: SecondLayerEvent, y: AgentState) -> bool {
    exists|nc: Seq<LayerPipeItem>, ne: Seq<LayerPipeItem>|
        #[trigger] x.stack.item_run(x.ids, LayerPipeItem::SomeEvent(line, LayerEvent::SecondLayer(ev)), y.stack, y.ids, nc, ne)
        && y == (AgentState { stack: y.stack, ids: y.ids, cmds: x.cmds + nc, events: x.events + ne, ..x })
}

/// The `j`th moment of `ms` goes to the next one with the `j`th event of
/// `evs` from the last.
pub open spec fn event_up_at(ms: Seq<AgentState>, line: LineId, evs: Seq<SecondLayerEvent>, j: int) -> bool {
    event_up(ms[j], line, evs[evs.len() - 1 - j], ms[j + 1])
}

/// The events `evs` from the line `line` go up the node's stack one after
/// another, from the last to the first, taking the agent from `x` to `y`.
pub open spec fn events_up(x: AgentState, line: LineId, evs: Seq<SecondLayerEvent>, y: AgentState) -> bool {
    exists|ms: Seq<AgentState>| #[trigger] events_chain(ms, line, evs) && ms[0] == x && ms.last() == y
}

/// The moments `ms` of events going up one after another.
pub open spec fn events_chain(ms: Seq<AgentState>, line: LineId, evs: Seq<SecondLayerEvent>) -> bool {
    &&& ms.len() == evs.len() + 1
    &&& forall|j: int| 0 <= j < evs.len() ==> #[trigger] event_up_at(ms, line, evs, j)
}

/// The command `c` for the line `l` is handed to the socket on that line,
/// from `x` to `y`: the socket answers it (`answers_command`), its
/// transmissions go out on its end of the line, and its events go up the
/// node's stack.
pub open spec fn carried(x: AgentState, l: LineId, c: SecondLayerCommand, y: AgentState) -> bool {
    exists|i: int, s1: Socket, ids1: IdCounter, tr: Seq<(Chunk, TransmissionType)>, evs: Seq<SecondLayerEvent>, m: AgentState|
        #![trigger x.sockets[i].answers_command(x.ids, c, s1, ids1, tr, evs), events_up(m, l, evs, y)]
        0 <= i < x.sockets.len() && x.sockets[i].spec_profile().spec_line_id() == l
        && x.sockets[i].answers_command(x.ids, c, s1, ids1, tr, evs)
        && m == transmitted(AgentState { sockets: x.sockets.update(i, s1), ids: ids1, ..x }, x.sockets[i].spec_profile().id, tr)
        && events_up(m, l, evs, y)
}

/// The event `event` that came in on the line `l` goes up the socket on that
/// line, from `x` to `y`: the socket answers it (`answers_event`), its
/// transmissions go out on its end of the line, and its events go up the
/// node's stack.
pub open spec fn line_event_up(x: AgentState, l: LineId, event: PhysicalLayerEvent, y: AgentState) -> bool {
    exists|i: int, s1: Socket, ids1: IdCounter, tr: Seq<(Chunk, TransmissionType)>, evs: Seq<SecondLayerEvent>, m: AgentState|
        #![trigger x.sockets[i].answers_event(x.ids, event, s1, ids1, tr, evs), events_up(m, l, evs, y)]
        0 <= i < x.sockets.len() && x.sockets[i].spec_profile().spec_line_id() == l
        && x.sockets[i].answers_event(x.ids, event, s1, ids1, tr, evs)
        && m == transmitted(AgentState { sockets: x.sockets.update(i, s1), ids: ids1, ..x }, x.sockets[i].spec_profile().id, tr)
        && events_up(m, l, evs, y)
}

/// One pending command carried on, from `x` to `y`: the last one is taken;
/// a command to start a timer becomes a timer to start; another second layer
/// command for a line with a socket is handed to that socket; anything else
/// is dropped.
pub open spec fn agent_step(x: AgentState, y: AgentState) -> bool {
    let x1 = AgentState { cmds: x.cmds.drop_last(), ..x };
    &&& x.cmds.len() > 0
    &&& match x.cmds.last() {
        LayerPipeItem::SomeCommand(l, LayerCommand::SecondLayer(c)) => match c {
            SecondLayerCommand::StartTimer(tk) => y == (AgentState { timers: x1.timers.push((l, tk)), ..x1 }),
            _ => if socket_lines(x.sockets).contains(l) { carried(x1, l, c, y) } else { y == x1 },
        },
        _ => y == x1,
    }
}

/// The `k`th moment of `run` steps to the next.
pub open spec fn agent_step_at(run: Seq<AgentState>, k: int) -> bool {
    agent_step(run[k], run[k + 1])
}

/// A run of the agent: each moment steps to the next.
pub open spec fn agent_run(run: Seq<AgentState>) -> bool {
    &&& run.len() > 0
    &&& forall|k: int| 0 <= k < run.len() - 1 ==> #[trigger] agent_step_at(run, k)
}

/// What is pending carried on, from `x` to `y`: a run of steps, until no
/// command is pending or `u64::MAX` commands were carried; then the pending
/// events go to the frontend, from the last to the first.
pub open spec fn carried_on(x: AgentState, y: AgentState) -> bool {
    exists|run: Seq<AgentState>| #[trigger] agent_run(run) && run[0] == x
        && (run.last().cmds.len() == 0 || run.len() == u64::MAX + 1)
        && y == (AgentState { events: Seq::empty(), node_events: run.last().node_events + node_events_of(run.last().events), ..run.last() })
}

/// The decisions of a node's agent: its sockets, one per line, and the
/// node's own protocol stack above them.
pub struct NodeAgent {
    node_addr: NodeAddress,
    sockets: Vec<Socket>,
    protocol_stack: NodeProtocolStack,
    cmds: Vec<LayerPipeItem>,
    events: Vec<LayerPipeItem>,
}

impl NodeAgent {
    pub closed spec fn wf(&self) -> bool {
        &&& sockets_wf(self.sockets@)
        &&& self.protocol_stack.wf()
    }

    /// The entities of the node's own layer.
    pub closed spec fn node_layer(&self) -> Seq<NodeEntity> {
        self.protocol_stack.node_layer()
    }

    /// The agent's moment, with the counter `ids` and nothing handed out yet.
    pub closed spec fn fresh_moment(&self, ids: IdCounter) -> AgentState {
        AgentState {
            sockets: self.sockets@,
            stack: self.protocol_stack,
            cmds: self.cmds@,
            events: self.events@,
            ids,
            timers: Seq::empty(),
            transmits: Seq::empty(),
            node_events: Seq::empty(),
        }
    }

    /// The agent from the moment `x` after the frontend command `cmd` went
    /// down the node's stack (`item_run`): what the stack lets down is added
    /// to the pending commands, what it lets up to the pending events.
    pub open spec fn took_command(x: AgentState, cmd: NodeCommand, y: AgentState) -> bool {
        exists|nc: Seq<LayerPipeItem>, ne: Seq<LayerPipeItem>|
            #[trigger] x.stack.item_run(x.ids, LayerPipeItem::SomeCommand(cmd.0, LayerCommand::SecondLayer(cmd.1)), y.stack, y.ids, nc, ne)
            && y == (AgentState { stack: y.stack, ids: y.ids, cmds: x.cmds + nc, events: x.events + ne, ..x })
    }

    /// The agent's moment, with the counter `ids` and what `out` holds.
    pub closed spec fn moment(&self, ids: IdCounter, out: AgentOutput) -> AgentState {
        AgentState {
            sockets: self.sockets@,
            stack: self.protocol_stack,
            cmds: self.cmds@,
            events: self.events@,
            ids,
            timers: out.timers@,
            transmits: out.transmits@,
            node_events: out.node_events@,
        }
    }

    /// The entities of the first layer of the socket on `line_id`.
    pub closed spec fn first_layer_of(&self, line_id: LineId) -> Seq<FirstLayerEntity> {
        self.sockets@[choose|i: int| 0 <= i < self.sockets@.len() && (#[trigger] self.sockets@[i]).spec_profile().spec_line_id() == line_id]
            .spec_first_layer()
    }

    /// The lines the agent has a socket on.
    pub closed spec fn lines(&self) -> Seq<LineId> {
        socket_lines(self.sockets@)
    }

    pub closed spec fn spec_node_addr(&self) -> NodeAddress {
        self.node_addr
    }

    /// An agent with a socket for each profile; where two profiles name the
    /// same line, the later one's socket stands.
    pub fn new(node_addr: NodeAddress, profiles: &Vec<SocketProfile>, address_map: AddressMap) -> (r: Self)
        ensures
            r.wf(),
            r.spec_node_addr() == node_addr,
            r.spec_address_map() == address_map,
            forall|l: LineId| r.lines().contains(l) <==> profile_lines(profiles@).contains(l),
    {
        let mut sockets: Vec<Socket> = Vec::new();
        let mut lines: Vec<LineId> = Vec::new();
        let mut k: usize = 0;
        while k < profiles.len()
            invariant
                k <= profiles@.len(),
                sockets_wf(sockets@),
                lines@ == profile_lines(profiles@.subrange(0, k as int)),
                forall|l: LineId| socket_lines(sockets@).contains(l) <==> lines@.contains(l),
            decreases profiles@.len() - k,
        {
            let profile = profiles[k];
            let line_id = profile.line_id();
            let socket = Socket::new(node_addr, profile);
            let found = Self::index_in(&sockets, line_id);
            let ghost s0 = sockets@;
            match found {
                Some(i) => {
                    sockets.set(i, socket);
                    proof {
                        assert(socket_lines(s0)[i as int] == line_id);
                        assert(sockets@[i as int].spec_profile().spec_line_id() == s0[i as int].spec_profile().spec_line_id());
                        assert forall|a: int, b: int| 0 <= a < b < sockets@.len() implies
                            (#[trigger] sockets@[a]).spec_profile().spec_line_id() != (#[trigger] sockets@[b]).spec_profile().spec_line_id() by {
                            assert(s0[a].spec_profile().spec_line_id() != s0[b].spec_profile().spec_line_id());
                        }
                        assert forall|l: LineId| socket_lines(sockets@).contains(l) <==> (socket_lines(s0).contains(l) || l == line_id) by {
                            if socket_lines(s0).contains(l) {
                                let j = socket_lines(s0).index_of(l);
                                if j == i {
                                    assert(socket_lines(sockets@)[i as int] == l);
                                } else {
                                    assert(socket_lines(sockets@)[j] == l);
                                }
                            }
                            if socket_lines(sockets@).contains(l) {
                                let j = socket_lines(sockets@).index_of(l);
                                if j == i {
                                    assert(socket_lines(s0)[i as int] == l);
                                } else {
                                    assert(socket_lines(s0)[j] == l);
                                }
                            }
                        }
                    }
                },
                None => {
                    sockets.push(socket);
                    proof {
                        assert forall|a: int, b: int| 0 <= a < b < sockets@.len() implies
                            (#[trigger] sockets@[a]).spec_profile().spec_line_id() != (#[trigger] sockets@[b]).spec_profile().spec_line_id() by {
                            if b == s0.len() {
                                assert(socket_lines(s0)[a] == s0[a].spec_profile().spec_line_id());
                            } else {
                                assert(s0[a].spec_profile().spec_line_id() != s0[b].spec_profile().spec_line_id());
                            }
                        }
                        assert forall|l: LineId| socket_lines(sockets@).contains(l) <==> (socket_lines(s0).contains(l) || l == line_id) by {
                            if socket_lines(s0).contains(l) {
                                let j = socket_lines(s0).index_of(l);
                                assert(socket_lines(sockets@)[j] == l);
                            }
                            if l == line_id {
                                assert(socket_lines(sockets@)[s0.len() as int] == l);
                            }
                            if socket_lines(sockets@).contains(l) {
                                let j = socket_lines(sockets@).index_of(l);
                                if j < s0.len() {
                                    assert(socket_lines(s0)[j] == l);
                                }
                            }
                        }
                    }
                },
            }
            let ghost l0 = lines@;
            assert(forall|l: LineId| socket_lines(s0).contains(l) <==> l0.contains(l));
            lines.push(line_id);
            proof {
                assert(profiles@.subrange(0, k + 1) =~= profiles@.subrange(0, k as int).push(profile));
                assert(lines@ =~= profile_lines(profiles@.subrange(0, k + 1)));
                assert forall|l: LineId| lines@.contains(l) <==> (l0.contains(l) || l == line_id) by {
                    if l0.contains(l) {
                        let j = l0.index_of(l);
                        assert(lines@[j] == l);
                    }
                    if l == line_id {
                        assert(lines@[l0.len() as int] == l);
                    }
                    if lines@.contains(l) {
                        let j = lines@.index_of(l);
                        if j < l0.len() {
                            assert(l0[j] == l);
                        }
                    }
                }
                assert forall|l: LineId| socket_lines(sockets@).contains(l) <==> lines@.contains(l) by {
                    assert(socket_lines(s0).contains(l) <==> l0.contains(l));
                }
            }
            k = k + 1;
        }
        proof {
            assert(profiles@.subrange(0, profiles@.len() as int) =~= profiles@);
        }
        let protocol_stack = NodeProtocolStack::new(node_addr, lines, address_map);
        NodeAgent { node_addr, sockets, protocol_stack, cmds: Vec::new(), events: Vec::new() }
    }

    /// Where the socket on `line_id` stands among `sockets`.
    fn index_in(sockets: &Vec<Socket>, line_id: LineId) -> (r: Option<usize>)
        requires
            sockets_wf(sockets@),
        ensures
            match r {
                Some(i) => i < sockets@.len() && sockets@[i as int].spec_profile().spec_line_id() == line_id,
                None => !socket_lines(sockets@).contains(line_id),
            },
    {
        let mut i: usize = 0;
        while i < sockets.len()
            invariant
                i <= sockets@.len(),
                forall|j: int| 0 <= j < i ==> sockets@[j].spec_profile().spec_line_id() != line_id,
            decreases sockets@.len() - i,
        {
            if sockets[i].profile().line_id() == line_id {
                return Some(i);
            }
            i = i + 1;
        }
        proof {
            if socket_lines(sockets@).contains(line_id) {
                let j = socket_lines(sockets@).index_of(line_id);
                assert(sockets@[j].spec_profile().spec_line_id() == line_id);
            }
        }
        None
    }

    pub closed spec fn spec_address_map(&self) -> AddressMap {
        self.protocol_stack.spec_address_map()
    }

    /// The node's address map.
    pub fn address_map(&self) -> (r: &AddressMap)
        ensures
            *r == self.spec_address_map(),
    {
        self.protocol_stack.address_map()
    }

    /// Gives the node's address map back when the agent is done with.
    pub fn into_address_map(self) -> (r: AddressMap)
        ensures
            r == self.spec_address_map(),
    {
        self.protocol_stack.into_address_map()
    }

    /// Connects or disconnects a line's socket. Connecting a line the node
    /// has a socket on tells the frontend the socket is connected; a
    /// disconnection is told to the frontend in any case.
    pub fn on_control(&mut self, ctrl: ControlCommand) -> (r: Vec<NodeEvent>)
        requires
            old(self).wf(),
        ensures
            final(self).wf(),
            final(self).lines() == old(self).lines(),
            r@ == (match ctrl {
                ControlCommand::ConnectLine(l) => if old(self).lines().contains(l) {
                    seq![NodeEvent(l, SecondLayerEvent::OnSocketConnected)]
                } else {
                    Seq::empty()
                },
                ControlCommand::DisconnectLine(l) => seq![NodeEvent(l, SecondLayerEvent::OnSocketShutdown)],
            }),
    {
        let mut r: Vec<NodeEvent> = Vec::new();
        match ctrl {
            ControlCommand::ConnectLine(line_id) => {
                match Self::index_in(&self.sockets, line_id) {
                    Some(i) => {
                        proof {
                            assert(self.lines()[i as int] == line_id);
                        }
                        r.push(NodeEvent(line_id, SecondLayerEvent::OnSocketConnected));
                        let ghost s0 = self.sockets@;
                        let mut socket = self.sockets.remove(i);
                        socket.connect();
                        self.sockets.insert(i, socket);
                        proof {
                            assert(self.sockets@ =~= s0.update(i as int, socket));
                            assert(socket_lines(self.sockets@) =~= socket_lines(s0));
                        }
                    },
                    None => {},
                }
            },
            ControlCommand::DisconnectLine(line_id) => {
                match Self::index_in(&self.sockets, line_id) {
                    Some(i) => {
                        let ghost s0 = self.sockets@;
                        let mut socket = self.sockets.remove(i);
                        socket.disconnect();
                        self.sockets.insert(i, socket);
                        proof {
                            assert(self.sockets@ =~= s0.update(i as int, socket));
                            assert(socket_lines(self.sockets@) =~= socket_lines(s0));
                        }
                    },
                    None => {},
                }
                r.push(NodeEvent(line_id, SecondLayerEvent::OnSocketShutdown));
            },
        }
        r
    }

    /// Hands what a socket gave back on: its transmissions go out on the
    /// socket's end of the line, its events go up the node's stack, from the
    /// last to the first.
    fn take_socket_output(&mut self, ids: &mut IdCounter, id: LineTransceiverId, out: SocketOutput, res: &mut AgentOutput)
        requires
            old(self).wf(),
        ensures
            final(self).wf(),
            final(self).lines() == old(self).lines(),
            final(res).timers@ == old(res).timers@,
            final(res).node_events@ == old(res).node_events@,
            final(res).transmits@.len() == old(res).transmits@.len() + out.transmits@.len(),
            final(res).transmits@.subrange(0, old(res).transmits@.len() as int) == old(res).transmits@,
            forall|i: int| old(res).transmits@.len() <= i < final(res).transmits@.len() ==>
                (#[trigger] final(res).transmits@[i]).0 == id,
            forall|i: int| 0 <= i < out.transmits@.len() ==>
                #[trigger] final(res).transmits@[old(res).transmits@.len() + i] == (id, out.transmits@[i].0, out.transmits@[i].1),
            final(self).events@.len() >= old(self).events@.len(),
            final(self).events@.subrange(0, old(self).events@.len() as int) == old(self).events@,
            out.events@.len() == 1 && all_pass::<LayerPipeItem, NodeLayerState, NodeEntity>(old(self).node_layer(),
                LayerPipeItem::SomeEvent(id.spec_val(), LayerEvent::SecondLayer(out.events@[0])))
                ==> final(self).events@ == old(self).events@.push(LayerPipeItem::SomeEvent(id.spec_val(), LayerEvent::SecondLayer(out.events@[0]))),
            events_up(transmitted(old(self).moment(*old(ids), *old(res)), id, out.transmits@), id.spec_val(), out.events@,
                final(self).moment(*final(ids), *final(res))),
    {
        let ghost x0 = self.moment(*ids, *res);
        let ghost ev0 = out.events@;
        let ghost t_orig = out.transmits@;
        let mut out = out;
        let mut reversed: Vec<(Chunk, TransmissionType)> = Vec::new();
        let ghost n = out.transmits@.len();
        while out.transmits.len() > 0
            invariant
                reversed@.len() + out.transmits@.len() == n,
                t_orig.len() == n,
                out.events@ == ev0,
                out.transmits@ == t_orig.subrange(0, out.transmits@.len() as int),
                forall|k: int| 0 <= k < reversed@.len() ==> #[trigger] reversed@[k] == t_orig[n - 1 - k],
            decreases out.transmits@.len(),
        {
            let t = out.transmits.pop().unwrap();
            reversed.push(t);
        }
        let ghost t0 = res.transmits@;
        let ghost rev = reversed@;
        while reversed.len() > 0
            invariant
                res.timers@ == old(res).timers@,
                res.node_events@ == old(res).node_events@,
                res.transmits@.len() + reversed@.len() == t0.len() + n,
                res.transmits@.len() >= t0.len(),
                res.transmits@.subrange(0, t0.len() as int) == t0,
                forall|i: int| t0.len() <= i < res.transmits@.len() ==> (#[trigger] res.transmits@[i]).0 == id,
                rev.len() == n,
                reversed@ == rev.subrange(0, reversed@.len() as int),
                forall|k: int| 0 <= k < n ==> #[trigger] rev[k] == t_orig[n - 1 - k],
                forall|i: int| t0.len() <= i < res.transmits@.len() ==>
                    #[trigger] res.transmits@[i] == (id, t_orig[i - t0.len()].0, t_orig[i - t0.len()].1),
            decreases reversed@.len(),
        {
            let ghost rlen = reversed@.len();
            let (chunk, chunk_type) = reversed.pop().unwrap();
            assert((chunk, chunk_type) == rev[rlen - 1]);
            assert(rev[rlen - 1] == t_orig[n - rlen]);
            res.transmits.push((id, chunk, chunk_type));
            assert(res.transmits@.subrange(0, t0.len() as int) =~= t0);
            assert(reversed@ =~= rev.subrange(0, reversed@.len() as int));
        }
        assert forall|i: int| 0 <= i < t_orig.len() implies
            #[trigger] res.transmits@[t0.len() + i] == (id, t_orig[i].0, t_orig[i].1) by {
            assert(res.transmits@[t0.len() + i] == (id, t_orig[(t0.len() + i) - t0.len()].0, t_orig[(t0.len() + i) - t0.len()].1));
        }
        let ghost m0 = transmitted(x0, id, t_orig);
        proof {
            assert(res.transmits@ =~= t0 + t_orig.map_values(|t: (Chunk, TransmissionType)| (id, t.0, t.1))) by {
                assert forall|i: int| 0 <= i < res.transmits@.len() implies #[trigger] res.transmits@[i]
                    == (t0 + t_orig.map_values(|t: (Chunk, TransmissionType)| (id, t.0, t.1)))[i] by {
                    if i < t0.len() {
                        assert(res.transmits@[i] == res.transmits@.subrange(0, t0.len() as int)[i]);
                    } else {
                        assert(res.transmits@[t0.len() + (i - t0.len())] == (id, t_orig[i - t0.len()].0, t_orig[i - t0.len()].1));
                    }
                }
            }
            assert(self.moment(*ids, *res) =~= m0);
        }
        let ghost mut ms: Seq<AgentState> = seq![m0];
        let line_id = *id.as_val_ref();
        let ghost single = ev0.len() == 1 && all_pass::<LayerPipeItem, NodeLayerState, NodeEntity>(self.node_layer(),
            LayerPipeItem::SomeEvent(line_id, LayerEvent::SecondLayer(ev0[0])));
        let ghost e0 = self.events@;
        while out.events.len() > 0
            invariant
                self.wf(),
                self.lines() == old(self).lines(),
                e0 == old(self).events@,
                self.events@.len() >= e0.len(),
                self.events@.subrange(0, e0.len() as int) == e0,
                line_id == id.spec_val(),
                single == (ev0.len() == 1 && all_pass::<LayerPipeItem, NodeLayerState, NodeEntity>(old(self).node_layer(),
                    LayerPipeItem::SomeEvent(line_id, LayerEvent::SecondLayer(ev0[0])))),
                single ==> (out.events@ == ev0 && self.events@ == e0 && self.node_layer() == old(self).node_layer())
                    || (out.events@.len() == 0 && self.events@ == e0.push(LayerPipeItem::SomeEvent(line_id, LayerEvent::SecondLayer(ev0[0])))),
                out.events@.len() <= ev0.len(),
                out.events@ == ev0.subrange(0, out.events@.len() as int),
                ms.len() == ev0.len() - out.events@.len() + 1,
                ms[0] == m0,
                ms.last() == self.moment(*ids, *res),
                forall|k: int| 0 <= k < ms.len() - 1 ==> #[trigger] event_up_at(ms, line_id, ev0, k),
            decreases out.events@.len(),
        {
            let ghost x = self.moment(*ids, *res);
            let ghost c_before = self.cmds@;
            let ghost before = self.events@;
            let ghost o0 = out.events@;
            let ev = out.events.pop().unwrap();
            self.protocol_stack.propagate_event(ids, NodeEvent(line_id, ev), &mut self.cmds, &mut self.events);
            proof {
                let y = self.moment(*ids, *res);
                let nc = self.cmds@.subrange(c_before.len() as int, self.cmds@.len() as int);
                let ne = self.events@.subrange(before.len() as int, self.events@.len() as int);
                assert(self.cmds@ =~= c_before + nc);
                assert(self.events@ =~= before + ne);
                assert(o0 == ev0.subrange(0, o0.len() as int));
                assert(ev == o0[o0.len() - 1]);
                assert(o0[o0.len() - 1] == ev0[o0.len() - 1]);
                assert(ev == ev0[ev0.len() - 1 - (ms.len() - 1)]);
                assert(x.stack.item_run(x.ids, LayerPipeItem::SomeEvent(line_id, LayerEvent::SecondLayer(ev)), y.stack, y.ids, nc, ne));
                assert(y =~= (AgentState { stack: y.stack, ids: y.ids, cmds: x.cmds + nc, events: x.events + ne, ..x }));
                assert(event_up(x, line_id, ev, y));
                let ms0 = ms;
                ms = ms.push(y);
                assert forall|k: int| 0 <= k < ms.len() - 1 implies #[trigger] event_up_at(ms, line_id, ev0, k) by {
                    if k < ms0.len() - 1 {
                        assert(event_up_at(ms0, line_id, ev0, k));
                        assert(ms[k] == ms0[k] && ms[k + 1] == ms0[k + 1]);
                    } else {
                        assert(ms[k] == x && ms[k + 1] == y);
                    }
                }
                assert(out.events@ =~= o0.drop_last());
                assert(out.events@ =~= ev0.subrange(0, out.events@.len() as int));
                assert(self.events@.subrange(0, e0.len() as int) =~= self.events@.subrange(0, before.len() as int).subrange(0, e0.len() as int));
                if single {
                    assert(o0 == ev0);
                    assert(ev == ev0[0]);
                }
            }
        }
        proof {
            assert(events_chain(ms, line_id, ev0));
        }
    }

    /// Carries the node's pending commands to the sockets they are for, from
    /// the last to the first, and the events that come back up the node's
    /// stack; a command to start a timer is handed out instead. Then hands the
    /// pending events out to the frontend, from the last to the first.
    /// At most `u64::MAX` commands are carried in one call.
    fn send_them_on_streams(&mut self, ids: &mut IdCounter, res: &mut AgentOutput)
        requires
            old(self).wf(),
        ensures
            final(self).wf(),
            final(self).lines() == old(self).lines(),
            final(self).events@.len() == 0,
            final(res).timers@.subrange(0, old(res).timers@.len() as int) == old(res).timers@,
            final(res).timers@.len() >= old(res).timers@.len(),
            final(res).node_events@.subrange(0, old(res).node_events@.len() as int) == old(res).node_events@,
            final(res).node_events@.len() >= old(res).node_events@.len(),
            final(res).transmits@.subrange(0, old(res).transmits@.len() as int) == old(res).transmits@,
            final(res).transmits@.len() >= old(res).transmits@.len(),
            forall|i: int| old(res).transmits@.len() <= i < final(res).transmits@.len() ==>
                old(self).lines().contains((#[trigger] final(res).transmits@[i]).0.spec_val()),
            old(self).cmds@.len() > 0 ==> (old(self).cmds@.last() matches LayerPipeItem::SomeCommand(l, LayerCommand::SecondLayer(
                SecondLayerCommand::StartTimer(tk))) ==> final(res).timers@.len() > old(res).timers@.len()
                && final(res).timers@[old(res).timers@.len() as int] == (l, tk)),
            old(self).cmds@.len() > 0 ==> (old(self).cmds@.last() matches LayerPipeItem::SomeCommand(l, LayerCommand::SecondLayer(c))
                ==> handed_to_send(c) is Some && old(self).lines().contains(l) ==> final(res).transmits@.len() > old(res).transmits@.len()
                && final(res).transmits@[old(res).transmits@.len() as int].0.spec_val() == l
                && carries_sent(c, *old(ids), final(res).transmits@[old(res).transmits@.len() as int].1,
                    final(res).transmits@[old(res).transmits@.len() as int].2)),
            forall|j: int| 0 <= j < old(self).events@.len() && (#[trigger] old(self).events@[j]) is SomeEvent ==>
                final(res).node_events@.contains(NodeEvent(old(self).events@[j]->SomeEvent_0, second_event_of(old(self).events@[j]->SomeEvent_1))),
            carried_on(old(self).moment(*old(ids), *old(res)), final(self).moment(*final(ids), *final(res))),
    {
        let ghost x_start = self.moment(*ids, *res);
        let ghost mut run: Seq<AgentState> = seq![x_start];
        let ghost ev_start = self.events@;
        let ghost r0 = *res;
        let ghost first_timer = self.cmds@.len() > 0 && self.cmds@.last() is SomeCommand
            && self.cmds@.last()->SomeCommand_1 is SecondLayer
            && self.cmds@.last()->SomeCommand_1->SecondLayer_0 is StartTimer;
        let ghost fl = if first_timer { self.cmds@.last()->SomeCommand_0 } else { LineId(0) };
        let ghost ftk = self.cmds@.last()->SomeCommand_1->SecondLayer_0->StartTimer_0;
        let ghost c0 = self.cmds@;
        let ghost ids0 = *ids;
        let ghost first_send = c0.len() > 0 && c0.last() is SomeCommand && c0.last()->SomeCommand_1 is SecondLayer
            && handed_to_send(c0.last()->SomeCommand_1->SecondLayer_0) is Some && old(self).lines().contains(c0.last()->SomeCommand_0);
        let ghost sl = c0.last()->SomeCommand_0;
        let ghost sc = c0.last()->SomeCommand_1->SecondLayer_0;
        let mut budget: u64 = u64::MAX;
        while self.cmds.len() > 0 && budget > 0
            invariant
                first_timer ==> c0.len() > 0 && c0.last() == LayerPipeItem::SomeCommand(fl, LayerCommand::SecondLayer(SecondLayerCommand::StartTimer(ftk))),
                first_timer ==> (res.timers@.len() > r0.timers@.len() && res.timers@[r0.timers@.len() as int] == (fl, ftk))
                    || (self.cmds@ == c0 && budget == u64::MAX && res.timers@ == r0.timers@),
                first_send ==> c0.len() > 0 && c0.last() == LayerPipeItem::SomeCommand(sl, LayerCommand::SecondLayer(sc))
                    && handed_to_send(sc) is Some && old(self).lines().contains(sl),
                first_send ==> (res.transmits@.len() > r0.transmits@.len() && res.transmits@[r0.transmits@.len() as int].0.spec_val() == sl
                    && carries_sent(sc, ids0, res.transmits@[r0.transmits@.len() as int].1, res.transmits@[r0.transmits@.len() as int].2))
                    || (self.cmds@ == c0 && budget == u64::MAX && res.transmits@ == r0.transmits@ && *ids == ids0),
                ev_start == old(self).events@,
                self.events@.len() >= ev_start.len(),
                self.events@.subrange(0, ev_start.len() as int) == ev_start,
                self.wf(),
                self.lines() == old(self).lines(),
                res.timers@.len() >= r0.timers@.len(),
                res.timers@.subrange(0, r0.timers@.len() as int) == r0.timers@,
                res.node_events@ == r0.node_events@,
                res.transmits@.len() >= r0.transmits@.len(),
                res.transmits@.subrange(0, r0.transmits@.len() as int) == r0.transmits@,
                forall|i: int| r0.transmits@.len() <= i < res.transmits@.len() ==>
                    old(self).lines().contains((#[trigger] res.transmits@[i]).0.spec_val()),
                agent_run(run),
                run[0] == x_start,
                run.last() == self.moment(*ids, *res),
                run.len() == u64::MAX - budget + 1,
            decreases budget,
        {
            let ghost xm = self.moment(*ids, *res);
            let ghost x1 = AgentState { cmds: xm.cmds.drop_last(), ..xm };
            let ghost fresh = self.cmds@ == c0 && budget == u64::MAX && res.transmits@ == r0.transmits@ && *ids == ids0;
            budget = budget - 1;
            let item = self.cmds.pop().unwrap();
            proof {
                assert(item == xm.cmds.last());
                assert(self.moment(*ids, *res) =~= x1);
                if fresh && first_send {
                    assert(item == c0.last());
                    assert(item->SomeCommand_0 == sl);
                }
            }
            match item {
                LayerPipeItem::SomeCommand(line_id, LayerCommand::SecondLayer(cmd)) => {
                    match cmd {
                        SecondLayerCommand::StartTimer(token) => {
                            let ghost tm = res.timers@;
                            res.timers.push((line_id, token));
                            assert(res.timers@.subrange(0, r0.timers@.len() as int) =~= tm.subrange(0, r0.timers@.len() as int));
                            assert(tm.len() > r0.timers@.len() ==> res.timers@[r0.timers@.len() as int] == tm[r0.timers@.len() as int]);
                        },
                        cmd => {
                            match Self::index_in(&self.sockets, line_id) {
                                Some(i) => {
                                    let ghost s0 = self.sockets@;
                                    let mut socket = self.sockets.remove(i);
                                    let ghost sock0 = socket;
                                    let ghost ids_b = *ids;
                                    let id = socket.profile().id;
                                    let out = socket.on_command(ids, cmd);
                                    let ghost ids_c = *ids;
                                    let ghost oe = out.events@;
                                    self.sockets.insert(i, socket);
                                    proof {
                                        assert(self.sockets@ =~= s0.update(i as int, socket));
                                        assert(socket_lines(self.sockets@) =~= socket_lines(s0));
                                        assert(socket_lines(s0)[i as int] == id.spec_val());
                                    }
                                    let ghost tr = res.transmits@;
                                    let ghost evb = self.events@;
                                    let ghost ot = out.transmits@;
                                    let ghost m_pre = self.moment(*ids, *res);
                                    self.take_socket_output(ids, id, out, res);
                                    proof {
                                        assert(sock0 == x1.sockets[i as int]);
                                        assert(m_pre =~= (AgentState { sockets: x1.sockets.update(i as int, socket), ids: ids_c, ..x1 }));
                                        assert(sock0.answers_command(x1.ids, cmd, socket, ids_c, ot, oe));
                                        assert(events_up(transmitted(m_pre, id, ot), line_id, oe, self.moment(*ids, *res)));
                                        assert(carried(x1, line_id, cmd, self.moment(*ids, *res)));
                                        if fresh && first_send {
                                            assert(cmd == sc);
                                            assert(ot.len() == 1);
                                            assert(res.transmits@[tr.len() + 0int] == (id, ot[0].0, ot[0].1));
                                            assert(id.spec_val() == sl);
                                        }
                                        if tr.len() > r0.transmits@.len() {
                                            assert(res.transmits@[r0.transmits@.len() as int]
                                                == res.transmits@.subrange(0, tr.len() as int)[r0.transmits@.len() as int]);
                                        }
                                        assert(self.events@.subrange(0, ev_start.len() as int)
                                            =~= self.events@.subrange(0, evb.len() as int).subrange(0, ev_start.len() as int));
                                        assert(res.transmits@.subrange(0, r0.transmits@.len() as int) =~= tr.subrange(0, r0.transmits@.len() as int));
                                        assert forall|k: int| r0.transmits@.len() <= k < res.transmits@.len() implies
                                            old(self).lines().contains((#[trigger] res.transmits@[k]).0.spec_val()) by {
                                            if k < tr.len() {
                                                assert(res.transmits@[k] == res.transmits@.subrange(0, tr.len() as int)[k]);
                                            } else {
                                                assert(old(self).lines()[i as int] == id.spec_val());
                                            }
                                        }
                                    }
                                },
                                None => {},
                            }
                        },
                    }
                },
                _ => {},
            }
            proof {
                let y = self.moment(*ids, *res);
                assert(agent_step(xm, y));
                let run0 = run;
                run = run.push(y);
                assert forall|k: int| 0 <= k < run.len() - 1 implies #[trigger] agent_step_at(run, k) by {
                    if k < run0.len() - 1 {
                        assert(agent_step_at(run0, k));
                        assert(run[k] == run0[k] && run[k + 1] == run0[k + 1]);
                    } else {
                        assert(run[k] == xm && run[k + 1] == y);
                    }
                }
            }
        }
        let ghost last = self.moment(*ids, *res);
        let ghost evs = self.events@;
        drain_node_events(&mut self.events, &mut res.node_events);
        proof {
            assert(self.moment(*ids, *res) =~= (AgentState { events: Seq::empty(),
                node_events: last.node_events + node_events_of(last.events), ..last }));
            assert(agent_run(run));
        }
        proof {
            assert(res.node_events@.subrange(0, r0.node_events@.len() as int) =~= r0.node_events@);
            assert forall|j: int| 0 <= j < ev_start.len() && (#[trigger] ev_start[j]) is SomeEvent implies
                res.node_events@.contains(NodeEvent(ev_start[j]->SomeEvent_0, second_event_of(ev_start[j]->SomeEvent_1))) by {
                assert(evs[j] == evs.subrange(0, ev_start.len() as int)[j]);
                lemma_node_events_of_has(evs, j);
                let x = NodeEvent(ev_start[j]->SomeEvent_0, second_event_of(ev_start[j]->SomeEvent_1));
                let ne = node_events_of(evs);
                let m = choose|m: int| 0 <= m < ne.len() && ne[m] == x;
                assert(res.node_events@[r0.node_events@.len() + m] == x);
            }
        }
    }

    /// A command from the frontend: it goes down the node's stack, and what
    /// comes out is carried on.
    pub fn on_command(&mut self, ids: &mut IdCounter, cmd: NodeCommand) -> (r: AgentOutput)
        requires
            old(self).wf(),
        ensures
            final(self).wf(),
            final(self).lines() == old(self).lines(),
            forall|i: int| 0 <= i < r.transmits@.len() ==> old(self).lines().contains((#[trigger] r.transmits@[i]).0.spec_val()),
            all_pass::<LayerPipeItem, NodeLayerState, NodeEntity>(old(self).node_layer(), LayerPipeItem::SomeCommand(cmd.0, LayerCommand::SecondLayer(cmd.1)))
                ==> (cmd.1 matches SecondLayerCommand::StartTimer(tk) ==> r.timers@.len() > 0 && r.timers@[0] == (cmd.0, tk)),
            all_pass::<LayerPipeItem, NodeLayerState, NodeEntity>(old(self).node_layer(), LayerPipeItem::SomeCommand(cmd.0, LayerCommand::SecondLayer(cmd.1)))
                && handed_to_send(cmd.1) is Some && old(self).lines().contains(cmd.0)
                ==> r.transmits@.len() > 0 && r.transmits@[0].0.spec_val() == cmd.0 && carries_sent(cmd.1, *old(ids), r.transmits@[0].1, r.transmits@[0].2),
            exists|x: AgentState| #[trigger] Self::took_command(old(self).fresh_moment(*old(ids)), cmd, x)
                && carried_on(x, final(self).moment(*final(ids), r)),
    {
        let ghost x0 = self.fresh_moment(*ids);
        let mut res = AgentOutput::new();
        let ghost c0 = self.cmds@;
        let ghost e0 = self.events@;
        self.protocol_stack.propagate_command(ids, cmd, &mut self.cmds, &mut self.events);
        let ghost x = self.moment(*ids, res);
        proof {
            let nc = self.cmds@.subrange(c0.len() as int, self.cmds@.len() as int);
            let ne = self.events@.subrange(e0.len() as int, self.events@.len() as int);
            assert(self.cmds@ =~= c0 + nc);
            assert(self.events@ =~= e0 + ne);
            assert(res.timers@ =~= Seq::<(LineId, TimerOwnerToken)>::empty());
            assert(res.transmits@ =~= Seq::<(LineTransceiverId, Chunk, TransmissionType)>::empty());
            assert(res.node_events@ =~= Seq::<NodeEvent>::empty());
            assert(x0.stack.item_run(x0.ids, LayerPipeItem::SomeCommand(cmd.0, LayerCommand::SecondLayer(cmd.1)), x.stack, x.ids, nc, ne));
            assert(x =~= (AgentState { stack: x.stack, ids: x.ids, cmds: x0.cmds + nc, events: x0.events + ne, ..x0 }));
            assert(Self::took_command(x0, cmd, x));
        }
        self.send_them_on_streams(ids, &mut res);
        res
    }

    /// An event from a line: it goes up the line's socket, then what the
    /// socket gives back is carried on. An event for a line the node has no
    /// socket on is dropped.
    pub fn on_line_event(&mut self, ids: &mut IdCounter, line_id: LineId, event: PhysicalLayerEvent) -> (r: AgentOutput)
        requires
            old(self).wf(),
        ensures
            final(self).wf(),
            final(self).lines() == old(self).lines(),
            !old(self).lines().contains(line_id) ==> r.timers@.len() == 0 && r.node_events@.len() == 0 && r.transmits@.len() == 0,
            forall|i: int| 0 <= i < r.transmits@.len() ==> old(self).lines().contains((#[trigger] r.transmits@[i]).0.spec_val()),
            old(self).lines().contains(line_id) && first_layer_lets_up(old(self).first_layer_of(line_id), event) ==>
                exists|f: FirstLayerEvent, s: SecondLayerEvent| #[trigger] first_of_physical(event, f) && #[trigger] second_of_first(f, s)
                    && (all_pass::<LayerPipeItem, NodeLayerState, NodeEntity>(old(self).node_layer(),
                        LayerPipeItem::SomeEvent(line_id, LayerEvent::SecondLayer(s)))
                        ==> r.node_events@.contains(NodeEvent(line_id, s))),
            old(self).lines().contains(line_id) && event is Received && off_channel(outer_header(event->Received_0.data@)) ==>
                exists|s: SecondLayerEvent| #![auto] (s matches SecondLayerEvent::BlockReceived(c2) && c2@ == unwrapped(event->Received_0.data@))
                    && (all_pass::<LayerPipeItem, NodeLayerState, NodeEntity>(old(self).node_layer(),
                        LayerPipeItem::SomeEvent(line_id, LayerEvent::SecondLayer(s)))
                        ==> r.node_events@.contains(NodeEvent(line_id, s))),
            old(self).lines().contains(line_id) ==> exists|x: AgentState| #[trigger] line_event_up(old(self).fresh_moment(*old(ids)), line_id, event, x)
                && carried_on(x, final(self).moment(*final(ids), r)),
            !old(self).lines().contains(line_id) ==> final(self).moment(*final(ids), r) == old(self).fresh_moment(*old(ids)),
    {
        let ghost x0 = self.fresh_moment(*ids);
        proof {
            if old(self).lines().contains(line_id) && event is Received && off_channel(outer_header(event->Received_0.data@)) {
                let k = choose|k: int| 0 <= k < self.sockets@.len() && (#[trigger] self.sockets@[k]).spec_profile().spec_line_id() == line_id;
                let j = choose|j: int| 0 <= j < self.lines().len() && self.lines()[j] == line_id;
                assert(self.sockets@[j].spec_profile().spec_line_id() == line_id);
                assert(self.first_layer_of(line_id) == self.sockets@[k].spec_first_layer());
                self.sockets@[k].lemma_first_layer_shape();
                let es = self.first_layer_of(line_id);
                assert forall|f: FirstLayerEvent| #[trigger] first_of_physical(event, f) implies
                    all_pass::<LayerPipeItem, IdCounter, FirstLayerEntity>(es, LayerPipeItem::SomeEvent(LineId(0), LayerEvent::FirstLayer(f))) by {
                    let it = LayerPipeItem::SomeEvent(LineId(0), LayerEvent::FirstLayer(f));
                    assert(es[0].passes(it));
                    assert(es[1].passes(it));
                }
                assert(first_layer_lets_up(self.first_layer_of(line_id), event));
            }
        }
        let mut res = AgentOutput::new();
        proof {
            assert(res.timers@ =~= Seq::<(LineId, TimerOwnerToken)>::empty());
            assert(res.transmits@ =~= Seq::<(LineTransceiverId, Chunk, TransmissionType)>::empty());
            assert(res.node_events@ =~= Seq::<NodeEvent>::empty());
            assert(self.moment(*ids, res) =~= x0);
        }
        match Self::index_in(&self.sockets, line_id) {
            Some(i) => {
                proof {
                    assert(self.lines()[i as int] == line_id);
                    let c = choose|c: int| 0 <= c < self.sockets@.len() && (#[trigger] self.sockets@[c]).spec_profile().spec_line_id() == line_id;
                    assert(self.sockets@[i as int].spec_profile().spec_line_id() == line_id);
                    if c != i as int {
                        if c < i {
                            assert(self.sockets@[c].spec_profile().spec_line_id() != self.sockets@[i as int].spec_profile().spec_line_id());
                        } else {
                            assert(self.sockets@[i as int].spec_profile().spec_line_id() != self.sockets@[c].spec_profile().spec_line_id());
                        }
                    }
                    assert(self.first_layer_of(line_id) == self.sockets@[i as int].spec_first_layer());
                }
                let ghost ev_before = self.events@;
                self.socket_event(ids, i, event, &mut res);
                proof {
                    if first_layer_lets_up(old(self).first_layer_of(line_id), event) {
                        let (f, s) = choose|f: FirstLayerEvent, s: SecondLayerEvent| #[trigger] first_of_physical(event, f) && #[trigger] second_of_first(f, s)
                            && (all_pass::<LayerPipeItem, NodeLayerState, NodeEntity>(old(self).node_layer(), LayerPipeItem::SomeEvent(
                                line_id, LayerEvent::SecondLayer(s)))
                                ==> self.events@ == ev_before.push(LayerPipeItem::SomeEvent(line_id, LayerEvent::SecondLayer(s))));
                        assert(first_of_physical(event, f) && second_of_first(f, s));
                    }
                }
                let ghost t1 = res.transmits@;
                let ghost ev_mid = self.events@;
                let ghost mid = self.moment(*ids, res);
                self.send_them_on_streams(ids, &mut res);
                proof {
                    assert(line_event_up(x0, line_id, event, mid));
                    assert(carried_on(mid, self.moment(*ids, res)));
                    if first_layer_lets_up(old(self).first_layer_of(line_id), event) {
                        let (f, s) = choose|f: FirstLayerEvent, s: SecondLayerEvent| #[trigger] first_of_physical(event, f) && #[trigger] second_of_first(f, s)
                            && (all_pass::<LayerPipeItem, NodeLayerState, NodeEntity>(old(self).node_layer(), LayerPipeItem::SomeEvent(
                                line_id, LayerEvent::SecondLayer(s)))
                                ==> ev_mid == ev_before.push(LayerPipeItem::SomeEvent(line_id, LayerEvent::SecondLayer(s))));
                        if all_pass::<LayerPipeItem, NodeLayerState, NodeEntity>(old(self).node_layer(), LayerPipeItem::SomeEvent(
                                line_id, LayerEvent::SecondLayer(s))) {
                            let j = ev_before.len() as int;
                            assert(ev_mid[j] == LayerPipeItem::SomeEvent(line_id, LayerEvent::SecondLayer(s)));
                            assert(res.node_events@.contains(NodeEvent(ev_mid[j]->SomeEvent_0, second_event_of(ev_mid[j]->SomeEvent_1))));
                        }
                        assert(first_of_physical(event, f) && second_of_first(f, s));
                    }
                    assert forall|k: int| 0 <= k < res.transmits@.len() implies
                        old(self).lines().contains((#[trigger] res.transmits@[k]).0.spec_val()) by {
                        if k < t1.len() {
                            assert(res.transmits@[k] == res.transmits@.subrange(0, t1.len() as int)[k]);
                        }
                    }
                }
            },
            None => {},
        }
        res
    }

    /// Carries an event up the `i`th socket and hands what it gives back on.
    fn socket_event(&mut self, ids: &mut IdCounter, i: usize, event: PhysicalLayerEvent, res: &mut AgentOutput)
        requires
            old(self).wf(),
            i < old(self).sockets@.len(),
            old(res).timers@.len() == 0,
            old(res).node_events@.len() == 0,
            old(res).transmits@.len() == 0,
        ensures
            final(self).wf(),
            final(self).lines() == old(self).lines(),
            final(res).timers@.len() == 0,
            final(res).node_events@.len() == 0,
            forall|k: int| 0 <= k < final(res).transmits@.len() ==> old(self).lines().contains((#[trigger] final(res).transmits@[k]).0.spec_val()),
            final(self).events@.len() >= old(self).events@.len(),
            final(self).events@.subrange(0, old(self).events@.len() as int) == old(self).events@,
            first_layer_lets_up(old(self).sockets@[i as int].spec_first_layer(), event) ==> final(res).transmits@.len() == 0
                && exists|f: FirstLayerEvent, s: SecondLayerEvent| #[trigger] first_of_physical(event, f) && #[trigger] second_of_first(f, s)
                    && (all_pass::<LayerPipeItem, NodeLayerState, NodeEntity>(old(self).node_layer(), LayerPipeItem::SomeEvent(
                        old(self).sockets@[i as int].spec_profile().spec_line_id(), LayerEvent::SecondLayer(s)))
                        ==> final(self).events@ == old(self).events@.push(LayerPipeItem::SomeEvent(
                            old(self).sockets@[i as int].spec_profile().spec_line_id(), LayerEvent::SecondLayer(s)))),
            line_event_up(old(self).moment(*old(ids), *old(res)), old(self).sockets@[i as int].spec_profile().spec_line_id(), event,
                final(self).moment(*final(ids), *final(res))),
    {
        let ghost x = self.moment(*ids, *res);
        let ghost s0 = self.sockets@;
        let mut socket = self.sockets.remove(i);
        let ghost sock0 = socket;
        let id = socket.profile().id;
        let out = socket.on_event(ids, event);
        let ghost ids_c = *ids;
        let ghost oe = out.events@;
        let ghost ot = out.transmits@;
        self.sockets.insert(i, socket);
        proof {
            assert(self.sockets@ =~= s0.update(i as int, socket));
            assert(socket_lines(self.sockets@) =~= socket_lines(s0));
            assert(socket_lines(s0)[i as int] == id.spec_val());
        }
        let ghost m_pre = self.moment(*ids, *res);
        self.take_socket_output(ids, id, out, res);
        proof {
            let l = s0[i as int].spec_profile().spec_line_id();
            assert(sock0 == x.sockets[i as int]);
            assert(m_pre =~= (AgentState { sockets: x.sockets.update(i as int, socket), ids: ids_c, ..x }));
            assert(sock0.answers_event(x.ids, event, socket, ids_c, ot, oe));
            assert(events_up(transmitted(m_pre, id, ot), l, oe, self.moment(*ids, *res)));
            assert(line_event_up(x, l, event, self.moment(*ids, *res)));
        }
    }

    /// A timer that fired: on a line's socket it goes up the socket; on the
    /// default line, for which there is no socket, it goes up the node's own
    /// stack. Then what is pending is carried on.
    pub fn on_timer(&mut self, ids: &mut IdCounter, line_id: LineId, token: TimerOwnerToken) -> (r: AgentOutput)
        requires
            old(self).wf(),
        ensures
            final(self).wf(),
            final(self).lines() == old(self).lines(),
            forall|i: int| 0 <= i < r.transmits@.len() ==> old(self).lines().contains((#[trigger] r.transmits@[i]).0.spec_val()),
            old(self).lines().contains(line_id) && first_layer_lets_up(old(self).first_layer_of(line_id), PhysicalLayerEvent::TimerFinished(token))
                && all_pass::<LayerPipeItem, NodeLayerState, NodeEntity>(old(self).node_layer(),
                    LayerPipeItem::SomeEvent(line_id, LayerEvent::SecondLayer(SecondLayerEvent::TimerFinished(token))))
                ==> r.node_events@.contains(NodeEvent(line_id, SecondLayerEvent::TimerFinished(token))),
            !old(self).lines().contains(line_id) && line_id.0 == 0
                && all_pass::<LayerPipeItem, NodeLayerState, NodeEntity>(old(self).node_layer(),
                    LayerPipeItem::SomeEvent(line_id, LayerEvent::SecondLayer(SecondLayerEvent::TimerFinished(token))))
                ==> r.node_events@.contains(NodeEvent(line_id, SecondLayerEvent::TimerFinished(token))),
            old(self).lines().contains(line_id) ==> exists|x: AgentState|
                #[trigger] line_event_up(old(self).fresh_moment(*old(ids)), line_id, PhysicalLayerEvent::TimerFinished(token), x)
                && carried_on(x, final(self).moment(*final(ids), r)),
            !old(self).lines().contains(line_id) && line_id.0 == 0 ==> exists|x: AgentState|
                #[trigger] event_up(old(self).fresh_moment(*old(ids)), line_id, SecondLayerEvent::TimerFinished(token), x)
                && carried_on(x, final(self).moment(*final(ids), r)),
            !old(self).lines().contains(line_id) && line_id.0 != 0 ==> carried_on(old(self).fresh_moment(*old(ids)),
                final(self).moment(*final(ids), r)),
    {
        let ghost x0 = self.fresh_moment(*ids);
        let mut res = AgentOutput::new();
        proof {
            assert(res.timers@ =~= Seq::<(LineId, TimerOwnerToken)>::empty());
            assert(res.transmits@ =~= Seq::<(LineTransceiverId, Chunk, TransmissionType)>::empty());
            assert(res.node_events@ =~= Seq::<NodeEvent>::empty());
            assert(self.moment(*ids, res) =~= x0);
        }
        let ghost ev_before = self.events@;
        let ghost item = LayerPipeItem::SomeEvent(line_id, LayerEvent::SecondLayer(SecondLayerEvent::TimerFinished(token)));
        let ghost reaches = all_pass::<LayerPipeItem, NodeLayerState, NodeEntity>(self.node_layer(), item);
        match Self::index_in(&self.sockets, line_id) {
            Some(i) => {
                proof {
                    let c = choose|c: int| 0 <= c < self.sockets@.len() && (#[trigger] self.sockets@[c]).spec_profile().spec_line_id() == line_id;
                    assert(self.lines()[i as int] == line_id);
                    if c != i as int {
                        if c < i {
                            assert(self.sockets@[c].spec_profile().spec_line_id() != self.sockets@[i as int].spec_profile().spec_line_id());
                        } else {
                            assert(self.sockets@[i as int].spec_profile().spec_line_id() != self.sockets@[c].spec_profile().spec_line_id());
                        }
                    }
                    assert(self.first_layer_of(line_id) == self.sockets@[i as int].spec_first_layer());
                }
                self.socket_event(ids, i, PhysicalLayerEvent::TimerFinished(token), &mut res);
                proof {
                    if first_layer_lets_up(old(self).first_layer_of(line_id), PhysicalLayerEvent::TimerFinished(token)) && reaches {
                        let (f, s) = choose|f: FirstLayerEvent, s: SecondLayerEvent|
                            #[trigger] first_of_physical(PhysicalLayerEvent::TimerFinished(token), f) && #[trigger] second_of_first(f, s)
                            && (all_pass::<LayerPipeItem, NodeLayerState, NodeEntity>(old(self).node_layer(), LayerPipeItem::SomeEvent(
                                line_id, LayerEvent::SecondLayer(s)))
                                ==> self.events@ == ev_before.push(LayerPipeItem::SomeEvent(line_id, LayerEvent::SecondLayer(s))));
                        assert(f == FirstLayerEvent::TimerFinished(token));
                        assert(s == SecondLayerEvent::TimerFinished(token));
                        assert(self.events@ == ev_before.push(item));
                    }
                }
            },
            None => {
                if line_id.0 == 0 {
                    let ghost c0 = self.cmds@;
                    let ghost e0 = self.events@;
                    self.protocol_stack.propagate_event(
                        ids,
                        NodeEvent(line_id, SecondLayerEvent::TimerFinished(token)),
                        &mut self.cmds,
                        &mut self.events,
                    );
                    proof {
                        let y = self.moment(*ids, res);
                        let nc = self.cmds@.subrange(c0.len() as int, self.cmds@.len() as int);
                        let ne = self.events@.subrange(e0.len() as int, self.events@.len() as int);
                        assert(self.cmds@ =~= c0 + nc);
                        assert(self.events@ =~= e0 + ne);
                        assert(x0.stack.item_run(x0.ids, LayerPipeItem::SomeEvent(line_id, LayerEvent::SecondLayer(
                            SecondLayerEvent::TimerFinished(token))), y.stack, y.ids, nc, ne));
                        assert(y =~= (AgentState { stack: y.stack, ids: y.ids, cmds: x0.cmds + nc, events: x0.events + ne, ..x0 }));
                        assert(event_up(x0, line_id, SecondLayerEvent::TimerFinished(token), y));
                        if reaches {
                            assert(self.events@ == ev_before.push(item));
                        }
                    }
                }
            },
        }
        let ghost t1 = res.transmits@;
        let ghost ev_mid = self.events@;
        let ghost mid = self.moment(*ids, res);
        self.send_them_on_streams(ids, &mut res);
        proof {
            assert(carried_on(mid, self.moment(*ids, res)));
            if ev_mid == ev_before.push(item) {
                let j = ev_before.len() as int;
                assert(ev_mid[j] == item);
                assert(res.node_events@.contains(NodeEvent(ev_mid[j]->SomeEvent_0, second_event_of(ev_mid[j]->SomeEvent_1))));
            }
        }
        proof {
            assert forall|k: int| 0 <= k < res.transmits@.len() implies
                old(self).lines().contains((#[trigger] res.transmits@[k]).0.spec_val()) by {
                if k < t1.len() {
                    assert(res.transmits@[k] == res.transmits@.subrange(0, t1.len() as int)[k]);
                }
            }
        }
        res
    }
}

} // verus!
