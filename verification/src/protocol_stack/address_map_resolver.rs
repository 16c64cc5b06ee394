use vstd::prelude::*;
use crate::pipe::{Entity, EventTarget, SharedPipeAlloc, PipeState};
use crate::clock::{instant_now, elapsed_nanos};
use crate::protocol_stack::{Chunk, ChunkView, ChannelToken, ServiceToken, SecondLayerHeader, BlockType, MessageBody, Headers, BodyView, outer_header};
use crate::protocol_stack::line::LineId;
use crate::protocol_stack::node::{NodeAddress, NodeLayerState, AddressMap, AddressMapEntry, improves};
use crate::protocol_stack::second_layer::{SecondLayerCommand, SecondLayerEvent, ServiceRequestType, ServiceResultType};
use crate::protocol_stack::layer_pipe_item::{LayerPipeItem, LayerCommand, LayerEvent};
use crate::protocol_stack::token_table::{TokenTable, unexpired, lemma_unexpired_keeps_the_alive};
use crate::protocol_stack::expired_streams_cleaner::{node_command, node_event, node_event_item, node_command_item};

verus! {

/// The delay given to a node learnt of in passing, in nanoseconds: a million seconds.
pub open spec fn passive_delay() -> u128 {
    1_000_000_000_000_000u128
}

/// The map after a block from `src` passed by on `line_id` at the node
/// `own`: a node not known yet, and not `own`, is recorded with the delay given
/// to a node learnt of in passing.
pub open spec fn learnt_in_passing(map: Map<NodeAddress, AddressMapEntry>, own: NodeAddress, src: NodeAddress,
    line_id: LineId) -> Map<NodeAddress, AddressMapEntry> {
    if own != src && !map.contains_key(src) {
        map.insert(src, AddressMapEntry { line_id, oneway_delay: passive_delay() })
    } else {
        map
    }
}

/// The service message that an item carries up, when its outermost header
/// is a second layer header: its token, the line it came in on, and that
/// header.
pub open spec fn service_block(item: LayerPipeItem) -> Option<(ServiceToken, LineId, SecondLayerHeader)> {
    match item {
        LayerPipeItem::SomeEvent(line, LayerEvent::SecondLayer(
            SecondLayerEvent::ServiceMessage(t, ServiceResultType::SomeService(msg)))) => match outer_header(msg@) {
            Headers::SecondLayer(hdr) => Some((t, line, hdr)),
            _ => None,
        },
        _ => None,
    }
}

/// The lines of `lines` other than `except`, in order.
pub open spec fn other_lines(lines: Seq<LineId>, except: LineId) -> Seq<LineId> {
    lines.filter(not_line(except))
}

/// Whether a line is not `except`.
pub open spec fn not_line(except: LineId) -> spec_fn(LineId) -> bool {
    |l: LineId| l != except
}

/// The other lines of a line list grown by one line.
proof fn lemma_other_lines_push(ls: Seq<LineId>, x: LineId, except: LineId)
    ensures
        other_lines(ls.push(x), except) == (if x != except { other_lines(ls, except).push(x) } else { other_lines(ls, except) }),
{
    ls.lemma_filter_push(x, not_line(except));
}

/// `items` send, one on each of `ls` in order, a block with the header `h`
/// under the token `t`.
pub open spec fn sends_on(items: Seq<LayerPipeItem>, ls: Seq<LineId>, h: SecondLayerHeader, t: ServiceToken) -> bool {
    &&& items.len() == ls.len()
    &&& forall|i: int| 0 <= i < items.len() ==> ((#[trigger] items[i]) matches LayerPipeItem::SomeCommand(l, LayerCommand::SecondLayer(
            SecondLayerCommand::Send(_, h2, tk))) && l == ls[i] && h2 == h && tk == Some(t))
}

/// `items` send, one on each of `ls` in order, a block that holds `m` with
/// the header `h` under the token `t`.
pub open spec fn forwards_on(items: Seq<LayerPipeItem>, ls: Seq<LineId>, m: ChunkView, h: SecondLayerHeader, t: ServiceToken) -> bool {
    &&& sends_on(items, ls, h, t)
    &&& forall|i: int| 0 <= i < items.len() ==> ((#[trigger] items[i]) matches LayerPipeItem::SomeCommand(_, LayerCommand::SecondLayer(
            SecondLayerCommand::Send(c, _, _))) && c@ == m)
}

/// `items` pass a chunk that holds `m` on as it is, one on each of `ls` in
/// order, under the token `t`.
pub open spec fn relays_on(items: Seq<LayerPipeItem>, ls: Seq<LineId>, m: ChunkView, t: ServiceToken) -> bool {
    &&& items.len() == ls.len()
    &&& forall|i: int| 0 <= i < items.len() ==> ((#[trigger] items[i]) matches LayerPipeItem::SomeCommand(l, LayerCommand::SecondLayer(
            SecondLayerCommand::SendAsIs(c, tk))) && l == ls[i] && c@ == m && tk == Some(t))
}

/// `item` sends, on `line`, a block with the header `h` under the token `t`.
pub open spec fn sends_one(item: LayerPipeItem, line: LineId, h: SecondLayerHeader, t: ServiceToken) -> bool {
    item matches LayerPipeItem::SomeCommand(l, LayerCommand::SecondLayer(SecondLayerCommand::Send(_, h2, tk)))
        && l == line && h2 == h && tk == Some(t)
}

/// What a message from `src` that came in on `line` and holds `body` teaches
/// the map, from `m0` to `m1`, when `delay` nanoseconds have gone by since its
/// stamp: a stamped message offers the route back with that delay, which is
/// kept if it is shorter than the one known (a tie keeps the old one); a
/// message with no stamp teaches nothing.
pub open spec fn learnt_with(m0: Map<NodeAddress, AddressMapEntry>, m1: Map<NodeAddress, AddressMapEntry>,
    body: BodyView, src: NodeAddress, line: LineId, delay: u128) -> bool {
    match body {
        BodyView::Data(_) => m1 == m0,
        BodyView::TimeStamp(_) => m1 == (if improves(m0, src, AddressMapEntry { line_id: line, oneway_delay: delay }) {
                m0.insert(src, AddressMapEntry { line_id: line, oneway_delay: delay })
            } else {
                m0
            }),
    }
}

/// What a message teaches the map, with the delay since its stamp as the
/// clock reads it.
pub open spec fn learnt_from_message(m0: Map<NodeAddress, AddressMapEntry>, m1: Map<NodeAddress, AddressMapEntry>,
    body: BodyView, src: NodeAddress, line: LineId) -> bool {
    exists|delay: u128| #[trigger] learnt_with(m0, m1, body, src, line, delay)
}

/// What a stamped message teaches never lengthens the route known to its
/// source, which is known afterwards, and forgets no other node.
pub proof fn lemma_learning_never_lengthens(m0: Map<NodeAddress, AddressMapEntry>, m1: Map<NodeAddress, AddressMapEntry>,
    body: BodyView, src: NodeAddress, line: LineId)
    requires
        learnt_from_message(m0, m1, body, src, line),
        body is TimeStamp,
    ensures
        m1.contains_key(src),
        m0.contains_key(src) ==> m1[src].oneway_delay <= m0[src].oneway_delay,
        forall|a: NodeAddress| #[trigger] m0.contains_key(a) ==> m1.contains_key(a),
{
}

/// The chunk a service message item carries.
pub open spec fn service_chunk(item: LayerPipeItem) -> ChunkView {
    match item {
        LayerPipeItem::SomeEvent(_, LayerEvent::SecondLayer(SecondLayerEvent::ServiceMessage(_, ServiceResultType::SomeService(msg)))) => msg@,
        _ => ChunkView { first: None, second: None, body: BodyView::Data(Seq::empty()) },
    }
}

/// The services of `r1` are those of `r0`, but for the one of `t`.
pub open spec fn others_kept(r0: AddressMapResolver, r1: AddressMapResolver, t: ServiceToken) -> bool {
    forall|u: ChannelToken| u.spec_id() != t.spec_id() ==> (r1.services().has(u) == r0.services().has(u))
}

/// A request swallowed: the item is taken, and nothing else changes.
pub open spec fn swallowed(r0: AddressMapResolver, r1: AddressMapResolver, m0: Map<NodeAddress, AddressMapEntry>,
    m1: Map<NodeAddress, AddressMapEntry>, a0: PipeState<LayerPipeItem>, a1: PipeState<LayerPipeItem>) -> bool {
    r1.services() == r0.services() && m1 == m0 && a1 == a0.taken_front()
}

/// A request under `t` that came in on `line`, holding `m` with the header
/// `hdr`, taken up: the map learns the way back to its source; a request for
/// another node is registered and sent on over every other line, in order,
/// and answered on its line too if it asks for every node; a request for this
/// node is answered on its line. The request itself is taken.
pub open spec fn request_taken_up(r0: AddressMapResolver, r1: AddressMapResolver, m0: Map<NodeAddress, AddressMapEntry>,
    m1: Map<NodeAddress, AddressMapEntry>, a0: PipeState<LayerPipeItem>, a1: PipeState<LayerPipeItem>, t: ServiceToken,
    line: LineId, m: ChunkView, hdr: SecondLayerHeader) -> bool {
    let own = r0.spec_node_addr();
    let resp_h = SecondLayerHeader::new_spec(BlockType::AddressMapResponse, own, hdr.src);
    &&& learnt_from_message(m0, m1, m.body, hdr.src, line)
    &&& hdr.dest != own ==> {
        &&& r1.services().has(t) && r1.services().value_of(t) == (line, hdr.dest) && others_kept(r0, r1, t)
        &&& exists|fwd: Seq<LayerPipeItem>, resp: LayerPipeItem|
                #![trigger forwards_on(fwd, other_lines(r0.spec_lines(), line), m, hdr, t), sends_one(resp, line, resp_h, t)]
                forwards_on(fwd, other_lines(r0.spec_lines(), line), m, hdr, t) && sends_one(resp, line, resp_h, t)
                && a1 == (if hdr.dest == NodeAddress::any_spec() { a0.extended(fwd).pushed_done(resp) } else { a0.extended(fwd) }).taken_front()
    }
    &&& hdr.dest == own ==> r1.services() == r0.services()
        && exists|resp: LayerPipeItem| #[trigger] sends_one(resp, line, resp_h, t) && a1 == a0.pushed_done(resp).taken_front()
}

/// What a request for routes does: one already known is swallowed; a new one
/// is taken up, unless its token's lifetime has run out, when it is
/// swallowed too (which only a token with a lifetime can).
pub open spec fn answers_request(r0: AddressMapResolver, r1: AddressMapResolver, m0: Map<NodeAddress, AddressMapEntry>,
    m1: Map<NodeAddress, AddressMapEntry>, a0: PipeState<LayerPipeItem>, a1: PipeState<LayerPipeItem>, t: ServiceToken,
    line: LineId, m: ChunkView, hdr: SecondLayerHeader) -> bool {
    &&& r1.spec_node_addr() == r0.spec_node_addr() && r1.spec_lines() == r0.spec_lines()
    &&& r0.services().has(t) ==> swallowed(r0, r1, m0, m1, a0, a1)
    &&& !r0.services().has(t) ==> swallowed(r0, r1, m0, m1, a0, a1) || request_taken_up(r0, r1, m0, m1, a0, a1, t, line, m, hdr)
    &&& !r0.services().has(t) && t.spec_expires() is None ==> request_taken_up(r0, r1, m0, m1, a0, a1, t, line, m, hdr)
}

/// What a response under `t` that came in on `line`, holding `m` with the
/// header `hdr`, does: the map learns the way back to its source. For a
/// service this node does not know, nothing else happens. At the node that
/// asked for one node, the service is complete and the news goes up as done
/// in place of the response; for every node, the response goes on. A relay
/// sends the response back as it is on the line the request came in on, in
/// place of it.
pub open spec fn takes_response(r0: AddressMapResolver, r1: AddressMapResolver, m0: Map<NodeAddress, AddressMapEntry>,
    m1: Map<NodeAddress, AddressMapEntry>, a0: PipeState<LayerPipeItem>, a1: PipeState<LayerPipeItem>, t: ServiceToken,
    line: LineId, m: ChunkView, hdr: SecondLayerHeader) -> bool {
    let own = r0.spec_node_addr();
    &&& learnt_from_message(m0, m1, m.body, hdr.src, line)
    &&& r1.spec_node_addr() == own && r1.spec_lines() == r0.spec_lines()
    &&& !r0.services().has(t) ==> r1.services() == r0.services() && a1 == a0
    &&& r0.services().has(t) && hdr.dest == own && r0.services().value_of(t).1 != NodeAddress::any_spec()
        ==> !r1.services().has(t) && others_kept(r0, r1, t) && a1 == a0.pushed_done(node_event_item(LineId(0),
            SecondLayerEvent::ServiceComplete(t, ServiceResultType::AddressMapUpdate(hdr.src)))).taken_front()
    &&& r0.services().has(t) && hdr.dest == own && r0.services().value_of(t).1 == NodeAddress::any_spec()
        ==> r1.services() == r0.services() && a1 == a0
    &&& r0.services().has(t) && hdr.dest != own ==> r1.services() == r0.services()
        && exists|c: Chunk| #![auto] c@ == m && a1 == a0.pushed_done(node_command_item(r0.services().value_of(t).0,
            SecondLayerCommand::SendAsIs(c, Some(t)))).taken_front()
}

/// What a drop of the service of `t` that came in on `line`, holding `m` with
/// the header `hdr`, does: a service this node relays is forgotten and the
/// drop is passed on as it is over every other line, in order; otherwise the
/// map learns the source in passing.
pub open spec fn takes_drop(r0: AddressMapResolver, r1: AddressMapResolver, m0: Map<NodeAddress, AddressMapEntry>,
    m1: Map<NodeAddress, AddressMapEntry>, a0: PipeState<LayerPipeItem>, a1: PipeState<LayerPipeItem>, t: ServiceToken,
    line: LineId, m: ChunkView, hdr: SecondLayerHeader) -> bool {
    &&& r1.spec_node_addr() == r0.spec_node_addr() && r1.spec_lines() == r0.spec_lines()
    &&& !r1.services().has(t) && others_kept(r0, r1, t)
    &&& r0.services().has(t) ==> m1 == m0 && exists|fwd: Seq<LayerPipeItem>| #[trigger] relays_on(fwd, other_lines(r0.spec_lines(), line), m, t)
        && a1 == a0.extended(fwd)
    &&& !r0.services().has(t) ==> a1 == a0 && r1.services() == r0.services()
        && m1 == learnt_in_passing(m0, r0.spec_node_addr(), hdr.src, line)
}

/// The items the resolver acts on: service messages with a second layer
/// header, requests for address map services, drops of services, and the
/// command to forget expired services.
pub open spec fn resolver_handles(item: LayerPipeItem) -> bool {
    ||| service_block(item) is Some
    ||| item matches LayerPipeItem::SomeCommand(_, LayerCommand::SecondLayer(
            SecondLayerCommand::ServiceRequest(_, ServiceRequestType::AddressMap(_))))
    ||| item matches LayerPipeItem::SomeCommand(_, LayerCommand::SecondLayer(SecondLayerCommand::DropService(_)))
    ||| item matches LayerPipeItem::SomeCommand(_, LayerCommand::SecondLayer(SecondLayerCommand::CheckExpiredTokens))
}

/// The node entity that builds the address map: it floods address map
/// requests over the lines, answers them, and records from the requests and
/// responses that pass by the line and delay by which each node is reached.
pub struct AddressMapResolver {
    node_addr: NodeAddress,
    lines: Vec<LineId>,
    service_entries: TokenTable<(LineId, NodeAddress)>,
}

impl Entity for AddressMapResolver {
    closed spec fn inv(&self) -> bool {
        self.service_entries.wf()
    }
}

/// What the resolver does with the item at hand.
enum ResolverAction {
    Request(ServiceToken, LineId, Chunk, SecondLayerHeader),
    Response(ServiceToken, LineId, Chunk, SecondLayerHeader),
    DropToken(ServiceToken, LineId, Chunk, SecondLayerHeader),
    OtherBlock(LineId, SecondLayerHeader),
    Start(ServiceToken, NodeAddress),
    DropService(ServiceToken),
    CheckExpired,
    Pass,
}

impl AddressMapResolver {
    pub closed spec fn services(&self) -> TokenTable<(LineId, NodeAddress)> {
        self.service_entries
    }

    pub closed spec fn spec_node_addr(&self) -> NodeAddress {
        self.node_addr
    }

    pub closed spec fn spec_lines(&self) -> Seq<LineId> {
        self.lines@
    }

    pub fn new(node_addr: NodeAddress, lines: Vec<LineId>) -> (r: Self)
        ensures
            r.inv(),
            r.services().entries().len() == 0,
            r.spec_node_addr() == node_addr,
            r.spec_lines() == lines@,
    {
        AddressMapResolver { node_addr, lines, service_entries: TokenTable::new() }
    }

    fn make_req_cmd(&self, service_token: ServiceToken, line_id: LineId, dest: NodeAddress) -> (r: LayerPipeItem)
        ensures
            r matches LayerPipeItem::SomeCommand(l, LayerCommand::SecondLayer(SecondLayerCommand::Send(_, h, t)))
                && l == line_id && h == SecondLayerHeader::new_spec(BlockType::AddressMapRequest, self.node_addr, dest) && t == Some(service_token),
    {
        let hdr = SecondLayerHeader::new(BlockType::AddressMapRequest, self.node_addr, dest);
        let msg = Chunk::from_message(MessageBody::TimeStamp(instant_now()));
        node_command(line_id, SecondLayerCommand::Send(msg, hdr, Some(service_token)))
    }

    fn make_resp_cmd(&self, service_token: ServiceToken, line_id: LineId, dest: NodeAddress) -> (r: LayerPipeItem)
        ensures
            r matches LayerPipeItem::SomeCommand(l, LayerCommand::SecondLayer(SecondLayerCommand::Send(_, h, t)))
                && l == line_id && h == SecondLayerHeader::new_spec(BlockType::AddressMapResponse, self.node_addr, dest) && t == Some(service_token),
    {
        let hdr = SecondLayerHeader::new(BlockType::AddressMapResponse, self.node_addr, dest);
        let msg = Chunk::from_message(MessageBody::TimeStamp(instant_now()));
        node_command(line_id, SecondLayerCommand::Send(msg, hdr, Some(service_token)))
    }

    fn make_drop_cmd(&self, service_token: ServiceToken, line_id: LineId) -> (r: LayerPipeItem)
        ensures
            r matches LayerPipeItem::SomeCommand(l, LayerCommand::SecondLayer(SecondLayerCommand::Send(_, h, t)))
                && l == line_id && h == SecondLayerHeader::new_spec(BlockType::DropToken, self.node_addr, NodeAddress::any_spec()) && t == Some(service_token),
    {
        let hdr = SecondLayerHeader::new(BlockType::DropToken, self.node_addr, NodeAddress::any());
        let msg = Chunk::empty();
        node_command(line_id, SecondLayerCommand::Send(msg, hdr, Some(service_token)))
    }

    /// The nanoseconds gone by since the stamp of `msg`, as the clock reads
    /// now; a message with no stamp gives 0.
    fn stamp_delay(msg: &Chunk) -> (r: u128) {
        match msg.body() {
            MessageBody::TimeStamp(ts) => elapsed_nanos(ts),
            MessageBody::Data(_) => 0,
        }
    }

    /// Whether `msg` holds a time stamp.
    fn is_stamped(msg: &Chunk) -> (r: bool)
        ensures
            r == (msg@.body is TimeStamp),
    {
        match msg.body() {
            MessageBody::TimeStamp(_) => true,
            MessageBody::Data(_) => false,
        }
    }

    /// Records what a stamped message from `hdr.src` tells, `delay`
    /// nanoseconds after its stamp: that the source is reached by
    /// `source_line_id` with that delay, if it is shorter than the delay known.
    pub fn learn_from_message(msg: &Chunk, delay: u128, source_line_id: LineId, hdr: &SecondLayerHeader, map: &mut AddressMap)
        requires
            msg@.body is TimeStamp,
        ensures
            learnt_with(old(map)@, final(map)@, msg@.body, hdr.src, source_line_id, delay),
    {
        let new_entry = AddressMapEntry { line_id: source_line_id, oneway_delay: delay };
        map.offer(hdr.src, new_entry);
    }

    /// Records what a message from `hdr.src` tells, with the delay since its
    /// stamp as the clock reads it. The requests and responses of routes are
    /// always stamped; one that is not would teach nothing.
    fn update_map_on_message(msg: &Chunk, source_line_id: LineId, hdr: &SecondLayerHeader, map: &mut AddressMap)
        ensures
            learnt_from_message(old(map)@, final(map)@, msg@.body, hdr.src, source_line_id),
    {
        if Self::is_stamped(msg) {
            let delay = Self::stamp_delay(msg);
            Self::learn_from_message(msg, delay, source_line_id, hdr, map);
        } else {
            assert(learnt_with(old(map)@, map@, msg@.body, hdr.src, source_line_id, 0));
        }
    }

    /// Records that `hdr.src`, unless it is this node, is reached by
    /// `source_line_id`, if nothing is known of it yet.
    fn update_map_passively(&self, source_line_id: LineId, hdr: &SecondLayerHeader, map: &mut AddressMap)
        ensures
            final(map)@ == learnt_in_passing(old(map)@, self.node_addr, hdr.src, source_line_id),
    {
        if self.node_addr != hdr.src {
            let new_entry = AddressMapEntry { line_id: source_line_id, oneway_delay: 1_000_000_000_000_000u128 };
            map.insert_if_absent(hdr.src, new_entry);
        }
    }

    /// Starts a request for the routes to `dest`, or to every node; whether
    /// the token has expired is read from the clock.
    fn on_start_service(&mut self, service_token: ServiceToken, dest: NodeAddress, map: &mut AddressMap,
        shared_alloc: &mut SharedPipeAlloc<LayerPipeItem>)
        requires
            old(self).inv(),
            old(shared_alloc)@.well_formed(),
        ensures
            final(self).inv(),
            final(shared_alloc)@.well_formed(),
            final(shared_alloc)@.bottom == old(shared_alloc)@.bottom,
            crate::pipe::grows(old(shared_alloc)@, final(shared_alloc)@),
            final(map)@ == (if dest == NodeAddress::any_spec() {
                Map::<NodeAddress, AddressMapEntry>::empty()
            } else {
                old(map)@.remove(dest)
            }),
            final(shared_alloc)@.top.len() > 0,
            final(shared_alloc)@.top.last() == (node_event_item(LineId(0), SecondLayerEvent::ServiceStarted(service_token)), true),
            final(self).services().has(service_token) ==> !old(self).services().has(service_token) ==>
                final(self).services().value_of(service_token) == (LineId(0), dest),
            old(self).services().has(service_token) ==> final(self).services() == old(self).services(),
            final(self).services() == old(self).services() || (!old(self).services().has(service_token)
                && final(self).services().has(service_token)
                && forall|u: ChannelToken| u.spec_id() != service_token.spec_id()
                    ==> (final(self).services().has(u) == old(self).services().has(u))),
            service_token.spec_expires() is None && !old(self).services().has(service_token) ==> final(self).services().has(service_token),
            final(self).spec_node_addr() == old(self).spec_node_addr(),
            final(self).spec_lines() == old(self).spec_lines(),
            exists|reqs: Seq<LayerPipeItem>| #[trigger] sends_on(reqs, old(self).spec_lines(),
                SecondLayerHeader::new_spec(BlockType::AddressMapRequest, old(self).spec_node_addr(), dest), service_token)
                && final(shared_alloc)@ == old(shared_alloc)@.extended(reqs).taken_front().pushed_done(
                    node_event_item(LineId(0), SecondLayerEvent::ServiceStarted(service_token))),
    {
        let expired = service_token.expired();
        self.start_service(expired, service_token, dest, map, shared_alloc);
    }

    /// Starts a request for the routes to `dest`, or to every node; `expired`
    /// says whether the token has expired. What is known of `dest` is
    /// forgotten, the service is registered unless it is known already or the
    /// token has expired, the request goes out on every line in place of the
    /// command, and the news that the service started goes up as done.
    pub fn start_service(&mut self, expired: bool, service_token: ServiceToken, dest: NodeAddress, map: &mut AddressMap,
        shared_alloc: &mut SharedPipeAlloc<LayerPipeItem>)
        requires
            old(self).inv(),
            old(shared_alloc)@.well_formed(),
        ensures
            final(self).inv(),
            final(shared_alloc)@.well_formed(),
            final(shared_alloc)@.bottom == old(shared_alloc)@.bottom,
            crate::pipe::grows(old(shared_alloc)@, final(shared_alloc)@),
            final(map)@ == (if dest == NodeAddress::any_spec() {
                Map::<NodeAddress, AddressMapEntry>::empty()
            } else {
                old(map)@.remove(dest)
            }),
            final(shared_alloc)@.top.len() > 0,
            final(shared_alloc)@.top.last() == (node_event_item(LineId(0), SecondLayerEvent::ServiceStarted(service_token)), true),
            final(self).services().has(service_token) ==> !old(self).services().has(service_token) ==>
                final(self).services().value_of(service_token) == (LineId(0), dest),
            old(self).services().has(service_token) ==> final(self).services() == old(self).services(),
            final(self).services() == old(self).services() || (!old(self).services().has(service_token)
                && final(self).services().has(service_token)
                && forall|u: ChannelToken| u.spec_id() != service_token.spec_id()
                    ==> (final(self).services().has(u) == old(self).services().has(u))),
            !expired && !old(self).services().has(service_token) ==> final(self).services().has(service_token),
            expired ==> final(self).services() == old(self).services(),
            final(self).spec_node_addr() == old(self).spec_node_addr(),
            final(self).spec_lines() == old(self).spec_lines(),
            exists|reqs: Seq<LayerPipeItem>| #[trigger] sends_on(reqs, old(self).spec_lines(),
                SecondLayerHeader::new_spec(BlockType::AddressMapRequest, old(self).spec_node_addr(), dest), service_token)
                && final(shared_alloc)@ == old(shared_alloc)@.extended(reqs).taken_front().pushed_done(
                    node_event_item(LineId(0), SecondLayerEvent::ServiceStarted(service_token))),
    {
        if dest == NodeAddress::any() {
            map.clear();
        } else {
            map.remove(&dest);
        }
        if !self.service_entries.contains(&service_token) && !expired {
            self.service_entries.insert(service_token, (LineId(0), dest));
        }
        let mut reqs: Vec<LayerPipeItem> = Vec::new();
        let mut i: usize = 0;
        let ghost h = SecondLayerHeader::new_spec(BlockType::AddressMapRequest, self.node_addr, dest);
        while i < self.lines.len()
            invariant
                i <= self.lines@.len(),
                sends_on(reqs@, self.lines@.subrange(0, i as int), h, service_token),
                h == SecondLayerHeader::new_spec(BlockType::AddressMapRequest, self.node_addr, dest),
            decreases self.lines@.len() - i,
        {
            reqs.push(self.make_req_cmd(service_token, self.lines[i], dest));
            i = i + 1;
        }
        assert(self.lines@.subrange(0, self.lines@.len() as int) =~= self.lines@);
        let ghost rs = reqs@;
        let ghost a0 = shared_alloc@;
        shared_alloc.extend(reqs);
        shared_alloc.take_current();
        shared_alloc.push_done(node_event(LineId(0), SecondLayerEvent::ServiceStarted(service_token)));
        assert(sends_on(rs, old(self).spec_lines(), SecondLayerHeader::new_spec(BlockType::AddressMapRequest, old(self).spec_node_addr(), dest),
            service_token) && shared_alloc@ == a0.extended(rs).taken_front().pushed_done(
            node_event_item(LineId(0), SecondLayerEvent::ServiceStarted(service_token))));
    }

    /// Drops a service this node runs: it is forgotten, and the drop goes out
    /// on every line in place of the command.
    fn on_drop_service(&mut self, service_token: ServiceToken, shared_alloc: &mut SharedPipeAlloc<LayerPipeItem>)
        requires
            old(self).inv(),
            old(shared_alloc)@.well_formed(),
        ensures
            final(self).inv(),
            final(shared_alloc)@.well_formed(),
            final(shared_alloc)@.bottom == old(shared_alloc)@.bottom,
            crate::pipe::grows(old(shared_alloc)@, final(shared_alloc)@),
            !final(self).services().has(service_token),
            !old(self).services().has(service_token) ==> final(shared_alloc)@ == old(shared_alloc)@,
            forall|u: ChannelToken| u.spec_id() != service_token.spec_id()
                ==> (final(self).services().has(u) == old(self).services().has(u)),
            final(self).spec_node_addr() == old(self).spec_node_addr(),
            final(self).spec_lines() == old(self).spec_lines(),
            old(self).services().has(service_token) ==> exists|drops: Seq<LayerPipeItem>| #[trigger] sends_on(drops, old(self).spec_lines(),
                SecondLayerHeader::new_spec(BlockType::DropToken, old(self).spec_node_addr(), NodeAddress::any_spec()), service_token)
                && final(shared_alloc)@ == old(shared_alloc)@.extended(drops).taken_front(),
    {
        if self.service_entries.remove(&service_token).is_some() {
            let mut drops: Vec<LayerPipeItem> = Vec::new();
            let mut i: usize = 0;
            let ghost h = SecondLayerHeader::new_spec(BlockType::DropToken, self.node_addr, NodeAddress::any_spec());
            while i < self.lines.len()
                invariant
                    i <= self.lines@.len(),
                    sends_on(drops@, self.lines@.subrange(0, i as int), h, service_token),
                    h == SecondLayerHeader::new_spec(BlockType::DropToken, self.node_addr, NodeAddress::any_spec()),
                decreases self.lines@.len() - i,
            {
                drops.push(self.make_drop_cmd(service_token, self.lines[i]));
                i = i + 1;
            }
            assert(self.lines@.subrange(0, self.lines@.len() as int) =~= self.lines@);
            let ghost ds = drops@;
            let ghost a0 = shared_alloc@;
            shared_alloc.extend(drops);
            shared_alloc.take_current();
            assert(sends_on(ds, old(self).spec_lines(), SecondLayerHeader::new_spec(BlockType::DropToken, old(self).spec_node_addr(),
                NodeAddress::any_spec()), service_token) && shared_alloc@ == a0.extended(ds).taken_front());
        }
    }

    /// A request for routes came in on `source_line_id`; whether its token has
    /// expired, and the delay since its stamp, are read from the clock.
    fn on_request(&mut self, service_token: ServiceToken, source_line_id: LineId, msg: Chunk, hdr: SecondLayerHeader,
        map: &mut AddressMap, shared_alloc: &mut SharedPipeAlloc<LayerPipeItem>)
        requires
            old(self).inv(),
            old(shared_alloc)@.well_formed(),
            old(shared_alloc)@.queue.len() > 0,
        ensures
            final(self).inv(),
            final(shared_alloc)@.well_formed(),
            final(shared_alloc)@.bottom == old(shared_alloc)@.bottom,
            crate::pipe::grows(old(shared_alloc)@, final(shared_alloc)@),
            answers_request(*old(self), *final(self), old(map)@, final(map)@, old(shared_alloc)@, final(shared_alloc)@,
                service_token, source_line_id, msg@, hdr),
    {
        let expired = service_token.expired();
        let delay = Self::stamp_delay(&msg);
        self.take_request(expired, delay, service_token, source_line_id, msg, hdr, map, shared_alloc);
    }

    /// A request for routes under `service_token` came in on `source_line_id`,
    /// `delay` nanoseconds after its stamp; `expired` says whether the token
    /// has expired. An expired or known one is swallowed. Otherwise the map
    /// learns the way back to its source; a request for another node is
    /// registered and passed on over the other lines, and answered too if it
    /// asks for every node; a request for this node is answered. The request
    /// itself goes no further.
    pub fn take_request(&mut self, expired: bool, delay: u128, service_token: ServiceToken, source_line_id: LineId, msg: Chunk,
        hdr: SecondLayerHeader, map: &mut AddressMap, shared_alloc: &mut SharedPipeAlloc<LayerPipeItem>)
        requires
            old(self).inv(),
            old(shared_alloc)@.well_formed(),
            old(shared_alloc)@.queue.len() > 0,
        ensures
            final(self).inv(),
            final(shared_alloc)@.well_formed(),
            final(shared_alloc)@.bottom == old(shared_alloc)@.bottom,
            crate::pipe::grows(old(shared_alloc)@, final(shared_alloc)@),
            final(self).spec_node_addr() == old(self).spec_node_addr(),
            final(self).spec_lines() == old(self).spec_lines(),
            expired || old(self).services().has(service_token)
                ==> swallowed(*old(self), *final(self), old(map)@, final(map)@, old(shared_alloc)@, final(shared_alloc)@),
            !expired && !old(self).services().has(service_token) ==> {
                &&& learnt_with(old(map)@, final(map)@, msg@.body, hdr.src, source_line_id, delay)
                &&& request_taken_up(*old(self), *final(self), old(map)@, final(map)@, old(shared_alloc)@, final(shared_alloc)@,
                    service_token, source_line_id, msg@, hdr)
            },
    {
        if expired || self.service_entries.contains(&service_token) {
            shared_alloc.take_current();
            return;
        }
        if Self::is_stamped(&msg) {
            Self::learn_from_message(&msg, delay, source_line_id, &hdr, map);
        } else {
            assert(learnt_with(old(map)@, map@, msg@.body, hdr.src, source_line_id, delay));
        }
        let ghost a0 = shared_alloc@;
        let ghost resp_h = SecondLayerHeader::new_spec(BlockType::AddressMapResponse, self.node_addr, hdr.src);
        if hdr.dest != self.node_addr {
            self.service_entries.insert(service_token, (source_line_id, hdr.dest));
            let mut fwd: Vec<LayerPipeItem> = Vec::new();
            let mut i: usize = 0;
            while i < self.lines.len()
                invariant
                    i <= self.lines@.len(),
                    self.lines@ == old(self).lines@,
                    forwards_on(fwd@, other_lines(self.lines@.subrange(0, i as int), source_line_id), msg@, hdr, service_token),
                decreases self.lines@.len() - i,
            {
                let line_id = self.lines[i];
                let ghost prev = other_lines(self.lines@.subrange(0, i as int), source_line_id);
                let ghost f0 = fwd@;
                proof {
                    assert(self.lines@.subrange(0, i + 1) =~= self.lines@.subrange(0, i as int).push(line_id));
                    lemma_other_lines_push(self.lines@.subrange(0, i as int), line_id, source_line_id);
                }
                if line_id != source_line_id {
                    fwd.push(node_command(line_id, SecondLayerCommand::Send(msg.duplicate(), hdr, Some(service_token))));
                    proof {
                        let ls = prev.push(line_id);
                        assert forall|k: int| 0 <= k < fwd@.len() implies ((#[trigger] fwd@[k]) matches LayerPipeItem::SomeCommand(l,
                            LayerCommand::SecondLayer(SecondLayerCommand::Send(_, h2, tk))) && l == ls[k] && h2 == hdr && tk == Some(service_token)) by {
                            if k < f0.len() {
                                assert(fwd@[k] == f0[k]);
                            }
                        }
                        assert forall|k: int| 0 <= k < fwd@.len() implies ((#[trigger] fwd@[k]) matches LayerPipeItem::SomeCommand(_,
                            LayerCommand::SecondLayer(SecondLayerCommand::Send(c, _, _))) && c@ == msg@) by {
                            if k < f0.len() {
                                assert(fwd@[k] == f0[k]);
                            }
                        }
                    }
                }
                i = i + 1;
            }
            assert(self.lines@.subrange(0, self.lines@.len() as int) =~= self.lines@);
            let ghost fs = fwd@;
            shared_alloc.extend(fwd);
            let resp = self.make_resp_cmd(service_token, source_line_id, hdr.src);
            let ghost rs = resp;
            if hdr.dest == NodeAddress::any() {
                shared_alloc.push_done(resp);
            }
            shared_alloc.take_current();
            assert(forwards_on(fs, other_lines(old(self).spec_lines(), source_line_id), msg@, hdr, service_token)
                && sends_one(rs, source_line_id, resp_h, service_token));
        } else {
            let resp = self.make_resp_cmd(service_token, source_line_id, hdr.src);
            let ghost rs = resp;
            shared_alloc.push_done(resp);
            shared_alloc.take_current();
            assert(sends_one(rs, source_line_id, resp_h, service_token));
        }
    }

    /// A response came in on `source_line_id`: the map learns the way back to
    /// its source. If this node runs or relays the service: at the node that
    /// asked, a request for one node is complete, and the news goes up as done
    /// in place of the response; a request for every node lets the response
    /// go on. A relay sends the response back on the line the request came in
    /// on, in place of the response.
    fn on_response(&mut self, service_token: ServiceToken, source_line_id: LineId, msg: Chunk, hdr: SecondLayerHeader,
        map: &mut AddressMap, shared_alloc: &mut SharedPipeAlloc<LayerPipeItem>)
        requires
            old(self).inv(),
            old(shared_alloc)@.well_formed(),
        ensures
            final(self).inv(),
            final(shared_alloc)@.well_formed(),
            final(shared_alloc)@.bottom == old(shared_alloc)@.bottom,
            crate::pipe::grows(old(shared_alloc)@, final(shared_alloc)@),
            takes_response(*old(self), *final(self), old(map)@, final(map)@, old(shared_alloc)@, final(shared_alloc)@,
                service_token, source_line_id, msg@, hdr),
    {
        let ghost m0 = msg@;
        Self::update_map_on_message(&msg, source_line_id, &hdr, map);
        if let Some(i) = self.service_entries.position(&service_token) {
            let (req_line_id, dest) = *self.service_entries.value_at(i);
            proof {
                assert(old(self).services().value_of(service_token) == (req_line_id, dest)) by {
                    let j = choose|j: int| 0 <= j < self.service_entries.entries().len()
                        && (#[trigger] self.service_entries.entries()[j]).0.spec_id() == service_token.spec_id();
                    if j != i {
                        if j < i {
                            assert(self.service_entries.entries()[j].0.spec_id() != self.service_entries.entries()[i as int].0.spec_id());
                        } else {
                            assert(self.service_entries.entries()[i as int].0.spec_id() != self.service_entries.entries()[j].0.spec_id());
                        }
                    }
                }
            }
            if self.node_addr == hdr.dest {
                if dest != NodeAddress::any() {
                    let src = hdr.src;
                    shared_alloc.push_done(node_event(LineId(0),
                        SecondLayerEvent::ServiceComplete(service_token, ServiceResultType::AddressMapUpdate(src))));
                    self.service_entries.remove(&service_token);
                    shared_alloc.take_current();
                }
            } else {
                let ghost c = msg;
                shared_alloc.push_done(node_command(req_line_id, SecondLayerCommand::SendAsIs(msg, Some(service_token))));
                shared_alloc.take_current();
                assert(c@ == m0);
            }
        }
    }

    /// A drop of a service came in on `source_line_id`: a service this node
    /// relays is forgotten and the drop is passed on over the other lines;
    /// otherwise the map learns the source in passing.
    fn on_drop_token(&mut self, service_token: ServiceToken, source_line_id: LineId, msg: Chunk, hdr: SecondLayerHeader,
        map: &mut AddressMap, shared_alloc: &mut SharedPipeAlloc<LayerPipeItem>)
        requires
            old(self).inv(),
            old(shared_alloc)@.well_formed(),
        ensures
            final(self).inv(),
            final(shared_alloc)@.well_formed(),
            final(shared_alloc)@.bottom == old(shared_alloc)@.bottom,
            crate::pipe::grows(old(shared_alloc)@, final(shared_alloc)@),
            takes_drop(*old(self), *final(self), old(map)@, final(map)@, old(shared_alloc)@, final(shared_alloc)@,
                service_token, source_line_id, msg@, hdr),
    {
        if self.service_entries.remove(&service_token).is_some() {
            let mut fwd: Vec<LayerPipeItem> = Vec::new();
            let mut i: usize = 0;
            while i < self.lines.len()
                invariant
                    i <= self.lines@.len(),
                    self.lines@ == old(self).lines@,
                    relays_on(fwd@, other_lines(self.lines@.subrange(0, i as int), source_line_id), msg@, service_token),
                decreases self.lines@.len() - i,
            {
                let line_id = self.lines[i];
                let ghost f0 = fwd@;
                let ghost prev = other_lines(self.lines@.subrange(0, i as int), source_line_id);
                proof {
                    assert(self.lines@.subrange(0, i + 1) =~= self.lines@.subrange(0, i as int).push(line_id));
                    lemma_other_lines_push(self.lines@.subrange(0, i as int), line_id, source_line_id);
                }
                if line_id != source_line_id {
                    fwd.push(node_command(line_id, SecondLayerCommand::SendAsIs(msg.duplicate(), Some(service_token))));
                    proof {
                        let ls = prev.push(line_id);
                        assert forall|k: int| 0 <= k < fwd@.len() implies ((#[trigger] fwd@[k]) matches LayerPipeItem::SomeCommand(l,
                            LayerCommand::SecondLayer(SecondLayerCommand::SendAsIs(c, tk))) && l == ls[k] && c@ == msg@ && tk == Some(service_token)) by {
                            if k < f0.len() {
                                assert(fwd@[k] == f0[k]);
                            }
                        }
                    }
                }
                i = i + 1;
            }
            assert(self.lines@.subrange(0, self.lines@.len() as int) =~= self.lines@);
            let ghost fs = fwd@;
            shared_alloc.extend(fwd);
            assert(relays_on(fs, other_lines(old(self).spec_lines(), source_line_id), msg@, service_token));
        } else {
            self.update_map_passively(source_line_id, &hdr, map);
        }
    }

    /// The nanoseconds gone by since each service's token was last touched,
    /// as the clock reads now, service by service.
    fn service_ages(&self) -> (r: Vec<u128>)
        ensures
            r@.len() == self.services().entries().len(),
    {
        let mut r: Vec<u128> = Vec::new();
        let mut i: usize = 0;
        while i < self.service_entries.len()
            invariant
                i <= self.service_entries.entries().len(),
                r@.len() == i,
            decreases self.service_entries.entries().len() - i,
        {
            r.push(self.service_entries.token_at(i).elapsed());
            i = i + 1;
        }
        r
    }

    /// Forgets the services whose tokens had expired when the time gone by
    /// since each was last touched read as in `elapsed`, service by service:
    /// every service whose token had not expired is kept, in its order, and
    /// nothing else is.
    pub fn forget_services(&mut self, elapsed: &Vec<u128>)
        requires
            old(self).inv(),
            elapsed@.len() == old(self).services().entries().len(),
        ensures
            final(self).inv(),
            final(self).services().entries() == unexpired(old(self).services().entries(), elapsed@),
            forall|j: int| 0 <= j < old(self).services().entries().len()
                && !(#[trigger] old(self).services().entries()[j]).0.expired_at(elapsed@[j])
                ==> final(self).services().entries().contains(old(self).services().entries()[j]),
            forall|k: int| 0 <= k < final(self).services().entries().len() ==> exists|j: int|
                0 <= j < old(self).services().entries().len()
                && old(self).services().entries()[j] == #[trigger] final(self).services().entries()[k]
                && !old(self).services().entries()[j].0.expired_at(elapsed@[j]),
            final(self).spec_node_addr() == old(self).spec_node_addr(),
            final(self).spec_lines() == old(self).spec_lines(),
    {
        proof {
            lemma_unexpired_keeps_the_alive(self.service_entries.entries(), elapsed@);
        }
        self.service_entries.retain_unexpired(elapsed);
    }

    /// Forgets the services whose tokens have expired, as the clock reads now.
    fn forget_expired(&mut self)
        requires
            old(self).inv(),
        ensures
            final(self).inv(),
            exists|elapsed: Seq<u128>| elapsed.len() == old(self).services().entries().len()
                && final(self).services().entries() == unexpired(old(self).services().entries(), elapsed),
            final(self).services().entries().len() <= old(self).services().entries().len(),
            forall|t: ChannelToken| final(self).services().has(t) ==> old(self).services().has(t),
            forall|j: int| 0 <= j < old(self).services().entries().len() && (#[trigger] old(self).services().entries()[j]).0.spec_expires() is None
                ==> final(self).services().entries().contains(old(self).services().entries()[j]),
            forall|k: int| 0 <= k < final(self).services().entries().len()
                ==> old(self).services().entries().contains(#[trigger] final(self).services().entries()[k]),
            final(self).spec_node_addr() == old(self).spec_node_addr(),
            final(self).spec_lines() == old(self).spec_lines(),
    {
        let ghost e0 = self.service_entries.entries();
        let ages = self.service_ages();
        self.forget_services(&ages);
        proof {
            lemma_unexpired_keeps_the_alive(e0, ages@);
            let e1 = self.service_entries.entries();
            assert forall|k: int| 0 <= k < e1.len() implies e0.contains(#[trigger] e1[k]) by {
                let j = choose|j: int| 0 <= j < e0.len() && e0[j] == #[trigger] e1[k] && !e0[j].0.expired_at(ages@[j]);
            }
            assert forall|t: ChannelToken| self.service_entries.has(t) implies old(self).service_entries.has(t) by {
                let k = choose|k: int| 0 <= k < e1.len() && (#[trigger] e1[k]).0.spec_id() == t.spec_id();
                let j = choose|j: int| 0 <= j < e0.len() && e0[j] == #[trigger] e1[k] && !e0[j].0.expired_at(ages@[j]);
                assert(e0[j].0.spec_id() == t.spec_id());
            }
            assert forall|j: int| 0 <= j < e0.len() && (#[trigger] e0[j]).0.spec_expires() is None
                implies e1.contains(e0[j]) by {
                assert(!e0[j].0.expired_at(ages@[j]));
            }
        }
    }
}

/// A check for expired tokens forgets a service only if its token had
/// expired at the reading of the clock taken for it, and keeps, in their
/// order, every service whose token had not; a service whose token has no
/// lifetime is always kept.
pub proof fn lemma_expiry_check_forgets_only_expired_services(m: AddressMapResolver, shared: NodeLayerState,
    alloc: PipeState<LayerPipeItem>, next: AddressMapResolver, next_shared: NodeLayerState, next_alloc: PipeState<LayerPipeItem>)
    requires
        alloc.queue.len() > 0,
        alloc.queue[0].0 matches LayerPipeItem::SomeCommand(_, LayerCommand::SecondLayer(SecondLayerCommand::CheckExpiredTokens)),
        m.notified(shared, alloc, next, next_shared, next_alloc),
    ensures
        exists|elapsed: Seq<u128>| #![auto] elapsed.len() == m.services().entries().len()
            && next.services().entries() == unexpired(m.services().entries(), elapsed)
            && (forall|j: int| 0 <= j < m.services().entries().len()
                && !(#[trigger] m.services().entries()[j]).0.expired_at(elapsed[j])
                ==> next.services().entries().contains(m.services().entries()[j]))
            && (forall|k: int| 0 <= k < next.services().entries().len() ==> exists|j: int|
                0 <= j < m.services().entries().len()
                && m.services().entries()[j] == #[trigger] next.services().entries()[k]
                && !m.services().entries()[j].0.expired_at(elapsed[j])),
        forall|j: int| 0 <= j < m.services().entries().len() && (#[trigger] m.services().entries()[j]).0.spec_expires() is None
            ==> next.services().entries().contains(m.services().entries()[j]),
        next_shared.address_map@ == shared.address_map@,
        next_alloc == alloc,
{
    let elapsed = choose|elapsed: Seq<u128>| elapsed.len() == m.services().entries().len()
        && next.services().entries() == unexpired(m.services().entries(), elapsed);
    lemma_unexpired_keeps_the_alive(m.services().entries(), elapsed);
    assert forall|j: int| 0 <= j < m.services().entries().len() && (#[trigger] m.services().entries()[j]).0.spec_expires() is None
        implies next.services().entries().contains(m.services().entries()[j]) by {
        assert(!m.services().entries()[j].0.expired_at(elapsed[j]));
    }
}

impl EventTarget<LayerPipeItem, NodeLayerState> for AddressMapResolver {
    open spec fn passes(&self, item: LayerPipeItem) -> bool {
        !resolver_handles(item)
    }

    open spec fn notified(&self, shared: NodeLayerState, alloc: PipeState<LayerPipeItem>, next: Self, next_shared: NodeLayerState,
        next_alloc: PipeState<LayerPipeItem>) -> bool {
        &&& (alloc.queue[0].0 matches LayerPipeItem::SomeCommand(_, LayerCommand::SecondLayer(
                    SecondLayerCommand::ServiceRequest(t, ServiceRequestType::AddressMap(dest)))) ==> {
                    &&& next_shared.address_map@ == (if dest == NodeAddress::any_spec() {
                        Map::<NodeAddress, AddressMapEntry>::empty()
                    } else {
                        shared.address_map@.remove(dest)
                    })
                    &&& self.services().has(t) ==> next.services() == self.services()
                    &&& next.services().has(t) && !self.services().has(t) ==> next.services().value_of(t) == (LineId(0), dest)
                    &&& next.services() == self.services() || (!self.services().has(t) && next.services().has(t) && others_kept(*self, next, t))
                    &&& t.spec_expires() is None && !self.services().has(t) ==> next.services().has(t)
                    &&& exists|reqs: Seq<LayerPipeItem>| #[trigger] sends_on(reqs, self.spec_lines(),
                        SecondLayerHeader::new_spec(BlockType::AddressMapRequest, self.spec_node_addr(), dest), t)
                        && next_alloc == alloc.extended(reqs).taken_front().pushed_done(
                            node_event_item(LineId(0), SecondLayerEvent::ServiceStarted(t)))
                })
        &&& (alloc.queue[0].0 matches LayerPipeItem::SomeCommand(_, LayerCommand::SecondLayer(SecondLayerCommand::DropService(t))) ==> {
                    &&& !next.services().has(t) && others_kept(*self, next, t) && next_shared.address_map@ == shared.address_map@
                    &&& !self.services().has(t) ==> next_alloc == alloc
                    &&& self.services().has(t) ==> exists|drops: Seq<LayerPipeItem>| #[trigger] sends_on(drops, self.spec_lines(),
                        SecondLayerHeader::new_spec(BlockType::DropToken, self.spec_node_addr(), NodeAddress::any_spec()), t)
                        && next_alloc == alloc.extended(drops).taken_front()
                })
        &&& (service_block(alloc.queue[0].0) matches Some((t, line, hdr)) ==> {
                    let own = self.spec_node_addr();
                    let map0 = shared.address_map@;
                    let map1 = next_shared.address_map@;
                    let m = service_chunk(alloc.queue[0].0);
                    &&& hdr.block_type == BlockType::AddressMapRequest
                        ==> answers_request(*self, next, map0, map1, alloc, next_alloc, t, line, m, hdr)
                    &&& hdr.block_type == BlockType::AddressMapResponse
                        ==> takes_response(*self, next, map0, map1, alloc, next_alloc, t, line, m, hdr)
                    &&& hdr.block_type == BlockType::DropToken
                        ==> takes_drop(*self, next, map0, map1, alloc, next_alloc, t, line, m, hdr)
                    &&& hdr.block_type != BlockType::AddressMapRequest && hdr.block_type != BlockType::AddressMapResponse
                        && hdr.block_type != BlockType::DropToken
                        ==> next.services() == self.services() && next_alloc == alloc
                        && map1 == learnt_in_passing(map0, own, hdr.src, line)
            })
        &&& (alloc.queue[0].0 matches LayerPipeItem::SomeCommand(_, LayerCommand::SecondLayer(SecondLayerCommand::CheckExpiredTokens))
                    ==> next_shared.address_map@ == shared.address_map@ && next_alloc == alloc
                    && next.spec_node_addr() == self.spec_node_addr() && next.spec_lines() == self.spec_lines()
                    && (exists|elapsed: Seq<u128>| elapsed.len() == self.services().entries().len()
                        && next.services().entries() == unexpired(self.services().entries(), elapsed))
                    && forall|t: ChannelToken| next.services().has(t) ==> self.services().has(t))
        &&& (!resolver_handles(alloc.queue[0].0) ==> next == *self && next_shared == shared
                    && next_alloc == alloc)
    }

    fn notify(&mut self, shared: &mut NodeLayerState, shared_alloc: &mut SharedPipeAlloc<LayerPipeItem>)
    {
        let action = match shared_alloc.current() {
            LayerPipeItem::SomeEvent(source_line_id, LayerEvent::SecondLayer(
                SecondLayerEvent::ServiceMessage(service_token, ServiceResultType::SomeService(msg)))) => {
                match msg.header() {
                    Headers::SecondLayer(hdr) => match hdr.block_type {
                        BlockType::AddressMapRequest => ResolverAction::Request(*service_token, *source_line_id, msg.duplicate(), hdr),
                        BlockType::AddressMapResponse => ResolverAction::Response(*service_token, *source_line_id, msg.duplicate(), hdr),
                        BlockType::DropToken => ResolverAction::DropToken(*service_token, *source_line_id, msg.duplicate(), hdr),
                        _ => ResolverAction::OtherBlock(*source_line_id, hdr),
                    },
                    _ => ResolverAction::Pass,
                }
            },
            LayerPipeItem::SomeCommand(_, LayerCommand::SecondLayer(SecondLayerCommand::ServiceRequest(
                service_token, ServiceRequestType::AddressMap(dest)))) => ResolverAction::Start(*service_token, *dest),
            LayerPipeItem::SomeCommand(_, LayerCommand::SecondLayer(SecondLayerCommand::DropService(service_token))) =>
                ResolverAction::DropService(*service_token),
            LayerPipeItem::SomeCommand(_, LayerCommand::SecondLayer(SecondLayerCommand::CheckExpiredTokens)) => ResolverAction::CheckExpired,
            _ => ResolverAction::Pass,
        };
        match action {
            ResolverAction::Request(t, line, msg, hdr) => self.on_request(t, line, msg, hdr, &mut shared.address_map, shared_alloc),
            ResolverAction::Response(t, line, msg, hdr) => self.on_response(t, line, msg, hdr, &mut shared.address_map, shared_alloc),
            ResolverAction::DropToken(t, line, msg, hdr) => self.on_drop_token(t, line, msg, hdr, &mut shared.address_map, shared_alloc),
            ResolverAction::OtherBlock(line, hdr) => self.update_map_passively(line, &hdr, &mut shared.address_map),
            ResolverAction::Start(t, dest) => self.on_start_service(t, dest, &mut shared.address_map, shared_alloc),
            ResolverAction::DropService(t) => self.on_drop_service(t, shared_alloc),
            ResolverAction::CheckExpired => self.forget_expired(),
            ResolverAction::Pass => {},
        }
    }
}

} // verus!
