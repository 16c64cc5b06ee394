use vstd::prelude::*;
use crate::protocol_stack::{Chunk, ChannelToken, MessageBody, SecondLayerHeader, BlockType, ChunkView};
use crate::protocol_stack::line::LineId;
use crate::protocol_stack::node::NodeAddress;
use crate::protocol_stack::second_layer::{SecondLayerCommand, SecondLayerEvent, ServiceResultType, LineChannelResult};
use crate::protocol_stack::layer_pipe_item::{NodeCommand, NodeEvent};

verus! {

/// Why a stream failed: the stream's token and the reason.
pub struct ChannelError(pub ChannelToken, pub LineChannelResult);

impl ChannelError {
    pub fn token(&self) -> (r: &ChannelToken)
        ensures
            *r == self.0,
    {
        &self.0
    }
}

/// The command that writes `msg` on a stream: the message as a chunk, sent
/// on the stream's line under a second layer header from `src` to `dest`,
/// on the stream's token.
pub fn write_command(line_id: LineId, token: ChannelToken, src: NodeAddress, dest: NodeAddress, msg: MessageBody, block_type: BlockType) -> (r: NodeCommand)
    ensures
        r.0 == line_id,
        r.1 matches SecondLayerCommand::Send(c, h, t)
            && c@ == (ChunkView { first: None, second: None, body: msg@ })
            && h == SecondLayerHeader::new_spec(block_type, src, dest)
            && t == Some(token),
{
    NodeCommand(line_id, SecondLayerCommand::Send(
        Chunk::from_message(msg),
        SecondLayerHeader::new(block_type, src, dest),
        Some(token),
    ))
}

/// The command a stream leaves behind when it is dropped.
pub fn drop_command(line_id: LineId, token: ChannelToken) -> (r: NodeCommand)
    ensures
        r.0 == line_id,
        r.1 == SecondLayerCommand::DropService(token),
{
    NodeCommand(line_id, SecondLayerCommand::DropService(token))
}

/// Where a service's result goes on a stream: the message that a line
/// channel's data carries goes to the stream's data, any other result to
/// its events.
pub enum StreamDelivery {
    Data(MessageBody),
    Event(ServiceResultType),
}

/// Whether a stream can take the result: anything but a line channel result
/// other than data.
pub open spec fn deliverable(what: ServiceResultType) -> bool {
    match what {
        ServiceResultType::LineChannel(res) => res is Data,
        _ => true,
    }
}

pub fn is_deliverable(what: &ServiceResultType) -> (r: bool)
    ensures
        r == deliverable(*what),
{
    match what {
        ServiceResultType::LineChannel(LineChannelResult::Data(_)) => true,
        ServiceResultType::LineChannel(_) => false,
        _ => true,
    }
}

pub fn route_result(what: ServiceResultType) -> (r: StreamDelivery)
    requires
        deliverable(what),
    ensures
        match what {
            ServiceResultType::LineChannel(LineChannelResult::Data(c)) => r matches StreamDelivery::Data(m) && m@ == c@.body,
            _ => r == StreamDelivery::Event(what),
        },
{
    match what {
        ServiceResultType::LineChannel(LineChannelResult::Data(chunk)) => StreamDelivery::Data(chunk.take()),
        other => StreamDelivery::Event(other),
    }
}

/// The streams a node's frontend serves, each under its token's identifier
/// with the line it runs on, and a handle of the caller's to reach it by.
pub struct StreamRegistry<H> {
    entries: Vec<(usize, LineId, H)>,
    map: Ghost<Map<usize, LineId>>,
}

impl<H> View for StreamRegistry<H> {
    type V = Map<usize, LineId>;

    closed spec fn view(&self) -> Map<usize, LineId> {
        self.map@
    }
}

/// The entries hold each identifier once, and the map holds exactly them.
spec fn registry_ok<H>(entries: Seq<(usize, LineId, H)>, map: Map<usize, LineId>) -> bool {
    &&& forall|i: int, j: int|
        0 <= i < entries.len() && 0 <= j < entries.len() && i != j
            ==> #[trigger] entries[i].0 != #[trigger] entries[j].0
    &&& forall|i: int| 0 <= i < entries.len()
            ==> map.contains_key(#[trigger] entries[i].0) && map[entries[i].0] == entries[i].1
    &&& forall|k: usize| #[trigger] map.contains_key(k)
            ==> exists|i: int| 0 <= i < entries.len() && #[trigger] entries[i].0 == k
}

/// The handle of the entry under `id`.
spec fn entry_handle<H>(entries: Seq<(usize, LineId, H)>, id: usize) -> H {
    entries[choose|i: int| 0 <= i < entries.len() && entries[i].0 == id].2
}

/// An identifier the entries hold once names the handle at its place.
proof fn lemma_entry_handle<H>(entries: Seq<(usize, LineId, H)>, map: Map<usize, LineId>, i: int)
    requires
        registry_ok(entries, map),
        0 <= i < entries.len(),
    ensures
        entry_handle(entries, entries[i].0) == entries[i].2,
{
    let id = entries[i].0;
    let j = choose|j: int| 0 <= j < entries.len() && entries[j].0 == id;
    if j != i {
        assert(entries[j].0 != entries[i].0);
    }
}

fn registry_position<H>(entries: &Vec<(usize, LineId, H)>, id: usize) -> (r: Option<usize>)
    ensures
        match r {
            Some(i) => i < entries@.len() && entries@[i as int].0 == id,
            None => forall|i: int| 0 <= i < entries@.len() ==> entries@[i].0 != id,
        },
{
    let mut i: usize = 0;
    while i < entries.len()
        invariant
            i <= entries@.len(),
            forall|j: int| 0 <= j < i ==> entries@[j].0 != id,
        decreases entries@.len() - i,
    {
        if entries[i].0 == id {
            return Some(i);
        }
        i = i + 1;
    }
    None
}

/// `entries` with the `i`th one removed still hold `map` without its key.
proof fn lemma_registry_remove<H>(entries: Seq<(usize, LineId, H)>, map: Map<usize, LineId>, i: int)
    requires
        registry_ok(entries, map),
        0 <= i < entries.len(),
    ensures
        registry_ok(entries.remove(i), map.remove(entries[i].0)),
{
    let rest = entries.remove(i);
    let m = map.remove(entries[i].0);
    assert forall|j: int| 0 <= j < rest.len()
        implies m.contains_key(#[trigger] rest[j].0) && m[rest[j].0] == rest[j].1 by {
        let oj = if j < i { j } else { j + 1 };
        assert(rest[j] == entries[oj]);
        assert(entries[oj].0 != entries[i].0);
    }
    assert forall|k: usize| #[trigger] m.contains_key(k)
        implies exists|j: int| 0 <= j < rest.len() && #[trigger] rest[j].0 == k by {
        let oj = choose|oj: int| 0 <= oj < entries.len() && #[trigger] entries[oj].0 == k;
        assert(oj != i);
        let j = if oj < i { oj } else { oj - 1 };
        assert(rest[j] == entries[oj]);
    }
    assert forall|a: int, b: int|
        0 <= a < rest.len() && 0 <= b < rest.len() && a != b
        implies #[trigger] rest[a].0 != #[trigger] rest[b].0 by {
        let oa = if a < i { a } else { a + 1 };
        let ob = if b < i { b } else { b + 1 };
        assert(rest[a] == entries[oa]);
        assert(rest[b] == entries[ob]);
    }
}

/// `entries` with one more, under an identifier they do not hold, still hold
/// `map` with it.
proof fn lemma_registry_push<H>(entries: Seq<(usize, LineId, H)>, map: Map<usize, LineId>, e: (usize, LineId, H))
    requires
        registry_ok(entries, map),
        !map.contains_key(e.0),
    ensures
        registry_ok(entries.push(e), map.insert(e.0, e.1)),
{
    let more = entries.push(e);
    let m = map.insert(e.0, e.1);
    assert forall|j: int| 0 <= j < entries.len() implies entries[j].0 != e.0 by {
        assert(map.contains_key(entries[j].0));
    }
    assert forall|j: int| 0 <= j < more.len()
        implies m.contains_key(#[trigger] more[j].0) && m[more[j].0] == more[j].1 by {
        if j < entries.len() {
            assert(more[j] == entries[j]);
        }
    }
    assert forall|k: usize| #[trigger] m.contains_key(k)
        implies exists|j: int| 0 <= j < more.len() && #[trigger] more[j].0 == k by {
        if k == e.0 {
            assert(more[entries.len() as int].0 == k);
        } else {
            let j = choose|j: int| 0 <= j < entries.len() && #[trigger] entries[j].0 == k;
            assert(more[j] == entries[j]);
        }
    }
    assert forall|a: int, b: int|
        0 <= a < more.len() && 0 <= b < more.len() && a != b
        implies #[trigger] more[a].0 != #[trigger] more[b].0 by {
        if a < entries.len() {
            assert(more[a] == entries[a]);
        }
        if b < entries.len() {
            assert(more[b] == entries[b]);
        }
    }
}

impl<H> StreamRegistry<H> {
    #[verifier::type_invariant]
    closed spec fn inv(&self) -> bool {
        registry_ok(self.entries@, self.map@)
    }

    /// The handle of the stream registered under `id`.
    pub closed spec fn handle_of(&self, id: usize) -> H {
        entry_handle(self.entries@, id)
    }

    pub fn new() -> (r: Self)
        ensures
            r@ == Map::<usize, LineId>::empty(),
    {
        StreamRegistry { entries: Vec::new(), map: Ghost(Map::empty()) }
    }

    /// Whether a stream is registered under `id`.
    pub fn contains(&self, id: usize) -> (r: bool)
        ensures
            r == self@.contains_key(id),
    {
        proof {
            use_type_invariant(self);
        }
        match registry_position(&self.entries, id) {
            Some(_) => true,
            None => {
                assert(!self.map@.contains_key(id)) by {
                    if self.map@.contains_key(id) {
                        let j = choose|j: int| 0 <= j < self.entries@.len() && #[trigger] self.entries@[j].0 == id;
                    }
                }
                false
            },
        }
    }

    /// Whether no stream is registered.
    pub fn is_empty(&self) -> (r: bool)
        ensures
            r == (self@ == Map::<usize, LineId>::empty()),
    {
        proof {
            use_type_invariant(self);
        }
        if self.entries.len() == 0 {
            assert(self.map@ =~= Map::<usize, LineId>::empty()) by {
                assert forall|k: usize| !self.map@.contains_key(k) by {
                    if self.map@.contains_key(k) {
                        let j = choose|j: int| 0 <= j < self.entries@.len() && #[trigger] self.entries@[j].0 == k;
                    }
                }
            }
            true
        } else {
            assert(self.map@.contains_key(self.entries@[0].0));
            false
        }
    }

    /// Registers the stream under `id` on `line_id`, unless one is registered
    /// under `id` already; then `handle` is handed back and nothing changes.
    pub fn register(&mut self, id: usize, line_id: LineId, handle: H) -> (r: Option<H>)
        ensures
            old(self)@.contains_key(id) ==> final(self)@ == old(self)@ && r == Some(handle),
            !old(self)@.contains_key(id) ==> final(self)@ == old(self)@.insert(id, line_id) && r is None,
            final(self).handle_of(id) == (if old(self)@.contains_key(id) { old(self).handle_of(id) } else { handle }),
            forall|k: usize| k != id && #[trigger] old(self)@.contains_key(k) ==> final(self).handle_of(k) == old(self).handle_of(k),
    {
        proof {
            use_type_invariant(&*self);
        }
        match registry_position(&self.entries, id) {
            Some(_) => {
                assert(self.map@.contains_key(id));
                Some(handle)
            },
            None => {
                assert(!self.map@.contains_key(id)) by {
                    if self.map@.contains_key(id) {
                        let j = choose|j: int| 0 <= j < self.entries@.len() && #[trigger] self.entries@[j].0 == id;
                    }
                }
                let mut tmp = StreamRegistry::new();
                std::mem::swap(self, &mut tmp);
                let StreamRegistry { mut entries, map } = tmp;
                let ghost e_old = entries@;
                proof {
                    lemma_registry_push(entries@, map@, (id, line_id, handle));
                }
                entries.push((id, line_id, handle));
                proof {
                    lemma_entry_handle(entries@, map@.insert(id, line_id), e_old.len() as int);
                    assert forall|k: usize| k != id && #[trigger] map@.contains_key(k)
                        implies entry_handle(entries@, k) == entry_handle(e_old, k) by {
                        let j = choose|j: int| 0 <= j < e_old.len() && #[trigger] e_old[j].0 == k;
                        lemma_entry_handle(e_old, map@, j);
                        assert(entries@[j] == e_old[j]);
                        lemma_entry_handle(entries@, map@.insert(id, line_id), j);
                    }
                }
                *self = StreamRegistry { entries, map: Ghost(map@.insert(id, line_id)) };
                None
            },
        }
    }

    /// Takes the stream registered under `id` out, with its line, if there is one.
    pub fn take(&mut self, id: usize) -> (r: Option<(LineId, H)>)
        ensures
            final(self)@ == old(self)@.remove(id),
            r is Some <==> old(self)@.contains_key(id),
            r matches Some(e) ==> e.0 == old(self)@[id] && e.1 == old(self).handle_of(id),
            forall|k: usize| k != id && #[trigger] final(self)@.contains_key(k) ==> final(self).handle_of(k) == old(self).handle_of(k),
    {
        proof {
            use_type_invariant(&*self);
        }
        match registry_position(&self.entries, id) {
            Some(i) => {
                let mut tmp = StreamRegistry::new();
                std::mem::swap(self, &mut tmp);
                let StreamRegistry { mut entries, map } = tmp;
                let ghost e_old = entries@;
                proof {
                    lemma_registry_remove(entries@, map@, i as int);
                    lemma_entry_handle(e_old, map@, i as int);
                }
                let (_, line_id, handle) = entries.remove(i);
                proof {
                    assert forall|k: usize| k != id && #[trigger] map@.remove(id).contains_key(k)
                        implies entry_handle(entries@, k) == entry_handle(e_old, k) by {
                        let j = choose|j: int| 0 <= j < entries@.len() && #[trigger] entries@[j].0 == k;
                        lemma_entry_handle(entries@, map@.remove(id), j);
                        let oj = if j < i { j } else { j + 1 };
                        assert(entries@[j] == e_old[oj]);
                        lemma_entry_handle(e_old, map@, oj);
                    }
                }
                *self = StreamRegistry { entries, map: Ghost(map@.remove(id)) };
                Some((line_id, handle))
            },
            None => {
                assert(!self.map@.contains_key(id)) by {
                    if self.map@.contains_key(id) {
                        let j = choose|j: int| 0 <= j < self.entries@.len() && #[trigger] self.entries@[j].0 == id;
                    }
                }
                assert(self.map@.remove(id) =~= self.map@);
                None
            },
        }
    }

    /// Takes out every stream on `line_id`; the others stay.
    pub fn take_on_line(&mut self, line_id: LineId) -> (r: Vec<H>)
        ensures
            final(self)@ == old(self)@.restrict(old(self)@.dom().filter(|k: usize| old(self)@[k] != line_id)),
            forall|k: usize| #[trigger] final(self)@.contains_key(k) ==> final(self).handle_of(k) == old(self).handle_of(k),
            exists|ks: Seq<usize>| #![trigger ks.len()] ks.no_duplicates() && ks.len() == r@.len()
                && (forall|i: int| 0 <= i < ks.len() ==> old(self)@.contains_key(#[trigger] ks[i]) && old(self)@[ks[i]] == line_id
                    && r@[i] == old(self).handle_of(ks[i]))
                && (forall|k: usize| #[trigger] old(self)@.contains_key(k) && old(self)@[k] == line_id ==> ks.contains(k)),
    {
        proof {
            use_type_invariant(&*self);
        }
        let mut tmp = StreamRegistry::new();
        std::mem::swap(self, &mut tmp);
        let StreamRegistry { mut entries, map } = tmp;
        let ghost m0 = map@;
        let ghost e0 = entries@;
        let mut kept: Vec<(usize, LineId, H)> = Vec::new();
        let mut taken: Vec<H> = Vec::new();
        let ghost mut km: Map<usize, LineId> = Map::empty();
        let ghost mut ks: Seq<usize> = Seq::empty();
        while entries.len() > 0
            invariant
                registry_ok(e0, m0),
                ks.len() == taken@.len(),
                ks.no_duplicates(),
                forall|i: int| 0 <= i < ks.len() ==> m0.contains_key(#[trigger] ks[i]) && m0[ks[i]] == line_id
                    && taken@[i] == entry_handle(e0, ks[i])
                    && exists|j: int| entries@.len() <= j < e0.len() && #[trigger] e0[j].0 == ks[i],
                forall|j: int| entries@.len() <= j < e0.len() && (#[trigger] e0[j]).1 == line_id ==> ks.contains(e0[j].0),
                forall|i: int| #![trigger kept@[i]] 0 <= i < kept@.len() ==> exists|j: int| 0 <= j < e0.len() && #[trigger] e0[j] == kept@[i],
                entries@.len() <= e0.len(),
                entries@ == e0.subrange(0, entries@.len() as int),
                registry_ok(kept@, km),
                forall|k: usize| #[trigger] km.contains_key(k) <==>
                    (m0.contains_key(k) && m0[k] != line_id
                        && exists|j: int| entries@.len() <= j < e0.len() && #[trigger] e0[j].0 == k),
                forall|k: usize| #[trigger] km.contains_key(k) ==> km[k] == m0[k],
            decreases entries@.len(),
        {
            let ghost n = entries@.len();
            assert(entries@[n - 1] == e0[n - 1]);
            let e = entries.pop().unwrap();
            assert(e == e0[n - 1]);
            assert(m0.contains_key(e.0) && m0[e.0] == e.1);
            if e.1 == line_id {
                let ghost ks0 = ks;
                let ghost t0 = taken@;
                proof {
                    lemma_entry_handle(e0, m0, n - 1);
                    assert forall|i: int| 0 <= i < ks0.len() implies ks0[i] != e.0 by {
                        let j = choose|j: int| n <= j < e0.len() && #[trigger] e0[j].0 == ks0[i];
                        assert(e0[j].0 != e0[n - 1].0);
                    }
                    ks = ks.push(e.0);
                }
                taken.push(e.2);
                proof {
                    assert forall|i: int| 0 <= i < ks.len() implies m0.contains_key(#[trigger] ks[i]) && m0[ks[i]] == line_id
                        && taken@[i] == entry_handle(e0, ks[i])
                        && exists|j: int| entries@.len() <= j < e0.len() && #[trigger] e0[j].0 == ks[i] by {
                        if i < ks0.len() {
                            assert(ks[i] == ks0[i] && taken@[i] == t0[i]);
                        } else {
                            assert(e0[n - 1].0 == ks[i]);
                        }
                    }
                    assert forall|a: int, b: int| 0 <= a < ks.len() && 0 <= b < ks.len() && a != b implies #[trigger] ks[a] != #[trigger] ks[b] by {
                        if a < ks0.len() && b < ks0.len() {
                            assert(ks[a] == ks0[a] && ks[b] == ks0[b]);
                        }
                    }
                    assert forall|j: int| entries@.len() <= j < e0.len() && (#[trigger] e0[j]).1 == line_id implies ks.contains(e0[j].0) by {
                        if j == n - 1 {
                            assert(ks[ks.len() - 1] == e0[j].0);
                        } else {
                            let m = choose|m: int| 0 <= m < ks0.len() && ks0[m] == e0[j].0;
                            assert(ks[m] == ks0[m]);
                        }
                    }
                }
                assert forall|k: usize| #[trigger] km.contains_key(k) <==>
                    (m0.contains_key(k) && m0[k] != line_id
                        && exists|j: int| entries@.len() <= j < e0.len() && #[trigger] e0[j].0 == k) by {
                    if m0.contains_key(k) && m0[k] != line_id
                        && exists|j: int| entries@.len() <= j < e0.len() && #[trigger] e0[j].0 == k {
                        let j = choose|j: int| entries@.len() <= j < e0.len() && #[trigger] e0[j].0 == k;
                        if j == n - 1 {
                            assert(m0[k] == line_id);
                        }
                    }
                }
            } else {
                proof {
                    assert(!km.contains_key(e.0)) by {
                        if km.contains_key(e.0) {
                            let j = choose|j: int| n <= j < e0.len() && #[trigger] e0[j].0 == e.0;
                            assert(e0[j].0 != e0[n - 1].0);
                        }
                    }
                    lemma_registry_push(kept@, km, e);
                    km = km.insert(e.0, e.1);
                }
                let ghost kept0 = kept@;
                kept.push(e);
                assert forall|i: int| #![trigger kept@[i]] 0 <= i < kept@.len() implies exists|j: int| 0 <= j < e0.len() && #[trigger] e0[j] == kept@[i] by {
                    if i < kept0.len() {
                        assert(kept@[i] == kept0[i]);
                    } else {
                        assert(e0[n - 1] == kept@[i]);
                    }
                }
                assert forall|j: int| entries@.len() <= j < e0.len() && (#[trigger] e0[j]).1 == line_id implies ks.contains(e0[j].0) by {
                    if j == n - 1 {
                        assert(false);
                    }
                }
                assert forall|k: usize| #[trigger] km.contains_key(k) <==>
                    (m0.contains_key(k) && m0[k] != line_id
                        && exists|j: int| entries@.len() <= j < e0.len() && #[trigger] e0[j].0 == k) by {
                    if k == e0[n - 1].0 {
                        assert(e0[n - 1].0 == k);
                    }
                }
            }
            assert(entries@ =~= e0.subrange(0, entries@.len() as int));
        }
        let ghost target = m0.restrict(m0.dom().filter(|k: usize| m0[k] != line_id));
        assert(km =~= target) by {
            assert forall|k: usize| km.contains_key(k) <==> target.contains_key(k) by {
                if m0.contains_key(k) && m0[k] != line_id {
                    let j = choose|j: int| 0 <= j < e0.len() && #[trigger] e0[j].0 == k;
                    assert(0 <= j < e0.len() && e0[j].0 == k);
                }
            }
        }
        proof {
            assert forall|k: usize| #[trigger] km.contains_key(k) implies entry_handle(kept@, k) == entry_handle(e0, k) by {
                let i = choose|i: int| 0 <= i < kept@.len() && #[trigger] kept@[i].0 == k;
                lemma_entry_handle(kept@, km, i);
                let j = choose|j: int| 0 <= j < e0.len() && #[trigger] e0[j] == kept@[i];
                lemma_entry_handle(e0, m0, j);
            }
            assert forall|k: usize| #[trigger] m0.contains_key(k) && m0[k] == line_id implies ks.contains(k) by {
                let j = choose|j: int| 0 <= j < e0.len() && #[trigger] e0[j].0 == k;
            }
            assert(ks.no_duplicates() && ks.len() == taken@.len()
                && (forall|i: int| 0 <= i < ks.len() ==> m0.contains_key(#[trigger] ks[i]) && m0[ks[i]] == line_id
                    && taken@[i] == entry_handle(e0, ks[i])));
        }
        *self = StreamRegistry { entries: kept, map: Ghost(km) };
        taken
    }
}

/// Taking a stream out right after registering it under a new identifier
/// gives back its line and leaves the registry as it was.
pub proof fn lemma_take_undoes_register(m: Map<usize, LineId>, id: usize, line_id: LineId)
    requires
        !m.contains_key(id),
    ensures
        m.insert(id, line_id).contains_key(id),
        m.insert(id, line_id)[id] == line_id,
        m.insert(id, line_id).remove(id) == m,
{
    assert(m.insert(id, line_id).remove(id) =~= m);
}

/// Taking out the streams on a line leaves none on it, and every other stream
/// where it was.
pub proof fn lemma_take_on_line_leaves_none(m: Map<usize, LineId>, line_id: LineId)
    ensures
        ({
            let after = m.restrict(m.dom().filter(|k: usize| m[k] != line_id));
            &&& forall|k: usize| #[trigger] after.contains_key(k) ==> after[k] != line_id
            &&& forall|k: usize| #[trigger] m.contains_key(k) && m[k] != line_id ==> after.contains_key(k) && after[k] == m[k]
        }),
{
}

/// What a node's frontend does about an event.
pub enum FrontendAction {
    /// Drop the streams on the line.
    DropLine(LineId),
    /// Activate the registered stream.
    Activate(ChannelToken),
    /// Hand the result to the registered stream.
    Deliver(ChannelToken, ServiceResultType),
    /// Take the registered stream out, hand it the result if there is one,
    /// and drop it for the reason given.
    Complete(ChannelToken, Option<ServiceResultType>, LineChannelResult),
    /// Open a stream for a peer channel that came in from `NodeAddress`.
    OpenIncoming(NodeAddress, LineId, ChannelToken),
    Ignore,
}

/// What a node's frontend does about `event`, given the identifiers of the
/// streams it serves.
pub open spec fn frontend_action_spec(registered: Map<usize, LineId>, event: NodeEvent) -> FrontendAction {
    match event.1 {
        SecondLayerEvent::OnSocketShutdown => FrontendAction::DropLine(event.0),
        SecondLayerEvent::ServiceStarted(t) =>
            if registered.contains_key(t.spec_id()) { FrontendAction::Activate(t) } else { FrontendAction::Ignore },
        SecondLayerEvent::ServiceMessage(t, res) =>
            if registered.contains_key(t.spec_id()) { FrontendAction::Deliver(t, res) } else { FrontendAction::Ignore },
        SecondLayerEvent::ServiceComplete(t, res) =>
            if registered.contains_key(t.spec_id()) {
                match res {
                    ServiceResultType::LineChannel(reason) => FrontendAction::Complete(t, None, reason),
                    _ => FrontendAction::Complete(t, Some(res), LineChannelResult::Unspecified),
                }
            } else {
                FrontendAction::Ignore
            },
        SecondLayerEvent::IncomingPeerChannel(src, t) =>
            if registered.contains_key(t.spec_id()) { FrontendAction::Ignore } else { FrontendAction::OpenIncoming(src, event.0, t) },
        _ => FrontendAction::Ignore,
    }
}

/// Whatever a service hands back under the token of a registered stream
/// reaches that stream, data on its line channel included; nothing reaches a
/// stream that is not registered.
pub proof fn lemma_results_reach_their_stream(registered: Map<usize, LineId>, l: LineId, t: ChannelToken, res: ServiceResultType)
    ensures
        registered.contains_key(t.spec_id())
            ==> frontend_action_spec(registered, NodeEvent(l, SecondLayerEvent::ServiceMessage(t, res))) == FrontendAction::Deliver(t, res),
        !registered.contains_key(t.spec_id())
            ==> frontend_action_spec(registered, NodeEvent(l, SecondLayerEvent::ServiceMessage(t, res))) is Ignore,
        registered.contains_key(t.spec_id())
            ==> frontend_action_spec(registered, NodeEvent(l, SecondLayerEvent::ServiceStarted(t))) == FrontendAction::Activate(t),
        registered.contains_key(t.spec_id())
            ==> (frontend_action_spec(registered, NodeEvent(l, SecondLayerEvent::ServiceComplete(t, res))) matches
                FrontendAction::Complete(t2, _, _) && t2 == t),
{
}

pub fn frontend_action<H>(registry: &StreamRegistry<H>, event: NodeEvent) -> (r: FrontendAction)
    ensures
        r == frontend_action_spec(registry@, event),
        event.1 matches SecondLayerEvent::ServiceMessage(t, res) ==> r == (if registry@.contains_key(t.spec_id()) {
            FrontendAction::Deliver(t, res)
        } else {
            FrontendAction::Ignore
        }),
        event.1 matches SecondLayerEvent::ServiceStarted(t) ==> r == (if registry@.contains_key(t.spec_id()) {
            FrontendAction::Activate(t)
        } else {
            FrontendAction::Ignore
        }),
        event.1 matches SecondLayerEvent::ServiceComplete(t, res) ==> registry@.contains_key(t.spec_id())
            ==> (r matches FrontendAction::Complete(t2, _, _) && t2 == t),
        event.1 matches SecondLayerEvent::ServiceComplete(t, res) ==> !registry@.contains_key(t.spec_id()) ==> r is Ignore,
        event.1 matches SecondLayerEvent::IncomingPeerChannel(src, t) ==> !registry@.contains_key(t.spec_id())
            ==> r == FrontendAction::OpenIncoming(src, event.0, t),
        event.1 is OnSocketShutdown ==> r == FrontendAction::DropLine(event.0),
{
    let NodeEvent(line_id, ev) = event;
    match ev {
        SecondLayerEvent::OnSocketShutdown => FrontendAction::DropLine(line_id),
        SecondLayerEvent::ServiceStarted(t) =>
            if registry.contains(t.id()) { FrontendAction::Activate(t) } else { FrontendAction::Ignore },
        SecondLayerEvent::ServiceMessage(t, res) =>
            if registry.contains(t.id()) { FrontendAction::Deliver(t, res) } else { FrontendAction::Ignore },
        SecondLayerEvent::ServiceComplete(t, res) =>
            if registry.contains(t.id()) {
                match res {
                    ServiceResultType::LineChannel(reason) => FrontendAction::Complete(t, None, reason),
                    other => FrontendAction::Complete(t, Some(other), LineChannelResult::Unspecified),
                }
            } else {
                FrontendAction::Ignore
            },
        SecondLayerEvent::IncomingPeerChannel(src, t) =>
            if registry.contains(t.id()) { FrontendAction::Ignore } else { FrontendAction::OpenIncoming(src, line_id, t) },
        _ => FrontendAction::Ignore,
    }
}

/// The command a frontend gives before it waits for what comes next: check
/// for expired streams every 50 milliseconds while it serves any, else stop
/// checking.
pub fn cleaner_command(serving: bool) -> (r: NodeCommand)
    ensures
        r.0 == LineId(0),
        serving ==> r.1 == SecondLayerCommand::StartExpiredStreamsCleaner(50_000_000),
        !serving ==> r.1 == SecondLayerCommand::StopExpiredStreamsCleaner,
{
    if serving {
        NodeCommand(LineId(0), SecondLayerCommand::StartExpiredStreamsCleaner(50_000_000))
    } else {
        NodeCommand(LineId(0), SecondLayerCommand::StopExpiredStreamsCleaner)
    }
}

} // verus!
