pub mod socket;
pub mod agent;
pub mod stream;
pub mod node_services;
pub mod address_text;

use vstd::prelude::*;
use crate::protocol_stack::line::LineId;
use crate::pipe::LayerState;
use crate::utils::IdCounter;

verus! {

/// The address of a node: a high and a low part; `(0, 0)` stands for any node.
#[derive(PartialEq, Eq, PartialOrd, Ord, Hash, Clone, Copy, Debug, Structural)]
pub struct NodeAddress(u32, u32);

impl NodeAddress {
    pub closed spec fn hi(&self) -> u32 {
        self.0
    }

    pub closed spec fn lo(&self) -> u32 {
        self.1
    }

    /// The address with the parts `hi` and `lo`.
    pub closed spec fn from_parts(hi: u32, lo: u32) -> Self {
        NodeAddress(hi, lo)
    }

    pub fn new(hi: u32, lo: u32) -> (r: Self)
        ensures
            r == Self::from_parts(hi, lo),
            r.hi() == hi,
            r.lo() == lo,
    {
        NodeAddress(hi, lo)
    }

    /// The address that stands for any node.
    pub closed spec fn any_spec() -> Self {
        NodeAddress(0, 0)
    }

    /// The address that stands for any node.
    pub fn any() -> (r: Self)
        ensures
            r == Self::any_spec(),
            r.hi() == 0,
            r.lo() == 0,
    {
        NodeAddress(0, 0)
    }

    /// The parts of the address, high first.
    pub fn parts(&self) -> (r: (u32, u32))
        ensures
            r == (self.hi(), self.lo()),
    {
        (self.0, self.1)
    }

    /// Whether `self` comes before `other` in the order of the high parts,
    /// then of the low parts.
    pub closed spec fn spec_before(&self, other: &Self) -> bool {
        self.0 < other.0 || (self.0 == other.0 && self.1 < other.1)
    }

    pub fn before(&self, other: &Self) -> (r: bool)
        ensures
            r == self.spec_before(other),
    {
        self.0 < other.0 || (self.0 == other.0 && self.1 < other.1)
    }
}

/// An address is its parts: two addresses are equal exactly when their parts
/// are; the address for any node is the one with both parts zero; and one
/// address comes before another as its parts do, the high part first.
pub proof fn lemma_address_is_its_parts(a: NodeAddress, b: NodeAddress, hi: u32, lo: u32)
    ensures
        (a == b) <==> (a.hi() == b.hi() && a.lo() == b.lo()),
        NodeAddress::from_parts(hi, lo).hi() == hi,
        NodeAddress::from_parts(hi, lo).lo() == lo,
        NodeAddress::from_parts(a.hi(), a.lo()) == a,
        NodeAddress::from_parts(0, 0) == NodeAddress::any_spec(),
        a.spec_before(&b) <==> (a.hi() < b.hi() || (a.hi() == b.hi() && a.lo() < b.lo())),
{
}

impl Default for NodeAddress {
    /// The address for any node.
    fn default() -> (r: Self)
        ensures
            r == Self::any_spec(),
    {
        NodeAddress(0, 0)
    }
}

/// What a node knows of how to reach another: the line to send on and the
/// delay, in nanoseconds, with which a message came from there.
#[derive(Clone, Copy, PartialEq, Eq, Structural)]
pub struct AddressMapEntry {
    pub line_id: LineId,
    pub oneway_delay: u128,
}

/// The nodes a node knows of, each with the entry that says how to reach it.
pub struct AddressMap {
    entries: Vec<(NodeAddress, AddressMapEntry)>,
    map: Ghost<Map<NodeAddress, AddressMapEntry>>,
}

impl View for AddressMap {
    type V = Map<NodeAddress, AddressMapEntry>;

    closed spec fn view(&self) -> Map<NodeAddress, AddressMapEntry> {
        self.map@
    }
}

/// `offered` for `addr` kept over what the map holds: when the map holds no
/// entry for it, or one with a longer delay.
pub open spec fn improves(m: Map<NodeAddress, AddressMapEntry>, addr: NodeAddress, offered: AddressMapEntry) -> bool {
    !m.contains_key(addr) || m[addr].oneway_delay > offered.oneway_delay
}

fn position(entries: &Vec<(NodeAddress, AddressMapEntry)>, addr: &NodeAddress) -> (r: Option<usize>)
    ensures
        match r {
            Some(i) => i < entries@.len() && entries@[i as int].0 == *addr,
            None => forall|i: int| 0 <= i < entries@.len() ==> entries@[i].0 != *addr,
        },
{
    let mut i: usize = 0;
    while i < entries.len()
        invariant
            i <= entries@.len(),
            forall|j: int| 0 <= j < i ==> entries@[j].0 != *addr,
        decreases entries@.len() - i,
    {
        if entries[i].0 == *addr {
            return Some(i);
        }
        i = i + 1;
    }
    None
}

/// The entries hold each address once, and the map holds exactly the entries.
spec fn parts_ok(entries: Seq<(NodeAddress, AddressMapEntry)>, map: Map<NodeAddress, AddressMapEntry>) -> bool {
    &&& forall|i: int, j: int|
        0 <= i < entries.len() && 0 <= j < entries.len() && i != j
            ==> #[trigger] entries[i].0 != #[trigger] entries[j].0
    &&& forall|i: int| 0 <= i < entries.len()
            ==> map.contains_key(#[trigger] entries[i].0) && map[entries[i].0] == entries[i].1
    &&& forall|k: NodeAddress| #[trigger] map.contains_key(k)
            ==> exists|i: int| 0 <= i < entries.len() && #[trigger] entries[i].0 == k
}

impl AddressMap {
    #[verifier::type_invariant]
    closed spec fn inv(&self) -> bool {
        parts_ok(self.entries@, self.map@)
    }

    /// Takes the map's parts out, leaving it empty.
    fn take_parts(&mut self) -> (r: (Vec<(NodeAddress, AddressMapEntry)>, Ghost<Map<NodeAddress, AddressMapEntry>>))
        ensures
            parts_ok(r.0@, r.1@),
            r.1@ == old(self)@,
            r.0@ == old(self).entries@,
    {
        let mut tmp = AddressMap::new();
        std::mem::swap(self, &mut tmp);
        proof {
            use_type_invariant(&tmp);
        }
        let AddressMap { entries, map } = tmp;
        (entries, map)
    }

    pub fn new() -> (r: Self)
        ensures
            r@ == Map::<NodeAddress, AddressMapEntry>::empty(),
    {
        AddressMap { entries: Vec::new(), map: Ghost(Map::empty()) }
    }

    /// The entry for `addr`, if there is one.
    pub fn get(&self, addr: &NodeAddress) -> (r: Option<AddressMapEntry>)
        ensures
            r == (if self@.contains_key(*addr) { Some(self@[*addr]) } else { None }),
    {
        proof {
            use_type_invariant(self);
        }
        match position(&self.entries, addr) {
            Some(i) => Some(self.entries[i].1),
            None => None,
        }
    }

    /// The number of nodes known.
    pub fn len(&self) -> (r: usize)
        ensures
            r == self@.len(),
    {
        proof {
            use_type_invariant(self);
            self.lemma_len();
        }
        self.entries.len()
    }

    proof fn lemma_len(&self)
        requires
            self.inv(),
        ensures
            self@.dom().finite(),
            self@.len() == self.entries@.len(),
        decreases self.entries@.len(),
    {
        let keys = self.entries@.map_values(|e: (NodeAddress, AddressMapEntry)| e.0);
        assert(self@.dom() =~= keys.to_set()) by {
            assert forall|k: NodeAddress| self@.dom().contains(k) implies keys.to_set().contains(k) by {
                let i = choose|i: int| 0 <= i < self.entries@.len() && #[trigger] self.entries@[i].0 == k;
                assert(keys[i] == k);
            }
            assert forall|k: NodeAddress| keys.to_set().contains(k) implies self@.dom().contains(k) by {
                let i = choose|i: int| 0 <= i < keys.len() && keys[i] == k;
                assert(self.entries@[i].0 == k);
            }
        }
        assert(keys.no_duplicates()) by {
            assert forall|i: int, j: int| 0 <= i < keys.len() && 0 <= j < keys.len() && i != j implies keys[i] != keys[j] by {
                assert(self.entries@[i].0 != self.entries@[j].0);
            }
        }
        keys.unique_seq_to_set();
    }

    /// Forgets every node.
    pub fn clear(&mut self)
        ensures
            final(self)@ == Map::<NodeAddress, AddressMapEntry>::empty(),
    {
        *self = AddressMap::new();
    }

    /// Forgets `addr`.
    pub fn remove(&mut self, addr: &NodeAddress)
        ensures
            final(self)@ == old(self)@.remove(*addr),
    {
        let (mut entries, map) = self.take_parts();
        match position(&entries, addr) {
            Some(i) => {
                let ghost old_entries = entries@;
                let ghost new_map = map@.remove(*addr);
                entries.remove(i);
                assert forall|j: int| 0 <= j < entries@.len()
                    implies new_map.contains_key(#[trigger] entries@[j].0) && new_map[entries@[j].0] == entries@[j].1 by {
                    let oj = if j < i { j } else { j + 1 };
                    assert(entries@[j] == old_entries[oj]);
                    assert(old_entries[oj].0 != old_entries[i as int].0);
                }
                assert forall|k: NodeAddress| #[trigger] new_map.contains_key(k)
                    implies exists|j: int| 0 <= j < entries@.len() && #[trigger] entries@[j].0 == k by {
                    let oj = choose|oj: int| 0 <= oj < old_entries.len() && #[trigger] old_entries[oj].0 == k;
                    assert(oj != i);
                    let j = if oj < i { oj } else { oj - 1 };
                    assert(entries@[j] == old_entries[oj]);
                }
                assert forall|a: int, b: int|
                    0 <= a < entries@.len() && 0 <= b < entries@.len() && a != b
                    implies #[trigger] entries@[a].0 != #[trigger] entries@[b].0 by {
                    let oa = if a < i { a } else { a + 1 };
                    let ob = if b < i { b } else { b + 1 };
                    assert(entries@[a] == old_entries[oa]);
                    assert(entries@[b] == old_entries[ob]);
                }
                *self = AddressMap { entries, map: Ghost(new_map) };
            },
            None => {
                assert(!map@.contains_key(*addr)) by {
                    if map@.contains_key(*addr) {
                        let j = choose|j: int| 0 <= j < entries@.len() && #[trigger] entries@[j].0 == *addr;
                    }
                }
                assert(map@.remove(*addr) =~= map@);
                *self = AddressMap { entries, map };
            },
        }
    }

    fn set_at(&mut self, i: usize, entry: AddressMapEntry)
        requires
            i < old(self).entries@.len(),
        ensures
            final(self)@ == old(self)@.insert(old(self).entries@[i as int].0, entry),
    {
        let (mut entries, map) = self.take_parts();
        let addr = entries[i].0;
        let ghost old_entries = entries@;
        let ghost new_map = map@.insert(addr, entry);
        entries.set(i, (addr, entry));
        assert forall|j: int| 0 <= j < entries@.len()
            implies new_map.contains_key(#[trigger] entries@[j].0) && new_map[entries@[j].0] == entries@[j].1 by {
            if j != i {
                assert(entries@[j] == old_entries[j]);
                assert(old_entries[j].0 != old_entries[i as int].0);
            }
        }
        assert forall|k: NodeAddress| #[trigger] new_map.contains_key(k)
            implies exists|j: int| 0 <= j < entries@.len() && #[trigger] entries@[j].0 == k by {
            if k == addr {
                assert(entries@[i as int].0 == k);
            } else {
                let j = choose|j: int| 0 <= j < old_entries.len() && #[trigger] old_entries[j].0 == k;
                assert(entries@[j] == old_entries[j]);
            }
        }
        assert forall|a: int, b: int|
            0 <= a < entries@.len() && 0 <= b < entries@.len() && a != b
            implies #[trigger] entries@[a].0 != #[trigger] entries@[b].0 by {
            assert(entries@[a].0 == old_entries[a].0);
            assert(entries@[b].0 == old_entries[b].0);
        }
        *self = AddressMap { entries, map: Ghost(new_map) };
    }

    fn push_new(&mut self, addr: NodeAddress, entry: AddressMapEntry)
        requires
            !old(self)@.contains_key(addr),
        ensures
            final(self)@ == old(self)@.insert(addr, entry),
    {
        let (mut entries, map) = self.take_parts();
        let ghost old_entries = entries@;
        let ghost new_map = map@.insert(addr, entry);
        assert forall|j: int| 0 <= j < old_entries.len() implies old_entries[j].0 != addr by {
            assert(map@.contains_key(old_entries[j].0));
        }
        entries.push((addr, entry));
        assert forall|j: int| 0 <= j < entries@.len()
            implies new_map.contains_key(#[trigger] entries@[j].0) && new_map[entries@[j].0] == entries@[j].1 by {
            if j < old_entries.len() {
                assert(entries@[j] == old_entries[j]);
            }
        }
        assert forall|k: NodeAddress| #[trigger] new_map.contains_key(k)
            implies exists|j: int| 0 <= j < entries@.len() && #[trigger] entries@[j].0 == k by {
            if k == addr {
                assert(entries@[old_entries.len() as int].0 == k);
            } else {
                let j = choose|j: int| 0 <= j < old_entries.len() && #[trigger] old_entries[j].0 == k;
                assert(entries@[j] == old_entries[j]);
            }
        }
        assert forall|a: int, b: int|
            0 <= a < entries@.len() && 0 <= b < entries@.len() && a != b
            implies #[trigger] entries@[a].0 != #[trigger] entries@[b].0 by {
            if a < old_entries.len() {
                assert(entries@[a] == old_entries[a]);
            }
            if b < old_entries.len() {
                assert(entries@[b] == old_entries[b]);
            }
        }
        *self = AddressMap { entries, map: Ghost(new_map) };
    }

    /// Records `entry` for `addr` unless the map already knows `addr`.
    pub fn insert_if_absent(&mut self, addr: NodeAddress, entry: AddressMapEntry)
        ensures
            final(self)@ == (if old(self)@.contains_key(addr) { old(self)@ } else { old(self)@.insert(addr, entry) }),
    {
        proof {
            use_type_invariant(&*self);
        }
        match position(&self.entries, &addr) {
            Some(_) => {},
            None => {
                assert(!self.map@.contains_key(addr)) by {
                    if self.map@.contains_key(addr) {
                        let j = choose|j: int| 0 <= j < self.entries@.len() && #[trigger] self.entries@[j].0 == addr;
                    }
                }
                self.push_new(addr, entry);
            },
        }
    }

    /// Records `entry` for `addr` when the map knows no entry for `addr`, or
    /// one with a longer delay.
    pub fn offer(&mut self, addr: NodeAddress, entry: AddressMapEntry)
        ensures
            final(self)@ == (if improves(old(self)@, addr, entry) { old(self)@.insert(addr, entry) } else { old(self)@ }),
    {
        proof {
            use_type_invariant(&*self);
        }
        match position(&self.entries, &addr) {
            Some(i) => {
                if self.entries[i].1.oneway_delay > entry.oneway_delay {
                    self.set_at(i, entry);
                }
            },
            None => {
                assert(!self.map@.contains_key(addr)) by {
                    if self.map@.contains_key(addr) {
                        let j = choose|j: int| 0 <= j < self.entries@.len() && #[trigger] self.entries@[j].0 == addr;
                    }
                }
                self.push_new(addr, entry);
            },
        }
    }

    /// Each known node with the line to reach it by.
    pub fn nodes_online(&self) -> (r: Vec<(NodeAddress, LineId)>)
        ensures
            forall|i: int, j: int| 0 <= i < r@.len() && 0 <= j < r@.len() && i != j ==> #[trigger] r@[i].0 != #[trigger] r@[j].0,
            forall|i: int| 0 <= i < r@.len() ==> self@.contains_key(#[trigger] r@[i].0) && self@[r@[i].0].line_id == r@[i].1,
            forall|k: NodeAddress| #[trigger] self@.contains_key(k) ==> exists|i: int| 0 <= i < r@.len() && #[trigger] r@[i].0 == k,
    {
        proof {
            use_type_invariant(self);
        }
        let mut r: Vec<(NodeAddress, LineId)> = Vec::new();
        let mut i: usize = 0;
        while i < self.entries.len()
            invariant
                self.inv(),
                i <= self.entries@.len(),
                r@.len() == i,
                forall|j: int| 0 <= j < i ==> #[trigger] r@[j] == (self.entries@[j].0, self.entries@[j].1.line_id),
            decreases self.entries@.len() - i,
        {
            r.push((self.entries[i].0, self.entries[i].1.line_id));
            i = i + 1;
        }
        assert forall|a: int, b: int| 0 <= a < r@.len() && 0 <= b < r@.len() && a != b implies #[trigger] r@[a].0 != #[trigger] r@[b].0 by {
            assert(self.entries@[a].0 != self.entries@[b].0);
        }
        assert forall|k: NodeAddress| #[trigger] self@.contains_key(k) implies exists|j: int| 0 <= j < r@.len() && #[trigger] r@[j].0 == k by {
            let j = choose|j: int| 0 <= j < self.entries@.len() && #[trigger] self.entries@[j].0 == k;
            assert(r@[j].0 == k);
        }
        r
    }

    /// Each known node that is reached by `line_id`.
    pub fn neighbours_online(&self, line_id: LineId) -> (r: Vec<(NodeAddress, LineId)>)
        ensures
            forall|i: int, j: int| 0 <= i < r@.len() && 0 <= j < r@.len() && i != j ==> #[trigger] r@[i].0 != #[trigger] r@[j].0,
            forall|i: int| 0 <= i < r@.len() ==> self@.contains_key(#[trigger] r@[i].0) && r@[i].1 == line_id && self@[r@[i].0].line_id == line_id,
            forall|k: NodeAddress| #[trigger] self@.contains_key(k) && self@[k].line_id == line_id
                ==> exists|i: int| 0 <= i < r@.len() && #[trigger] r@[i].0 == k,
    {
        proof {
            use_type_invariant(self);
        }
        let mut r: Vec<(NodeAddress, LineId)> = Vec::new();
        let ghost mut from: Seq<int> = Seq::empty();
        let mut i: usize = 0;
        while i < self.entries.len()
            invariant
                self.inv(),
                i <= self.entries@.len(),
                from.len() == r@.len(),
                forall|j: int| 0 <= j < from.len() ==> 0 <= #[trigger] from[j] < i && r@[j] == (self.entries@[from[j]].0, line_id)
                    && self.entries@[from[j]].1.line_id == line_id,
                forall|a: int, b: int| 0 <= a < b < from.len() ==> #[trigger] from[a] < #[trigger] from[b],
                forall|j: int| 0 <= j < i && self.entries@[j].1.line_id == line_id ==> exists|a: int| 0 <= a < from.len() && #[trigger] from[a] == j,
            decreases self.entries@.len() - i,
        {
            let ghost old_from = from;
            if self.entries[i].1.line_id == line_id {
                r.push((self.entries[i].0, line_id));
                proof {
                    from = from.push(i as int);
                    assert(from[from.len() - 1] == i);
                }
            }
            assert forall|j: int| 0 <= j < i + 1 && self.entries@[j].1.line_id == line_id
                implies exists|a: int| 0 <= a < from.len() && #[trigger] from[a] == j by {
                if j == i {
                    assert(from[from.len() - 1] == j);
                } else {
                    let a = choose|a: int| 0 <= a < old_from.len() && #[trigger] old_from[a] == j;
                    assert(from[a] == old_from[a]);
                }
            }
            i = i + 1;
        }
        assert forall|a: int, b: int| 0 <= a < r@.len() && 0 <= b < r@.len() && a != b implies #[trigger] r@[a].0 != #[trigger] r@[b].0 by {
            assert(from[a] != from[b]) by {
                if a < b {
                    assert(from[a] < from[b]);
                } else {
                    assert(from[b] < from[a]);
                }
            }
            assert(self.entries@[from[a]].0 != self.entries@[from[b]].0);
        }
        assert forall|k: NodeAddress| #[trigger] self@.contains_key(k) && self@[k].line_id == line_id
            implies exists|a: int| 0 <= a < r@.len() && #[trigger] r@[a].0 == k by {
            let j = choose|j: int| 0 <= j < self.entries@.len() && #[trigger] self.entries@[j].0 == k;
            let a = choose|a: int| 0 <= a < from.len() && #[trigger] from[a] == j;
            assert(r@[a].0 == k);
        }
        assert forall|a: int| 0 <= a < r@.len()
            implies self@.contains_key(#[trigger] r@[a].0) && r@[a].1 == line_id && self@[r@[a].0].line_id == line_id by {
            let k = from[a];
            assert(self.entries@[k].0 == r@[a].0);
        }
        r
    }

    /// The delay with which a message came from `dest`, if `dest` is known.
    pub fn path_delay(&self, dest: &NodeAddress) -> (r: Option<u128>)
        ensures
            r == (if self@.contains_key(*dest) { Some(self@[*dest].oneway_delay) } else { None }),
    {
        match self.get(dest) {
            Some(e) => Some(e.oneway_delay),
            None => None,
        }
    }
}

/// A read gives back what the last write for the same address stored, and a
/// write for one address leaves the others as they were.
pub proof fn lemma_address_map_read_after_write(
    m: Map<NodeAddress, AddressMapEntry>,
    addr: NodeAddress,
    other: NodeAddress,
    entry: AddressMapEntry,
)
    requires
        addr != other,
    ensures
        m.insert(addr, entry)[addr] == entry,
        m.insert(addr, entry).contains_key(other) == m.contains_key(other),
        m.contains_key(other) ==> m.insert(addr, entry)[other] == m[other],
        improves(m, addr, entry) ==> !improves(m.insert(addr, entry), addr, entry),
{
}

/// Offering entries for an address keeps the one with the shortest delay.
pub proof fn lemma_offer_keeps_shortest(
    m: Map<NodeAddress, AddressMapEntry>,
    addr: NodeAddress,
    e1: AddressMapEntry,
    e2: AddressMapEntry,
)
    ensures
        ({
            let m1 = if improves(m, addr, e1) { m.insert(addr, e1) } else { m };
            let m2 = if improves(m1, addr, e2) { m1.insert(addr, e2) } else { m1 };
            &&& m2.contains_key(addr)
            &&& m2[addr].oneway_delay <= e1.oneway_delay
            &&& m2[addr].oneway_delay <= e2.oneway_delay
            &&& m.contains_key(addr) ==> m2[addr].oneway_delay <= m[addr].oneway_delay
        }),
{
}

/// What the entities of a node's own layer share: the source of timer
/// identifiers and the address map.
pub struct NodeLayerState {
    pub ids: IdCounter,
    pub address_map: AddressMap,
}

impl NodeLayerState {
    /// The state of a node's layer around the node's address map.
    pub fn new(address_map: AddressMap) -> (r: Self)
        ensures
            r.address_map == address_map,
            r.ids.peek() == 1,
    {
        NodeLayerState { ids: IdCounter::new(), address_map }
    }
}

impl LayerState for NodeLayerState {
    open spec fn state_ok(&self) -> bool {
        true
    }
}

/// The state of a node's connection.
#[derive(Clone, Copy, PartialEq, Eq, Structural, Debug)]
pub enum NodeStatus {
    Connected,
    Connecting,
    Suspending,
    Suspended,
    Disconnecting,
    Disconnected,
}

impl NodeStatus {
    /// The status numbered `n`, from `1` for connected to `6` for disconnected.
    pub open spec fn of_number(n: usize) -> Self {
        if n == 1 {
            NodeStatus::Connected
        } else if n == 2 {
            NodeStatus::Connecting
        } else if n == 3 {
            NodeStatus::Suspending
        } else if n == 4 {
            NodeStatus::Suspended
        } else if n == 5 {
            NodeStatus::Disconnecting
        } else {
            NodeStatus::Disconnected
        }
    }

    pub fn from_number(n: usize) -> (r: Self)
        requires
            1 <= n <= 6,
        ensures
            r == Self::of_number(n),
            r.number() == n,
    {
        if n == 1 {
            NodeStatus::Connected
        } else if n == 2 {
            NodeStatus::Connecting
        } else if n == 3 {
            NodeStatus::Suspending
        } else if n == 4 {
            NodeStatus::Suspended
        } else if n == 5 {
            NodeStatus::Disconnecting
        } else {
            NodeStatus::Disconnected
        }
    }

    pub open spec fn number(&self) -> usize {
        match self {
            NodeStatus::Connected => 1,
            NodeStatus::Connecting => 2,
            NodeStatus::Suspending => 3,
            NodeStatus::Suspended => 4,
            NodeStatus::Disconnecting => 5,
            NodeStatus::Disconnected => 6,
        }
    }

    /// The number of the status.
    pub fn to_number(&self) -> (r: usize)
        ensures
            r == self.number(),
    {
        match self {
            NodeStatus::Connected => 1,
            NodeStatus::Connecting => 2,
            NodeStatus::Suspending => 3,
            NodeStatus::Suspended => 4,
            NodeStatus::Disconnecting => 5,
            NodeStatus::Disconnected => 6,
        }
    }

    /// A node counts as connected while connected, suspending or suspended.
    pub fn is_connected(&self) -> (r: bool)
        ensures
            r == (*self is Connected || *self is Suspending || *self is Suspended),
    {
        match self {
            NodeStatus::Connected | NodeStatus::Suspending | NodeStatus::Suspended => true,
            _ => false,
        }
    }

    /// Where a node goes when asked to connect: a disconnected node starts
    /// connecting, and the call reports `true`; any other stays as it is.
    pub fn on_connect(&self) -> (r: (NodeStatus, bool))
        ensures
            *self is Disconnected ==> r == (NodeStatus::Connecting, true),
            !(*self is Disconnected) ==> r == (*self, false),
    {
        match self {
            NodeStatus::Disconnected => (NodeStatus::Connecting, true),
            _ => (*self, false),
        }
    }

    pub open spec fn spec_on_resume(self) -> NodeStatus {
        if self is Suspended { NodeStatus::Connecting } else { self }
    }

    pub open spec fn spec_on_suspend(self) -> NodeStatus {
        if self is Connected { NodeStatus::Suspending } else { self }
    }

    pub open spec fn spec_on_agent_loop_over(self) -> NodeStatus {
        match self {
            NodeStatus::Disconnecting => NodeStatus::Disconnected,
            NodeStatus::Suspending => NodeStatus::Suspended,
            _ => self,
        }
    }

    /// Where a node goes when asked to resume: a suspended node starts
    /// connecting; any other stays as it is.
    pub fn on_resume(&self) -> (r: NodeStatus)
        ensures
            r == self.spec_on_resume(),
    {
        match self {
            NodeStatus::Suspended => NodeStatus::Connecting,
            _ => *self,
        }
    }

    /// Where a node goes when asked to suspend: a connected node starts
    /// suspending; any other stays as it is.
    pub fn on_suspend(&self) -> (r: NodeStatus)
        ensures
            r == self.spec_on_suspend(),
    {
        match self {
            NodeStatus::Connected => NodeStatus::Suspending,
            _ => *self,
        }
    }

    /// Where a node goes when its agent loop is over: a disconnecting node is
    /// disconnected, a suspending one suspended; any other stays as it is.
    pub fn on_agent_loop_over(&self) -> (r: NodeStatus)
        ensures
            r == self.spec_on_agent_loop_over(),
    {
        match self {
            NodeStatus::Disconnecting => NodeStatus::Disconnected,
            NodeStatus::Suspending => NodeStatus::Suspended,
            _ => *self,
        }
    }
}

/// Numbering a status and reading the number back gives the status.
pub proof fn lemma_node_status_number_round_trip(s: NodeStatus)
    ensures
        1 <= s.number() <= 6,
        NodeStatus::of_number(s.number()) == s,
{
}

/// A connected node that is suspended is suspended once its agent loop is
/// over, and starts connecting again when resumed.
pub proof fn lemma_node_suspend_then_resume(s: NodeStatus)
    requires
        s is Connected,
    ensures
        s.spec_on_suspend().spec_on_agent_loop_over() == NodeStatus::Suspended,
        s.spec_on_suspend().spec_on_agent_loop_over().spec_on_resume() == NodeStatus::Connecting,
{
}

/// The order of addresses is strict and total: of two different addresses
/// exactly one comes first, and no address comes before itself.
pub proof fn lemma_address_order_total(a: NodeAddress, b: NodeAddress)
    ensures
        !a.spec_before(&a),
        a != b ==> (a.spec_before(&b) != b.spec_before(&a)),
        a == b ==> !a.spec_before(&b) && !b.spec_before(&a),
{
}

} // verus!
