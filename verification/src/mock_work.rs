use vstd::prelude::*;
use crate::protocol_stack::line::{LineId, LineDelay, LineTransceiverId, OneOfTwo};
use crate::protocol_stack::physical_layer::PayloadTimestamped;
use crate::protocol_stack::node::NodeAddress;
use crate::protocol_stack::node::socket::SocketProfile;
use crate::utils::IdCounter;

verus! {

/// The state of a whole simulated network.
#[derive(Clone, Copy, PartialEq, Eq, Structural, Debug)]
pub enum MockWorkStatus {
    Idle,
    Running,
    Suspended,
    Shutdown,
}

impl MockWorkStatus {
    /// The status numbered `n`, from `0` for idle to `3` for shut down.
    pub open spec fn of_number(n: usize) -> Self {
        if n == 0 {
            MockWorkStatus::Idle
        } else if n == 1 {
            MockWorkStatus::Running
        } else if n == 2 {
            MockWorkStatus::Suspended
        } else {
            MockWorkStatus::Shutdown
        }
    }

    pub open spec fn number(&self) -> usize {
        match self {
            MockWorkStatus::Idle => 0,
            MockWorkStatus::Running => 1,
            MockWorkStatus::Suspended => 2,
            MockWorkStatus::Shutdown => 3,
        }
    }

    pub fn from_number(n: usize) -> (r: Self)
        requires
            n <= 3,
        ensures
            r == Self::of_number(n),
            r.number() == n,
    {
        if n == 0 {
            MockWorkStatus::Idle
        } else if n == 1 {
            MockWorkStatus::Running
        } else if n == 2 {
            MockWorkStatus::Suspended
        } else {
            MockWorkStatus::Shutdown
        }
    }

    pub fn to_number(&self) -> (r: usize)
        ensures
            r == self.number(),
    {
        match self {
            MockWorkStatus::Idle => 0,
            MockWorkStatus::Running => 1,
            MockWorkStatus::Suspended => 2,
            MockWorkStatus::Shutdown => 3,
        }
    }

    /// What resuming the transmissions does to the nodes: an idle network
    /// connects them, a suspended one resumes them; either then runs. Any
    /// other network is left as it is.
    pub fn resume_plan(&self) -> (r: ResumePlan)
        ensures
            r == (match *self {
                MockWorkStatus::Idle => ResumePlan::ConnectNodes,
                MockWorkStatus::Suspended => ResumePlan::ResumeNodes,
                _ => ResumePlan::Keep,
            }),
    {
        match self {
            MockWorkStatus::Idle => ResumePlan::ConnectNodes,
            MockWorkStatus::Suspended => ResumePlan::ResumeNodes,
            _ => ResumePlan::Keep,
        }
    }

    /// The status after resuming the transmissions.
    pub fn after_resume(&self) -> (r: Self)
        ensures
            r == (if *self is Idle || *self is Suspended { MockWorkStatus::Running } else { *self }),
    {
        match self {
            MockWorkStatus::Idle | MockWorkStatus::Suspended => MockWorkStatus::Running,
            _ => *self,
        }
    }

    /// Whether suspending the transmissions suspends the nodes: only a
    /// running network does.
    pub fn suspends(&self) -> (r: bool)
        ensures
            r == (*self is Running),
    {
        match self {
            MockWorkStatus::Running => true,
            _ => false,
        }
    }

    /// The status after suspending the transmissions.
    pub fn after_suspend(&self) -> (r: Self)
        ensures
            r == (if *self is Running { MockWorkStatus::Suspended } else { *self }),
    {
        match self {
            MockWorkStatus::Running => MockWorkStatus::Suspended,
            _ => *self,
        }
    }
}

/// What resuming a network does to its nodes.
#[derive(Clone, Copy, PartialEq, Eq, Structural, Debug)]
pub enum ResumePlan {
    ConnectNodes,
    ResumeNodes,
    Keep,
}

/// A line between two nodes, with its delay; the lower address comes first.
/// Two entries are the same line when they join the same nodes.
#[derive(Clone, Copy)]
pub struct MockWorkEntry(pub NodeAddress, pub LineDelay, pub NodeAddress);

impl MockWorkEntry {
    /// The line between `n1` and `n2`, the lower address first.
    pub fn new(n1: NodeAddress, line_delay: LineDelay, n2: NodeAddress) -> (r: Self)
        ensures
            r.1 == line_delay,
            (r.0, r.2) == entry_ends(n1, n2),
    {
        if n1.before(&n2) {
            MockWorkEntry(n1, line_delay, n2)
        } else {
            MockWorkEntry(n2, line_delay, n1)
        }
    }

    pub open spec fn same_spec(&self, other: &Self) -> bool {
        self.0 == other.0 && self.2 == other.2
    }

    /// Whether the two entries join the same nodes.
    pub fn same(&self, other: &Self) -> (r: bool)
        ensures
            r == self.same_spec(other),
    {
        self.0 == other.0 && self.2 == other.2
    }
}

/// The ends of the line between `n1` and `n2`, the lower address first.
pub open spec fn entry_ends(n1: NodeAddress, n2: NodeAddress) -> (NodeAddress, NodeAddress) {
    if n1.spec_before(&n2) { (n1, n2) } else { (n2, n1) }
}

/// A line joins the same nodes whichever of them is named first.
pub proof fn lemma_entry_ends_symmetric(n1: NodeAddress, n2: NodeAddress)
    ensures
        entry_ends(n1, n2) == entry_ends(n2, n1),
        !entry_ends(n1, n2).1.spec_before(&entry_ends(n1, n2).0),
{
    crate::protocol_stack::node::lemma_address_order_total(n1, n2);
}

/// The lines of a network to be woven, each pair of nodes joined once.
pub struct MockWorkEntries {
    entries: Vec<MockWorkEntry>,
}

impl MockWorkEntries {
    /// No two entries join the same nodes.
    pub closed spec fn wf(&self) -> bool {
        forall|i: int, j: int| #![trigger self.entries@[i], self.entries@[j]]
            0 <= i < j < self.entries@.len() ==> !self.entries@[i].same_spec(&self.entries@[j])
    }

    pub closed spec fn spec_entries(&self) -> Seq<MockWorkEntry> {
        self.entries@
    }

    pub fn new() -> (r: Self)
        ensures
            r.wf(),
            r.spec_entries() == Seq::<MockWorkEntry>::empty(),
    {
        MockWorkEntries { entries: Vec::new() }
    }

    /// Adds the entry unless one joining the same nodes is there already;
    /// says whether it did.
    pub fn insert(&mut self, entry: MockWorkEntry) -> (r: bool)
        requires
            old(self).wf(),
        ensures
            final(self).wf(),
            r == !(exists|i: int| 0 <= i < old(self).spec_entries().len() && (#[trigger] old(self).spec_entries()[i]).same_spec(&entry)),
            r ==> final(self).spec_entries() == old(self).spec_entries().push(entry),
            !r ==> final(self).spec_entries() == old(self).spec_entries(),
    {
        let mut k: usize = 0;
        while k < self.entries.len()
            invariant
                self.wf(),
                self.entries@ == old(self).entries@,
                k <= self.entries@.len(),
                forall|i: int| 0 <= i < k ==> !(#[trigger] self.entries@[i]).same_spec(&entry),
            decreases self.entries@.len() - k,
        {
            if self.entries[k].same(&entry) {
                assert(old(self).spec_entries()[k as int].same_spec(&entry));
                return false;
            }
            k = k + 1;
        }
        let ghost e0 = self.entries@;
        self.entries.push(entry);
        assert forall|i: int, j: int| #![trigger self.entries@[i], self.entries@[j]]
            0 <= i < j < self.entries@.len() implies !self.entries@[i].same_spec(&self.entries@[j]) by {
            if j == e0.len() {
                assert(!e0[i].same_spec(&entry));
            } else {
                assert(self.entries@[i] == e0[i] && self.entries@[j] == e0[j]);
            }
        }
        true
    }

    pub fn entries(&self) -> (r: &Vec<MockWorkEntry>)
        ensures
            r@ == self.spec_entries(),
    {
        &self.entries
    }
}

/// A line of a woven network: the nodes it joins and its delay.
#[derive(Clone, Copy)]
pub struct Edge {
    pub node_addr1: NodeAddress,
    pub node_addr2: NodeAddress,
    pub line_delay: LineDelay,
}

/// How many first layer channels a socket of a woven network may carry.
pub const MAX_FIRST_LAYER_CHANNELS: usize = 10000;

/// The identifier a counter hands out after `x`.
pub open spec fn id_after(x: usize) -> usize {
    if x == usize::MAX { 0 } else { (x + 1) as usize }
}

/// The `i`th identifier a counter that starts at `start` hands out.
pub open spec fn nth_id(start: usize, i: nat) -> usize
    decreases i,
{
    if i == 0 { start } else { id_after(nth_id(start, (i - 1) as nat)) }
}

/// A line's delay in whole milliseconds.
pub open spec fn delay_millis(d: LineDelay) -> u64 {
    (d.propagation_delay_nanos / 1_000_000) as u64
}

/// The profiles each node has after the first `entries` are woven, with line
/// identifiers handed out from `start`: each line gives its first node the
/// first end and its second node the second end.
pub open spec fn wired(entries: Seq<MockWorkEntry>, start: usize) -> Map<NodeAddress, Seq<SocketProfile>>
    decreases entries.len(),
{
    if entries.len() == 0 {
        Map::empty()
    } else {
        let prev = wired(entries.drop_last(), start);
        let e = entries.last();
        let lid = LineId(nth_id(start, (entries.len() - 1) as nat));
        let p1 = SocketProfile { id: OneOfTwo::First(lid), line_delay: e.1, max_first_layer_channels: MAX_FIRST_LAYER_CHANNELS };
        let p2 = SocketProfile { id: OneOfTwo::Second(lid), line_delay: e.1, max_first_layer_channels: MAX_FIRST_LAYER_CHANNELS };
        let m1 = prev.insert(e.0, profiles_at(prev, e.0).push(p1));
        m1.insert(e.2, profiles_at(m1, e.2).push(p2))
    }
}

/// The profiles a node has in `m`; none if it is not there.
pub open spec fn profiles_at(m: Map<NodeAddress, Seq<SocketProfile>>, a: NodeAddress) -> Seq<SocketProfile> {
    if m.contains_key(a) { m[a] } else { Seq::empty() }
}

/// The range of the lines' delays in milliseconds, from the least to the
/// greatest; `(u64::MAX, 0)` for no line.
pub open spec fn delay_range(entries: Seq<MockWorkEntry>) -> (u64, u64)
    decreases entries.len(),
{
    if entries.len() == 0 {
        (u64::MAX, 0)
    } else {
        let prev = delay_range(entries.drop_last());
        let d = delay_millis(entries.last().1);
        (if d < prev.0 { d } else { prev.0 }, if d > prev.1 { d } else { prev.1 })
    }
}

/// Each line of a woven network has its first end at its first node and its
/// second end at its second node.
pub proof fn lemma_wired_line_ends(entries: Seq<MockWorkEntry>, start: usize, i: int)
    requires
        0 <= i < entries.len(),
    ensures
        ({
            let w = wired(entries, start);
            let lid = LineId(nth_id(start, i as nat));
            &&& w.contains_key(entries[i].0)
            &&& w.contains_key(entries[i].2)
            &&& w[entries[i].0].contains(SocketProfile { id: OneOfTwo::First(lid), line_delay: entries[i].1, max_first_layer_channels: MAX_FIRST_LAYER_CHANNELS })
            &&& w[entries[i].2].contains(SocketProfile { id: OneOfTwo::Second(lid), line_delay: entries[i].1, max_first_layer_channels: MAX_FIRST_LAYER_CHANNELS })
        }),
    decreases entries.len(),
{
    let n = entries.len();
    let prev = wired(entries.drop_last(), start);
    let e = entries.last();
    let lid_last = LineId(nth_id(start, (n - 1) as nat));
    let p1 = SocketProfile { id: OneOfTwo::First(lid_last), line_delay: e.1, max_first_layer_channels: MAX_FIRST_LAYER_CHANNELS };
    let p2 = SocketProfile { id: OneOfTwo::Second(lid_last), line_delay: e.1, max_first_layer_channels: MAX_FIRST_LAYER_CHANNELS };
    let m1 = prev.insert(e.0, profiles_at(prev, e.0).push(p1));
    let w = m1.insert(e.2, profiles_at(m1, e.2).push(p2));
    assert(wired(entries, start) == w);
    if i == n - 1 {
        assert(profiles_at(m1, e.2).push(p2).last() == p2);
        assert(w[e.2].contains(p2)) by {
            assert(w[e.2][w[e.2].len() - 1] == p2);
        }
        assert(m1[e.0].contains(p1)) by {
            assert(m1[e.0][m1[e.0].len() - 1] == p1);
        }
        if e.2 == e.0 {
            assert(w[e.0] == m1[e.0].push(p2));
            let j = m1[e.0].index_of(p1);
            assert(w[e.0][j] == p1);
        }
    } else {
        lemma_wired_line_ends(entries.drop_last(), start, i);
        assert(entries.drop_last()[i] == entries[i]);
        let lid = LineId(nth_id(start, i as nat));
        let q1 = SocketProfile { id: OneOfTwo::First(lid), line_delay: entries[i].1, max_first_layer_channels: MAX_FIRST_LAYER_CHANNELS };
        let q2 = SocketProfile { id: OneOfTwo::Second(lid), line_delay: entries[i].1, max_first_layer_channels: MAX_FIRST_LAYER_CHANNELS };
        let a = entries[i].0;
        let b = entries[i].2;
        assert(m1[a].contains(q1)) by {
            let j = prev[a].index_of(q1);
            if a == e.0 {
                assert(m1[a] == prev[a].push(p1));
                assert(m1[a][j] == q1);
            }
        }
        assert(w[a].contains(q1)) by {
            let j = m1[a].index_of(q1);
            if a == e.2 {
                assert(w[a] == profiles_at(m1, a).push(p2));
                assert(w[a][j] == q1);
            }
        }
        assert(m1[b].contains(q2)) by {
            let j = prev[b].index_of(q2);
            if b == e.0 {
                assert(m1[b] == prev[b].push(p1));
                assert(m1[b][j] == q2);
            }
        }
        assert(w[b].contains(q2)) by {
            let j = m1[b].index_of(q2);
            if b == e.2 {
                assert(w[b] == profiles_at(m1, b).push(p2));
                assert(w[b][j] == q2);
            }
        }
    }
}

/// A network with lines has its least delay no greater than its greatest,
/// and every line's delay lies between them.
pub proof fn lemma_delay_range_bounds(entries: Seq<MockWorkEntry>)
    ensures
        entries.len() > 0 ==> delay_range(entries).0 <= delay_range(entries).1,
        forall|i: int| 0 <= i < entries.len() ==>
            delay_range(entries).0 <= delay_millis((#[trigger] entries[i]).1) <= delay_range(entries).1,
    decreases entries.len(),
{
    if entries.len() > 0 {
        lemma_delay_range_bounds(entries.drop_last());
        assert forall|i: int| 0 <= i < entries.len() implies
            delay_range(entries).0 <= delay_millis((#[trigger] entries[i]).1) <= delay_range(entries).1 by {
            if i < entries.len() - 1 {
                assert(entries[i] == entries.drop_last()[i]);
            }
        }
    }
}

/// A woven network: the profiles of each node's sockets, the lines, and the
/// range of the lines' delays in milliseconds.
pub struct Topology {
    pub neighbours: Vec<(NodeAddress, Vec<SocketProfile>)>,
    pub edges: Vec<(LineId, Edge)>,
    pub line_delay_range: (u64, u64),
}

/// The nodes of `neighbours` with their profiles.
pub open spec fn neighbours_map(neighbours: Seq<(NodeAddress, Vec<SocketProfile>)>) -> Map<NodeAddress, Seq<SocketProfile>> {
    Map::new(
        |a: NodeAddress| exists|i: int| 0 <= i < neighbours.len() && #[trigger] neighbours[i].0 == a,
        |a: NodeAddress| neighbours[choose|i: int| 0 <= i < neighbours.len() && #[trigger] neighbours[i].0 == a].1@,
    )
}

/// No node comes twice.
pub open spec fn neighbours_unique(neighbours: Seq<(NodeAddress, Vec<SocketProfile>)>) -> bool {
    forall|i: int, j: int| 0 <= i < j < neighbours.len() ==> (#[trigger] neighbours[i]).0 != (#[trigger] neighbours[j]).0
}

/// Adds `profile` to the profiles of `node_addr`.
fn wire_node(neighbours: &mut Vec<(NodeAddress, Vec<SocketProfile>)>, node_addr: NodeAddress, profile: SocketProfile)
    requires
        neighbours_unique(old(neighbours)@),
    ensures
        neighbours_unique(final(neighbours)@),
        neighbours_map(final(neighbours)@) == neighbours_map(old(neighbours)@).insert(
            node_addr, profiles_at(neighbours_map(old(neighbours)@), node_addr).push(profile)),
{
    let ghost n0 = neighbours@;
    let ghost m0 = neighbours_map(n0);
    let mut k: usize = 0;
    while k < neighbours.len()
        invariant
            neighbours@ == n0,
            n0 == old(neighbours)@,
            neighbours_unique(n0),
            m0 == neighbours_map(n0),
            k <= n0.len(),
            forall|i: int| 0 <= i < k ==> n0[i].0 != node_addr,
        decreases n0.len() - k,
    {
        if neighbours[k].0 == node_addr {
            let (a, mut ps) = neighbours.remove(k);
            let ghost ps0 = ps@;
            ps.push(profile);
            neighbours.insert(k, (a, ps));
            proof {
                assert(ps0 == n0[k as int].1@);
                assert(ps@ == ps0.push(profile));
                let n1 = neighbours@;
                assert(n1 =~= n0.update(k as int, (a, ps)));
                assert(n0[k as int].0 == node_addr);
                assert(m0.contains_key(node_addr));
                let c = choose|i: int| 0 <= i < n0.len() && #[trigger] n0[i].0 == node_addr;
                assert(c == k) by {
                    if c != k {
                        if c < k {
                            assert(n0[c].0 != n0[k as int].0);
                        } else {
                            assert(n0[k as int].0 != n0[c].0);
                        }
                    }
                }
                assert forall|i: int, j: int| 0 <= i < j < n1.len() implies (#[trigger] n1[i]).0 != (#[trigger] n1[j]).0 by {
                    assert(n1[i].0 == n0[i].0 && n1[j].0 == n0[j].0);
                }
                let target = m0.insert(node_addr, profiles_at(m0, node_addr).push(profile));
                assert forall|b: NodeAddress| neighbours_map(n1).contains_key(b) <==> target.contains_key(b) by {
                    if target.contains_key(b) && b != node_addr {
                        let w = choose|i: int| 0 <= i < n0.len() && #[trigger] n0[i].0 == b;
                        assert(n1[w].0 == b);
                    }
                    if neighbours_map(n1).contains_key(b) {
                        let w = choose|i: int| 0 <= i < n1.len() && #[trigger] n1[i].0 == b;
                        assert(n0[w].0 == b);
                    }
                    if b == node_addr {
                        assert(n1[k as int].0 == b);
                    }
                }
                assert forall|b: NodeAddress| #[trigger] neighbours_map(n1).contains_key(b) implies neighbours_map(n1)[b] == target[b] by {
                    let w = choose|i: int| 0 <= i < n1.len() && #[trigger] n1[i].0 == b;
                    if b == node_addr {
                        assert(w == k) by {
                            if w != k {
                                if w < k {
                                    assert(n1[w].0 != n1[k as int].0);
                                } else {
                                    assert(n1[k as int].0 != n1[w].0);
                                }
                            }
                        }
                        assert(neighbours_map(n1)[b] == n1[k as int].1@);
                        assert(m0[b] == n0[c].1@);
                        assert(target[b] == ps0.push(profile));
                    } else {
                        assert(n0[w].0 == b);
                        let w0 = choose|i: int| 0 <= i < n0.len() && #[trigger] n0[i].0 == b;
                        assert(w0 == w) by {
                            if w0 != w {
                                if w0 < w {
                                    assert(n0[w0].0 != n0[w].0);
                                } else {
                                    assert(n0[w].0 != n0[w0].0);
                                }
                            }
                        }
                    }
                }
                assert(neighbours_map(n1) =~= target);
            }
            return;
        }
        k = k + 1;
    }
    let mut ps: Vec<SocketProfile> = Vec::new();
    ps.push(profile);
    neighbours.push((node_addr, ps));
    proof {
        let n1 = neighbours@;
        assert(!m0.contains_key(node_addr)) by {
            if m0.contains_key(node_addr) {
                let w = choose|i: int| 0 <= i < n0.len() && #[trigger] n0[i].0 == node_addr;
            }
        }
        assert(profiles_at(m0, node_addr) =~= Seq::<SocketProfile>::empty());
        assert forall|i: int, j: int| 0 <= i < j < n1.len() implies (#[trigger] n1[i]).0 != (#[trigger] n1[j]).0 by {
            if j < n0.len() {
                assert(n1[i] == n0[i] && n1[j] == n0[j]);
            } else {
                assert(n1[i] == n0[i]);
            }
        }
        let target = m0.insert(node_addr, profiles_at(m0, node_addr).push(profile));
        assert forall|b: NodeAddress| neighbours_map(n1).contains_key(b) <==> target.contains_key(b) by {
            if target.contains_key(b) && b != node_addr {
                let w = choose|i: int| 0 <= i < n0.len() && #[trigger] n0[i].0 == b;
                assert(n1[w].0 == b);
            }
            if b == node_addr {
                assert(n1[n0.len() as int].0 == b);
            }
            if neighbours_map(n1).contains_key(b) && b != node_addr {
                let w = choose|i: int| 0 <= i < n1.len() && #[trigger] n1[i].0 == b;
                assert(n0[w].0 == b);
            }
        }
        assert forall|b: NodeAddress| #[trigger] neighbours_map(n1).contains_key(b) implies neighbours_map(n1)[b] == target[b] by {
            let w = choose|i: int| 0 <= i < n1.len() && #[trigger] n1[i].0 == b;
            if b == node_addr {
                assert(w == n0.len()) by {
                    if w < n0.len() {
                        assert(n0[w].0 == node_addr);
                    }
                }
                assert(n1[w].1@ =~= seq![profile]);
            } else {
                assert(w < n0.len());
                assert(n0[w].0 == b);
                let w0 = choose|i: int| 0 <= i < n0.len() && #[trigger] n0[i].0 == b;
                assert(w0 == w) by {
                    if w0 != w {
                        if w0 < w {
                            assert(n0[w0].0 != n0[w].0);
                        } else {
                            assert(n0[w].0 != n0[w0].0);
                        }
                    }
                }
            }
        }
        assert(neighbours_map(n1) =~= target);
    }
}

/// Weaves a network of the lines: each line gets an identifier from `ids`
/// and a socket at each of its nodes, the first end at its first node.
pub fn weave_topology(entries: &Vec<MockWorkEntry>, ids: &mut IdCounter) -> (r: Topology)
    ensures
        neighbours_unique(r.neighbours@),
        neighbours_map(r.neighbours@) == wired(entries@, old(ids).peek()),
        r.edges@.len() == entries@.len(),
        forall|i: int| 0 <= i < entries@.len() ==> (#[trigger] r.edges@[i]).0 == LineId(nth_id(old(ids).peek(), i as nat))
            && r.edges@[i].1.node_addr1 == entries@[i].0
            && r.edges@[i].1.node_addr2 == entries@[i].2
            && r.edges@[i].1.line_delay == entries@[i].1,
        r.line_delay_range == delay_range(entries@),
{
    let ghost start = ids.peek();
    let mut neighbours: Vec<(NodeAddress, Vec<SocketProfile>)> = Vec::new();
    let mut edges: Vec<(LineId, Edge)> = Vec::new();
    let mut min_line_delay: u64 = u64::MAX;
    let mut max_line_delay: u64 = 0;
    let mut k: usize = 0;
    proof {
        assert(neighbours_map(neighbours@) =~= Map::<NodeAddress, Seq<SocketProfile>>::empty());
    }
    while k < entries.len()
        invariant
            k <= entries@.len(),
            ids.peek() == nth_id(start, k as nat),
            neighbours_unique(neighbours@),
            neighbours_map(neighbours@) == wired(entries@.subrange(0, k as int), start),
            edges@.len() == k,
            forall|i: int| 0 <= i < k ==> (#[trigger] edges@[i]).0 == LineId(nth_id(start, i as nat))
                && edges@[i].1.node_addr1 == entries@[i].0
                && edges@[i].1.node_addr2 == entries@[i].2
                && edges@[i].1.line_delay == entries@[i].1,
            (min_line_delay, max_line_delay) == delay_range(entries@.subrange(0, k as int)),
        decreases entries@.len() - k,
    {
        let item = entries[k];
        let addr1 = item.0;
        let addr2 = item.2;
        let line_delay = item.1;
        let line_id = LineId::new(ids);
        proof {
            assert(ids.peek() == nth_id(start, (k + 1) as nat));
        }
        let millis: u64 = line_delay.propagation_delay_nanos / 1_000_000;
        if millis < min_line_delay {
            min_line_delay = millis;
        }
        if millis > max_line_delay {
            max_line_delay = millis;
        }
        let socket_profile1 = SocketProfile::new(OneOfTwo::First(line_id), line_delay, MAX_FIRST_LAYER_CHANNELS);
        let socket_profile2 = SocketProfile::new(OneOfTwo::Second(line_id), line_delay, MAX_FIRST_LAYER_CHANNELS);
        wire_node(&mut neighbours, addr1, socket_profile1);
        wire_node(&mut neighbours, addr2, socket_profile2);
        edges.push((line_id, Edge { node_addr1: addr1, node_addr2: addr2, line_delay }));
        proof {
            let sub = entries@.subrange(0, k + 1);
            assert(sub.drop_last() =~= entries@.subrange(0, k as int));
            assert(sub.last() == item);
        }
        k = k + 1;
    }
    proof {
        assert(entries@.subrange(0, entries@.len() as int) =~= entries@);
    }
    Topology { neighbours, edges, line_delay_range: (min_line_delay, max_line_delay) }
}

/// The edge of the line `line_id`, if the network has one.
pub open spec fn edge_of(edges: Seq<(LineId, Edge)>, line_id: LineId) -> Option<Edge> {
    if exists|i: int| 0 <= i < edges.len() && (#[trigger] edges[i]).0 == line_id {
        Some(edges[choose|i: int| 0 <= i < edges.len() && (#[trigger] edges[i]).0 == line_id].1)
    } else {
        None
    }
}

fn find_edge(edges: &Vec<(LineId, Edge)>, line_id: LineId) -> (r: Option<Edge>)
    requires
        forall|i: int, j: int| 0 <= i < j < edges@.len() ==> (#[trigger] edges@[i]).0 != (#[trigger] edges@[j]).0,
    ensures
        r == edge_of(edges@, line_id),
{
    let mut k: usize = 0;
    while k < edges.len()
        invariant
            forall|i: int, j: int| 0 <= i < j < edges@.len() ==> (#[trigger] edges@[i]).0 != (#[trigger] edges@[j]).0,
            k <= edges@.len(),
            forall|i: int| 0 <= i < k ==> edges@[i].0 != line_id,
        decreases edges@.len() - k,
    {
        if edges[k].0 == line_id {
            proof {
                let c = choose|i: int| 0 <= i < edges@.len() && (#[trigger] edges@[i]).0 == line_id;
                assert(c == k) by {
                    if c != k {
                        if c < k {
                            assert(edges@[c].0 != line_id);
                        } else {
                            assert(edges@[k as int].0 != edges@[c].0);
                        }
                    }
                }
            }
            return Some(edges[k].1);
        }
        k = k + 1;
    }
    None
}

/// The node at the other end of the line `line_id` from `n1`: the second
/// node if `n1` is the first, else the first.
pub fn other_side(edges: &Vec<(LineId, Edge)>, n1: NodeAddress, line_id: LineId) -> (r: Option<NodeAddress>)
    requires
        forall|i: int, j: int| 0 <= i < j < edges@.len() ==> (#[trigger] edges@[i]).0 != (#[trigger] edges@[j]).0,
    ensures
        r == (match edge_of(edges@, line_id) {
            Some(e) => Some(if e.node_addr1 == n1 { e.node_addr2 } else { e.node_addr1 }),
            None => None,
        }),
{
    match find_edge(edges, line_id) {
        Some(e) => Some(if e.node_addr1 == n1 { e.node_addr2 } else { e.node_addr1 }),
        None => None,
    }
}

/// The two nodes the line `line_id` joins.
pub fn peer(edges: &Vec<(LineId, Edge)>, line_id: LineId) -> (r: Option<(NodeAddress, NodeAddress)>)
    requires
        forall|i: int, j: int| 0 <= i < j < edges@.len() ==> (#[trigger] edges@[i]).0 != (#[trigger] edges@[j]).0,
    ensures
        r == (match edge_of(edges@, line_id) {
            Some(e) => Some((e.node_addr1, e.node_addr2)),
            None => None,
        }),
{
    match find_edge(edges, line_id) {
        Some(e) => Some((e.node_addr1, e.node_addr2)),
        None => None,
    }
}

/// Numbering a status and reading the number back gives the status.
pub proof fn lemma_mock_work_status_number_round_trip(s: MockWorkStatus)
    ensures
        s.number() <= 3,
        MockWorkStatus::of_number(s.number()) == s,
{
}

/// A round hands out exactly the transmissions due before its time: every
/// one the round took out was due, and every one it left is not.
pub proof fn lemma_tick_takes_exactly_the_due(s: Seq<ScheduledTransmit>, n: int, now: u128)
    requires
        latest_first(s),
        0 <= n <= s.len(),
        forall|i: int| n <= i < s.len() ==> (#[trigger] s[i]).when < now,
        n > 0 ==> s[n - 1].when >= now,
    ensures
        forall|i: int| 0 <= i < s.len() ==> ((#[trigger] s[i]).when < now <==> n <= i),
{
    assert forall|i: int| 0 <= i < s.len() implies ((#[trigger] s[i]).when < now <==> n <= i) by {
        if i < n {
            assert(s[i].when >= s[n - 1].when);
        }
    }
}

/// A transmission to be received at `when`, in nanoseconds on the network's
/// clock, at the end `id` of a line.
pub struct ScheduledTransmit {
    pub id: LineTransceiverId,
    pub when: u128,
    pub what: PayloadTimestamped,
}

/// The latest first: each transmission is due no earlier than the ones
/// after it.
pub open spec fn latest_first(s: Seq<ScheduledTransmit>) -> bool {
    forall|i: int, j: int| 0 <= i < j < s.len() ==> (#[trigger] s[i]).when >= (#[trigger] s[j]).when
}

/// A transmission handed to the end of a line that has a receiver, with the
/// number of transmissions still scheduled after it.
pub struct Delivery {
    pub id: LineTransceiverId,
    pub what: PayloadTimestamped,
    pub remaining: usize,
}

/// The deliveries that popping the transmissions of `s` down to the first
/// `k` makes, the first popped first: one for each transmission whose end
/// is in `registered`, with the number left after it.
pub open spec fn popped_deliveries(s: Seq<ScheduledTransmit>, k: int, registered: Seq<LineTransceiverId>) -> Seq<Delivery>
    decreases s.len(),
{
    if s.len() <= k || s.len() == 0 {
        Seq::empty()
    } else {
        let last = s.last();
        let rest = popped_deliveries(s.drop_last(), k, registered);
        if registered.contains(last.id) {
            seq![Delivery { id: last.id, what: last.what, remaining: (s.len() - 1) as usize }] + rest
        } else {
            rest
        }
    }
}

/// Popping all of `s` makes the deliveries down to the first `k`, then those
/// of the first `k`.
proof fn lemma_popped_deliveries_split(s: Seq<ScheduledTransmit>, k: int, registered: Seq<LineTransceiverId>)
    requires
        0 <= k <= s.len(),
    ensures
        popped_deliveries(s, 0, registered) == popped_deliveries(s, k, registered) + popped_deliveries(s.subrange(0, k), 0, registered),
    decreases s.len(),
{
    if s.len() == k {
        assert(s.subrange(0, k) =~= s);
        assert(popped_deliveries(s, k, registered) =~= Seq::<Delivery>::empty());
        assert(popped_deliveries(s, 0, registered) =~= Seq::<Delivery>::empty() + popped_deliveries(s, 0, registered));
    } else {
        lemma_popped_deliveries_split(s.drop_last(), k, registered);
        assert(s.drop_last().subrange(0, k) =~= s.subrange(0, k));
        let last = s.last();
        if registered.contains(last.id) {
            let d = seq![Delivery { id: last.id, what: last.what, remaining: (s.len() - 1) as usize }];
            assert(popped_deliveries(s, 0, registered) =~= d + popped_deliveries(s.drop_last(), 0, registered));
            assert(popped_deliveries(s, k, registered) =~= d + popped_deliveries(s.drop_last(), k, registered));
        }
    }
}

/// What one round of the scheduler gives: the transmissions due, for the
/// ends that have a receiver, and how long until the next one is due, if
/// any is left.
pub struct TickOutcome {
    pub deliveries: Vec<Delivery>,
    pub next_delay: Option<u128>,
}

/// The figures the scheduler keeps of its transmissions: how many were
/// handed on in the last round and in all, how many are still scheduled,
/// and how many were handed on per line.
pub struct TransmitStats {
    pub recently_sent: usize,
    pub overall_sent: usize,
    pub remaining: usize,
    pub per_line: Vec<(LineId, usize)>,
}

/// Holds the transmissions on their way until they are due, the earliest
/// handed on first, and among those due at once the one scheduled first.
pub struct TransmitScheduler {
    schedule: Vec<ScheduledTransmit>,
    registered: Vec<LineTransceiverId>,
    stats: TransmitStats,
}

impl TransmitScheduler {
    /// The transmissions are kept the latest first.
    pub open spec fn wf(&self) -> bool {
        latest_first(self.spec_schedule())
    }

    /// The transmissions scheduled, the latest first.
    pub closed spec fn spec_schedule(&self) -> Seq<ScheduledTransmit> {
        self.schedule@
    }

    /// The ends of lines that have a receiver.
    pub closed spec fn spec_registered(&self) -> Seq<LineTransceiverId> {
        self.registered@
    }

    pub closed spec fn spec_stats(&self) -> TransmitStats {
        self.stats
    }

    pub fn new() -> (r: Self)
        ensures
            r.wf(),
            r.spec_schedule().len() == 0,
            r.spec_registered().len() == 0,
            r.spec_stats().recently_sent == 0,
            r.spec_stats().overall_sent == 0,
            r.spec_stats().remaining == 0,
            r.spec_stats().per_line@.len() == 0,
    {
        TransmitScheduler {
            schedule: Vec::new(),
            registered: Vec::new(),
            stats: TransmitStats { recently_sent: 0, overall_sent: 0, remaining: 0, per_line: Vec::new() },
        }
    }

    pub fn stats(&self) -> (r: &TransmitStats)
        ensures
            *r == self.spec_stats(),
    {
        &self.stats
    }

    /// Records that the end `id` has a receiver.
    #[verifier::loop_isolation(false)]
    pub fn register_line(&mut self, id: LineTransceiverId)
        requires
            old(self).wf(),
        ensures
            final(self).wf(),
            final(self).spec_schedule() == old(self).spec_schedule(),
            final(self).spec_stats() == old(self).spec_stats(),
            final(self).spec_registered().contains(id),
            forall|x: LineTransceiverId| final(self).spec_registered().contains(x) <==> (old(self).spec_registered().contains(x) || x == id),
    {
        let mut k: usize = 0;
        while k < self.registered.len()
            invariant
                k <= self.registered@.len(),
                forall|i: int| 0 <= i < k ==> self.registered@[i] != id,
            decreases self.registered@.len() - k,
        {
            if self.registered[k] == id {
                assert(self.registered@[k as int] == id);
                return;
            }
            k = k + 1;
        }
        let ghost r0 = self.registered@;
        self.registered.push(id);
        assert(self.registered@[r0.len() as int] == id);
        assert forall|x: LineTransceiverId| self.registered@.contains(x) <==> (r0.contains(x) || x == id) by {
            if r0.contains(x) {
                let j = r0.index_of(x);
                assert(self.registered@[j] == x);
            }
            if self.registered@.contains(x) {
                let j = self.registered@.index_of(x);
                if j < r0.len() {
                    assert(r0[j] == x);
                }
            }
        }
    }

    fn is_registered(&self, id: LineTransceiverId) -> (r: bool)
        ensures
            r == self.spec_registered().contains(id),
    {
        let mut k: usize = 0;
        while k < self.registered.len()
            invariant
                k <= self.registered@.len(),
                forall|i: int| 0 <= i < k ==> self.registered@[i] != id,
            decreases self.registered@.len() - k,
        {
            if self.registered[k] == id {
                assert(self.registered@[k as int] == id);
                return true;
            }
            k = k + 1;
        }
        false
    }

    /// Schedules a transmission: it goes after every one due later or at the
    /// same time, and before every one due earlier.
    #[verifier::loop_isolation(false)]
    pub fn push(&mut self, scheduled: ScheduledTransmit)
        requires
            old(self).wf(),
        ensures
            final(self).wf(),
            final(self).spec_registered() == old(self).spec_registered(),
            final(self).spec_stats() == old(self).spec_stats(),
            exists|i: int| 0 <= i <= old(self).spec_schedule().len()
                && final(self).spec_schedule() == old(self).spec_schedule().insert(i, scheduled)
                && (forall|j: int| 0 <= j < i ==> (#[trigger] old(self).spec_schedule()[j]).when > scheduled.when)
                && (forall|j: int| i <= j < old(self).spec_schedule().len() ==> (#[trigger] old(self).spec_schedule()[j]).when <= scheduled.when),
    {
        let when = scheduled.when;
        let mut k: usize = 0;
        while k < self.schedule.len() && self.schedule[k].when > when
            invariant
                k <= self.schedule@.len(),
                forall|j: int| 0 <= j < k ==> (#[trigger] self.schedule@[j]).when > when,
            decreases self.schedule@.len() - k,
        {
            k = k + 1;
        }
        let ghost s0 = self.schedule@;
        proof {
            assert forall|j: int| k <= j < s0.len() implies (#[trigger] s0[j]).when <= when by {
                if k < s0.len() {
                    assert(s0[k as int].when <= when);
                    if j > k {
                        assert(s0[k as int].when >= s0[j].when);
                    }
                }
            }
        }
        self.schedule.insert(k, scheduled);
        proof {
            let s1 = self.schedule@;
            assert(s1 == s0.insert(k as int, scheduled));
            assert forall|a: int, b: int| 0 <= a < b < s1.len() implies (#[trigger] s1[a]).when >= (#[trigger] s1[b]).when by {
                if b < k {
                    assert(s1[a] == s0[a] && s1[b] == s0[b]);
                } else if b == k {
                    assert(s1[a] == s0[a]);
                } else if a < k {
                    assert(s1[a] == s0[a] && s1[b] == s0[b - 1]);
                } else if a == k {
                    assert(s1[b] == s0[b - 1]);
                } else {
                    assert(s1[a] == s0[a - 1] && s1[b] == s0[b - 1]);
                }
            }
            assert(0 <= k <= old(self).spec_schedule().len()
                && self.spec_schedule() == old(self).spec_schedule().insert(k as int, scheduled)
                && (forall|j: int| 0 <= j < k ==> (#[trigger] s0[j]).when > scheduled.when)
                && (forall|j: int| k <= j < s0.len() ==> (#[trigger] s0[j]).when <= scheduled.when));
        }
    }

    /// One round: hands out every transmission due before `now`, the
    /// earliest first, to the ends that have a receiver; those for other
    /// ends are dropped. Starts the round's figures afresh.
    pub fn tick(&mut self, now: u128) -> (r: TickOutcome)
        requires
            old(self).wf(),
        ensures
            final(self).wf(),
            final(self).spec_registered() == old(self).spec_registered(),
            final(self).spec_stats().recently_sent == 0,
            final(self).spec_stats().remaining == 0,
            final(self).spec_stats().overall_sent == old(self).spec_stats().overall_sent,
            final(self).spec_stats().per_line == old(self).spec_stats().per_line,
            ({
                let s = old(self).spec_schedule();
                let n = final(self).spec_schedule().len();
                &&& n <= s.len()
                &&& final(self).spec_schedule() == s.subrange(0, n as int)
                &&& forall|i: int| n <= i < s.len() ==> (#[trigger] s[i]).when < now
                &&& forall|i: int| 0 <= i < n ==> (#[trigger] s[i]).when >= now
                &&& n > 0 ==> s[n - 1].when >= now
                &&& r.next_delay == (if n > 0 { Some((s[n - 1].when - now) as u128) } else { None })
            }),
            r.deliveries@ == popped_deliveries(old(self).spec_schedule(), final(self).spec_schedule().len() as int, old(self).spec_registered()),
    {
        self.stats.recently_sent = 0;
        self.stats.remaining = 0;
        let ghost s0 = self.schedule@;
        let mut deliveries: Vec<Delivery> = Vec::new();
        let mut next_delay: Option<u128> = None;
        while self.schedule.len() > 0
            invariant_except_break
                self.wf(),
                self.registered@ == old(self).registered@,
                self.stats.recently_sent == 0,
                self.stats.remaining == 0,
                self.stats.overall_sent == old(self).stats.overall_sent,
                self.stats.per_line == old(self).stats.per_line,
                self.schedule@.len() <= s0.len(),
                self.schedule@ == s0.subrange(0, self.schedule@.len() as int),
                forall|i: int| self.schedule@.len() <= i < s0.len() ==> (#[trigger] s0[i]).when < now,
                next_delay is None,
                deliveries@ + popped_deliveries(self.schedule@, 0, self.registered@) == popped_deliveries(s0, 0, self.registered@),
            ensures
                self.wf(),
                self.registered@ == old(self).registered@,
                self.stats.recently_sent == 0,
                self.stats.remaining == 0,
                self.stats.overall_sent == old(self).stats.overall_sent,
                self.stats.per_line == old(self).stats.per_line,
                self.schedule@.len() <= s0.len(),
                self.schedule@ == s0.subrange(0, self.schedule@.len() as int),
                forall|i: int| self.schedule@.len() <= i < s0.len() ==> (#[trigger] s0[i]).when < now,
                self.schedule@.len() > 0 ==> s0[self.schedule@.len() - 1].when >= now,
                next_delay == (if self.schedule@.len() > 0 { Some((s0[self.schedule@.len() - 1].when - now) as u128) } else { None }),
                deliveries@ + popped_deliveries(self.schedule@, 0, self.registered@) == popped_deliveries(s0, 0, self.registered@),
            decreases self.schedule@.len(),
        {
            let last = self.schedule.len() - 1;
            let when = self.schedule[last].when;
            if when < now {
                let ghost n = self.schedule@.len();
                let ghost before = self.schedule@;
                let ghost d0 = deliveries@;
                let item = self.schedule.pop().unwrap();
                proof {
                    assert(item == s0[n - 1]);
                    assert(self.schedule@ =~= s0.subrange(0, self.schedule@.len() as int));
                    assert(self.schedule@ == before.drop_last());
                }
                if self.is_registered(item.id) {
                    let remaining = self.schedule.len();
                    deliveries.push(Delivery { id: item.id, what: item.what, remaining });
                    proof {
                        assert(deliveries@ + popped_deliveries(self.schedule@, 0, self.registered@)
                            =~= d0 + popped_deliveries(before, 0, self.registered@));
                    }
                } else {
                    proof {
                        assert(deliveries@ + popped_deliveries(self.schedule@, 0, self.registered@)
                            =~= d0 + popped_deliveries(before, 0, self.registered@));
                    }
                }
            } else {
                next_delay = Some(when - now);
                break;
            }
        }
        proof {
            lemma_popped_deliveries_split(s0, self.schedule@.len() as int, self.registered@);
            assert(popped_deliveries(self.schedule@, 0, self.registered@) == popped_deliveries(s0.subrange(0, self.schedule@.len() as int), 0, self.registered@));
            let x = popped_deliveries(self.schedule@, 0, self.registered@);
            let b = popped_deliveries(s0, self.schedule@.len() as int, self.registered@);
            assert((deliveries@ + x).len() == (b + x).len());
            assert forall|i: int| 0 <= i < deliveries@.len() implies deliveries@[i] == b[i] by {
                assert((deliveries@ + x)[i] == deliveries@[i]);
                assert((b + x)[i] == b[i]);
            }
            assert(deliveries@ =~= b);
        }
        TickOutcome { deliveries, next_delay }
    }

    /// Records that a transmission handed out was taken by the line `line_id`,
    /// with `remaining` still scheduled after it. A line's count starts at
    /// nought on the first transmission it takes, and counts the later ones.
    #[verifier::loop_isolation(false)]
    pub fn record_sent(&mut self, line_id: LineId, remaining: usize)
        requires
            old(self).wf(),
        ensures
            final(self).wf(),
            final(self).spec_schedule() == old(self).spec_schedule(),
            final(self).spec_registered() == old(self).spec_registered(),
            final(self).spec_stats().recently_sent == old(self).spec_stats().recently_sent.wrapping_add(1),
            final(self).spec_stats().overall_sent == old(self).spec_stats().overall_sent.wrapping_add(1),
            final(self).spec_stats().remaining == remaining,
            per_line_after(old(self).spec_stats().per_line@, line_id, final(self).spec_stats().per_line@),
    {
        self.stats.recently_sent = self.stats.recently_sent.wrapping_add(1);
        self.stats.overall_sent = self.stats.overall_sent.wrapping_add(1);
        self.stats.remaining = remaining;
        let mut k: usize = 0;
        while k < self.stats.per_line.len()
            invariant
                k <= self.stats.per_line@.len(),
                self.stats.per_line@ == old(self).stats.per_line@,
                self.schedule@ == old(self).schedule@,
                self.registered@ == old(self).registered@,
                self.stats.recently_sent == old(self).stats.recently_sent.wrapping_add(1),
                self.stats.overall_sent == old(self).stats.overall_sent.wrapping_add(1),
                self.stats.remaining == remaining,
                forall|i: int| 0 <= i < k ==> self.stats.per_line@[i].0 != line_id,
            decreases self.stats.per_line@.len() - k,
        {
            if self.stats.per_line[k].0 == line_id {
                let n = self.stats.per_line[k].1;
                self.stats.per_line.set(k, (line_id, n.wrapping_add(1)));
                return;
            }
            k = k + 1;
        }
        self.stats.per_line.push((line_id, 0));
    }

    /// After the transmissions of a round were handed on, records how many
    /// are still scheduled, if the round left any.
    pub fn note_remaining(&mut self, left_any: bool)
        requires
            old(self).wf(),
        ensures
            final(self).wf(),
            final(self).spec_schedule() == old(self).spec_schedule(),
            final(self).spec_registered() == old(self).spec_registered(),
            final(self).spec_stats().remaining == (if left_any { old(self).spec_schedule().len() as usize } else { old(self).spec_stats().remaining }),
            final(self).spec_stats().recently_sent == old(self).spec_stats().recently_sent,
            final(self).spec_stats().overall_sent == old(self).spec_stats().overall_sent,
            final(self).spec_stats().per_line == old(self).spec_stats().per_line,
    {
        if left_any {
            self.stats.remaining = self.schedule.len();
        }
    }
}

/// `after` is `before` with the line's count moved on: up by one (wrapping)
/// if the line has one, else a count of nought for it added at the end.
pub open spec fn per_line_after(before: Seq<(LineId, usize)>, line_id: LineId, after: Seq<(LineId, usize)>) -> bool {
    if exists|i: int| 0 <= i < before.len() && (#[trigger] before[i]).0 == line_id {
        let i = choose|i: int| 0 <= i < before.len() && (#[trigger] before[i]).0 == line_id && forall|j: int| 0 <= j < i ==> before[j].0 != line_id;
        after == before.update(i, (line_id, before[i].1.wrapping_add(1)))
    } else {
        after == before.push((line_id, 0))
    }
}

/// What the scheduler's loop does next.
pub enum SchedulerRound {
    /// The network is shut down: the loop ends.
    Stop,
    /// Run a round of the scheduler, after letting other tasks run first if
    /// `yield_first`.
    Tick(bool),
    /// Wait the given nanoseconds for a transmission to come in.
    Wait(u128),
}

/// How long the scheduler waits when it has nothing due: a million seconds.
pub const IDLE_WAKEUP_NANOS: u128 = 1_000_000_000_000_000;

/// How long the scheduler waits while the network is idle or suspended.
pub const PAUSED_WAKEUP_NANOS: u128 = 100_000_000;

/// The decisions of the scheduler's loop: it counts the transmissions taken
/// in since it last woke up on its own, and lets other tasks run when more
/// than a thousand came in.
pub struct SchedulerLoop {
    running_iter: usize,
}

impl SchedulerLoop {
    pub closed spec fn spec_running_iter(&self) -> usize {
        self.running_iter
    }

    pub fn new() -> (r: Self)
        ensures
            r.spec_running_iter() == 0,
    {
        SchedulerLoop { running_iter: 0 }
    }

    /// What to do at the top of the loop, given the network's status.
    pub fn begin_round(&mut self, status: MockWorkStatus) -> (r: SchedulerRound)
        ensures
            status is Shutdown ==> r is Stop && *final(self) == *old(self),
            status is Running ==> r == SchedulerRound::Tick(old(self).spec_running_iter() > 1000)
                && final(self).spec_running_iter() == (if old(self).spec_running_iter() > 1000 { 0 } else { old(self).spec_running_iter() }),
            (status is Idle || status is Suspended) ==> r == SchedulerRound::Wait(PAUSED_WAKEUP_NANOS) && *final(self) == *old(self),
    {
        match status {
            MockWorkStatus::Shutdown => SchedulerRound::Stop,
            MockWorkStatus::Running => {
                let yield_first = self.running_iter > 1000;
                if yield_first {
                    self.running_iter = 0;
                }
                SchedulerRound::Tick(yield_first)
            },
            _ => SchedulerRound::Wait(PAUSED_WAKEUP_NANOS),
        }
    }

    /// How long to wait after a round, and whether to let other tasks run
    /// first: until the next transmission is due, if any is left; else a long
    /// while, letting other tasks run if the round handed nothing on.
    pub fn after_tick(next_delay: Option<u128>, recently_sent: usize) -> (r: (u128, bool))
        ensures
            r == (match next_delay {
                Some(d) => (d, false),
                None => (IDLE_WAKEUP_NANOS, recently_sent == 0),
            }),
    {
        match next_delay {
            Some(d) => (d, false),
            None => (IDLE_WAKEUP_NANOS, recently_sent == 0),
        }
    }

    /// A transmission came in: a running network schedules it, and it is
    /// counted; any other drops it. Says whether to schedule it.
    pub fn on_transmit(&mut self, status: MockWorkStatus) -> (r: bool)
        ensures
            r == (status is Running),
            final(self).spec_running_iter() == (if r { old(self).spec_running_iter().wrapping_add(1) } else { old(self).spec_running_iter() }),
    {
        match status {
            MockWorkStatus::Running => {
                self.running_iter = self.running_iter.wrapping_add(1);
                true
            },
            _ => false,
        }
    }

    /// The loop woke up on its own.
    pub fn on_wakeup(&mut self)
        ensures
            final(self).spec_running_iter() == 0,
    {
        self.running_iter = 0;
    }
}

} // verus!
