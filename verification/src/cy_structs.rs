use vstd::prelude::*;
use crate::protocol_stack::line::LineId;
use crate::protocol_stack::node::NodeAddress;
use crate::mock_work::{MockWorkStatus, Edge, TransmitStats, delay_millis};

verus! {

/// A line as the network's picture shows it. Two are the same when their
/// identifiers are.
pub struct CyEdge {
    pub id: LineId,
    pub source: NodeAddress,
    pub target: NodeAddress,
    pub propagation_delay: u64,
}

impl CyEdge {
    /// The picture of the line `id`, with its delay in whole milliseconds.
    pub fn from_edge(id: LineId, edge: &Edge) -> (r: Self)
        ensures
            r.id == id,
            r.source == edge.node_addr1,
            r.target == edge.node_addr2,
            r.propagation_delay == delay_millis(edge.line_delay),
    {
        CyEdge {
            id,
            source: edge.node_addr1,
            target: edge.node_addr2,
            propagation_delay: edge.line_delay.propagation_delay_nanos / 1_000_000,
        }
    }

    pub fn same(&self, other: &Self) -> (r: bool)
        ensures
            r == (self.id == other.id),
    {
        self.id == other.id
    }
}

/// A node as the network's picture shows it. Two are the same when their
/// addresses are.
pub struct CyNode {
    pub id: NodeAddress,
    pub connected: bool,
}

impl CyNode {
    pub fn same(&self, other: &Self) -> (r: bool)
        ensures
            r == (self.id == other.id),
    {
        self.id == other.id
    }
}

/// What the picture shows of a node: whether it is connected, and the nodes
/// it knows of.
pub struct CyNodeState {
    pub connected: bool,
    pub neighbours: Vec<NodeAddress>,
}

/// What the picture shows of the transmissions: how many were handed on in
/// the last round and in all, how many are still scheduled, and per line
/// how many were handed on (and a second count, kept at nought).
pub struct CurrentTransmitInfo {
    pub being_transmitted: usize,
    pub overall_transmitted: usize,
    pub remaining_scheduled: usize,
    pub traffic_samples: Vec<(LineId, (usize, usize))>,
}

impl CurrentTransmitInfo {
    /// The picture of the scheduler's figures.
    pub fn from_stats(stats: &TransmitStats) -> (r: Self)
        ensures
            r.being_transmitted == stats.recently_sent,
            r.overall_transmitted == stats.overall_sent,
            r.remaining_scheduled == stats.remaining,
            r.traffic_samples@.len() == stats.per_line@.len(),
            forall|i: int| 0 <= i < r.traffic_samples@.len() ==>
                #[trigger] r.traffic_samples@[i] == (stats.per_line@[i].0, (stats.per_line@[i].1, 0usize)),
    {
        let mut traffic_samples: Vec<(LineId, (usize, usize))> = Vec::new();
        let mut k: usize = 0;
        while k < stats.per_line.len()
            invariant
                k <= stats.per_line@.len(),
                traffic_samples@.len() == k,
                forall|i: int| 0 <= i < k ==>
                    #[trigger] traffic_samples@[i] == (stats.per_line@[i].0, (stats.per_line@[i].1, 0usize)),
            decreases stats.per_line@.len() - k,
        {
            let (lid, n) = stats.per_line[k];
            traffic_samples.push((lid, (n, 0)));
            k = k + 1;
        }
        CurrentTransmitInfo {
            being_transmitted: stats.recently_sent,
            overall_transmitted: stats.overall_sent,
            remaining_scheduled: stats.remaining,
            traffic_samples,
        }
    }
}

/// What the network's picture shows of the whole network.
pub struct CyMockWorkState {
    pub mw_status: MockWorkStatus,
    pub active_nodes_map: Vec<(NodeAddress, CyNodeState)>,
    pub active_streams: usize,
    pub failed_streams: usize,
    pub total_streams: usize,
    pub sessions_running: usize,
    pub running_sessions_limit: usize,
    pub js_loop_cycle_gap: u32,
    pub current_transmit_info: CurrentTransmitInfo,
    pub was_suspended: bool,
}

/// How many sessions may run at once, to begin with.
pub const DEFAULT_RUNNING_SESSIONS_LIMIT: usize = 20;

impl CyMockWorkState {
    /// The picture of a network in `mw_status` with the lines `lines`: no
    /// node, no stream and no transmission yet, a count of nought per line.
    pub fn new(mw_status: MockWorkStatus, lines: &Vec<LineId>) -> (r: Self)
        ensures
            r.mw_status == mw_status,
            r.active_nodes_map@.len() == 0,
            r.active_streams == 0,
            r.failed_streams == 0,
            r.total_streams == 0,
            r.sessions_running == 0,
            r.running_sessions_limit == DEFAULT_RUNNING_SESSIONS_LIMIT,
            r.js_loop_cycle_gap == 0,
            !r.was_suspended,
            r.current_transmit_info.being_transmitted == 0,
            r.current_transmit_info.overall_transmitted == 0,
            r.current_transmit_info.remaining_scheduled == 0,
            r.current_transmit_info.traffic_samples@.len() == lines@.len(),
            forall|i: int| 0 <= i < lines@.len() ==>
                #[trigger] r.current_transmit_info.traffic_samples@[i] == (lines@[i], (0usize, 0usize)),
    {
        let mut traffic_samples: Vec<(LineId, (usize, usize))> = Vec::new();
        let mut k: usize = 0;
        while k < lines.len()
            invariant
                k <= lines@.len(),
                traffic_samples@.len() == k,
                forall|i: int| 0 <= i < k ==> #[trigger] traffic_samples@[i] == (lines@[i], (0usize, 0usize)),
            decreases lines@.len() - k,
        {
            traffic_samples.push((lines[k], (0, 0)));
            k = k + 1;
        }
        CyMockWorkState {
            mw_status,
            active_nodes_map: Vec::new(),
            active_streams: 0,
            failed_streams: 0,
            total_streams: 0,
            sessions_running: 0,
            running_sessions_limit: DEFAULT_RUNNING_SESSIONS_LIMIT,
            js_loop_cycle_gap: 0,
            current_transmit_info: CurrentTransmitInfo {
                being_transmitted: 0,
                overall_transmitted: 0,
                remaining_scheduled: 0,
                traffic_samples,
            },
            was_suspended: false,
        }
    }

    /// Starts the picture afresh for a new network: its status and loop gap,
    /// no node, no stream. The limit on sessions and the transmissions' figures
    /// stay.
    pub fn init(&mut self, mw_status: MockWorkStatus, js_loop_cycle_gap: u32)
        ensures
            final(self).mw_status == mw_status,
            final(self).active_nodes_map@.len() == 0,
            final(self).active_streams == 0,
            final(self).failed_streams == 0,
            final(self).total_streams == 0,
            final(self).sessions_running == 0,
            final(self).js_loop_cycle_gap == js_loop_cycle_gap,
            !final(self).was_suspended,
            final(self).running_sessions_limit == old(self).running_sessions_limit,
            final(self).current_transmit_info == old(self).current_transmit_info,
    {
        self.mw_status = mw_status;
        self.active_nodes_map = Vec::new();
        self.active_streams = 0;
        self.failed_streams = 0;
        self.total_streams = 0;
        self.sessions_running = 0;
        self.js_loop_cycle_gap = js_loop_cycle_gap;
        self.was_suspended = false;
    }

    /// Records what is shown of the node `addr`, in place of anything shown
    /// of it before.
    pub fn show_node(&mut self, addr: NodeAddress, state: CyNodeState)
        ensures
            final(self).active_nodes_map@.len() > 0,
            final(self).active_nodes_map@.last() == (addr, state),
            forall|i: int| 0 <= i < final(self).active_nodes_map@.len() - 1 ==> (#[trigger] final(self).active_nodes_map@[i]).0 != addr,
            forall|i: int| 0 <= i < old(self).active_nodes_map@.len() && (#[trigger] old(self).active_nodes_map@[i]).0 != addr ==>
                final(self).active_nodes_map@.contains(old(self).active_nodes_map@[i]),
            forall|i: int| 0 <= i < final(self).active_nodes_map@.len() && (#[trigger] final(self).active_nodes_map@[i]).0 != addr ==>
                old(self).active_nodes_map@.contains(final(self).active_nodes_map@[i]),
    {
        let mut kept: Vec<(NodeAddress, CyNodeState)> = Vec::new();
        let mut old_map: Vec<(NodeAddress, CyNodeState)> = Vec::new();
        std::mem::swap(&mut old_map, &mut self.active_nodes_map);
        let ghost all = old_map@;
        let ghost mut taken: nat = 0;
        while old_map.len() > 0
            invariant
                old_map@.len() <= all.len(),
                old_map@ == all.subrange(0, old_map@.len() as int),
                forall|i: int| old_map@.len() <= i < all.len() && (#[trigger] all[i]).0 != addr ==> kept@.contains(all[i]),
                forall|i: int| 0 <= i < kept@.len() ==> (#[trigger] kept@[i]).0 != addr && all.contains(kept@[i]),
            decreases old_map@.len(),
        {
            let ghost n = old_map@.len();
            assert(old_map@[n - 1] == all[n - 1]);
            let e = old_map.pop().unwrap();
            if e.0 != addr {
                let ghost k0 = kept@;
                kept.push(e);
                proof {
                    assert(kept@[k0.len() as int] == all[n - 1]);
                    assert forall|i: int| old_map@.len() <= i < all.len() && (#[trigger] all[i]).0 != addr implies kept@.contains(all[i]) by {
                        if i < n - 1 {
                        } else if i == n - 1 {
                            assert(kept@[k0.len() as int] == all[i]);
                        } else {
                            let j = k0.index_of(all[i]);
                            assert(kept@[j] == all[i]);
                        }
                    }
                    assert forall|i: int| 0 <= i < kept@.len() implies (#[trigger] kept@[i]).0 != addr && all.contains(kept@[i]) by {
                        if i < k0.len() {
                            assert(kept@[i] == k0[i]);
                        } else {
                            assert(all[n - 1] == kept@[i]);
                        }
                    }
                }
            }
            assert(old_map@ =~= all.subrange(0, old_map@.len() as int));
        }
        let ghost k1 = kept@;
        kept.push((addr, state));
        proof {
            assert(kept@[k1.len() as int] == (addr, state));
            assert forall|i: int| 0 <= i < all.len() && (#[trigger] all[i]).0 != addr implies kept@.contains(all[i]) by {
                let j = k1.index_of(all[i]);
                assert(kept@[j] == all[i]);
            }
            assert forall|i: int| 0 <= i < kept@.len() && (#[trigger] kept@[i]).0 != addr implies all.contains(kept@[i]) by {
                assert(i < k1.len());
                assert(kept@[i] == k1[i]);
            }
        }
        self.active_nodes_map = kept;
    }

    /// After the picture was handed out: the streams are counted afresh, and
    /// a suspension is shown once only.
    pub fn after_poll(&mut self)
        ensures
            final(self).active_streams == 0,
            !final(self).was_suspended,
            final(self).mw_status == old(self).mw_status,
            final(self).failed_streams == old(self).failed_streams,
            final(self).total_streams == old(self).total_streams,
            final(self).sessions_running == old(self).sessions_running,
            final(self).running_sessions_limit == old(self).running_sessions_limit,
            final(self).js_loop_cycle_gap == old(self).js_loop_cycle_gap,
    {
        self.active_streams = 0;
        self.was_suspended = false;
    }
}

} // verus!
