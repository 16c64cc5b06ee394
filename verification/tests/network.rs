use mockwork::cy_structs::{CurrentTransmitInfo, CyEdge, CyMockWorkState, CyNode, CyNodeState};
use mockwork::instance::{node_address_of, node_addresses, ordered_delays, pick_line_ends, random_line_entry};
use mockwork::mock_work::{
    other_side, peer, weave_topology, MockWorkEntries, MockWorkEntry, MockWorkStatus, ResumePlan, ScheduledTransmit,
    SchedulerLoop, SchedulerRound, TransmitScheduler, IDLE_WAKEUP_NANOS, MAX_FIRST_LAYER_CHANNELS, PAUSED_WAKEUP_NANOS,
};
use mockwork::protocol_stack::line::{LineDelay, LineId, OneOfTwo};
use mockwork::protocol_stack::node::NodeAddress;
use mockwork::protocol_stack::physical_layer::{PayloadTimestamped, TransmissionType};
use mockwork::protocol_stack::{Chunk, MessageBody};
use mockwork::utils::IdCounter;

fn a(hi: u32, lo: u32) -> NodeAddress {
    NodeAddress::new(hi, lo)
}

fn ms(n: u64) -> LineDelay {
    LineDelay::from_millis(n)
}

fn transmit(id: usize, when: u128, tag: &str) -> ScheduledTransmit {
    ScheduledTransmit {
        id: OneOfTwo::First(LineId(id)),
        when,
        what: PayloadTimestamped {
            data: Chunk::from_message(MessageBody::Data(String::from(tag))),
            transmit_time: instant::Instant::now(),
            chunk_type: TransmissionType::Data,
        },
    }
}

fn tag(p: &PayloadTimestamped) -> String {
    match p.data.body() {
        MessageBody::Data(s) => s.clone(),
        _ => String::new(),
    }
}

#[test]
fn mock_work_status_numbers() {
    for n in 0..=3usize {
        assert_eq!(MockWorkStatus::from_number(n).to_number(), n);
    }
    assert!(MockWorkStatus::from_number(0) == MockWorkStatus::Idle);
    assert!(MockWorkStatus::from_number(3) == MockWorkStatus::Shutdown);
}

#[test]
fn mock_work_status_suspend_and_resume() {
    assert!(MockWorkStatus::Idle.resume_plan() == ResumePlan::ConnectNodes);
    assert!(MockWorkStatus::Suspended.resume_plan() == ResumePlan::ResumeNodes);
    assert!(MockWorkStatus::Running.resume_plan() == ResumePlan::Keep);
    assert!(MockWorkStatus::Idle.after_resume() == MockWorkStatus::Running);
    assert!(MockWorkStatus::Shutdown.after_resume() == MockWorkStatus::Shutdown);
    assert!(MockWorkStatus::Running.suspends());
    assert!(!MockWorkStatus::Idle.suspends());
    assert!(MockWorkStatus::Running.after_suspend() == MockWorkStatus::Suspended);
    assert!(MockWorkStatus::Running.after_suspend().after_resume() == MockWorkStatus::Running);
}

#[test]
fn entry_puts_the_lower_address_first() {
    let e = MockWorkEntry::new(a(2, 1), ms(5), a(1, 9));
    assert!(e.0 == a(1, 9) && e.2 == a(2, 1));
    let f = MockWorkEntry::new(a(1, 9), ms(7), a(2, 1));
    assert!(e.same(&f));
    assert_eq!(f.1.propagation_delay_nanos, 7_000_000);
}

#[test]
fn entries_join_each_pair_once() {
    let mut es = MockWorkEntries::new();
    assert!(es.insert(MockWorkEntry::new(a(1, 1), ms(10), a(1, 2))));
    assert!(!es.insert(MockWorkEntry::new(a(1, 2), ms(99), a(1, 1))));
    assert!(es.insert(MockWorkEntry::new(a(1, 2), ms(20), a(1, 3))));
    assert_eq!(es.entries().len(), 2);
    assert_eq!(es.entries()[0].1.propagation_delay_nanos, 10_000_000);
}

#[test]
fn weaving_wires_both_ends_of_each_line() {
    let entries = vec![
        MockWorkEntry::new(a(1, 1), ms(10), a(1, 2)),
        MockWorkEntry::new(a(1, 2), ms(30), a(1, 3)),
    ];
    let mut ids = IdCounter::new();
    let t = weave_topology(&entries, &mut ids);
    assert_eq!(t.line_delay_range, (10, 30));
    assert_eq!(t.edges.len(), 2);
    assert_eq!(t.edges[0].0, LineId(1));
    assert_eq!(t.edges[1].0, LineId(2));
    assert!(t.edges[1].1.node_addr1 == a(1, 2) && t.edges[1].1.node_addr2 == a(1, 3));
    assert_eq!(t.neighbours.len(), 3);
    let middle = t.neighbours.iter().find(|(n, _)| *n == a(1, 2)).unwrap();
    assert_eq!(middle.1.len(), 2);
    assert!(middle.1[0].id == OneOfTwo::Second(LineId(1)));
    assert!(middle.1[1].id == OneOfTwo::First(LineId(2)));
    assert_eq!(middle.1[1].max_first_layer_channels, MAX_FIRST_LAYER_CHANNELS);
    assert_eq!(middle.1[1].line_delay.propagation_delay_nanos, 30_000_000);
    assert!(other_side(&t.edges, a(1, 2), LineId(2)) == Some(a(1, 3)));
    assert!(other_side(&t.edges, a(1, 3), LineId(2)) == Some(a(1, 2)));
    assert!(other_side(&t.edges, a(1, 1), LineId(7)).is_none());
    assert!(peer(&t.edges, LineId(1)) == Some((a(1, 1), a(1, 2))));
    assert!(peer(&t.edges, LineId(3)).is_none());
}

#[test]
fn weaving_nothing_gives_the_empty_range() {
    let mut ids = IdCounter::new();
    let t = weave_topology(&Vec::new(), &mut ids);
    assert_eq!(t.line_delay_range, (u64::MAX, 0));
    assert!(t.neighbours.is_empty() && t.edges.is_empty());
}

#[test]
fn scheduler_hands_out_the_due_earliest_first() {
    let mut s = TransmitScheduler::new();
    s.register_line(OneOfTwo::First(LineId(1)));
    s.push(transmit(1, 300, "c"));
    s.push(transmit(1, 100, "a"));
    s.push(transmit(2, 150, "x"));
    s.push(transmit(1, 200, "b"));
    s.push(transmit(1, 100, "a2"));
    let out = s.tick(250);
    let tags: Vec<String> = out.deliveries.iter().map(|d| tag(&d.what)).collect();
    assert_eq!(tags, vec!["a", "a2", "b"]);
    assert_eq!(out.deliveries[0].remaining, 4);
    assert_eq!(out.deliveries[2].remaining, 1);
    assert_eq!(out.next_delay, Some(50));
    let rest = s.tick(1000);
    assert_eq!(rest.deliveries.len(), 1);
    assert_eq!(tag(&rest.deliveries[0].what), "c");
    assert_eq!(rest.next_delay, None);
}

#[test]
fn scheduler_counts_what_was_handed_on() {
    let mut s = TransmitScheduler::new();
    s.register_line(OneOfTwo::First(LineId(1)));
    s.push(transmit(1, 10, "a"));
    s.push(transmit(1, 20, "b"));
    s.push(transmit(1, 90, "c"));
    let out = s.tick(50);
    for d in out.deliveries.iter() {
        s.record_sent(*d.id.as_val_ref(), d.remaining);
    }
    s.note_remaining(out.next_delay.is_some());
    let st = s.stats();
    assert_eq!(st.recently_sent, 2);
    assert_eq!(st.overall_sent, 2);
    assert_eq!(st.remaining, 1);
    assert_eq!(st.per_line, vec![(LineId(1), 1)]);
    let info = CurrentTransmitInfo::from_stats(s.stats());
    assert_eq!(info.being_transmitted, 2);
    assert_eq!(info.traffic_samples, vec![(LineId(1), (1, 0))]);
    let again = s.tick(50);
    assert!(again.deliveries.is_empty());
    assert_eq!(s.stats().recently_sent, 0);
    assert_eq!(s.stats().overall_sent, 2);
}

#[test]
fn scheduler_loop_decisions() {
    let mut l = SchedulerLoop::new();
    assert!(matches!(l.begin_round(MockWorkStatus::Shutdown), SchedulerRound::Stop));
    assert!(matches!(l.begin_round(MockWorkStatus::Idle), SchedulerRound::Wait(PAUSED_WAKEUP_NANOS)));
    assert!(matches!(l.begin_round(MockWorkStatus::Running), SchedulerRound::Tick(false)));
    for _ in 0..1001 {
        assert!(l.on_transmit(MockWorkStatus::Running));
    }
    assert!(!l.on_transmit(MockWorkStatus::Suspended));
    assert!(matches!(l.begin_round(MockWorkStatus::Running), SchedulerRound::Tick(true)));
    assert!(matches!(l.begin_round(MockWorkStatus::Running), SchedulerRound::Tick(false)));
    l.on_wakeup();
    assert_eq!(SchedulerLoop::after_tick(Some(40), 0), (40, false));
    assert_eq!(SchedulerLoop::after_tick(None, 0), (IDLE_WAKEUP_NANOS, true));
    assert_eq!(SchedulerLoop::after_tick(None, 3), (IDLE_WAKEUP_NANOS, false));
}

#[test]
fn random_network_helpers() {
    let n = node_address_of(0);
    assert!(n == a(1, 1));
    assert!(node_address_of(256) == a(2, 2));
    assert!(node_address_of(254) == a(1, 255));
    let all = node_addresses(4);
    assert_eq!(all.len(), 4);
    assert!(all[3] == a(1, 4));
    let (x, y) = pick_line_ends(&all, 1, 1);
    assert!(x == a(1, 2));
    assert!(y == a(1, 4));
    let e = random_line_entry(&all, 3, 0, 12);
    assert!(e.0 == a(1, 1) && e.2 == a(1, 4));
    assert_eq!(e.1.propagation_delay_nanos, 12_000_000);
    assert_eq!(ordered_delays(9, 3), (3, 9));
    assert_eq!(ordered_delays(3, 9), (3, 9));
}

#[test]
fn picture_of_the_network() {
    let lines = vec![LineId(1), LineId(2)];
    let mut st = CyMockWorkState::new(MockWorkStatus::Idle, &lines);
    assert_eq!(st.running_sessions_limit, 20);
    assert_eq!(st.current_transmit_info.traffic_samples, vec![(LineId(1), (0, 0)), (LineId(2), (0, 0))]);
    st.show_node(a(1, 1), CyNodeState { connected: true, neighbours: vec![a(1, 2)] });
    st.show_node(a(1, 2), CyNodeState { connected: false, neighbours: vec![] });
    st.show_node(a(1, 1), CyNodeState { connected: false, neighbours: vec![] });
    assert_eq!(st.active_nodes_map.len(), 2);
    let first = st.active_nodes_map.iter().find(|(n, _)| *n == a(1, 1)).unwrap();
    assert!(!first.1.connected);
    st.active_streams = 4;
    st.was_suspended = true;
    st.after_poll();
    assert_eq!(st.active_streams, 0);
    assert!(!st.was_suspended);
    st.running_sessions_limit = 7;
    st.sessions_running = 3;
    st.init(MockWorkStatus::Running, 15);
    assert!(st.mw_status == MockWorkStatus::Running);
    assert_eq!(st.js_loop_cycle_gap, 15);
    assert_eq!(st.sessions_running, 0);
    assert_eq!(st.running_sessions_limit, 7);
    assert!(st.active_nodes_map.is_empty());
    let edge = mockwork::mock_work::Edge { node_addr1: a(1, 1), node_addr2: a(1, 2), line_delay: LineDelay::new(2_500_000) };
    let ce = CyEdge::from_edge(LineId(3), &edge);
    assert_eq!(ce.propagation_delay, 2);
    assert!(ce.same(&CyEdge { id: LineId(3), source: a(9, 9), target: a(9, 9), propagation_delay: 0 }));
    assert!(CyNode { id: a(1, 1), connected: true }.same(&CyNode { id: a(1, 1), connected: false }));
}
