use mockwork::protocol_stack::layer_pipe_item::{NodeCommand, NodeEvent};
use mockwork::protocol_stack::second_layer::SecondLayerEvent;
use mockwork::protocol_stack::line::{LineDelay, LineId, OneOfTwo};
use mockwork::protocol_stack::node::agent::{AgentOutput, NodeAgent};
use mockwork::protocol_stack::node::socket::SocketProfile;
use mockwork::protocol_stack::node::{AddressMap, NodeAddress};
use mockwork::protocol_stack::physical_layer::{PayloadTimestamped, PhysicalLayerEvent};
use mockwork::protocol_stack::second_layer::{SecondLayerCommand, ServiceRequestType};
use mockwork::protocol_stack::{ChannelToken, ChannelType};
use mockwork::utils::IdCounter;

fn agent(addr: NodeAddress, end: OneOfTwo<LineId>) -> NodeAgent {
    let profiles = vec![SocketProfile::new(end, LineDelay::new(1_000_000), 10)];
    NodeAgent::new(addr, &profiles, AddressMap::new())
}

/// Carries what each agent transmits to the other, until neither transmits;
/// the events each hands its frontend on the way are gathered.
fn shuttle_events(ids: &mut IdCounter, a: &mut NodeAgent, b: &mut NodeAgent, first: AgentOutput, events_a: &mut Vec<NodeEvent>, events_b: &mut Vec<NodeEvent>) -> usize {
    let mut from_a = first.transmits;
    events_a.extend(first.node_events);
    let mut from_b: Vec<(OneOfTwo<LineId>, mockwork::protocol_stack::Chunk, mockwork::protocol_stack::physical_layer::TransmissionType)> = Vec::new();
    let mut carried = 0;
    for _ in 0..50 {
        if from_a.is_empty() && from_b.is_empty() {
            break;
        }
        let mut next_a = Vec::new();
        let mut next_b = Vec::new();
        for (id, chunk, chunk_type) in from_a.drain(..) {
            carried += 1;
            let p = PayloadTimestamped { data: chunk, transmit_time: instant::Instant::now(), chunk_type };
            let out = b.on_line_event(ids, *id.as_val_ref(), PhysicalLayerEvent::Received(p));
            next_b.extend(out.transmits);
            events_b.extend(out.node_events);
        }
        for (id, chunk, chunk_type) in from_b.drain(..) {
            carried += 1;
            let p = PayloadTimestamped { data: chunk, transmit_time: instant::Instant::now(), chunk_type };
            let out = a.on_line_event(ids, *id.as_val_ref(), PhysicalLayerEvent::Received(p));
            next_a.extend(out.transmits);
            events_a.extend(out.node_events);
        }
        from_a = next_a;
        from_b = next_b;
    }
    carried
}

fn shuttle(ids: &mut IdCounter, a: &mut NodeAgent, b: &mut NodeAgent, first: AgentOutput) -> usize {
    let mut ea = Vec::new();
    let mut eb = Vec::new();
    shuttle_events(ids, a, b, first, &mut ea, &mut eb)
}

#[test]
fn an_address_map_request_teaches_both_nodes_of_each_other() {
    let mut ids = IdCounter::new();
    let na = NodeAddress::new(1, 1);
    let nb = NodeAddress::new(1, 2);
    let mut a = agent(na, OneOfTwo::First(LineId(1)));
    let mut b = agent(nb, OneOfTwo::Second(LineId(1)));
    let t = ChannelToken::durable(1000, 2_000_000_000, ChannelType::Service);
    let out = a.on_command(&mut ids, NodeCommand(LineId(0), SecondLayerCommand::ServiceRequest(t, ServiceRequestType::AddressMap(NodeAddress::any()))));
    assert!(!out.transmits.is_empty());
    let carried = shuttle(&mut ids, &mut a, &mut b, out);
    assert!(carried >= 2);
    assert!(b.address_map().get(&na).is_some());
    assert!(a.address_map().get(&nb).is_some());
    assert_eq!(a.address_map().get(&nb).unwrap().line_id, LineId(1));
    assert_eq!(b.address_map().get(&na).unwrap().line_id, LineId(1));
}

#[test]
fn a_peer_channel_to_a_known_node_is_started_at_both_ends() {
    let mut ids = IdCounter::new();
    let na = NodeAddress::new(1, 1);
    let nb = NodeAddress::new(1, 2);
    let mut a = agent(na, OneOfTwo::First(LineId(1)));
    let mut b = agent(nb, OneOfTwo::Second(LineId(1)));
    let t = ChannelToken::durable(1000, 2_000_000_000, ChannelType::Service);
    let out = a.on_command(&mut ids, NodeCommand(LineId(0), SecondLayerCommand::ServiceRequest(t, ServiceRequestType::AddressMap(NodeAddress::any()))));
    shuttle(&mut ids, &mut a, &mut b, out);
    assert!(a.address_map().get(&nb).is_some());

    let pt = ChannelToken::durable(2000, 2_000_000_000, ChannelType::Service);
    let out = a.on_command(&mut ids, NodeCommand(LineId(0), SecondLayerCommand::ServiceRequest(pt, ServiceRequestType::PeerChannel(nb))));
    let mut ea = Vec::new();
    let mut eb = Vec::new();
    shuttle_events(&mut ids, &mut a, &mut b, out, &mut ea, &mut eb);
    assert!(eb.iter().any(|e| matches!(&e.1, SecondLayerEvent::IncomingPeerChannel(src, tk) if *src == na && tk.id() == 2000)));
    assert!(ea.iter().any(|e| matches!(&e.1, SecondLayerEvent::ServiceStarted(tk) if tk.id() == 2000)));
}
