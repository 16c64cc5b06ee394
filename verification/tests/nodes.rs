use mockwork::protocol_stack::line::{other_end, LineDelay, LineId, OneOfTwo};
use mockwork::protocol_stack::node::address_text::{address_text, node_address_from_text, parse_node_address};
use mockwork::protocol_stack::node::agent::{connect_line_commands, profile_line_ids, toggle_line_command, ControlCommand, NodeAgent};
use mockwork::protocol_stack::node::node_services::{address_map_request, peer_channel_request, AddressMapRequest, NodeService, PeerChannelRequest};
use mockwork::protocol_stack::node::socket::{send_commands_on_stream, Socket, SocketProfile};
use mockwork::protocol_stack::node::{AddressMap, AddressMapEntry, NodeAddress, NodeStatus};
use mockwork::protocol_stack::layer_pipe_item::NodeCommand;
use mockwork::protocol_stack::physical_layer::{PhysicalLayerCommand, PhysicalLayerEvent, TransmissionType};
use mockwork::protocol_stack::second_layer::{LineChannelResult, SecondLayerCommand, SecondLayerEvent, ServiceRequestType};
use mockwork::protocol_stack::{BlockType, ChannelType, Chunk, ChunkType, Headers, MessageBody, SecondLayerHeader, TimerOwnerToken};
use mockwork::utils::IdCounter;

fn entry(line: usize, delay: u128) -> AddressMapEntry {
    AddressMapEntry { line_id: LineId(line), oneway_delay: delay }
}

fn profiles() -> Vec<SocketProfile> {
    vec![
        SocketProfile::new(OneOfTwo::First(LineId(1)), LineDelay::new(1_000_000), 10),
        SocketProfile::new(OneOfTwo::Second(LineId(2)), LineDelay::new(2_000_000), 10),
    ]
}

#[test]
fn address_map_reads_back_what_was_written() {
    let mut m = AddressMap::new();
    let a = NodeAddress::new(1, 2);
    let b = NodeAddress::new(1, 3);
    assert!(m.get(&a).is_none());
    m.insert_if_absent(a, entry(1, 50));
    m.insert_if_absent(b, entry(2, 70));
    assert_eq!(m.len(), 2);
    assert!(m.get(&a).unwrap() == entry(1, 50));
    m.insert_if_absent(a, entry(3, 10));
    assert!(m.get(&a).unwrap() == entry(1, 50));
    assert_eq!(m.path_delay(&b), Some(70));
    m.remove(&a);
    assert!(m.get(&a).is_none());
    assert_eq!(m.len(), 1);
    m.clear();
    assert_eq!(m.len(), 0);
}

#[test]
fn address_map_offer_keeps_the_shortest_route() {
    let mut m = AddressMap::new();
    let a = NodeAddress::new(4, 4);
    m.offer(a, entry(1, 90));
    m.offer(a, entry(2, 40));
    m.offer(a, entry(3, 60));
    assert!(m.get(&a).unwrap() == entry(2, 40));
    m.offer(a, entry(4, 40));
    assert!(m.get(&a).unwrap() == entry(2, 40));
}

#[test]
fn address_map_lists_nodes_and_neighbours() {
    let mut m = AddressMap::new();
    m.offer(NodeAddress::new(1, 1), entry(7, 5));
    m.offer(NodeAddress::new(1, 2), entry(8, 5));
    m.offer(NodeAddress::new(1, 3), entry(7, 9));
    let online = m.nodes_online();
    assert_eq!(online.len(), 3);
    let on_seven = m.neighbours_online(LineId(7));
    assert_eq!(on_seven.len(), 2);
    assert!(on_seven.iter().all(|(_, l)| *l == LineId(7)));
    assert!(on_seven.iter().any(|(a, _)| *a == NodeAddress::new(1, 1)));
    assert!(on_seven.iter().any(|(a, _)| *a == NodeAddress::new(1, 3)));
    assert!(m.path_delay(&NodeAddress::new(9, 9)).is_none());
}

#[test]
fn node_status_numbers_round_trip() {
    for n in 1..=6usize {
        assert_eq!(NodeStatus::from_number(n).to_number(), n);
    }
    assert!(NodeStatus::from_number(1) == NodeStatus::Connected);
    assert!(NodeStatus::from_number(6) == NodeStatus::Disconnected);
}

#[test]
fn node_status_transitions() {
    assert!(NodeStatus::Disconnected.on_connect() == (NodeStatus::Connecting, true));
    assert!(NodeStatus::Connected.on_connect() == (NodeStatus::Connected, false));
    assert!(NodeStatus::Connected.on_suspend() == NodeStatus::Suspending);
    assert!(NodeStatus::Suspended.on_suspend() == NodeStatus::Suspended);
    assert!(NodeStatus::Suspending.on_agent_loop_over() == NodeStatus::Suspended);
    assert!(NodeStatus::Disconnecting.on_agent_loop_over() == NodeStatus::Disconnected);
    assert!(NodeStatus::Connected.on_agent_loop_over() == NodeStatus::Connected);
    assert!(NodeStatus::Suspended.on_resume() == NodeStatus::Connecting);
    assert!(NodeStatus::Disconnected.on_resume() == NodeStatus::Disconnected);
    assert!(NodeStatus::Suspended.is_connected());
    assert!(NodeStatus::Suspending.is_connected());
    assert!(!NodeStatus::Connecting.is_connected());
    let s = NodeStatus::Connected.on_suspend().on_agent_loop_over();
    assert!(s == NodeStatus::Suspended);
    assert!(s.on_resume() == NodeStatus::Connecting);
}

#[test]
fn address_order_puts_high_part_first() {
    assert!(NodeAddress::new(1, 9).before(&NodeAddress::new(2, 0)));
    assert!(NodeAddress::new(1, 1).before(&NodeAddress::new(1, 2)));
    assert!(!NodeAddress::new(1, 2).before(&NodeAddress::new(1, 2)));
    assert_eq!(NodeAddress::any().parts(), (0, 0));
}

#[test]
fn address_text_reads_back() {
    let a = NodeAddress::new(12, 305);
    let t = address_text(&a);
    assert_eq!(String::from_utf8(t.clone()).unwrap(), "|12.305|");
    assert!(parse_node_address(&t) == Some(a));
    assert_eq!(String::from_utf8(address_text(&NodeAddress::new(0, 4294967295))).unwrap(), "|0.4294967295|");
}

#[test]
fn address_parse_rules() {
    assert!(parse_node_address(b"|1.2|") == Some(NodeAddress::new(1, 2)));
    assert!(parse_node_address(b"x|+7.008|junk") == Some(NodeAddress::new(7, 8)));
    assert!(parse_node_address(b"|1.2") == Some(NodeAddress::new(1, 2)));
    assert!(parse_node_address(b"|1|2|") == Some(NodeAddress::new(1, 2)));
    assert!(parse_node_address(b"|1.|").is_none());
    assert!(parse_node_address(b"|a.2|").is_none());
    assert!(parse_node_address(b"|4294967296.2|").is_none());
    assert!(parse_node_address(b"|-1.2|").is_none());
    assert!(parse_node_address(b"|+.2|").is_none());
    assert!(parse_node_address(b"1.2").is_none());
    assert!(parse_node_address(b"").is_none());
}

#[test]
fn commands_on_a_stream_keep_the_transmissions_last_first() {
    let mut ids = IdCounter::new();
    let t = TimerOwnerToken::new(&mut ids, 1);
    let mut cmds = vec![
        PhysicalLayerCommand::Transmit(Chunk::from_message(MessageBody::Data(String::from("a"))), TransmissionType::Data),
        PhysicalLayerCommand::StartTimer(t),
        PhysicalLayerCommand::Transmit(Chunk::from_message(MessageBody::Data(String::from("b"))), TransmissionType::PingReq),
    ];
    let out = send_commands_on_stream(&mut cmds);
    assert!(cmds.is_empty());
    assert_eq!(out.len(), 2);
    assert!(out[0].1 == TransmissionType::PingReq);
    assert!(out[1].1 == TransmissionType::Data);
    assert!(matches!(out[0].0.body(), MessageBody::Data(s) if s == "b"));
}

#[test]
fn socket_sends_a_block() {
    let p = profiles()[0];
    let mut socket = Socket::new(NodeAddress::new(1, 1), p);
    assert!(socket.profile().line_id() == LineId(1));
    let c = Chunk::from_message(MessageBody::Data(String::from("z")));
    let h = SecondLayerHeader::new(BlockType::Data, NodeAddress::new(1, 1), NodeAddress::new(1, 2));
    let mut ids = IdCounter::new();
    let out = socket.on_command(&mut ids, SecondLayerCommand::Send(c, h, None));
    assert_eq!(out.transmits.len(), 1);
    assert!(out.events.is_empty());
    let quiet = socket.on_event(&mut ids, PhysicalLayerEvent::Nothing);
    assert!(quiet.transmits.is_empty());
    assert_eq!(quiet.events.len(), 1);
    assert!(matches!(quiet.events[0], SecondLayerEvent::Nothing));
    socket.disconnect();
    socket.connect();
}

#[test]
fn socket_wraps_a_sent_block_in_both_headers() {
    let mut socket = Socket::new(NodeAddress::new(1, 1), profiles()[0]);
    let c = Chunk::from_message(MessageBody::Data(String::from("w")));
    let h = SecondLayerHeader::new(BlockType::Data, NodeAddress::new(1, 1), NodeAddress::new(3, 4));
    let mut ids = IdCounter::new();
    let expected_id = IdCounter::new().next_id();
    let mut out = socket.on_command(&mut ids, SecondLayerCommand::Send(c, h, None));
    assert!(out.events.is_empty());
    assert_eq!(out.transmits.len(), 1);
    let (mut chunk, tt) = out.transmits.remove(0);
    assert!(tt == TransmissionType::Data);
    match chunk.unswaddle() {
        Headers::FirstLayer(f) => {
            assert_eq!(f.id, expected_id);
            assert!(f.chunk_type == ChunkType::Data);
            assert!(f.channel_token.is_none());
        },
        _ => panic!("a first layer header was expected"),
    }
    match chunk.unswaddle() {
        Headers::SecondLayer(s) => {
            assert!(s.block_type == BlockType::Data);
            assert!(s.src == NodeAddress::new(1, 1));
            assert!(s.dest == NodeAddress::new(3, 4));
        },
        _ => panic!("a second layer header was expected"),
    }
    assert!(matches!(chunk.body(), MessageBody::Data(s) if s == "w"));
    assert_eq!(ids.next_id(), expected_id + 1);
}

#[test]
fn socket_sends_a_relayed_block_as_it_is_under_a_first_layer_header() {
    let mut socket = Socket::new(NodeAddress::new(1, 1), profiles()[0]);
    let mut c = Chunk::from_message(MessageBody::Data(String::from("r")));
    c.swaddle(Headers::SecondLayer(SecondLayerHeader::new(BlockType::AddressMapResponse, NodeAddress::new(5, 5), NodeAddress::new(6, 6))));
    let mut ids = IdCounter::new();
    let expected_id = IdCounter::new().next_id();
    let mut out = socket.on_command(&mut ids, SecondLayerCommand::SendAsIs(c, None));
    assert!(out.events.is_empty());
    assert_eq!(out.transmits.len(), 1);
    let (mut chunk, tt) = out.transmits.remove(0);
    assert!(tt == TransmissionType::Data);
    match chunk.unswaddle() {
        Headers::FirstLayer(f) => {
            assert_eq!(f.id, expected_id);
            assert!(f.chunk_type == ChunkType::Service);
        },
        _ => panic!("a first layer header was expected"),
    }
    match chunk.unswaddle() {
        Headers::SecondLayer(s) => {
            assert!(s.block_type == BlockType::AddressMapResponse);
            assert!(s.src == NodeAddress::new(5, 5));
        },
        _ => panic!("a second layer header was expected"),
    }
}

#[test]
fn agent_connects_only_its_lines() {
    let ps = profiles();
    let mut agent = NodeAgent::new(NodeAddress::new(1, 1), &ps, AddressMap::new());
    let evs = agent.on_control(ControlCommand::ConnectLine(LineId(1)));
    assert_eq!(evs.len(), 1);
    assert_eq!(evs[0].0, LineId(1));
    assert!(matches!(evs[0].1, SecondLayerEvent::OnSocketConnected));
    let evs = agent.on_control(ControlCommand::ConnectLine(LineId(9)));
    assert!(evs.is_empty());
    let evs = agent.on_control(ControlCommand::DisconnectLine(LineId(9)));
    assert_eq!(evs.len(), 1);
    assert!(matches!(evs[0].1, SecondLayerEvent::OnSocketShutdown));
    assert_eq!(agent.address_map().len(), 0);
}

#[test]
fn agent_carries_a_block_to_its_line() {
    let ps = profiles();
    let mut agent = NodeAgent::new(NodeAddress::new(1, 1), &ps, AddressMap::new());
    let c = Chunk::from_message(MessageBody::Data(String::from("q")));
    let h = SecondLayerHeader::new(BlockType::Data, NodeAddress::new(1, 1), NodeAddress::new(1, 2));
    let mut ids = IdCounter::new();
    let out = agent.on_command(&mut ids, NodeCommand(LineId(2), SecondLayerCommand::Send(c, h, None)));
    assert_eq!(out.transmits.len(), 1);
    assert!(out.transmits[0].0 == OneOfTwo::Second(LineId(2)));
    assert!(out.transmits[0].2 == TransmissionType::Data);
    assert!(matches!(out.transmits[0].1.header(), Headers::FirstLayer(f) if f.id == IdCounter::new().next_id()));
    assert!(out.timers.is_empty());
    let none = agent.on_line_event(&mut ids, LineId(5), PhysicalLayerEvent::Nothing);
    assert!(none.transmits.is_empty() && none.node_events.is_empty() && none.timers.is_empty());
}

#[test]
fn agent_keeps_the_address_map_it_was_given() {
    let mut map = AddressMap::new();
    map.offer(NodeAddress::new(2, 2), entry(1, 30));
    let agent = NodeAgent::new(NodeAddress::new(1, 1), &profiles(), map);
    assert_eq!(agent.address_map().len(), 1);
    let back = agent.into_address_map();
    assert_eq!(back.path_delay(&NodeAddress::new(2, 2)), Some(30));
}

#[test]
fn line_commands_follow_the_profiles() {
    let ps = profiles();
    assert_eq!(profile_line_ids(&ps), vec![LineId(1), LineId(2)]);
    let cmds = connect_line_commands(&ps);
    assert_eq!(cmds.len(), 2);
    assert!(matches!(cmds[1], ControlCommand::ConnectLine(LineId(2))));
    assert!(matches!(toggle_line_command(true, &ps, LineId(1), false), Some(ControlCommand::DisconnectLine(LineId(1)))));
    assert!(matches!(toggle_line_command(true, &ps, LineId(2), true), Some(ControlCommand::ConnectLine(LineId(2)))));
    assert!(toggle_line_command(false, &ps, LineId(1), true).is_none());
    assert!(toggle_line_command(true, &ps, LineId(3), true).is_none());
}

#[test]
fn other_end_of_a_line() {
    assert!(other_end(OneOfTwo::First(LineId(4))) == OneOfTwo::Second(LineId(4)));
    assert!(other_end(OneOfTwo::Second(LineId(4))) == OneOfTwo::First(LineId(4)));
    assert_eq!(*OneOfTwo::Second(LineId(8)).as_val_ref(), LineId(8));
}

#[test]
fn address_map_request_needs_a_connected_node() {
    let mut ids = IdCounter::new();
    let dest = NodeAddress::new(2, 2);
    match address_map_request(false, &mut ids, dest, 5) {
        Err(e) => {
            assert!(matches!(e.1, LineChannelResult::Disconnected));
            assert_eq!(e.token().id(), 1);
        },
        Ok(_) => panic!("a node that is not connected cannot be asked"),
    }
    match address_map_request(true, &mut ids, dest, 2_000_000_000) {
        Ok(p) => {
            assert_eq!(p.token.id(), 2);
            assert_eq!(p.token.expires(), Some(2_000_000_000));
            assert_eq!(p.line_id, LineId(0));
            assert_eq!(p.command.0, LineId(0));
            assert!(matches!(p.command.1, SecondLayerCommand::ServiceRequest(_, ServiceRequestType::AddressMap(d)) if d == dest));
        },
        Err(_) => panic!("a connected node can be asked"),
    }
}

#[test]
fn peer_channel_request_needs_a_route() {
    let mut ids = IdCounter::new();
    let mut map = AddressMap::new();
    let dest = NodeAddress::new(3, 3);
    match peer_channel_request(true, &mut ids, &map, dest, None) {
        Err(e) => assert!(matches!(e.1, LineChannelResult::NodeNotFound)),
        Ok(_) => panic!("no route to the node"),
    }
    map.offer(dest, entry(6, 10));
    match peer_channel_request(true, &mut ids, &map, dest, None) {
        Ok(p) => {
            assert_eq!(p.line_id, LineId(6));
            assert_eq!(p.token.expires(), None);
            assert!(p.token.expires().is_none());
        },
        Err(_) => panic!("the route is known"),
    }
    match peer_channel_request(false, &mut ids, &map, dest, Some(3)) {
        Err(e) => assert!(matches!(e.1, LineChannelResult::Disconnected)),
        Ok(_) => panic!("a node that is not connected cannot be asked"),
    }
}

#[test]
fn services_name_their_requests() {
    let d = NodeAddress::new(5, 5);
    assert!(AddressMapRequest { dest: d }.request_type() == ServiceRequestType::AddressMap(d));
    assert!(PeerChannelRequest { dest: d }.request_type() == ServiceRequestType::PeerChannel(d));
    let _ = ChannelType::Data;
}

#[test]
fn refused_channel_request_is_answered() {
    let p = SocketProfile::new(OneOfTwo::First(LineId(1)), LineDelay::new(1_000_000), 0);
    let mut socket = Socket::new(NodeAddress::new(1, 1), p);
    let mut ids = IdCounter::new();
    let t = mockwork::protocol_stack::ChannelToken::durable(77, 1_000_000_000, ChannelType::Data);
    let out = socket.on_command(&mut ids, SecondLayerCommand::ServiceRequest(t, ServiceRequestType::LineChannel(false)));
    assert!(out.transmits.is_empty());
    assert_eq!(out.events.len(), 1);
    match &out.events[0] {
        SecondLayerEvent::ServiceComplete(tk, mockwork::protocol_stack::second_layer::ServiceResultType::LineChannel(LineChannelResult::TooManyChannels(n))) => {
            assert_eq!(tk.id(), 77);
            assert_eq!(*n, 0);
        },
        _ => panic!("too many channels expected"),
    }
}

#[test]
fn allowed_channel_request_goes_out_and_exclusive_one_is_refused() {
    let p = SocketProfile::new(OneOfTwo::First(LineId(1)), LineDelay::new(1_000_000), 5);
    let mut socket = Socket::new(NodeAddress::new(1, 1), p);
    let mut ids = IdCounter::new();
    let t = mockwork::protocol_stack::ChannelToken::durable(78, 1_000_000_000, ChannelType::Data);
    let out = socket.on_command(&mut ids, SecondLayerCommand::ServiceRequest(t, ServiceRequestType::LineChannel(false)));
    assert!(out.events.is_empty());
    assert_eq!(out.transmits.len(), 1);
    assert!(out.transmits[0].1 == TransmissionType::Data);
    let t2 = mockwork::protocol_stack::ChannelToken::durable(79, 1_000_000_000, ChannelType::Data);
    let out2 = socket.on_command(&mut ids, SecondLayerCommand::ServiceRequest(t2, ServiceRequestType::LineChannel(true)));
    assert!(out2.transmits.is_empty());
    assert!(matches!(&out2.events[0], SecondLayerEvent::ServiceComplete(tk, mockwork::protocol_stack::second_layer::ServiceResultType::LineChannel(LineChannelResult::TooManyChannels(1))) if tk.id() == 79));
}

#[test]
fn a_block_sent_on_one_end_arrives_at_the_other() {
    let mut ids = IdCounter::new();
    let mut a = Socket::new(NodeAddress::new(1, 1), SocketProfile::new(OneOfTwo::First(LineId(1)), LineDelay::new(1_000_000), 10));
    let mut b = Socket::new(NodeAddress::new(1, 2), SocketProfile::new(OneOfTwo::Second(LineId(1)), LineDelay::new(1_000_000), 10));
    let c = Chunk::from_message(MessageBody::Data(String::from("hello")));
    let h = SecondLayerHeader::new(BlockType::Data, NodeAddress::new(1, 1), NodeAddress::new(1, 2));
    let mut out = a.on_command(&mut ids, SecondLayerCommand::Send(c, h, None));
    assert_eq!(out.transmits.len(), 1);
    let (chunk, chunk_type) = out.transmits.pop().unwrap();
    let payload = mockwork::protocol_stack::physical_layer::PayloadTimestamped {
        data: chunk,
        transmit_time: instant::Instant::now(),
        chunk_type,
    };
    let got = b.on_event(&mut ids, PhysicalLayerEvent::Received(payload));
    assert!(got.transmits.is_empty());
    assert_eq!(got.events.len(), 1);
    match &got.events[0] {
        SecondLayerEvent::BlockReceived(block) => {
            match block.header() {
                mockwork::protocol_stack::Headers::SecondLayer(sh) => {
                    assert!(sh.block_type == BlockType::Data);
                    assert!(sh.src == NodeAddress::new(1, 1));
                    assert!(sh.dest == NodeAddress::new(1, 2));
                },
                _ => panic!("the second layer header stays on the block"),
            }
            assert!(matches!(block.body(), MessageBody::Data(s) if s == "hello"));
        },
        _ => panic!("block received expected"),
    }
}

#[test]
fn agent_hands_out_a_timer_it_is_asked_for() {
    let ps = profiles();
    let mut agent = NodeAgent::new(NodeAddress::new(1, 1), &ps, AddressMap::new());
    let mut ids = IdCounter::new();
    let tk = TimerOwnerToken::new(&mut ids, 900);
    let out = agent.on_command(&mut ids, NodeCommand(LineId(1), SecondLayerCommand::StartTimer(tk)));
    assert_eq!(out.timers.len(), 1);
    assert_eq!(out.timers[0].0, LineId(1));
    assert!(out.timers[0].1.same(&tk));
    assert!(out.transmits.is_empty());
}

#[test]
fn agent_passes_a_stray_timer_on_a_line_to_the_frontend() {
    let ps = profiles();
    let mut agent = NodeAgent::new(NodeAddress::new(1, 1), &ps, AddressMap::new());
    let mut ids = IdCounter::new();
    let tk = TimerOwnerToken::new(&mut ids, 900);
    let out = agent.on_timer(&mut ids, LineId(1), tk);
    assert!(out.node_events.iter().any(|e| e.0 == LineId(1) && matches!(&e.1, SecondLayerEvent::TimerFinished(t) if t.same(&tk))));
}

#[test]
fn address_is_its_parts_and_reads_back_from_its_text() {
    assert!(NodeAddress::new(0, 0) == NodeAddress::any());
    assert!(NodeAddress::default() == NodeAddress::any());
    assert!(NodeAddress::new(3, 14) == NodeAddress::new(3, 14));
    assert!(NodeAddress::new(3, 14) != NodeAddress::new(14, 3));
    assert!(node_address_from_text(b"|3.14|") == NodeAddress::new(3, 14));
    let a = NodeAddress::new(77, 5);
    assert!(node_address_from_text(&address_text(&a)) == a);
}

#[test]
fn second_layer_header_reads_as_text() {
    let h = SecondLayerHeader::new(BlockType::Data, NodeAddress::new(1, 1), NodeAddress::new(2, 3));
    assert_eq!(String::from_utf8(h.stringify()).unwrap(), "[data |1.1|->|2.3|");
    let r = SecondLayerHeader::new(BlockType::DropToken, NodeAddress::new(4, 5), NodeAddress::new(0, 0));
    assert_eq!(String::from_utf8(r.stringify()).unwrap(), "[? |4.5|->|0.0|");
}

#[test]
fn node_addresses_order_by_their_parts() {
    assert!(NodeAddress::new(1, 9) < NodeAddress::new(2, 0));
    assert!(NodeAddress::new(2, 1) < NodeAddress::new(2, 3));
    assert!(NodeAddress::new(3, 3) == NodeAddress::new(3, 3));
}
