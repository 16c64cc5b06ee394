use mockwork::pipe::{Item, Pipe, PropagationDirecion};
use mockwork::protocol_stack::first_layer::{FirstLayerCommand, FirstLayerEvent};
use mockwork::protocol_stack::layer_pipe_item::{LayerCommand, LayerEvent, LayerPipeItem, NodeCommand, NodeEvent};
use mockwork::protocol_stack::line::{LineDelay, LineId};
use mockwork::protocol_stack::node::NodeAddress;
use mockwork::protocol_stack::physical_layer::{PhysicalLayerCommand, PhysicalLayerEvent, TransmissionType};
use mockwork::protocol_stack::protocol_layers::{NoEntity, ProtocolStack};
use mockwork::protocol_stack::second_layer::{SecondLayerCommand, SecondLayerEvent, ServiceRequestType};
use mockwork::protocol_stack::{
    BlockType, ChannelToken, ChannelType, Chunk, ChunkType, FirstLayerHeader, Headers, MessageBody,
    SecondLayerHeader, TimerOwnerToken,
};
use mockwork::utils::IdCounter;
use mockwork::protocol_stack::address_map_resolver::AddressMapResolver;
use mockwork::protocol_stack::node::{AddressMap, AddressMapEntry, NodeLayerState};
use mockwork::protocol_stack::peer_channel::PeerChannelMonitor;
use mockwork::protocol_stack::second_layer::ServiceResultType;

fn text(c: &Chunk) -> String {
    match c.body() {
        MessageBody::Data(s) => s.clone(),
        MessageBody::TimeStamp(_) => String::from("<time>"),
    }
}

fn cmd_item(cmd: SecondLayerCommand) -> LayerPipeItem {
    LayerPipeItem::SomeCommand(LineId(0), LayerCommand::SecondLayer(cmd))
}

fn event_item(ev: SecondLayerEvent) -> LayerPipeItem {
    LayerPipeItem::SomeEvent(LineId(0), LayerEvent::SecondLayer(ev))
}

#[test]
fn empty_pipe_routes_commands_down_and_events_up() {
    let mut pipe: Pipe<LayerPipeItem, NoEntity> = Pipe::new();
    let mut ids = IdCounter::new();
    let items = vec![
        (cmd_item(SecondLayerCommand::PollTraffic), false),
        (event_item(SecondLayerEvent::OnSocketConnected), false),
        (cmd_item(SecondLayerCommand::CheckExpiredTokens), false),
        (LayerPipeItem::Nothing, false),
    ];
    let (bottom, top) = pipe.send(&mut ids, items);
    assert_eq!(bottom.len(), 2);
    assert_eq!(top.len(), 1);
    assert!(matches!(bottom[0].0, LayerPipeItem::SomeCommand(_, LayerCommand::SecondLayer(SecondLayerCommand::PollTraffic))));
    assert!(matches!(bottom[1].0, LayerPipeItem::SomeCommand(_, LayerCommand::SecondLayer(SecondLayerCommand::CheckExpiredTokens))));
    assert!(matches!(top[0].0, LayerPipeItem::SomeEvent(_, LayerEvent::SecondLayer(SecondLayerEvent::OnSocketConnected))));
}

#[test]
fn items_tell_their_direction() {
    assert!(cmd_item(SecondLayerCommand::PollTraffic).dir() == PropagationDirecion::Down);
    assert!(event_item(SecondLayerEvent::OnSocketShutdown).dir() == PropagationDirecion::Up);
    assert!(LayerPipeItem::Nothing.dir() == PropagationDirecion::Nothing);
    assert!(LayerPipeItem::Nothing.is_none());
    assert!(!cmd_item(SecondLayerCommand::PollTraffic).is_none());
}

#[test]
fn swaddle_then_unswaddle_gives_the_header_back() {
    let mut ids = IdCounter::new();
    let mut c = Chunk::from_message(MessageBody::Data(String::from("hello")));
    assert!(c.header().is_none());
    let sh = SecondLayerHeader::new(BlockType::Data, NodeAddress::new(1, 1), NodeAddress::new(1, 2));
    c.swaddle(Headers::SecondLayer(sh));
    let fh = FirstLayerHeader::new(&mut ids, ChunkType::Data, None);
    assert_eq!(fh.id, 1);
    c.swaddle(Headers::FirstLayer(fh));
    match c.unswaddle() {
        Headers::FirstLayer(h) => assert_eq!(h.id, 1),
        _ => panic!("first layer header expected"),
    }
    match c.unswaddle() {
        Headers::SecondLayer(h) => {
            assert!(h.block_type == BlockType::Data);
            assert!(h.src == NodeAddress::new(1, 1));
            assert!(h.dest == NodeAddress::new(1, 2));
        },
        _ => panic!("second layer header expected"),
    }
    assert!(c.unswaddle().is_none());
    assert_eq!(text(&c), "hello");
}

#[test]
fn chunk_duplicate_keeps_everything() {
    let mut c = Chunk::from_message(MessageBody::Data(String::from("x")));
    c.swaddle(Headers::SecondLayer(SecondLayerHeader::new(BlockType::AddressMapRequest, NodeAddress::new(2, 3), NodeAddress::any())));
    let d = c.duplicate();
    assert_eq!(text(&d), "x");
    assert!(d.second_layer_header().unwrap().block_type == BlockType::AddressMapRequest);
    assert!(Chunk::empty().second_layer_header().is_none());
    assert_eq!(text(&Chunk::empty()), "");
}

#[test]
fn second_layer_send_comes_down_wrapped() {
    let c = Chunk::from_message(MessageBody::Data(String::from("abc")));
    let h = SecondLayerHeader::new(BlockType::Data, NodeAddress::new(1, 1), NodeAddress::new(1, 2));
    match FirstLayerCommand::from_second_layer(SecondLayerCommand::Send(c, h, None)) {
        FirstLayerCommand::PassToSend(chunk, chunk_type, token) => {
            assert!(chunk_type == ChunkType::Data);
            assert!(token.is_none());
            assert!(matches!(chunk.header(), Headers::SecondLayer(_)));
            assert_eq!(text(&chunk), "abc");
        },
        _ => panic!("pass to send expected"),
    }
    let c2 = Chunk::from_message(MessageBody::Data(String::from("m")));
    let h2 = SecondLayerHeader::new(BlockType::AddressMapResponse, NodeAddress::new(1, 1), NodeAddress::new(1, 2));
    match FirstLayerCommand::from_second_layer(SecondLayerCommand::Send(c2, h2, None)) {
        FirstLayerCommand::PassToSend(_, chunk_type, _) => assert!(chunk_type == ChunkType::Service),
        _ => panic!("pass to send expected"),
    }
}

#[test]
fn node_requests_come_down_to_nothing() {
    let t = ChannelToken::durable(9, 1_000, ChannelType::Service);
    let r = FirstLayerCommand::from_second_layer(SecondLayerCommand::ServiceRequest(t, ServiceRequestType::AddressMap(NodeAddress::any())));
    assert!(matches!(r, FirstLayerCommand::Nothing));
    let r = FirstLayerCommand::from_second_layer(SecondLayerCommand::ServiceRequest(t, ServiceRequestType::LineChannel(true)));
    match r {
        FirstLayerCommand::ChannelRequest(tk, exclusive) => {
            assert_eq!(tk.id(), 9);
            assert!(exclusive);
        },
        _ => panic!("channel request expected"),
    }
    let unwrapped = Chunk::from_message(MessageBody::Data(String::from("u")));
    assert!(matches!(FirstLayerCommand::from_second_layer(SecondLayerCommand::SendAsIs(unwrapped, None)), FirstLayerCommand::Nothing));
}

#[test]
fn first_layer_send_becomes_a_data_transmission() {
    let mut ids = IdCounter::new();
    let c = Chunk::from_message(MessageBody::Data(String::from("p")));
    let h = FirstLayerHeader::new(&mut ids, ChunkType::Service, None);
    match PhysicalLayerCommand::from_first_layer(FirstLayerCommand::Send(c, h)) {
        PhysicalLayerCommand::Transmit(chunk, t) => {
            assert!(t == TransmissionType::Data);
            assert!(matches!(chunk.header(), Headers::FirstLayer(_)));
        },
        _ => panic!("transmit expected"),
    }
    assert!(matches!(PhysicalLayerCommand::from_first_layer(FirstLayerCommand::PollTraffic), PhysicalLayerCommand::Nothing));
}

#[test]
fn timer_events_come_up_the_layers() {
    let mut ids = IdCounter::new();
    let t = TimerOwnerToken::new(&mut ids, 500);
    assert_eq!(t.id(), 1);
    assert_eq!(t.delay(), 500);
    match FirstLayerEvent::from_physical_layer(PhysicalLayerEvent::TimerFinished(t)) {
        FirstLayerEvent::TimerFinished(t2) => assert!(t2.same(&t)),
        _ => panic!("timer expected"),
    }
    match SecondLayerEvent::from_first_layer(FirstLayerEvent::TimerFinished(t)) {
        SecondLayerEvent::TimerFinished(t3) => assert_eq!(t3.id(), 1),
        _ => panic!("timer expected"),
    }
}

#[test]
fn moving_items_between_layers() {
    let mut item = LayerPipeItem::SomeCommand(LineId(3), LayerCommand::SecondLayer(SecondLayerCommand::CheckExpiredTokens));
    item.to_lower();
    assert!(matches!(item, LayerPipeItem::SomeCommand(LineId(3), LayerCommand::FirstLayer(FirstLayerCommand::CheckExpiredTokens))));
    let mut ev = LayerPipeItem::SomeEvent(LineId(4), LayerEvent::PhysicalLayer(PhysicalLayerEvent::PingLineTimeout));
    ev.to_upper();
    assert!(matches!(ev, LayerPipeItem::SomeEvent(LineId(4), LayerEvent::FirstLayer(_))));
    let cmd = NodeCommand::from_item(LayerPipeItem::from_node_command(NodeCommand(LineId(5), SecondLayerCommand::PollTraffic)));
    assert_eq!(cmd.0, LineId(5));
    assert!(matches!(cmd.1, SecondLayerCommand::PollTraffic));
    let ev = NodeEvent::from_item(LayerPipeItem::from_node_event(NodeEvent(LineId(6), SecondLayerEvent::OnSocketConnected)));
    assert_eq!(ev.0, LineId(6));
    assert!(matches!(ev.1, SecondLayerEvent::OnSocketConnected));
    let none = NodeEvent::from_item(LayerPipeItem::Nothing);
    assert_eq!(none.0, LineId(0));
    assert!(matches!(none.1, SecondLayerEvent::Nothing));
}

#[test]
fn protocol_stack_sends_a_block_as_one_transmission() {
    let mut stack = ProtocolStack::new(NodeAddress::new(1, 1), LineId(1), LineDelay::new(10_000_000), 10);
    let mut ids = IdCounter::new();
    let mut cmds = Vec::new();
    let mut events = Vec::new();
    let c = Chunk::from_message(MessageBody::Data(String::from("block")));
    let h = SecondLayerHeader::new(BlockType::Data, NodeAddress::new(1, 1), NodeAddress::new(1, 2));
    stack.propagate_command(&mut ids, SecondLayerCommand::Send(c, h, None), &mut cmds, &mut events);
    assert_eq!(ids.next_id(), 2);
    assert_eq!(cmds.len(), 1);
    assert!(events.is_empty());
    match cmds.pop().unwrap() {
        PhysicalLayerCommand::Transmit(mut chunk, t) => {
            assert!(t == TransmissionType::Data);
            match chunk.unswaddle() {
                Headers::FirstLayer(fh) => assert!(fh.chunk_type == ChunkType::Data),
                _ => panic!("first layer header expected"),
            }
            assert!(matches!(chunk.unswaddle(), Headers::SecondLayer(_)));
            assert_eq!(text(&chunk), "block");
        },
        _ => panic!("transmit expected"),
    }
}

#[test]
fn line_delay_probable_delay_adds_a_fifth() {
    assert_eq!(LineDelay::new(100).probable_delay(), 120);
    assert_eq!(LineDelay::new(7).probable_delay(), 8);
    assert_eq!(LineDelay::from_millis(3).propagation_delay_nanos, 3_000_000);
}

#[test]
fn protocol_stack_passes_a_timer_down_to_the_line() {
    let mut stack = ProtocolStack::new(NodeAddress::new(1, 1), LineId(1), LineDelay::new(10_000_000), 10);
    let mut ids = IdCounter::new();
    let tk = TimerOwnerToken::new(&mut ids, 500);
    let mut cmds = Vec::new();
    let mut events = Vec::new();
    stack.propagate_command(&mut ids, SecondLayerCommand::StartTimer(tk), &mut cmds, &mut events);
    assert!(events.is_empty());
    assert_eq!(cmds.len(), 1);
    match &cmds[0] {
        PhysicalLayerCommand::StartTimer(t) => assert!(t.same(&tk)),
        _ => panic!("timer expected"),
    }
}

#[test]
fn protocol_stack_raises_a_stray_timer_to_the_top() {
    let mut stack = ProtocolStack::new(NodeAddress::new(1, 1), LineId(1), LineDelay::new(10_000_000), 10);
    let mut ids = IdCounter::new();
    let tk = TimerOwnerToken::new(&mut ids, 500);
    let mut cmds = Vec::new();
    let mut events = Vec::new();
    stack.propagate_event(&mut ids, PhysicalLayerEvent::TimerFinished(tk), &mut cmds, &mut events);
    assert!(cmds.is_empty());
    assert_eq!(events.len(), 1);
    match &events[0] {
        SecondLayerEvent::TimerFinished(t) => assert!(t.same(&tk)),
        _ => panic!("timer expected"),
    }
}

fn service_message(line: usize, tok: ChannelToken, bt: BlockType, src: NodeAddress, dest: NodeAddress) -> LayerPipeItem {
    let mut c = Chunk::from_message(MessageBody::TimeStamp(instant::Instant::now()));
    c.swaddle(Headers::SecondLayer(SecondLayerHeader::new(bt, src, dest)));
    LayerPipeItem::SomeEvent(LineId(line), LayerEvent::SecondLayer(SecondLayerEvent::ServiceMessage(tok, ServiceResultType::SomeService(c))))
}

#[test]
fn resolver_floods_a_foreign_request_and_relays_the_response_back() {
    let mut p: Pipe<LayerPipeItem, AddressMapResolver> = Pipe::new();
    p.hook(AddressMapResolver::new(NodeAddress::new(1, 1), vec![LineId(1), LineId(2), LineId(3)]));
    let mut st = NodeLayerState::new(AddressMap::new());
    let tok = ChannelToken::ageless(5);
    let req = service_message(1, tok, BlockType::AddressMapRequest, NodeAddress::new(2, 2), NodeAddress::new(3, 3));
    let (bot, top) = p.send(&mut st, vec![(req, false)]);
    assert!(top.is_empty());
    assert_eq!(bot.len(), 2);
    for (k, line) in [2usize, 3].iter().enumerate() {
        match &bot[k] {
            (LayerPipeItem::SomeCommand(l, LayerCommand::SecondLayer(SecondLayerCommand::Send(_, h, t))), false) => {
                assert_eq!(*l, LineId(*line));
                assert!(h.block_type == BlockType::AddressMapRequest);
                assert!(h.src == NodeAddress::new(2, 2) && h.dest == NodeAddress::new(3, 3));
                assert_eq!(t.unwrap().id(), 5);
            },
            _ => panic!("forwarded request expected"),
        }
    }
    assert_eq!(st.address_map.len(), 1);
    assert_eq!(st.address_map.get(&NodeAddress::new(2, 2)).unwrap().line_id, LineId(1));
    let resp = service_message(3, tok, BlockType::AddressMapResponse, NodeAddress::new(3, 3), NodeAddress::new(2, 2));
    let (bot, top) = p.send(&mut st, vec![(resp, false)]);
    assert!(top.is_empty());
    assert_eq!(bot.len(), 1);
    match &bot[0] {
        (LayerPipeItem::SomeCommand(l, LayerCommand::SecondLayer(SecondLayerCommand::SendAsIs(_, t))), true) => {
            assert_eq!(*l, LineId(1));
            assert_eq!(t.unwrap().id(), 5);
        },
        _ => panic!("relayed response expected"),
    }
    assert_eq!(st.address_map.get(&NodeAddress::new(3, 3)).unwrap().line_id, LineId(3));
}

#[test]
fn resolver_swallows_a_request_whose_token_has_expired() {
    let mut p: Pipe<LayerPipeItem, AddressMapResolver> = Pipe::new();
    p.hook(AddressMapResolver::new(NodeAddress::new(1, 1), vec![LineId(1), LineId(2), LineId(3)]));
    let mut st = NodeLayerState::new(AddressMap::new());
    let tok = ChannelToken::expired_at_once(6);
    let req = service_message(1, tok, BlockType::AddressMapRequest, NodeAddress::new(2, 2), NodeAddress::new(3, 3));
    let (bot, top) = p.send(&mut st, vec![(req, false)]);
    assert!(bot.is_empty());
    assert!(top.is_empty());
    assert_eq!(st.address_map.len(), 0);
}

#[test]
fn token_expiry_follows_its_lifetime() {
    let t = ChannelToken::durable(1, 100, ChannelType::Data);
    assert!(!t.expired_after(100));
    assert!(t.expired_after(101));
    let a = ChannelToken::ageless(2);
    assert!(!a.expired_after(u128::MAX));
    assert!(!a.expired());
}

#[test]
fn peer_monitor_passes_a_foreign_channel_request_on_towards_its_destination() {
    let mut p: Pipe<LayerPipeItem, PeerChannelMonitor> = Pipe::new();
    p.hook(PeerChannelMonitor::new(NodeAddress::new(1, 1)));
    let mut map = AddressMap::new();
    map.insert_if_absent(NodeAddress::new(3, 3), AddressMapEntry { line_id: LineId(2), oneway_delay: 10 });
    let mut st = NodeLayerState::new(map);
    let tok = ChannelToken::ageless(8);
    let mut c = Chunk::empty();
    c.swaddle(Headers::SecondLayer(SecondLayerHeader::new(BlockType::ChannelRequest, NodeAddress::new(2, 2), NodeAddress::new(3, 3))));
    let req = LayerPipeItem::SomeEvent(LineId(1), LayerEvent::SecondLayer(SecondLayerEvent::ServiceMessage(tok, ServiceResultType::SomeService(c))));
    let (bot, top) = p.send(&mut st, vec![(req, false)]);
    assert!(top.is_empty());
    assert_eq!(bot.len(), 1);
    match &bot[0] {
        (LayerPipeItem::SomeCommand(l, LayerCommand::SecondLayer(SecondLayerCommand::Send(b, h, t))), true) => {
            assert_eq!(*l, LineId(2));
            assert!(h.block_type == BlockType::ChannelRequest);
            assert!(h.src == NodeAddress::new(2, 2) && h.dest == NodeAddress::new(3, 3));
            assert_eq!(t.unwrap().id(), 8);
            assert!(matches!(b.body(), MessageBody::Data(s) if s.is_empty()));
        },
        _ => panic!("the channel request passed on was expected"),
    }
}

#[test]
fn node_stack_sends_a_routes_request_on_every_line() {
    let mut stack = mockwork::protocol_stack::protocol_layers::NodeProtocolStack::new(
        NodeAddress::new(1, 1), vec![LineId(1), LineId(2)], AddressMap::new());
    let mut ids = IdCounter::new();
    let tok = ChannelToken::ageless(4);
    let mut cmds: Vec<LayerPipeItem> = Vec::new();
    let mut evs: Vec<LayerPipeItem> = Vec::new();
    stack.propagate_command(&mut ids, NodeCommand(LineId(0),
        SecondLayerCommand::ServiceRequest(tok, ServiceRequestType::AddressMap(NodeAddress::new(5, 5)))), &mut cmds, &mut evs);
    assert_eq!(cmds.len(), 2);
    for (k, line) in [1usize, 2].iter().enumerate() {
        match &cmds[k] {
            LayerPipeItem::SomeCommand(l, LayerCommand::SecondLayer(SecondLayerCommand::Send(_, h, t))) => {
                assert_eq!(*l, LineId(*line));
                assert!(h.block_type == BlockType::AddressMapRequest);
                assert!(h.src == NodeAddress::new(1, 1) && h.dest == NodeAddress::new(5, 5));
                assert_eq!(t.unwrap().id(), 4);
            },
            _ => panic!("a routes request was expected"),
        }
    }
    assert_eq!(evs.len(), 1);
    assert!(matches!(&evs[0], LayerPipeItem::SomeEvent(_, LayerEvent::SecondLayer(SecondLayerEvent::ServiceStarted(t))) if t.id() == 4));
}
