use mockwork::protocol_stack::layer_pipe_item::NodeEvent;
use mockwork::protocol_stack::line::LineId;
use mockwork::protocol_stack::node::stream::{
    cleaner_command, drop_command, frontend_action, is_deliverable, route_result, write_command, FrontendAction,
    StreamDelivery, StreamRegistry,
};
use mockwork::protocol_stack::node::NodeAddress;
use mockwork::protocol_stack::second_layer::{LineChannelResult, SecondLayerCommand, SecondLayerEvent, ServiceResultType};
use mockwork::protocol_stack::{BlockType, ChannelToken, ChannelType, Chunk, Headers, MessageBody};

fn token(id: usize) -> ChannelToken {
    ChannelToken::durable(id, 1_000_000_000, ChannelType::Data)
}

#[test]
fn registry_keeps_the_first_registration() {
    let mut reg: StreamRegistry<&'static str> = StreamRegistry::new();
    assert!(reg.is_empty());
    assert!(reg.register(1, LineId(3), "a").is_none());
    assert_eq!(reg.register(1, LineId(4), "b"), Some("b"));
    assert!(reg.contains(1));
    assert!(!reg.is_empty());
    assert_eq!(reg.take(1), Some((LineId(3), "a")));
    assert!(!reg.contains(1));
    assert!(reg.take(1).is_none());
    assert!(reg.is_empty());
}

#[test]
fn registry_drops_the_streams_of_a_line() {
    let mut reg: StreamRegistry<u32> = StreamRegistry::new();
    reg.register(1, LineId(1), 10);
    reg.register(2, LineId(2), 20);
    reg.register(3, LineId(1), 30);
    let mut taken = reg.take_on_line(LineId(1));
    taken.sort();
    assert_eq!(taken, vec![10, 30]);
    assert!(!reg.contains(1));
    assert!(reg.contains(2));
    assert!(!reg.contains(3));
    assert!(reg.take_on_line(LineId(9)).is_empty());
    assert!(reg.contains(2));
}

#[test]
fn frontend_answers_each_event() {
    let mut reg: StreamRegistry<()> = StreamRegistry::new();
    reg.register(5, LineId(2), ());
    let t5 = token(5);
    let t6 = token(6);
    assert!(matches!(frontend_action(&reg, NodeEvent(LineId(2), SecondLayerEvent::OnSocketShutdown)), FrontendAction::DropLine(LineId(2))));
    assert!(matches!(frontend_action(&reg, NodeEvent(LineId(2), SecondLayerEvent::ServiceStarted(t5))), FrontendAction::Activate(t) if t.id() == 5));
    assert!(matches!(frontend_action(&reg, NodeEvent(LineId(2), SecondLayerEvent::ServiceStarted(t6))), FrontendAction::Ignore));
    let msg = ServiceResultType::AddressMapUpdate(NodeAddress::new(1, 1));
    assert!(matches!(frontend_action(&reg, NodeEvent(LineId(2), SecondLayerEvent::ServiceMessage(t5, msg))), FrontendAction::Deliver(_, ServiceResultType::AddressMapUpdate(_))));
    let done = ServiceResultType::LineChannel(LineChannelResult::Expired);
    assert!(matches!(frontend_action(&reg, NodeEvent(LineId(2), SecondLayerEvent::ServiceComplete(t5, done))),
        FrontendAction::Complete(_, None, LineChannelResult::Expired)));
    let other = ServiceResultType::AddressMapUpdate(NodeAddress::new(2, 2));
    assert!(matches!(frontend_action(&reg, NodeEvent(LineId(2), SecondLayerEvent::ServiceComplete(t5, other))),
        FrontendAction::Complete(_, Some(ServiceResultType::AddressMapUpdate(_)), LineChannelResult::Unspecified)));
    assert!(matches!(frontend_action(&reg, NodeEvent(LineId(4), SecondLayerEvent::IncomingPeerChannel(NodeAddress::new(7, 7), t6))),
        FrontendAction::OpenIncoming(a, LineId(4), t) if a == NodeAddress::new(7, 7) && t.id() == 6));
    assert!(matches!(frontend_action(&reg, NodeEvent(LineId(4), SecondLayerEvent::IncomingPeerChannel(NodeAddress::new(7, 7), t5))), FrontendAction::Ignore));
    assert!(matches!(frontend_action(&reg, NodeEvent(LineId(4), SecondLayerEvent::OnSocketConnected)), FrontendAction::Ignore));
}

#[test]
fn cleaner_runs_while_streams_are_served() {
    let on = cleaner_command(true);
    assert_eq!(on.0, LineId(0));
    assert!(matches!(on.1, SecondLayerCommand::StartExpiredStreamsCleaner(50_000_000)));
    assert!(matches!(cleaner_command(false).1, SecondLayerCommand::StopExpiredStreamsCleaner));
}

#[test]
fn stream_commands() {
    let t = token(8);
    let w = write_command(LineId(3), t, NodeAddress::new(1, 1), NodeAddress::new(1, 2), MessageBody::Data(String::from("hi")), BlockType::Data);
    assert_eq!(w.0, LineId(3));
    match w.1 {
        SecondLayerCommand::Send(c, h, Some(tk)) => {
            assert!(h.block_type == BlockType::Data);
            assert!(h.src == NodeAddress::new(1, 1) && h.dest == NodeAddress::new(1, 2));
            assert_eq!(tk.id(), 8);
            assert!(matches!(c.header(), Headers::NoHeader));
            assert!(matches!(c.body(), MessageBody::Data(s) if s == "hi"));
        },
        _ => panic!("send expected"),
    }
    let d = drop_command(LineId(3), t);
    assert!(matches!(d.1, SecondLayerCommand::DropService(tk) if tk.id() == 8));
}

#[test]
fn results_go_to_data_or_events() {
    let data = ServiceResultType::LineChannel(LineChannelResult::Data(Chunk::from_message(MessageBody::Data(String::from("d")))));
    assert!(is_deliverable(&data));
    match route_result(data) {
        StreamDelivery::Data(MessageBody::Data(s)) => assert_eq!(s, "d"),
        _ => panic!("data expected"),
    }
    let ev = ServiceResultType::AddressMapUpdate(NodeAddress::new(3, 3));
    assert!(is_deliverable(&ev));
    assert!(matches!(route_result(ev), StreamDelivery::Event(ServiceResultType::AddressMapUpdate(_))));
    assert!(!is_deliverable(&ServiceResultType::LineChannel(LineChannelResult::Dropped)));
}
