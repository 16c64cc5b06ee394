use vstd::prelude::*;
use crate::pipe::{Item, PropagationDirecion};
use crate::protocol_stack::line::LineId;
use crate::protocol_stack::physical_layer::{PhysicalLayerCommand, PhysicalLayerEvent, physical_of_first};
use crate::protocol_stack::first_layer::{FirstLayerCommand, FirstLayerEvent, first_of_physical, first_of_second};
use crate::protocol_stack::second_layer::{SecondLayerCommand, SecondLayerEvent, second_of_first};

verus! {

/// A command of any layer.
pub enum LayerCommand {
    PhysicalLayer(PhysicalLayerCommand),
    FirstLayer(FirstLayerCommand),
    SecondLayer(SecondLayerCommand),
    Nothing,
}

impl LayerCommand {
    /// The second layer command, or nothing if it is of another layer.
    pub fn into_second_layer(self) -> (r: SecondLayerCommand)
        ensures
            r == (match self {
                LayerCommand::SecondLayer(c) => c,
                _ => SecondLayerCommand::Nothing,
            }),
    {
        match self {
            LayerCommand::SecondLayer(cmd) => cmd,
            _ => SecondLayerCommand::Nothing,
        }
    }

    /// The first layer command, or nothing if it is of another layer.
    pub fn into_first_layer(self) -> (r: FirstLayerCommand)
        ensures
            r == (match self {
                LayerCommand::FirstLayer(c) => c,
                _ => FirstLayerCommand::Nothing,
            }),
    {
        match self {
            LayerCommand::FirstLayer(cmd) => cmd,
            _ => FirstLayerCommand::Nothing,
        }
    }

    /// The physical command, or nothing if it is of another layer.
    pub fn into_physical_layer(self) -> (r: PhysicalLayerCommand)
        ensures
            r == (match self {
                LayerCommand::PhysicalLayer(c) => c,
                _ => PhysicalLayerCommand::Nothing,
            }),
    {
        match self {
            LayerCommand::PhysicalLayer(cmd) => cmd,
            _ => PhysicalLayerCommand::Nothing,
        }
    }
}

/// An event of any layer.
pub enum LayerEvent {
    PhysicalLayer(PhysicalLayerEvent),
    FirstLayer(FirstLayerEvent),
    SecondLayer(SecondLayerEvent),
    Nothing,
}

impl LayerEvent {
    /// The second layer event, or nothing if it is of another layer.
    pub fn into_second_layer(self) -> (r: SecondLayerEvent)
        ensures
            r == (match self {
                LayerEvent::SecondLayer(e) => e,
                _ => SecondLayerEvent::Nothing,
            }),
    {
        match self {
            LayerEvent::SecondLayer(ev) => ev,
            _ => SecondLayerEvent::Nothing,
        }
    }

    /// The first layer event, or nothing if it is of another layer.
    pub fn into_first_layer(self) -> (r: FirstLayerEvent)
        ensures
            r == (match self {
                LayerEvent::FirstLayer(e) => e,
                _ => FirstLayerEvent::Nothing,
            }),
    {
        match self {
            LayerEvent::FirstLayer(ev) => ev,
            _ => FirstLayerEvent::Nothing,
        }
    }

    /// The physical event, or nothing if it is of another layer.
    pub fn into_physical_layer(self) -> (r: PhysicalLayerEvent)
        ensures
            r == (match self {
                LayerEvent::PhysicalLayer(e) => e,
                _ => PhysicalLayerEvent::Nothing,
            }),
    {
        match self {
            LayerEvent::PhysicalLayer(ev) => ev,
            _ => PhysicalLayerEvent::Nothing,
        }
    }
}

/// An item of a layer's pipe: a command or an event, with the line it concerns.
pub enum LayerPipeItem {
    SomeCommand(LineId, LayerCommand),
    SomeEvent(LineId, LayerEvent),
    Nothing,
}

/// `r` is what `item` becomes on the way down a layer.
pub open spec fn lowered(item: LayerPipeItem, r: LayerPipeItem) -> bool {
    match item {
        LayerPipeItem::SomeCommand(lid, LayerCommand::FirstLayer(c)) => r matches LayerPipeItem::SomeCommand(lid2, LayerCommand::PhysicalLayer(p))
            && lid2 == lid && physical_of_first(c, p),
        LayerPipeItem::SomeCommand(lid, LayerCommand::SecondLayer(c)) => r matches LayerPipeItem::SomeCommand(lid2, LayerCommand::FirstLayer(f))
            && lid2 == lid && first_of_second(c, f),
        _ => r is Nothing,
    }
}

/// `r` is what `item` becomes on the way up a layer.
pub open spec fn raised(item: LayerPipeItem, r: LayerPipeItem) -> bool {
    match item {
        LayerPipeItem::SomeEvent(lid, LayerEvent::PhysicalLayer(e)) => r matches LayerPipeItem::SomeEvent(lid2, LayerEvent::FirstLayer(f))
            && lid2 == lid && first_of_physical(e, f),
        LayerPipeItem::SomeEvent(lid, LayerEvent::FirstLayer(e)) => r matches LayerPipeItem::SomeEvent(lid2, LayerEvent::SecondLayer(s))
            && lid2 == lid && second_of_first(e, s),
        _ => r is Nothing,
    }
}

impl LayerPipeItem {
    pub fn as_cmd(self) -> (r: Option<LayerCommand>)
        ensures
            r == (match self {
                LayerPipeItem::SomeCommand(_, c) => Some(c),
                _ => None,
            }),
    {
        match self {
            LayerPipeItem::SomeCommand(_, cmd) => Some(cmd),
            _ => None,
        }
    }

    pub fn as_event(self) -> (r: Option<LayerEvent>)
        ensures
            r == (match self {
                LayerPipeItem::SomeEvent(_, e) => Some(e),
                _ => None,
            }),
    {
        match self {
            LayerPipeItem::SomeEvent(_, ev) => Some(ev),
            _ => None,
        }
    }

    /// Whether the item carries nothing.
    pub fn is_none(&self) -> (r: bool)
        ensures
            r == (match self {
                LayerPipeItem::Nothing => true,
                LayerPipeItem::SomeCommand(_, LayerCommand::Nothing) => true,
                LayerPipeItem::SomeEvent(_, LayerEvent::Nothing) => true,
                _ => false,
            }),
    {
        match self {
            LayerPipeItem::Nothing => true,
            LayerPipeItem::SomeCommand(_, LayerCommand::Nothing) => true,
            LayerPipeItem::SomeEvent(_, LayerEvent::Nothing) => true,
            _ => false,
        }
    }

    /// Turns a command into the command of the layer below; anything else,
    /// a physical command among them, becomes nothing.
    pub fn to_lower(&mut self)
        ensures
            lowered(*old(self), *final(self)),
    {
        let mut item = LayerPipeItem::Nothing;
        std::mem::swap(self, &mut item);
        *self = match item {
            LayerPipeItem::SomeCommand(lid, LayerCommand::FirstLayer(cmd)) => LayerPipeItem::SomeCommand(
                lid,
                LayerCommand::PhysicalLayer(PhysicalLayerCommand::from_first_layer(cmd)),
            ),
            LayerPipeItem::SomeCommand(lid, LayerCommand::SecondLayer(cmd)) => LayerPipeItem::SomeCommand(
                lid,
                LayerCommand::FirstLayer(FirstLayerCommand::from_second_layer(cmd)),
            ),
            _ => LayerPipeItem::Nothing,
        };
    }

    /// Turns an event into the event of the layer above; anything else, a
    /// second layer event among them, becomes nothing.
    pub fn to_upper(&mut self)
        ensures
            raised(*old(self), *final(self)),
    {
        let mut item = LayerPipeItem::Nothing;
        std::mem::swap(self, &mut item);
        *self = match item {
            LayerPipeItem::SomeEvent(lid, LayerEvent::FirstLayer(ev)) => LayerPipeItem::SomeEvent(
                lid,
                LayerEvent::SecondLayer(SecondLayerEvent::from_first_layer(ev)),
            ),
            LayerPipeItem::SomeEvent(lid, LayerEvent::PhysicalLayer(ev)) => LayerPipeItem::SomeEvent(
                lid,
                LayerEvent::FirstLayer(FirstLayerEvent::from_physical_layer(ev)),
            ),
            _ => LayerPipeItem::Nothing,
        };
    }

    /// A command for the default line.
    pub fn from_command(cmd: LayerCommand) -> (r: Self)
        ensures
            r == LayerPipeItem::SomeCommand(LineId(0), cmd),
    {
        LayerPipeItem::SomeCommand(LineId(0), cmd)
    }

    /// An event on the default line.
    pub fn from_event(ev: LayerEvent) -> (r: Self)
        ensures
            r == LayerPipeItem::SomeEvent(LineId(0), ev),
    {
        LayerPipeItem::SomeEvent(LineId(0), ev)
    }

    pub fn from_node_event(ev: NodeEvent) -> (r: Self)
        ensures
            r == LayerPipeItem::SomeEvent(ev.0, LayerEvent::SecondLayer(ev.1)),
    {
        LayerPipeItem::SomeEvent(ev.0, LayerEvent::SecondLayer(ev.1))
    }

    pub fn from_node_command(cmd: NodeCommand) -> (r: Self)
        ensures
            r == LayerPipeItem::SomeCommand(cmd.0, LayerCommand::SecondLayer(cmd.1)),
    {
        LayerPipeItem::SomeCommand(cmd.0, LayerCommand::SecondLayer(cmd.1))
    }
}

impl Item for LayerPipeItem {
    /// Events travel up, commands down.
    open spec fn spec_dir(&self) -> PropagationDirecion {
        match self {
            LayerPipeItem::SomeEvent(_, _) => PropagationDirecion::Up,
            LayerPipeItem::SomeCommand(_, _) => PropagationDirecion::Down,
            LayerPipeItem::Nothing => PropagationDirecion::Nothing,
        }
    }

    fn dir(&self) -> (d: PropagationDirecion) {
        match self {
            LayerPipeItem::SomeEvent(_, _) => PropagationDirecion::Up,
            LayerPipeItem::SomeCommand(_, _) => PropagationDirecion::Down,
            LayerPipeItem::Nothing => PropagationDirecion::Nothing,
        }
    }
}

/// A second layer event on a line, as a node sees it.
pub struct NodeEvent(pub LineId, pub SecondLayerEvent);

/// A second layer command for a line, as a node gives it.
pub struct NodeCommand(pub LineId, pub SecondLayerCommand);

impl NodeCommand {
    /// The node command an item carries; nothing for the default line if it
    /// carries no second layer command.
    pub fn from_item(item: LayerPipeItem) -> (r: Self)
        ensures
            (match item {
                LayerPipeItem::SomeCommand(lid, LayerCommand::SecondLayer(c)) => r.0 == lid && r.1 == c,
                _ => r.0 == LineId(0) && r.1 is Nothing,
            }),
    {
        match item {
            LayerPipeItem::SomeCommand(lid, LayerCommand::SecondLayer(cmd)) => NodeCommand(lid, cmd),
            _ => NodeCommand(LineId(0), SecondLayerCommand::Nothing),
        }
    }
}

impl NodeEvent {
    /// The node event an item carries; nothing on the default line if it
    /// carries no second layer event.
    pub fn from_item(item: LayerPipeItem) -> (r: Self)
        ensures
            (match item {
                LayerPipeItem::SomeEvent(lid, LayerEvent::SecondLayer(e)) => r.0 == lid && r.1 == e,
                _ => r.0 == LineId(0) && r.1 is Nothing,
            }),
    {
        match item {
            LayerPipeItem::SomeEvent(lid, LayerEvent::SecondLayer(ev)) => NodeEvent(lid, ev),
            _ => NodeEvent(LineId(0), SecondLayerEvent::Nothing),
        }
    }
}

/// Moving an item down a layer never makes an event of it, and moving it up
/// never makes a command of it.
pub proof fn lemma_layer_moves_keep_direction(item: LayerPipeItem, down: LayerPipeItem, up: LayerPipeItem)
    requires
        lowered(item, down),
        raised(item, up),
    ensures
        down.spec_dir() != PropagationDirecion::Up,
        up.spec_dir() != PropagationDirecion::Down,
{
}

} // verus!
