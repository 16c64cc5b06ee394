use vstd::prelude::*;
use crate::protocol_stack::{ChannelToken, ChannelType};
use crate::protocol_stack::line::LineId;
use crate::protocol_stack::node::{NodeAddress, AddressMap};
use crate::protocol_stack::node::stream::ChannelError;
use crate::protocol_stack::second_layer::{SecondLayerCommand, ServiceRequestType, LineChannelResult};
use crate::protocol_stack::layer_pipe_item::NodeCommand;
use crate::utils::IdCounter;

verus! {

/// A service a node can be asked for, and what it hands back.
pub trait NodeService {
    type Result;

    fn request_type(&self) -> ServiceRequestType;
}

/// The routes to `dest` (or to every node, for any node).
pub struct AddressMapRequest {
    pub dest: NodeAddress,
}

impl NodeService for AddressMapRequest {
    type Result = NodeAddress;

    fn request_type(&self) -> (r: ServiceRequestType)
        ensures
            r == ServiceRequestType::AddressMap(self.dest),
    {
        ServiceRequestType::AddressMap(self.dest)
    }
}

/// A channel to `dest`.
pub struct PeerChannelRequest {
    pub dest: NodeAddress,
}

impl NodeService for PeerChannelRequest {
    type Result = LineId;

    fn request_type(&self) -> (r: ServiceRequestType)
        ensures
            r == ServiceRequestType::PeerChannel(self.dest),
    {
        ServiceRequestType::PeerChannel(self.dest)
    }
}

/// How a request for a service is made: the token it runs under, the line
/// its stream runs on, and the command that asks the node for it.
pub struct ServiceRequestPlan {
    pub token: ChannelToken,
    pub line_id: LineId,
    pub command: NodeCommand,
}

/// The plan to ask a node for the routes to `dest`, under a service token
/// that expires after `expires` nanoseconds; a node that is not connected
/// cannot be asked. Token identifiers are taken from `ids`.
pub fn address_map_request(connected: bool, ids: &mut IdCounter, dest: NodeAddress, expires: u128) -> (r: Result<ServiceRequestPlan, ChannelError>)
    ensures
        r is Ok <==> connected,
        r matches Err(e) ==> e.0.spec_id() == old(ids).peek() && e.1 is Disconnected,
        r matches Ok(p) ==> {
            &&& p.token.spec_id() == old(ids).peek()
            &&& p.token.spec_expires() == Some(expires)
            &&& p.token.spec_channel_type() == ChannelType::Service
            &&& p.line_id == LineId(0)
            &&& p.command.0 == LineId(0)
            &&& p.command.1 == SecondLayerCommand::ServiceRequest(p.token, ServiceRequestType::AddressMap(dest))
        },
{
    if !connected {
        let id = ids.next_id();
        return Err(ChannelError(ChannelToken::expired_at_once(id), LineChannelResult::Disconnected));
    }
    let token = ChannelToken::durable(ids.next_id(), expires, ChannelType::Service);
    Ok(ServiceRequestPlan {
        token,
        line_id: LineId(0),
        command: NodeCommand(LineId(0), SecondLayerCommand::ServiceRequest(token, ServiceRequestType::AddressMap(dest))),
    })
}

/// The plan to ask a node for a channel to `dest`, under a service token
/// that expires after `expires` nanoseconds, or never; the stream runs on
/// the line the address map routes `dest` by. A node that is not connected
/// cannot be asked, and one that knows no route to `dest` does not find it.
/// Token identifiers are taken from `ids`.
pub fn peer_channel_request(connected: bool, ids: &mut IdCounter, map: &AddressMap, dest: NodeAddress, expires: Option<u128>) -> (r: Result<ServiceRequestPlan, ChannelError>)
    ensures
        r is Ok <==> connected && map@.contains_key(dest),
        !connected ==> (r matches Err(e) && e.0.spec_id() == old(ids).peek() && e.1 is Disconnected),
        connected && !map@.contains_key(dest) ==> (r matches Err(e) && e.0.spec_id() == old(ids).peek() && e.1 is NodeNotFound),
        r matches Ok(p) ==> {
            &&& p.token.spec_id() == old(ids).peek()
            &&& p.token.spec_expires() == expires
            &&& p.token.spec_channel_type() == ChannelType::Service
            &&& p.line_id == map@[dest].line_id
            &&& p.command.0 == LineId(0)
            &&& p.command.1 == SecondLayerCommand::ServiceRequest(p.token, ServiceRequestType::PeerChannel(dest))
        },
{
    if !connected {
        let id = ids.next_id();
        return Err(ChannelError(ChannelToken::expired_at_once(id), LineChannelResult::Disconnected));
    }
    let token = match expires {
        Some(d) => ChannelToken::durable(ids.next_id(), d, ChannelType::Service),
        None => ChannelToken::ageless(ids.next_id()),
    };
    match map.get(&dest) {
        Some(entry) => Ok(ServiceRequestPlan {
            token,
            line_id: entry.line_id,
            command: NodeCommand(LineId(0), SecondLayerCommand::ServiceRequest(token, ServiceRequestType::PeerChannel(dest))),
        }),
        None => Err(ChannelError(token, LineChannelResult::NodeNotFound)),
    }
}

} // verus!
