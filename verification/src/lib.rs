//! A simulator of nodes joined by lines that run a layered protocol stack.
//!
//! The verified core: the pipe that carries commands down and events up
//! through the protocol entities of a layer; the entities themselves; the
//! conversions between the layers' items; the stacks of a line's end and of
//! a node; a node's agent, which decides what each command, line event and
//! timer gives rise to; the streams a node's frontend serves and what it does
//! about each event; the weaving of a network from its lines; the scheduler
//! that hands transmissions on when they are due; the address map and the
//! text of an address; the identifiers; and the picture of a network.

pub mod sequencial_id;
pub mod seq_id;

pub use sequencial_id::{SequencialGenerator, SequencialId};
pub use seq_id::SeqId;
pub mod pipe;
pub mod utils;
mod clock;
pub mod protocol_stack;
pub mod mock_work;
pub mod cy_structs;
pub mod instance;
