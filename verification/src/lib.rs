//! A peer-to-peer messaging node: Lamport clocks, message bookkeeping,
//! broadcast planning and the wire framing of messages between peers.
use vstd::prelude::*;

pub mod frame;
pub mod lamport;
pub mod discovery;
pub mod message;
pub mod node;
pub mod peers;
pub mod proto;
pub mod task;
pub mod time;

verus! {

/// Entry point of the simulation harness. Outside a simulation build there is
/// nothing for it to run.
pub fn start() {
}

} // verus!
