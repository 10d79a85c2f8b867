//! Building blocks for one authenticated peer connection of a peer-to-peer
//! node: a stable peer identity with a canonical hex form, the closed set of
//! peer protocol messages with their binary wire encoding, and the state
//! machine that a connection task runs to merge host commands, inbound frames
//! and shutdown into one fail-safe control loop.

use vstd::prelude::*;

pub mod actor;
pub mod identity;
pub mod message;

pub use actor::LinkError;
pub use actor::PeerActor;
pub use actor::PeerEvent;
pub use actor::PeerNotification;
pub use actor::StepAction;
pub use identity::PeerID;
pub use message::NetAddr;
pub use message::PeerAddr;
pub use message::PeerMessage;

verus! {

} // verus!
