//! A single node of a message-passing distributed-systems exercise: it
//! consumes request and gossip envelopes, keeps per-node state, and emits
//! reply and relay envelopes. The heart of the node is a flood-fill gossip
//! algorithm with duplicate suppression over a configurable neighbor roster.

pub mod flood;
pub mod laws;
pub mod node;
pub mod numeral;
pub mod protocol;

pub use node::Node;
pub use node::NodeView;
pub use protocol::Body;
pub use protocol::BodyView;
pub use protocol::Message;
pub use protocol::MessageView;
