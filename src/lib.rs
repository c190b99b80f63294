//! A node for a Maelstrom-style cluster harness: echo, unique ids, topology
//! intake and a gossiped, eventually consistent set of broadcast values.
//!
//! Every handler is a verified transition from one node state and one inbound
//! message to the next state and the messages to emit. Emission goes onto a
//! send queue (a `Vec<Message>`) that the surrounding program drains.

pub mod echo;
pub mod entropy;
pub mod keyed;
pub mod laws;
pub mod message;
pub mod node;
pub mod protocol;

pub use message::{Message, MessageBody};
pub use node::{Node, NodeError, NodeTrait};
