//! A Byzantine-fault-tolerant consistent-broadcast sequencer.
//!
//! Every node proposes a payload per round and the nodes agree, through the
//! four phases SEND, ECHO, FIN and SUP, that the payload of an originator in a
//! round is delivered. The crate holds the wire codec, the per-node state
//! machine with its quorum rules, the measurement bookkeeping and an
//! append-only Merkle tree.

pub mod driver;
pub mod frame;
pub mod invariants;
pub mod measure;
pub mod merkle_tree;
pub mod message;
pub mod report;
pub mod sequencer;
pub mod shape;
pub mod signature;
pub mod slots;
pub mod state;
