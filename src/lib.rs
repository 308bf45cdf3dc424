//! Network coordinates after the Vivaldi scheme: the datagram codec, the
//! registry of known peers, and the decisions that a node takes on every
//! datagram and every probe tick.
pub mod wire;
pub mod types;
pub mod messages;
pub mod storage;
pub mod agent;
pub mod arg_validator;
pub mod interface;
