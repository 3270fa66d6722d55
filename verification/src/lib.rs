//! The delivery-notification core of a message producer.
//!
//! A producer hands messages to a broker-client engine and learns later, one
//! completion at a time, what became of each of them. This crate holds the part
//! of that exchange which is pure bookkeeping: the request that a send turns
//! into, the table of messages that the engine has in custody, the report that a
//! completion turns into, and the decision a flush takes after each round of
//! polling. The engine itself stays outside: the caller performs each request
//! and hands back what the engine answered.

pub mod error;
pub mod context;
pub mod delivery;
pub mod report;
pub mod message;
pub mod registry;
pub mod producer;
