//! The daemon: what each role decides, in what order, and on what evidence.

pub mod chat;
pub mod double;
pub mod generate;
pub mod host;
pub mod master;
pub mod node;
pub mod pairing_session;
pub mod plan;
pub mod resolve;
pub mod runtime;
pub mod startup;
pub mod worker;
