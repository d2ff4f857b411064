//! Pool the machines you already own: the rules of the Lattice daemon.

pub mod bytes;
pub mod daemon;
pub mod engine;
pub mod net;
pub mod table;
pub mod text;
