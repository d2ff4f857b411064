//! The mesh: who a device is, whom it trusts, and what travels between devices.

pub mod activation;
pub mod addr;
pub mod codec;
pub mod control;
pub mod digest;
pub mod discovery;
pub mod dispatch;
pub mod error;
pub mod identity;
pub mod mesh;
pub mod pairing;
pub mod probe;
pub mod roster;
pub mod rpc;
pub mod stream;
pub mod tls;
pub mod transport;
pub mod trust;

pub use activation::{NoShards, Step, StepResult};
pub use addr::{IpAddr, SocketAddr};
pub use control::{
    ControlHandler, EngineCapabilities, GpuDevice, Introduction, RefuseControl, Request, Response,
};
pub use discovery::{Advertisement, DiscoveredPeer, PeerEvent};
pub use error::Error;
pub use identity::{DeviceId, DeviceKey, PublicKey};
pub use mesh::Mesh;
pub use pairing::{Pairing, PairingCode};
pub use rpc::DenyRpc;
pub use stream::{StreamHeader, StreamKind};
pub use transport::{AcceptAnyPeer, PeerPolicy, Role, TrustedPeers};
pub use trust::{PairedPeer, TrustStore};
