//! Virtual network topologies for testing peer-to-peer nodes: address
//! ranges, networks, machines, NAT routes with a declared behaviour,
//! namespace entry and readiness waiting, each with its rules proved.

pub mod addr;
pub mod behavior;
pub mod probe;
pub mod provision;
pub mod readiness;
pub mod text;
pub mod topology;

pub use addr::Ipv4Range;
pub use behavior::{Dependence, NatBehavior, NatClass};
pub use provision::Nat;
pub use readiness::{GateStep, ReadinessGate, ReadinessPolicy, Strategy, TimeoutError};
pub use topology::{
    MachineId, NatRoute, NetworkId, Node, ProcessError, SimError, Simulator, TopologyError,
};
