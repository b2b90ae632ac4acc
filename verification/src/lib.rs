//! Target resolution and probe bookkeeping for a TCP connectivity probe.
//!
//! The resolver turns the textual arguments of a run (hosts, ports and an
//! optional timeout) into the targets to probe, or says why they are
//! refused. A probe run then hands out one connection attempt after the
//! other, host by host and port by port, and classifies what the caller
//! reports of each attempt as open or closed. The library itself never
//! touches the network.

pub mod address;
pub mod block;
pub mod error;
pub mod hosts;
pub mod ports;
pub mod probe;
pub mod resolver;
pub mod text;
pub mod timeout;
