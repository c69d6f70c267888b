//! # portspec
//!
//! Parse and manipulate TCP/UDP **port specifications** — the comma-separated
//! lists of ports and ranges familiar from tools like `nmap -p`
//! (`"22,80,443,1000-2000"`). Pure integer logic over `u16` port numbers: no
//! sockets, no DNS, no embedded data.
//!
//! Every operation is verified against a model: a port range is the set of
//! integers between its endpoints, a spec is the union of its ranges, and the
//! parsers and printers are stated character by character.
use vstd::prelude::*;

pub mod cli;
pub mod cover;
pub mod error;
pub mod laws;
pub mod presets;
pub mod proto;
pub mod range;
pub mod services;
pub mod spec;
pub mod tagged;
pub mod text;

pub use error::ParseError;
pub use presets::{TOP_1000_TCP_LIST, TOP_100_TCP_LIST, preset, top_1000_tcp, top_100_tcp};
pub use proto::Proto;
pub use range::{PortRange, PortRangeIter};
pub use services::{SERVICES_COUNT, Service, port_for, service_at, service_for, services, services_for};
pub use spec::PortSpec;
pub use tagged::TaggedSpec;
