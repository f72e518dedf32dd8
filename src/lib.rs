//! Parser for the kernel's IPv4 routing table, as exposed in `/proc/net/route`.
//!
//! The table is a header line followed by one whitespace-separated line per
//! route. Each route line names an interface, then the destination and the
//! gateway as eight hex digits holding the address bytes in reverse order.
use vstd::prelude::*;

pub mod errors;
pub mod ip;
pub mod laws;
pub mod route;

pub use errors::{ParseHexError, RouteError};
pub use ip::{parse_ip, Ipv4};
pub use route::{parse_line, parse_proc_net_route, Route};

verus! {

} // verus!
