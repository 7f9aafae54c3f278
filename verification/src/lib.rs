//! Route classification by destination address: a region table built from
//! IPv4 CIDR blocks, and a router that sends regional destinations directly
//! and relays every other IPv4 destination through an upstream SOCKS5 proxy.

pub mod cidr;
pub mod range;
pub mod region;
pub mod router;
pub mod table;
