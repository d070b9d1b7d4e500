//! A DHCPv4 / DHCPv6 server library: wire codecs, address pools, the
//! `dhcp.conf` configuration format and the decisions of both services.
//!
//! Everything here computes on plain values. Sockets, files and logging
//! belong to the program that uses the library.

pub mod calendar;
pub mod clock;
pub mod config;
pub mod dhcpv6;
pub mod leases;
pub mod monitor;
pub mod net;
pub mod number;
pub mod options;
pub mod packet;
pub mod pool6;
pub mod promises4;
pub mod promises6;
pub mod promises_config;
pub mod promises_leases;
pub mod promises_text;
pub mod promises_wire;
pub mod server;
pub mod service4;
pub mod service6;
pub mod text;
pub mod wire;
