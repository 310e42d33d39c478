//! Logic of a DHCP diagnosis tool for local networks: finding the DHCP servers,
//! resolving their Ethernet addresses, and detecting loops.

pub mod addr;
pub mod arp;
pub mod channels;
pub mod dhcp;
pub mod draw;
pub mod interfaces;
pub mod looptest;
pub mod panel;
pub mod receiver;
pub mod scan;
pub mod scan_laws;
pub mod servers;
pub mod step_laws;
pub mod steps;
pub mod text;
pub mod wire;
