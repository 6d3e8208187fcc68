//! A finder of the devices on the local network: what is known of each, how the
//! sources of that knowledge are read, and the live picker over it.

pub mod arp;
pub mod cache;
pub mod device;
pub mod discover;
pub mod laws;
pub mod mac;
pub mod mdns;
pub mod picker;
pub mod ports;
pub mod ssdp;
pub mod subnet;
