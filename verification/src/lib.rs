//! lanmap: the logic of a LAN scanner with a terminal dashboard — what to
//! probe, how results and the ARP cache change the host list, vendor
//! lookup, and what the dashboard shows.

pub mod text;
pub mod ipv4;
pub mod oui;
pub mod mac;
pub mod arp;
pub mod iface;
pub mod scanner;
pub mod view;
pub mod export;
