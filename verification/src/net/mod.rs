//! Network packet construction: IPv4, UDP, ICMP and ARP.
pub mod ip;
pub mod udp;
pub mod icmp;
pub mod arp;
pub mod e1000;
