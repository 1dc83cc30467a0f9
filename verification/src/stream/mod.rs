//! Tunnels over HTTP/3 streams and the endpoints that serve them.

pub mod addresspool;
pub mod capsule;
pub mod codec;
pub mod connect;
pub mod files;
pub mod ipendpoint;
pub mod iphistory;
pub mod iprequest;
pub mod iptunnel;
pub mod packet;
pub mod roundtrip;
pub mod udpendpoint;
