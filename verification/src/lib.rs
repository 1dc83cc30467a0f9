//! Verified core of a server and client for UDP over HTTP/3 (RFC 9298) and IP
//! over HTTP/3 (RFC 9484).

pub use crate::error::PsqError;
pub use crate::server::PsqServer;
pub use crate::stream::files::Files;
pub use crate::stream::ipendpoint::IpEndpoint;
pub use crate::stream::iptunnel::IpTunnel;
pub use crate::stream::udpendpoint::UdpEndpoint;

pub mod bigendian;
pub mod buffer;
pub mod error;
pub mod net;
pub mod qlog;
pub mod server;
pub mod stream;
pub mod table;
pub mod text;
