pub mod quic_client;
pub mod socks5;
pub mod tcp_client;
pub mod tcpmux_client;
