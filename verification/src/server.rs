pub mod tcp_server;
pub mod tcpmux_server;
