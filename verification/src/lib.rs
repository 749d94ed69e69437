//! Verified core of a bonding tunnel: payload sealing, framing, traffic
//! classification, rate limiting and the decisions of the relays around them.
pub mod accel;
pub mod dns;
pub mod framed;
pub mod gui;
pub mod hex;
pub mod limiter;
pub mod packet;
pub mod qos;
pub mod relay;
pub mod speedtest;
pub mod text;
pub mod tun_gateway;
