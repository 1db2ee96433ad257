//! Building blocks of a SOCKS5/HTTP proxy: buffers, wire formats and the
//! decisions taken on them, each stated and proved with Verus.

pub mod buf;
pub mod text;
pub mod bytes;
pub mod socks5;
pub mod ip;
pub mod url;
pub mod http;
pub mod counter;
pub mod dns;
pub mod proxy;
pub mod handshake;
pub mod cipher;
pub mod geoip;
pub mod config;
pub mod client;
pub mod utils;
pub mod box_buf;
pub mod rsocks;
pub mod controller;
pub mod relay;
pub mod fetch;
pub mod abp;
