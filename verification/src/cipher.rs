pub mod suite;
pub mod noop;
pub mod partial;
pub mod strategy;
pub mod stream;
pub mod client;
pub mod params;
pub mod server;
