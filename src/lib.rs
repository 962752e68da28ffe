pub mod error;
pub mod transport;
pub mod protocol;
pub mod framebuffer;
pub mod discovery;
pub mod controller;
