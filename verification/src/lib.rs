//! The logic of a light remote desktop client: what is captured, encoded, sent, shown and
//! injected, and who may do so when.
pub mod capture;
pub mod discovery;
pub mod framebuffer;
pub mod grid;
pub mod h264enc;
pub mod identity;
pub mod input;
pub mod json;
pub mod netscan;
pub mod nv12;
pub mod relay;
pub mod sysprofile;
pub mod text;
pub mod transport;
pub mod video;
pub mod wire;
