//! Resource and animation decoding core of a retro game engine.
//!
//! The library reads an indexed archive container ("HQR"), decompresses
//! entries with an LZ-style codec ("LZS"), and decodes a chunked
//! full-motion-animation container ("FLA") frame by frame into an
//! indexed-color framebuffer with synchronized palette updates.
//!
//! All I/O and presentation stay with the caller: every function here works
//! on plain byte buffers and returns plain values.

pub mod error;
pub mod frame;
pub mod func;
pub mod global;
pub mod hqr;
pub mod lzs;
pub mod message;
pub mod palette;
pub mod playfla;
pub mod screen;
pub mod util;
pub mod wire;
