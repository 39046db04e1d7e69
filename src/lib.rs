//! Frame composition for an addressable RGB LED strip: animation, region
//! overrides driven by directional inputs, brightness scaling, and encoding
//! into the pulse bytes of the one-wire LED protocol carried over SPI.

pub mod animation;
pub mod color;
pub mod encoder;
pub mod frame_loop;
pub mod layout;
pub mod region;
