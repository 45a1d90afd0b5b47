//! Change-triggered screen streaming: the pixel buffers, the difference
//! score between two captures, the shared latest-frame state and the framing
//! of what is sent to polling clients.

pub mod capture;
pub mod diff;
pub mod geometry;
pub mod hash;
pub mod img;
pub mod store;
pub mod wire;
