//! Audio fingerprinting for a live radio stream: spectral-peak signatures,
//! their binary encoding, recognition requests and the debounce state machine
//! that decides when a recognised track is announced.

pub mod signature;
pub mod spectral;
pub mod codec;
pub mod decoding;
pub mod recognition;
pub mod stability;
