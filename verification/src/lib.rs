//! Decoder for Yay0-compressed blocks embedded in a ROM image, together with
//! the fixed-layout headers found around them.

pub mod streams;
pub mod szp;
pub mod bytes;
pub mod frags;
pub mod jpeg;
pub mod laws;
pub mod search;
pub mod yay0;
