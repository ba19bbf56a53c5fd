//! Length-prefixed framing over a byte sink that may accept fewer bytes than it is offered.

pub mod encode;
pub mod framer;
pub mod inline;
pub mod laws;
pub mod sink;
pub mod writer;
