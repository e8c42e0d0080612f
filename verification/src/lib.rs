//! Shape-discriminating decoder: given one parsed payload and a fixed,
//! ordered list of candidate record shapes, decide which shape the payload
//! represents, without any tag field in the payload itself.

pub mod value;
pub mod shape;
pub mod error;
pub mod resolve;
pub mod codec;
pub mod laws;
