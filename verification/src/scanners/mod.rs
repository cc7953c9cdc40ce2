//! The scanner models, and the frame types and streaming decode they share.

pub mod decode;
pub mod ls50;
pub mod ls9000ed;
