//! A bridge between OpenAI-style chat requests and a length-framed binary
//! chat protocol: request flattening and framing, and recovery of text from
//! the backend's binary response chunks.

pub mod chunk;
pub mod flatten;
pub mod frame;
pub mod model;
pub mod reassemble;
pub mod request;
pub mod respond;
pub mod text;

