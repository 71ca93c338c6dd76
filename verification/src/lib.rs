//! A resource-safe ownership layer over a hardware-accelerated multimedia
//! codec and filter library.
//!
//! The crate models the native library's resources as explicit values: an
//! ordered option dictionary with its text (de)serialization, a codec
//! registry with descriptor lookup, the encode/decode session state machine
//! with its push/pull backpressure protocol, reference-counted buffers for
//! accelerator device connections and frame pools, and a filter graph with
//! its build/configure/run protocol. Every operation carries a contract
//! stating exactly when it succeeds, which error it returns otherwise, and
//! how it changes the state it touches.

pub mod avfilter;
pub mod buffer;
pub mod codec;
pub mod codec_context;
pub mod dict;
pub mod errors;
pub mod hw;
