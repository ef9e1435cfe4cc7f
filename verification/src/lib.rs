//! Protocol, buffering and session logic of a local-network remote microphone:
//! one machine captures audio and multicasts it as framed PCM, others receive,
//! reorder and play it back.
//!
//! Everything here is sequential and free of I/O. Sockets, audio devices,
//! threads and the user interface live with the caller, which feeds the state
//! machines of this crate with bytes and clock readings and carries out the
//! actions they return.
//!
//! - [`types`], [`words`], [`frame`], [`text`]: the vocabulary of the wire.
//! - [`crypto`]: key derivation and the sealing of payloads.
//! - [`buffers`], [`audio`]: the capture pool and stream parameters.
//! - [`server`], [`registry`], [`control`]: the sending side.
//! - [`client`], [`receiver`], [`jitter`], [`playback`]: the receiving side.
//! - [`gui`], [`lang`], [`metrics`]: the panel's state, translations and
//!   shared gauges.

pub mod audio;
pub mod buffers;
pub mod client;
pub mod control;
pub mod crypto;
pub mod frame;
pub mod gui;
pub mod jitter;
pub mod lang;
pub mod metrics;
pub mod playback;
pub mod receiver;
pub mod registry;
pub mod server;
pub mod text;
pub mod types;
pub mod words;
