//! Core logic of a serial bridge for a truSDX transceiver: CAT command
//! handling, audio frame codecs, the serial demultiplexing state machine,
//! and the rigctl-style control protocol.

pub mod audio;
pub mod bridge;
pub mod cat;
pub mod rigctl;
pub mod state;
pub mod trusdx;
