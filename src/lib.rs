//! A peer-to-peer message bus over UDP multicast: the wire codec, the
//! compression envelope, the intake queue and the pipeline's decisions.

pub mod base64_text;
pub mod cli;
pub mod compression;
pub mod message;
pub mod message_handler;
pub mod network;
pub mod processor;
pub mod protobuf;
