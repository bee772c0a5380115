//! A verified client library for a distributed-ledger command-line tool.
//!
//! The heart of the crate is the typed call-argument codec: it turns
//! human-written JSON descriptions of smart-contract call arguments into the
//! compact binary wire format the contract runtime consumes, and decodes such
//! byte buffers back into readable text, either against a single type name or
//! against a nested schema.  Every rule of the wire format is stated as a
//! specification and the executable code is proved against it.

pub mod text;
pub mod wire;
pub mod typedesc;
pub mod values;
pub mod textparse;
pub mod encode;
pub mod decode;
pub mod render;
pub mod json;
pub mod parser;
pub mod laws;
pub mod config;
pub mod keypair;
pub mod command;
pub mod display_types;
