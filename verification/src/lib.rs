//! Core of an S3-style object-storage command-line client.
//!
//! The library covers the parts of the client that are pure logic: the
//! human-readable size codec, the directory emulation over a flat key
//! namespace, transfer planning (chunking, recursive upload and download,
//! move, copy, remove), configuration handling, and console formatting.
//! The network gateway itself is an external collaborator; its behaviour
//! is modelled here by an in-memory store with the same narrow interface.

pub mod client;
pub mod colors;
pub mod config;
pub mod errors;
pub mod keypath;
pub mod listing;
pub mod progress;
pub mod size;
pub mod store;
pub mod strutil;
pub mod transfer;
pub mod uploadplan;
