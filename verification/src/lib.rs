//! A small personal task tracker: todo records kept as a JSON array in a
//! single store file. This crate holds the verified logic: the store format
//! (encoding and parsing), the load/save decisions, the record operations,
//! and the command-line grammar. File and environment access live with the
//! caller, which hands plain values in and takes plain values back.
pub mod cli;
pub mod decode;
pub mod encode;
pub mod format;
pub mod model;
pub mod ops;
pub mod persistence;
pub mod roundtrip;
pub mod text;
