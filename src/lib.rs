//! Core of a forwarding DNS name server: the wire codec (names with
//! compression pointers, header, questions, resource records, EDNS(0) OPT),
//! the layered record repository and the per-request response pipeline.

pub mod common;
pub mod decoder;
pub mod encoder;
pub mod resource_data;
pub mod round_trip;
pub mod server;
pub mod storage;
pub mod transport;
pub mod utils;
