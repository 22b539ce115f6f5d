//! Byte-exact comparison of two streams, chunk by chunk, locating the first
//! differing byte with a lane-wise bulk test.
pub mod chunk;
pub mod laws;
pub mod reader;
pub mod session;
