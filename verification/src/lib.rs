//! Fingerprinting of file trees: the checksum engine, the directory walker's
//! decisions, the shutdown protocol and the log line format.
//!
//! The library works on plain values. Reading directories and files, the worker
//! threads and the channel belong to the program that uses it.
//!
//! - `checksum`: CRC-64/ECMA-182 over a stream of chunks.
//! - `walker`: which entries of a listing are hashed and which are entered.
//! - `traversal`: what holds of a whole run of the walker.
//! - `tree`: what a run finds in a file tree of any shape.
//! - `dispatch`: the phases of a run and the one termination signal.
//! - `shutdown`: the dispatcher, the pool and the channel taken together.
//! - `record`: file records and their lines in the log.

pub mod checksum;
pub mod dispatch;
pub mod record;
pub mod shutdown;
pub mod traversal;
pub mod tree;
pub mod walker;
