//! The columnar file format and the replicated write path of a time-series
//! storage engine.
//!
//! Values of a column are encoded into pages (`codec`, `page`), pages into
//! column groups and chunks (`chunk`), and a file ends with a footer that
//! carries a bloom filter over its series (`footer`, `bloom`). The write
//! path's decisions (`writer`) and the limited merge of batch readers
//! (`merge`) are state machines that a caller drives with real I/O.

pub mod bitset;
pub mod bloom;
pub mod checksum;
pub mod chunk;
pub mod codec;
pub mod endian;
pub mod error;
pub mod footer;
pub mod merge;
pub mod page;
pub mod schema;
pub mod statistics;
pub mod time_range;
pub mod writer;
