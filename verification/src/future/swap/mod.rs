//! Reading, writing and seeking without blocking.

pub mod adapters;
pub mod assert_async;
pub mod buffer_reader;
pub mod buffer_writer;
pub mod cursor;
pub mod ext;
pub mod lines;
pub mod plain;
pub mod read;
pub mod traits;
pub mod vectored;
pub mod write;
