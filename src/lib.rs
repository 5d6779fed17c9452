//! Incremental hex-dump formatting: an encoder for bytes and a streaming
//! line formatter that renders offsets, hex columns and a printable sidebar.

pub mod dumper;
pub mod encoder;
pub mod format;
pub mod laws;
mod offset;

pub use dumper::{DumpError, HexDumper};
pub use encoder::{encode, to_char};
