//! Streaming GDSII reader, parser and writer.
pub mod bytes;
pub mod canonical;
pub mod events;
pub mod fields;
pub mod float;
pub mod parsed;
pub mod parser;
pub mod reader;
pub mod roundtrip;
pub mod types;
pub mod wellformed;
pub mod writer;

pub use float::{GdsEightByteReal, GdsFourByteReal, NotRepresentable, RealParts};
pub use types::{DataType, GdsVersion, RecordHeader, RecordType, MAX_XY_POINTS_PER_RECORD};
