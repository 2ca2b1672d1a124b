//! A string value for a compiled language's runtime: short contents are held
//! inline in a fixed sixteen-byte layout, longer ones in a shared heap buffer.
//! Besides construction, clone and equality it offers concatenation,
//! splitting, prefix and suffix tests, joining, trimming, UTF-8 validation
//! with a precise account of the first problem, grapheme counting and decimal
//! formatting. A builder of quad vertex and index buffers rides along.
pub mod layout;
pub mod ops;
pub mod quad;
pub mod roc_str;
pub mod text;
pub mod trim;
pub mod utf8;

pub use layout::{small_str, ROC_STR_MEM_SIZE};
pub use quad::{QuadBufferBuilder, Vertex};
pub use roc_str::RocStr;
pub use utf8::{Utf8ByteProblem, Utf8Error};
