//! Keeping a marked block of text in step across files, and the raw pixel
//! formats of an image converter.
//!
//! - `syncer`: recognising marker lines, locating a file's marked region,
//!   extracting it from source files and splicing it into destination files.
//! - `laws`: what holds across calls (source order, idempotent splicing, ...).
//! - `staging`: names of the per-run staging file.
//! - `text`: trimming and splitting lines.
//! - `convert`, `pixels`, `numbers`: pixel layouts, file kinds, and reading
//!   pixels from text.

pub mod text;
pub mod syncer;
pub mod staging;
pub mod laws;
pub mod convert;
pub mod numbers;
pub mod pixels;

pub use convert::BinFileFormat;
pub use convert::Convertor;
pub use convert::ImageConverter;
pub use syncer::FromFileType;
pub use syncer::Syncer;
