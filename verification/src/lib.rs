//! An immutable, cheaply sliceable blob of bytes, after the `Blob` of the web
//! platform.
//!
//! A [`Blob`] shows a window of a shared byte arena. Slicing narrows the
//! window and shares the arena; decoding reads the window as UTF-8 text and,
//! if the blob asks for it, rewrites the line terminators to the convention
//! of the host with [`normalize_line_endings`].
//!
//! Contracts speak of a blob through its view, the bytes it shows, and of a
//! text through its characters.

pub mod blob;
pub mod decode;
pub mod encoding;
pub mod error;
pub mod normalize;
pub mod options;
pub mod typed_array;
pub mod window;

pub use crate::blob::Blob;
pub use crate::error::BlobError;
pub use crate::normalize::{normalize_line_endings, Newline};
pub use crate::options::{BlobOptions, LineEndings};
pub use crate::window::BufferWindow;
