//! A binary serialization runtime: values are dumped to and loaded from a
//! fixed little-endian wire format. Scalars are written at their full static
//! width, text is NUL-terminated UTF-8, growable sequences carry an 8-byte
//! count, fixed arrays and tuples are written back to back with no framing,
//! and tagged unions carry a 4-byte ordinal tag.

pub mod err;
pub mod wire;
pub mod stream;
pub mod ext_io;
pub mod scalar;
pub mod text;
pub mod composite;
pub mod fixed;
pub mod sample;
pub mod tuples;
pub mod annotated;

pub use err::Error;
pub use err::ErrorKind;
pub use ext_io::Dump;
pub use ext_io::Load;
pub use ext_io::RoundTrip;
pub use ext_io::ArrayIter;
pub use stream::Sink;
pub use stream::Source;
