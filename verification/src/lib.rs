//! An arithmetic coder: an entropy codec that compresses a stream of integer
//! symbols into a bitstream whose length approaches the Shannon entropy of the
//! sequence under an adaptive probability model.
//!
//! The core pieces are the finite-precision code interval ([`Range`]), the
//! adaptive symbol model backed by a Fenwick tree ([`Model`], built through
//! [`SourceModelBuilder`]), the coders themselves ([`ArithmeticEncoder`],
//! [`ArithmeticDecoder`]), and a facade that codes fixed-width integers bit by
//! bit ([`BinaryCoder`]). Bits are produced into and consumed from the
//! in-memory [`BitSink`] and [`BitSource`]; callers do any file or network
//! I/O themselves and hand the bytes over.

pub mod binary;
pub mod bits;
pub mod builder;
pub mod decoder;
pub mod encoder;
pub mod fenwick;
pub mod model;
pub mod range;

pub use binary::BinaryCoder;
pub use bits::BitSink;
pub use bits::BitSource;
pub use builder::EOFKind;
pub use builder::SourceModelBuilder;
pub use decoder::ArithmeticDecoder;
pub use decoder::DecodeError;
pub use encoder::ArithmeticEncoder;
pub use model::Model;
pub use range::Range;
