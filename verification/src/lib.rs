//! Decoding of ID3v2 tags, versions 2.2 to 2.4: the tag header, the optional
//! extended header with its restrictions, syncsafe integers, and the
//! unsynchronisation scheme, in one pass over a buffer and as a stream.
//!
//! Bytes come from the in-memory readers of `symphonia_core`. A reader is
//! modelled by the sequence of bytes it has yet to deliver, and the contracts
//! of this crate are stated over such sequences.
//!
//! The frames of a tag are not decoded here. [`read_id3v2`] reads a tag up to
//! its first frame, and [`frame_action`] decides, frame after frame, whether
//! the one who reads the frames goes on.

pub mod buf_reader;
pub mod errors;
pub mod extended;
pub mod header;
pub mod io;
pub mod restrictions;
pub mod scoped;
pub mod syncsafe;
pub mod tag;
pub mod unsync;

pub use errors::{DecodeFault, Error, ErrorKind, UnsupportedFeature};
pub use extended::{read_id3v2p3_extended_header, read_id3v2p4_extended_header, ExtendedHeader};
pub use header::{read_id3v2_header, Header};
pub use io::{read_u16, read_u32, read_u8, Bytestream, FiniteStream};
pub use restrictions::{
    ImageEncodingRestriction, ImageSizeRestriction, Restrictions, TagSizeRestriction,
    TextEncodingRestriction, TextFieldSize,
};
pub use scoped::ScopedReader;
pub use syncsafe::read_syncsafe_leq32;
pub use tag::{
    frame_action, read_id3v2, read_id3v2_body, read_id3v2_bytes, FrameAction, FrameEvent, Tag,
    TagStream,
};
pub use unsync::{decode_unsynchronisation, UnsyncStream};
