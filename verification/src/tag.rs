//! A tag as a whole: the header, the stream that its size bounds and that
//! is decoded on the way where the tag is unsynchronised, the extended
//! header, and the decisions of the loop that reads the frames.
//!
//! The frames themselves are not read here. Whoever reads them takes each
//! from [`Tag::reader`] and asks [`Tag::after_frame`] whether to go on.

use crate::buf_reader::buf_unread;
use crate::errors::{Error, ErrorKind};
use crate::extended::{
    parse_extended_header_v3,
    parse_extended_header_v4,
    read_id3v2p3_extended_header,
    read_id3v2p4_extended_header,
    ExtendedHeader,
};
use crate::header::{parse_header, read_id3v2_header, Header};
use crate::io::{advanced, Bytestream, FiniteStream};
use crate::scoped::{bounded, ScopedReader};
use crate::unsync::{raw_len, unsync_decode, UnsyncStream};
use symphonia_core::io::BufReader;
use vstd::prelude::*;

verus! {

/// The stream that the body of a tag is read from: bounded by the size the
/// header gave, and decoded where the whole tag is unsynchronised.
pub enum TagStream<'a> {
    /// The bytes as they are stored.
    Plain(ScopedReader<'a>),
    /// The bytes with the unsynchronisation scheme taken off.
    Unsync(UnsyncStream<ScopedReader<'a>>),
}

impl<'a> Bytestream for TagStream<'a> {
    open spec fn remaining(&self) -> Seq<u8> {
        match *self {
            TagStream::Plain(stream) => stream.remaining(),
            TagStream::Unsync(stream) => stream.remaining(),
        }
    }

    open spec fn byte_len(&self) -> nat {
        match *self {
            TagStream::Plain(stream) => stream.byte_len(),
            TagStream::Unsync(stream) => stream.byte_len(),
        }
    }

    open spec fn left_after(&self, count: nat) -> nat {
        match *self {
            TagStream::Plain(stream) => stream.left_after(count),
            TagStream::Unsync(stream) => stream.left_after(count),
        }
    }

    proof fn lemma_left_after(&self, count: nat) {
        match *self {
            TagStream::Plain(stream) => stream.lemma_left_after(count),
            TagStream::Unsync(stream) => stream.lemma_left_after(count),
        }
    }

    fn read_byte(&mut self) -> (r: Result<u8, std::io::Error>) {
        match self {
            TagStream::Plain(stream) => stream.read_byte(),
            TagStream::Unsync(stream) => stream.read_byte(),
        }
    }

    fn read_double_bytes(&mut self) -> (r: Result<[u8; 2], std::io::Error>) {
        match self {
            TagStream::Plain(stream) => stream.read_double_bytes(),
            TagStream::Unsync(stream) => stream.read_double_bytes(),
        }
    }

    fn read_triple_bytes(&mut self) -> (r: Result<[u8; 3], std::io::Error>) {
        match self {
            TagStream::Plain(stream) => stream.read_triple_bytes(),
            TagStream::Unsync(stream) => stream.read_triple_bytes(),
        }
    }

    fn read_quad_bytes(&mut self) -> (r: Result<[u8; 4], std::io::Error>) {
        match self {
            TagStream::Plain(stream) => stream.read_quad_bytes(),
            TagStream::Unsync(stream) => stream.read_quad_bytes(),
        }
    }

    fn read_buf_bytes(&mut self, buf: &mut [u8]) -> (r: Result<(), std::io::Error>) {
        match self {
            TagStream::Plain(stream) => stream.read_buf_bytes(buf),
            TagStream::Unsync(stream) => stream.read_buf_bytes(buf),
        }
    }

    fn ignore_bytes(&mut self, count: u64) -> (r: Result<(), std::io::Error>) {
        match self {
            TagStream::Plain(stream) => stream.ignore_bytes(count),
            TagStream::Unsync(stream) => stream.ignore_bytes(count),
        }
    }
}

impl<'a> FiniteStream for TagStream<'a> {
    fn bytes_available(&self) -> (n: u64) {
        match self {
            TagStream::Plain(stream) => stream.bytes_available(),
            TagStream::Unsync(stream) => stream.bytes_available(),
        }
    }

    fn len(&self) -> (n: u64) {
        match self {
            TagStream::Plain(stream) => stream.len(),
            TagStream::Unsync(stream) => stream.len(),
        }
    }

    fn bytes_read(&self) -> (n: u64) {
        match self {
            TagStream::Plain(stream) => stream.bytes_read(),
            TagStream::Unsync(stream) => stream.bytes_read(),
        }
    }

}

/// What the loop that reads the frames is told.
#[derive(Clone, Copy, Debug, PartialEq, Eq, Structural)]
pub enum FrameEvent {
    /// No frame has been read yet.
    Start,
    /// A frame has been read, and the stream then had this many bytes left
    /// before its bound.
    FrameRead { bytes_available: u64 },
}

/// What the loop that reads the frames does next.
#[derive(Clone, Copy, Debug, PartialEq, Eq, Structural)]
pub enum FrameAction {
    /// Read one frame with the frame reader of the tag's major version.
    ReadFrame,
    /// Read no more: what is left of the tag is padding.
    Stop,
}

/// The least number of bytes that a frame takes: 6 in version 2, 10 in
/// versions 3 and 4.
pub open spec fn min_frame_size(major_version: u8) -> u64 {
    if major_version == 2 {
        6
    } else {
        10
    }
}

/// What the frame loop does on `event`: the first frame is read whatever
/// the tag holds, and after a frame the next is read exactly if the stream
/// has at least a smallest frame's bytes left.
pub open spec fn frame_action_of(major_version: u8, event: FrameEvent) -> FrameAction {
    match event {
        FrameEvent::Start => FrameAction::ReadFrame,
        FrameEvent::FrameRead { bytes_available } => if bytes_available < min_frame_size(
            major_version,
        ) {
            FrameAction::Stop
        } else {
            FrameAction::ReadFrame
        },
    }
}

/// Decides what the loop that reads the frames of a tag does next.
///
/// After the first frame, a frame is only ever asked for while the stream
/// has the bytes of a smallest frame left, and the loop stops as soon as it
/// has not.
pub fn frame_action(major_version: u8, event: FrameEvent) -> (action: FrameAction)
    requires
        2 <= major_version <= 4,
    ensures
        action == frame_action_of(major_version, event),
        event is Start ==> action is ReadFrame,
        event matches FrameEvent::FrameRead { bytes_available } ==> (action is Stop
            <==> bytes_available < min_frame_size(major_version)),
        event matches FrameEvent::FrameRead { bytes_available } ==> (action is ReadFrame
            <==> bytes_available >= min_frame_size(major_version)),
{
    let min_frame_size: u64 = match major_version {
        2 => 6,
        _ => 10,
    };
    match event {
        FrameEvent::Start => FrameAction::ReadFrame,
        FrameEvent::FrameRead { bytes_available } => {
            if bytes_available < min_frame_size {
                FrameAction::Stop
            } else {
                FrameAction::ReadFrame
            }
        },
    }
}

/// A tag whose frames are about to be read, or are being read.
pub struct Tag<B: Bytestream + FiniteStream> {
    pub header: Header,
    /// The extended header, where the tag has one.
    pub extended_header: Option<ExtendedHeader>,
    /// The stream that the frames are read from.
    pub reader: B,
}

impl<B: Bytestream + FiniteStream> Tag<B> {
    /// Decides, after a frame was read from [`Tag::reader`], what to do
    /// next, by the bytes that the reader has left before its bound.
    pub fn after_frame(&self) -> (action: FrameAction)
        requires
            self.header.wf(),
        ensures
            action is ReadFrame <==> self.reader.left_after(0) >= min_frame_size(
                self.header.major_version,
            ),
            action is Stop <==> self.reader.left_after(0) < min_frame_size(
                self.header.major_version,
            ),
            action is Stop ==> self.reader.remaining().len() < min_frame_size(
                self.header.major_version,
            ),
    {
        proof {
            self.reader.lemma_left_after(0);
        }
        let bytes_available = self.reader.bytes_available();
        frame_action(self.header.major_version, FrameEvent::FrameRead { bytes_available })
    }
}

/// The extended header that `header` announces at the front of `bytes`,
/// with what follows it: none where the header announces none, else the one
/// of the header's major version.
pub open spec fn parse_body(header: Header, bytes: Seq<u8>) -> Result<
    (Option<ExtendedHeader>, Seq<u8>),
    ErrorKind,
> {
    if !header.has_extended_header {
        Ok((None, bytes))
    } else {
        let parsed = if header.major_version == 3 {
            parse_extended_header_v3(bytes)
        } else {
            parse_extended_header_v4(bytes)
        };
        match parsed {
            Ok((extended, rest)) => Ok((Some(extended), rest)),
            Err(kind) => Err(kind),
        }
    }
}

/// Reads what stands between the header of a tag and its frames: the
/// extended header, where `header` announces one. The tag that is returned
/// is ready for its first frame to be read.
pub fn read_id3v2_body<B: Bytestream + FiniteStream>(reader: B, header: &Header) -> (r: Result<
    Tag<B>,
    Error,
>)
    requires
        header.wf(),
    ensures
        match parse_body(*header, reader.remaining()) {
            Ok((extended, rest)) => {
                &&& r is Ok
                &&& r->Ok_0.header == *header
                &&& r->Ok_0.extended_header == extended
                &&& r->Ok_0.reader.remaining() == rest
                &&& rest.len() <= reader.remaining().len()
                &&& advanced(
                    reader,
                    r->Ok_0.reader,
                    (reader.remaining().len() - rest.len()) as nat,
                )
            },
            Err(kind) => r is Err && r->Err_0.spec_kind() == kind,
        },
        r is Ok && !header.has_extended_header ==> r->Ok_0.reader == reader,
{
    let mut reader = reader;
    let extended_header = if header.has_extended_header {
        let extended = if header.major_version == 3 {
            read_id3v2p3_extended_header(&mut reader)
        } else {
            read_id3v2p4_extended_header(&mut reader)
        };
        match extended {
            Ok(extended) => Some(extended),
            Err(e) => {
                return Err(e);
            },
        }
    } else {
        proof {
            assert(reader.remaining().skip(0) =~= reader.remaining());
        }
        None
    };
    Ok(Tag { header: *header, extended_header, reader })
}

/// What the stream of a tag's body gives: the bytes behind the header as
/// far as the header's size reaches, decoded where the header says that the
/// whole tag is unsynchronised. From version 4 on it never says so: there
/// each frame is unsynchronised by itself.
pub open spec fn tag_body(header: Header, after_header: Seq<u8>) -> Seq<u8> {
    let body = bounded(after_header, header.size as nat);
    if header.unsynchronisation && header.major_version < 4 {
        unsync_decode(body)
    } else {
        body
    }
}

/// The number of bytes before the bound of a tag's stream once `count` bytes
/// of the body are read: the header's size less the bytes taken from the
/// bounded stream, which where the body is decoded on the way are the bytes
/// read and the zero bytes dropped before them.
pub open spec fn body_left_after(header: Header, after_header: Seq<u8>, count: nat) -> nat {
    let taken = if header.unsynchronisation && header.major_version < 4 {
        raw_len(0x00, bounded(after_header, header.size as nat), count)
    } else {
        count
    };
    if taken <= header.size {
        (header.size - taken) as nat
    } else {
        0
    }
}

/// The header and the extended header of the tag that `bytes` start with,
/// and what its body then still holds: its frames and its padding.
pub open spec fn parse_tag(bytes: Seq<u8>) -> Result<
    (Header, Option<ExtendedHeader>, Seq<u8>),
    ErrorKind,
> {
    match parse_header(bytes) {
        Err(kind) => Err(kind),
        Ok(header) => match parse_body(header, tag_body(header, bytes.skip(10))) {
            Err(kind) => Err(kind),
            Ok((extended, rest)) => Ok((header, extended, rest)),
        },
    }
}

/// Reads a tag up to its first frame.
///
/// The header is read, and a bound of the header's size is put on what
/// follows, so that no read goes past the tag. Where the header of a
/// version 2 or version 3 tag says that the tag is unsynchronised, the
/// bounded stream is decoded as it is read. Then the extended header is
/// read, where there is one. Any error ends the reading, and nothing of the
/// tag is returned then.
pub fn read_id3v2<'a>(reader: BufReader<'a>) -> (r: Result<Tag<TagStream<'a>>, Error>)
    ensures
        match parse_tag(buf_unread(reader)) {
            Ok((header, extended, rest)) => {
                &&& r is Ok
                &&& r->Ok_0.header == header
                &&& r->Ok_0.extended_header == extended
                &&& r->Ok_0.reader.remaining() == rest
                &&& r->Ok_0.reader.byte_len() == header.size
                &&& rest.len() <= tag_body(header, buf_unread(reader).skip(10)).len()
                &&& forall|more: nat| #[trigger]
                    r->Ok_0.reader.left_after(more) == body_left_after(
                        header,
                        buf_unread(reader).skip(10),
                        (tag_body(header, buf_unread(reader).skip(10)).len() - rest.len()
                            + more) as nat,
                    )
            },
            Err(kind) => r is Err && r->Err_0.spec_kind() == kind,
        },
        r is Ok ==> r->Ok_0.header.wf(),
{
    let mut reader = reader;
    let header = match read_id3v2_header(&mut reader) {
        Ok(header) => header,
        Err(e) => {
            return Err(e);
        },
    };
    let scoped = ScopedReader::new(reader, header.size as u64);
    let stream = if header.unsynchronisation && header.major_version < 4 {
        TagStream::Unsync(UnsyncStream::new(scoped))
    } else {
        TagStream::Plain(scoped)
    };
    read_id3v2_body(stream, &header)
}

/// Reads the tag that `bytes` start with, up to its first frame: what
/// [`read_id3v2`] does with a reader at the front of `bytes`.
pub fn read_id3v2_bytes<'a>(bytes: &'a [u8]) -> (r: Result<Tag<TagStream<'a>>, Error>)
    ensures
        match parse_tag(bytes@) {
            Ok((header, extended, rest)) => {
                &&& r is Ok
                &&& r->Ok_0.header == header
                &&& r->Ok_0.extended_header == extended
                &&& r->Ok_0.reader.remaining() == rest
                &&& r->Ok_0.reader.byte_len() == header.size
                &&& rest.len() <= tag_body(header, bytes@.skip(10)).len()
                &&& forall|more: nat| #[trigger]
                    r->Ok_0.reader.left_after(more) == body_left_after(
                        header,
                        bytes@.skip(10),
                        (tag_body(header, bytes@.skip(10)).len() - rest.len() + more) as nat,
                    )
            },
            Err(kind) => r is Err && r->Err_0.spec_kind() == kind,
        },
        r is Ok ==> r->Ok_0.header.wf(),
{
    read_id3v2(BufReader::new(bytes))
}

} // verus!
