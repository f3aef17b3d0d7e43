//! The ten bytes that start a tag: the marker "ID3", a version of two bytes,
//! a byte of flags, and the size of what follows as a syncsafe integer.

use crate::errors::{DecodeFault, Error, ErrorKind, UnsupportedFeature};
use crate::io::{advanced, read_u8, Bytestream};
use crate::syncsafe::{read_syncsafe_leq32, syncsafe_value};
use vstd::prelude::*;

verus! {

/// The header of a tag.
#[derive(Clone, Copy, Debug, PartialEq, Eq, Structural)]
pub struct Header {
    pub major_version: u8,
    pub minor_version: u8,
    /// The number of bytes of the tag behind this header, a footer not
    /// counted.
    pub size: u32,
    pub unsynchronisation: bool,
    pub has_extended_header: bool,
    pub experimental: bool,
    pub has_footer: bool,
}

impl Header {
    /// What holds of every header that was decoded: a version this crate
    /// handles, a size of 28 bits, and no flag that the version does not
    /// define.
    pub open spec fn wf(&self) -> bool {
        &&& 2 <= self.major_version <= 4
        &&& self.minor_version != 0xff
        &&& self.size < 0x1000_0000
        &&& self.has_extended_header ==> self.major_version >= 3
        &&& self.experimental ==> self.major_version >= 3
        &&& self.has_footer ==> self.major_version >= 4
    }
}

/// A flag counts as set when its bit is set and the version is at least the
/// one that defined the bit.
pub open spec fn flag_applies(flags: u8, mask: u8, major_version: u8, since: u8) -> bool {
    major_version >= since && flags & mask != 0
}

/// The header that the fields behind the marker make, or what is wrong with
/// them. The first fault in this order is the one reported: a version byte
/// of 0xFF, a major version other than 2, 3 and 4, the compression bit in a
/// version 2 tag.
pub open spec fn header_of(major_version: u8, minor_version: u8, flags: u8, size: u32) -> Result<
    Header,
    ErrorKind,
> {
    if major_version == 0xff || minor_version == 0xff {
        Err(ErrorKind::Decode(DecodeFault::InvalidVersion))
    } else if major_version < 2 || major_version > 4 {
        Err(ErrorKind::Unsupported(UnsupportedFeature::Version))
    } else if major_version == 2 && flags & 0x40 != 0 {
        Err(ErrorKind::Unsupported(UnsupportedFeature::Compression))
    } else {
        Ok(
            Header {
                major_version,
                minor_version,
                size,
                unsynchronisation: flag_applies(flags, 0x80, major_version, 2),
                has_extended_header: flag_applies(flags, 0x40, major_version, 3),
                experimental: flag_applies(flags, 0x20, major_version, 3),
                has_footer: flag_applies(flags, 0x10, major_version, 4),
            },
        )
    }
}

/// The header at the front of `bytes`, or why there is none. The marker is
/// looked at as soon as three bytes are there; the rest needs all ten.
pub open spec fn parse_header(bytes: Seq<u8>) -> Result<Header, ErrorKind> {
    if bytes.len() < 3 {
        Err(ErrorKind::Io)
    } else if !(bytes[0] == 0x49 && bytes[1] == 0x44 && bytes[2] == 0x33) {
        Err(ErrorKind::Unsupported(UnsupportedFeature::NotId3v2))
    } else if bytes.len() < 10 {
        Err(ErrorKind::Io)
    } else {
        header_of(bytes[3], bytes[4], bytes[5], syncsafe_value(bytes.subrange(6, 10), 28) as u32)
    }
}

/// Whether the flag under `mask` is set and defined from version `since` on.
fn flag_set(flags: u8, mask: u8, major_version: u8, since: u8) -> (set: bool)
    ensures
        set == flag_applies(flags, mask, major_version, since),
{
    major_version >= since && flags & mask != 0
}

impl Header {
    /// Whether this header is one that was, or could have been, decoded.
    pub fn is_wf(&self) -> (ok: bool)
        ensures
            ok == self.wf(),
    {
        2 <= self.major_version && self.major_version <= 4 && self.minor_version != 0xff
            && self.size < 0x1000_0000 && (!self.has_extended_header || self.major_version >= 3)
            && (!self.experimental || self.major_version >= 3) && (!self.has_footer
            || self.major_version >= 4)
    }

    /// Checks the version and the flags read from a header and makes the
    /// header of them. A flag bit that the version does not define is left
    /// out, with one exception: bit 0x40 of a version 2 tag asks for a
    /// compression that was never defined, and such a tag is refused.
    pub fn from_fields(major_version: u8, minor_version: u8, flags: u8, size: u32) -> (r: Result<
        Header,
        Error,
    >)
        ensures
            crate::errors::outcome(r) == header_of(major_version, minor_version, flags, size),
            r is Ok && size < 0x1000_0000 ==> r->Ok_0.wf(),
    {
        if major_version == 0xff || minor_version == 0xff {
            return Err(Error::DecodeError(DecodeFault::InvalidVersion));
        }
        if major_version < 2 || major_version > 4 {
            return Err(Error::Unsupported(UnsupportedFeature::Version));
        }
        if major_version == 2 && (flags & 0x40) != 0 {
            return Err(Error::Unsupported(UnsupportedFeature::Compression));
        }
        Ok(
            Header {
                major_version,
                minor_version,
                size,
                unsynchronisation: flag_set(flags, 0x80, major_version, 2),
                has_extended_header: flag_set(flags, 0x40, major_version, 3),
                experimental: flag_set(flags, 0x20, major_version, 3),
                has_footer: flag_set(flags, 0x10, major_version, 4),
            },
        )
    }
}

/// Reads the header of a tag.
///
/// Three bytes are read and held against the marker "ID3"; then the two
/// version bytes, the flags and the four bytes of the size are read, and
/// only then are version and flags checked. A header that is returned took
/// exactly ten bytes.
pub fn read_id3v2_header<B: Bytestream>(reader: &mut B) -> (r: Result<Header, Error>)
    ensures
        crate::errors::outcome(r) == parse_header(old(reader).remaining()),
        r is Ok ==> r->Ok_0.wf(),
        r is Ok ==> advanced(*old(reader), *final(reader), 10),
{
    let ghost input = reader.remaining();
    let marker = match reader.read_triple_bytes() {
        Ok(marker) => marker,
        Err(e) => {
            return Err(Error::IoError(e));
        },
    };
    if !(marker[0] == 0x49 && marker[1] == 0x44 && marker[2] == 0x33) {
        return Err(Error::Unsupported(UnsupportedFeature::NotId3v2));
    }
    let major_version = match read_u8(reader) {
        Ok(byte) => byte,
        Err(e) => {
            return Err(Error::IoError(e));
        },
    };
    let minor_version = match read_u8(reader) {
        Ok(byte) => byte,
        Err(e) => {
            return Err(Error::IoError(e));
        },
    };
    let flags = match read_u8(reader) {
        Ok(byte) => byte,
        Err(e) => {
            return Err(Error::IoError(e));
        },
    };
    proof {
        assert(reader.remaining() =~= input.skip(6));
    }
    let size = match read_syncsafe_leq32(reader, 28) {
        Ok(size) => size,
        Err(e) => {
            return Err(e);
        },
    };
    proof {
        assert(input.skip(6).take(4) =~= input.subrange(6, 10));
        assert(reader.remaining() =~= input.skip(10));
        vstd::arithmetic::power2::lemma2_to64();
        vstd::arithmetic::div_mod::lemma_mod_bound(
            crate::syncsafe::syncsafe_accumulate(input.subrange(6, 10)) as int,
            0x1000_0000,
        );
    }
    Header::from_fields(major_version, minor_version, flags, size)
}

} // verus!
