//! The extended header that may follow the header of a version 3 or
//! version 4 tag. The two versions lay it out differently.

use crate::errors::{parsed, DecodeFault, Error, ErrorKind};
use crate::io::{
    advanced, le_u16, le_u32, lemma_advanced_twice, read_u16, read_u32, read_u8, Bytestream,
};
use crate::restrictions::{restrictions_of, Restrictions};
use crate::syncsafe::{read_syncsafe_leq32, syncsafe_value};
use vstd::prelude::*;

verus! {

/// An extended header.
#[derive(Clone, Copy, Debug, PartialEq, Eq, Structural)]
pub struct ExtendedHeader {
    /// Version 3 only: the number of padding bytes.
    pub padding_size: Option<u32>,
    /// A CRC-32 of the tag, where one was stored.
    pub crc32: Option<u32>,
    /// Version 4 only: whether the tag updates an earlier one.
    pub is_update: Option<bool>,
    /// Version 4 only: the restrictions the tag was written under.
    pub restrictions: Option<Restrictions>,
}

/// The version 3 extended header at the front of `bytes`, with what follows
/// it, or why there is none.
///
/// It is a size of four bytes, flags of two and a padding size of four, each
/// a plain little-endian integer; where bit 0x8000 of the flags is set, a
/// CRC of four bytes follows. The size is not looked at.
pub open spec fn parse_extended_header_v3(bytes: Seq<u8>) -> Result<
    (ExtendedHeader, Seq<u8>),
    ErrorKind,
> {
    if bytes.len() < 10 {
        Err(ErrorKind::Io)
    } else {
        let flags = le_u16(bytes.subrange(4, 6)) as u16;
        let padding_size = Some(le_u32(bytes.subrange(6, 10)) as u32);
        if flags & 0x8000 != 0x8000 {
            Ok(
                (
                    ExtendedHeader {
                        padding_size,
                        crc32: None,
                        is_update: None,
                        restrictions: None,
                    },
                    bytes.skip(10),
                ),
            )
        } else if bytes.len() < 14 {
            Err(ErrorKind::Io)
        } else {
            Ok(
                (
                    ExtendedHeader {
                        padding_size,
                        crc32: Some(le_u32(bytes.subrange(10, 14)) as u32),
                        is_update: None,
                        restrictions: None,
                    },
                    bytes.skip(14),
                ),
            )
        }
    }
}

/// The "tag is an update" flag of a version 4 extended header, with what
/// follows its data. Where bit 0x40 of `flags` is set, a length byte of 1
/// stands in `bytes` and the flag is true; else nothing is read and it is
/// false.
pub open spec fn parse_is_update(flags: u8, bytes: Seq<u8>) -> Result<(bool, Seq<u8>), ErrorKind> {
    if flags & 0x40 != 0x40 {
        Ok((false, bytes))
    } else if bytes.len() < 1 {
        Err(ErrorKind::Io)
    } else if bytes[0] != 1 {
        Err(ErrorKind::Decode(DecodeFault::IsUpdateLength))
    } else {
        Ok((true, bytes.skip(1)))
    }
}

/// The CRC of a version 4 extended header, with what follows it. Where bit
/// 0x20 of `flags` is set, a length byte of 5 and a syncsafe integer of 32
/// bits stand in `bytes`; else nothing is read.
pub open spec fn parse_crc32(flags: u8, bytes: Seq<u8>) -> Result<(Option<u32>, Seq<u8>), ErrorKind> {
    if flags & 0x20 != 0x20 {
        Ok((None, bytes))
    } else if bytes.len() < 1 {
        Err(ErrorKind::Io)
    } else if bytes[0] != 5 {
        Err(ErrorKind::Decode(DecodeFault::Crc32Length))
    } else if bytes.len() < 6 {
        Err(ErrorKind::Io)
    } else {
        Ok((Some(syncsafe_value(bytes.subrange(1, 6), 32) as u32), bytes.skip(6)))
    }
}

/// The restrictions of a version 4 extended header, with what follows them.
/// Where bit 0x10 of `flags` is set, a length byte of 1 and the restrictions
/// byte stand in `bytes`; else nothing is read.
pub open spec fn parse_restrictions(flags: u8, bytes: Seq<u8>) -> Result<
    (Option<Restrictions>, Seq<u8>),
    ErrorKind,
> {
    if flags & 0x10 != 0x10 {
        Ok((None, bytes))
    } else if bytes.len() < 1 {
        Err(ErrorKind::Io)
    } else if bytes[0] != 1 {
        Err(ErrorKind::Decode(DecodeFault::RestrictionsLength))
    } else if bytes.len() < 2 {
        Err(ErrorKind::Io)
    } else {
        Ok((Some(restrictions_of(bytes[1])), bytes.skip(2)))
    }
}

/// The version 4 extended header at the front of `bytes`, with what follows
/// it, or why there is none.
///
/// It is a syncsafe size of 28 bits, which is not looked at, a byte that
/// gives the number of flag bytes and has to be 1, the flag byte, and then
/// the data of each flag that is set, in the order of their bits from 0x40
/// down. The first length byte that is not what it has to be ends the
/// decoding: behind it nothing can be placed any more.
pub open spec fn parse_extended_header_v4(bytes: Seq<u8>) -> Result<
    (ExtendedHeader, Seq<u8>),
    ErrorKind,
> {
    if bytes.len() < 5 {
        Err(ErrorKind::Io)
    } else if bytes[4] != 1 {
        Err(ErrorKind::Decode(DecodeFault::ExtendedFlagsLength))
    } else if bytes.len() < 6 {
        Err(ErrorKind::Io)
    } else {
        let flags = bytes[5];
        match parse_is_update(flags, bytes.skip(6)) {
            Err(kind) => Err(kind),
            Ok((is_update, after_update)) => match parse_crc32(flags, after_update) {
                Err(kind) => Err(kind),
                Ok((crc32, after_crc)) => match parse_restrictions(flags, after_crc) {
                    Err(kind) => Err(kind),
                    Ok((restrictions, rest)) => Ok(
                        (
                            ExtendedHeader {
                                padding_size: None,
                                crc32,
                                is_update: Some(is_update),
                                restrictions,
                            },
                            rest,
                        ),
                    ),
                },
            },
        }
    }
}

/// Reads the extended header of a version 3 tag.
pub fn read_id3v2p3_extended_header<B: Bytestream>(reader: &mut B) -> (r: Result<
    ExtendedHeader,
    Error,
>)
    ensures
        parsed(r, *old(reader), *final(reader), parse_extended_header_v3(old(reader).remaining())),
{
    let ghost input = reader.remaining();
    let _size = match read_u32(reader) {
        Ok(size) => size,
        Err(e) => {
            return Err(Error::IoError(e));
        },
    };
    let flags = match read_u16(reader) {
        Ok(flags) => flags,
        Err(e) => {
            return Err(Error::IoError(e));
        },
    };
    let padding_size = match read_u32(reader) {
        Ok(padding_size) => padding_size,
        Err(e) => {
            return Err(Error::IoError(e));
        },
    };
    proof {
        assert(input.skip(4).skip(2).skip(4) =~= input.skip(10));
    }
    let mut header = ExtendedHeader {
        padding_size: Some(padding_size),
        crc32: None,
        is_update: None,
        restrictions: None,
    };
    if (flags & 0x8000) == 0x8000 {
        let crc32 = match read_u32(reader) {
            Ok(crc32) => crc32,
            Err(e) => {
                return Err(Error::IoError(e));
            },
        };
        proof {
            assert(input.skip(10).skip(4) =~= input.skip(14));
        }
        header.crc32 = Some(crc32);
    }
    Ok(header)
}

/// Reads the data of the "tag is an update" flag, where the flag is set.
fn read_is_update<B: Bytestream>(reader: &mut B, flags: u8) -> (r: Result<bool, Error>)
    ensures
        parsed(r, *old(reader), *final(reader), parse_is_update(flags, old(reader).remaining())),
{
    if (flags & 0x40) == 0x40 {
        let len = match read_u8(reader) {
            Ok(len) => len,
            Err(e) => {
                return Err(Error::IoError(e));
            },
        };
        if len != 1 {
            return Err(Error::DecodeError(DecodeFault::IsUpdateLength));
        }
        Ok(true)
    } else {
        proof {
            assert(reader.remaining().skip(0) =~= reader.remaining());
        }
        Ok(false)
    }
}

/// Reads the data of the CRC flag, where the flag is set.
fn read_crc32<B: Bytestream>(reader: &mut B, flags: u8) -> (r: Result<Option<u32>, Error>)
    ensures
        parsed(r, *old(reader), *final(reader), parse_crc32(flags, old(reader).remaining())),
{
    if (flags & 0x20) == 0x20 {
        let ghost input = reader.remaining();
        let len = match read_u8(reader) {
            Ok(len) => len,
            Err(e) => {
                return Err(Error::IoError(e));
            },
        };
        if len != 5 {
            return Err(Error::DecodeError(DecodeFault::Crc32Length));
        }
        let crc32 = match read_syncsafe_leq32(reader, 32) {
            Ok(crc32) => crc32,
            Err(e) => {
                return Err(e);
            },
        };
        proof {
            assert(input.skip(1).take(5) =~= input.subrange(1, 6));
            assert(input.skip(1).skip(5) =~= input.skip(6));
        }
        Ok(Some(crc32))
    } else {
        proof {
            assert(reader.remaining().skip(0) =~= reader.remaining());
        }
        Ok(None)
    }
}

/// Reads the data of the restrictions flag, where the flag is set.
fn read_restrictions<B: Bytestream>(reader: &mut B, flags: u8) -> (r: Result<
    Option<Restrictions>,
    Error,
>)
    ensures
        parsed(r, *old(reader), *final(reader), parse_restrictions(flags, old(reader).remaining())),
{
    if (flags & 0x10) == 0x10 {
        let ghost input = reader.remaining();
        let len = match read_u8(reader) {
            Ok(len) => len,
            Err(e) => {
                return Err(Error::IoError(e));
            },
        };
        if len != 1 {
            return Err(Error::DecodeError(DecodeFault::RestrictionsLength));
        }
        let bits = match read_u8(reader) {
            Ok(bits) => bits,
            Err(e) => {
                return Err(Error::IoError(e));
            },
        };
        proof {
            assert(input.skip(1).skip(1) =~= input.skip(2));
        }
        Ok(Some(Restrictions::decode(bits)))
    } else {
        proof {
            assert(reader.remaining().skip(0) =~= reader.remaining());
        }
        Ok(None)
    }
}

/// Reads the extended header of a version 4 tag.
pub fn read_id3v2p4_extended_header<B: Bytestream>(reader: &mut B) -> (r: Result<
    ExtendedHeader,
    Error,
>)
    ensures
        parsed(r, *old(reader), *final(reader), parse_extended_header_v4(old(reader).remaining())),
{
    let ghost input = reader.remaining();
    let _size = match read_syncsafe_leq32(reader, 28) {
        Ok(size) => size,
        Err(e) => {
            return Err(e);
        },
    };
    let flags_len = match read_u8(reader) {
        Ok(len) => len,
        Err(e) => {
            return Err(Error::IoError(e));
        },
    };
    if flags_len != 1 {
        return Err(Error::DecodeError(DecodeFault::ExtendedFlagsLength));
    }
    let flags = match read_u8(reader) {
        Ok(flags) => flags,
        Err(e) => {
            return Err(Error::IoError(e));
        },
    };
    proof {
        assert(input.skip(4).skip(1).skip(1) =~= input.skip(6));
    }
    let ghost after_flags = *reader;
    let is_update = match read_is_update(reader, flags) {
        Ok(is_update) => is_update,
        Err(e) => {
            return Err(e);
        },
    };
    let ghost after_update = *reader;
    let crc32 = match read_crc32(reader, flags) {
        Ok(crc32) => crc32,
        Err(e) => {
            return Err(e);
        },
    };
    let ghost after_crc = *reader;
    let restrictions = match read_restrictions(reader, flags) {
        Ok(restrictions) => restrictions,
        Err(e) => {
            return Err(e);
        },
    };
    proof {
        let update_len = (after_flags.remaining().len() - after_update.remaining().len()) as nat;
        let crc_len = (after_update.remaining().len() - after_crc.remaining().len()) as nat;
        let restrictions_len = (after_crc.remaining().len() - reader.remaining().len()) as nat;
        lemma_advanced_twice(*old(reader), after_flags, after_update, 6, update_len);
        lemma_advanced_twice(*old(reader), after_update, after_crc, 6 + update_len, crc_len);
        lemma_advanced_twice(
            *old(reader),
            after_crc,
            *reader,
            6 + update_len + crc_len,
            restrictions_len,
        );
    }
    Ok(ExtendedHeader { padding_size: None, crc32, is_update: Some(is_update), restrictions })
}

} // verus!
