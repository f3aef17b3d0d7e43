use id3v2::{
    read_id3v2p3_extended_header, read_id3v2p4_extended_header, Bytestream, DecodeFault,
    ErrorKind, ExtendedHeader, ImageEncodingRestriction, ImageSizeRestriction, Restrictions,
    TagSizeRestriction, TextEncodingRestriction, TextFieldSize,
};
use symphonia_core::io::BufReader;

fn read_v3(bytes: &[u8]) -> Result<ExtendedHeader, ErrorKind> {
    let mut reader = BufReader::new(bytes);
    read_id3v2p3_extended_header(&mut reader).map_err(|e| e.kind())
}

fn read_v4(bytes: &[u8]) -> Result<ExtendedHeader, ErrorKind> {
    let mut reader = BufReader::new(bytes);
    read_id3v2p4_extended_header(&mut reader).map_err(|e| e.kind())
}

#[test]
fn extended_v3_without_crc() {
    let bytes = [6, 0, 0, 0, 0x00, 0x00, 0x34, 0x12, 0x00, 0x00, 0xee];
    let mut reader = BufReader::new(&bytes);
    let header = read_id3v2p3_extended_header(&mut reader).unwrap();
    assert_eq!(
        header,
        ExtendedHeader {
            padding_size: Some(0x1234),
            crc32: None,
            is_update: None,
            restrictions: None,
        }
    );
    assert_eq!(reader.read_byte().unwrap(), 0xee);
}

#[test]
fn extended_v3_with_crc() {
    // The flags are a little-endian integer: bit 0x8000 is the top bit of their second byte.
    let bytes = [10, 0, 0, 0, 0x00, 0x80, 1, 0, 0, 0, 0x78, 0x56, 0x34, 0x12, 0xee];
    let mut reader = BufReader::new(&bytes);
    let header = read_id3v2p3_extended_header(&mut reader).unwrap();
    assert_eq!(
        header,
        ExtendedHeader {
            padding_size: Some(1),
            crc32: Some(0x1234_5678),
            is_update: None,
            restrictions: None,
        }
    );
    assert_eq!(reader.read_byte().unwrap(), 0xee);
}

#[test]
fn extended_v3_other_flag_bits_bring_no_crc() {
    let bytes = [6, 0, 0, 0, 0xff, 0x7f, 0, 0, 0, 1];
    assert_eq!(
        read_v3(&bytes),
        Ok(ExtendedHeader {
            padding_size: Some(0x0100_0000),
            crc32: None,
            is_update: None,
            restrictions: None,
        })
    );
}

#[test]
fn extended_v3_short_input_is_an_io_error() {
    let bytes = [10, 0, 0, 0, 0x00, 0x80, 1, 0, 0, 0, 0x78, 0x56, 0x34, 0x12];
    for len in 0..14 {
        assert_eq!(read_v3(&bytes[..len]), Err(ErrorKind::Io));
    }
    assert!(read_v3(&bytes).is_ok());
}

#[test]
fn extended_v4_no_flags() {
    let bytes = [0, 0, 0, 6, 1, 0x00, 0xee];
    let mut reader = BufReader::new(&bytes);
    let header = read_id3v2p4_extended_header(&mut reader).unwrap();
    assert_eq!(
        header,
        ExtendedHeader {
            padding_size: None,
            crc32: None,
            is_update: Some(false),
            restrictions: None,
        }
    );
    assert_eq!(reader.read_byte().unwrap(), 0xee);
}

#[test]
fn extended_v4_flag_length_must_be_1() {
    assert_eq!(
        read_v4(&[0, 0, 0, 6, 2, 0x00, 0x00]),
        Err(ErrorKind::Decode(DecodeFault::ExtendedFlagsLength))
    );
    assert_eq!(
        read_v4(&[0, 0, 0, 6, 0]),
        Err(ErrorKind::Decode(DecodeFault::ExtendedFlagsLength))
    );
}

#[test]
fn extended_v4_is_update() {
    let header = read_v4(&[0, 0, 0, 7, 1, 0x40, 1]).unwrap();
    assert_eq!(header.is_update, Some(true));
    assert_eq!(header.crc32, None);
    assert_eq!(header.restrictions, None);
    assert_eq!(header.padding_size, None);
}

#[test]
fn extended_v4_is_update_with_length_2_is_a_decode_error() {
    assert_eq!(
        read_v4(&[0, 0, 0, 7, 1, 0x40, 2]),
        Err(ErrorKind::Decode(DecodeFault::IsUpdateLength))
    );
    assert_eq!(
        read_v4(&[0, 0, 0, 7, 1, 0x40, 0]),
        Err(ErrorKind::Decode(DecodeFault::IsUpdateLength))
    );
}

#[test]
fn extended_v4_crc() {
    let header = read_v4(&[0, 0, 0, 12, 1, 0x20, 5, 0x0f, 0x7f, 0x7f, 0x7f, 0x7f]).unwrap();
    assert_eq!(header.crc32, Some(0xffff_ffff));
    assert_eq!(header.is_update, Some(false));
    let header = read_v4(&[0, 0, 0, 12, 1, 0x20, 5, 0x00, 0x00, 0x00, 0x02, 0x01]).unwrap();
    assert_eq!(header.crc32, Some(257));
}

#[test]
fn extended_v4_crc_length_must_be_5() {
    assert_eq!(
        read_v4(&[0, 0, 0, 12, 1, 0x20, 4, 0x0f, 0x7f, 0x7f, 0x7f, 0x7f]),
        Err(ErrorKind::Decode(DecodeFault::Crc32Length))
    );
}

#[test]
fn extended_v4_restrictions() {
    let header = read_v4(&[0, 0, 0, 8, 1, 0x10, 1, 0b1001_0110]).unwrap();
    assert_eq!(
        header.restrictions,
        Some(Restrictions {
            tag_size: TagSizeRestriction::Max32Frames40KiB,
            text_encoding: TextEncodingRestriction::Unrestricted,
            text_field_size: TextFieldSize::Max128Characters,
            image_encoding: ImageEncodingRestriction::PngOrJpegOnly,
            image_size: ImageSizeRestriction::LessThan64x64,
        })
    );
}

#[test]
fn extended_v4_restrictions_length_must_be_1() {
    assert_eq!(
        read_v4(&[0, 0, 0, 8, 1, 0x10, 2, 0x00]),
        Err(ErrorKind::Decode(DecodeFault::RestrictionsLength))
    );
}

#[test]
fn extended_v4_all_flags_in_order() {
    let bytes = [
        0, 0, 0, 15, 1, 0x70, // size, flag length, flags
        1, // is update
        5, 0x00, 0x00, 0x00, 0x00, 0x2a, // crc
        1, 0xff, // restrictions
        0xee,
    ];
    let mut reader = BufReader::new(&bytes);
    let header = read_id3v2p4_extended_header(&mut reader).unwrap();
    assert_eq!(
        header,
        ExtendedHeader {
            padding_size: None,
            crc32: Some(42),
            is_update: Some(true),
            restrictions: Some(Restrictions {
                tag_size: TagSizeRestriction::Max32Frames4KiB,
                text_encoding: TextEncodingRestriction::Utf8OrIso88591,
                text_field_size: TextFieldSize::Max30Characters,
                image_encoding: ImageEncodingRestriction::PngOrJpegOnly,
                image_size: ImageSizeRestriction::Exactly64x64,
            }),
        }
    );
    assert_eq!(reader.read_byte().unwrap(), 0xee);
}

#[test]
fn extended_v4_first_bad_length_decides() {
    // Update length is fine, CRC length is not, restrictions length is not either.
    assert_eq!(
        read_v4(&[0, 0, 0, 15, 1, 0x70, 1, 6, 0, 0, 0, 0, 0, 9, 0]),
        Err(ErrorKind::Decode(DecodeFault::Crc32Length))
    );
    assert_eq!(
        read_v4(&[0, 0, 0, 15, 1, 0x70, 3, 6, 0, 0, 0, 0, 0, 9, 0]),
        Err(ErrorKind::Decode(DecodeFault::IsUpdateLength))
    );
}

#[test]
fn extended_v4_short_input_is_an_io_error() {
    let bytes = [0, 0, 0, 15, 1, 0x70, 1, 5, 0, 0, 0, 0, 0x2a, 1, 0xff];
    for len in 0..bytes.len() {
        assert_eq!(read_v4(&bytes[..len]), Err(ErrorKind::Io));
    }
    assert!(read_v4(&bytes).is_ok());
}

#[test]
fn restrictions_tag_size() {
    assert_eq!(Restrictions::decode(0x00).tag_size, TagSizeRestriction::Max128Frames1024KiB);
    assert_eq!(Restrictions::decode(0x40).tag_size, TagSizeRestriction::Max64Frames128KiB);
    assert_eq!(Restrictions::decode(0x80).tag_size, TagSizeRestriction::Max32Frames40KiB);
    assert_eq!(Restrictions::decode(0xc0).tag_size, TagSizeRestriction::Max32Frames4KiB);
}

#[test]
fn restrictions_text_encoding_goes_by_bit_0x40() {
    assert_eq!(Restrictions::decode(0x00).text_encoding, TextEncodingRestriction::Unrestricted);
    assert_eq!(Restrictions::decode(0x20).text_encoding, TextEncodingRestriction::Unrestricted);
    assert_eq!(Restrictions::decode(0x80).text_encoding, TextEncodingRestriction::Unrestricted);
    assert_eq!(Restrictions::decode(0x40).text_encoding, TextEncodingRestriction::Utf8OrIso88591);
    assert_eq!(Restrictions::decode(0xc0).text_encoding, TextEncodingRestriction::Utf8OrIso88591);
}

#[test]
fn restrictions_text_field_size() {
    assert_eq!(Restrictions::decode(0x00).text_field_size, TextFieldSize::Unrestricted);
    assert_eq!(Restrictions::decode(0x08).text_field_size, TextFieldSize::Max1024Characters);
    assert_eq!(Restrictions::decode(0x10).text_field_size, TextFieldSize::Max128Characters);
    assert_eq!(Restrictions::decode(0x18).text_field_size, TextFieldSize::Max30Characters);
}

#[test]
fn restrictions_image_encoding() {
    assert_eq!(Restrictions::decode(0x00).image_encoding, ImageEncodingRestriction::Unrestricted);
    assert_eq!(Restrictions::decode(0x04).image_encoding, ImageEncodingRestriction::PngOrJpegOnly);
}

#[test]
fn restrictions_image_size() {
    assert_eq!(Restrictions::decode(0x00).image_size, ImageSizeRestriction::Unrestricted);
    assert_eq!(Restrictions::decode(0x01).image_size, ImageSizeRestriction::LessThan256x256);
    assert_eq!(Restrictions::decode(0x02).image_size, ImageSizeRestriction::LessThan64x64);
    assert_eq!(Restrictions::decode(0x03).image_size, ImageSizeRestriction::Exactly64x64);
}

#[test]
fn restrictions_fields_do_not_touch_each_other() {
    let all = Restrictions::decode(0x20);
    assert_eq!(all.tag_size, TagSizeRestriction::Max128Frames1024KiB);
    assert_eq!(all.text_field_size, TextFieldSize::Unrestricted);
    assert_eq!(all.image_encoding, ImageEncodingRestriction::Unrestricted);
    assert_eq!(all.image_size, ImageSizeRestriction::Unrestricted);
}
