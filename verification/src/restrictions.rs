//! The restrictions that the writer of a version 4 tag kept to, packed into
//! one byte of the extended header.

use vstd::prelude::*;

verus! {

/// The most frames and the largest size a tag may have.
#[derive(Clone, Copy, Debug, PartialEq, Eq, Structural)]
pub enum TagSizeRestriction {
    Max128Frames1024KiB,
    Max64Frames128KiB,
    Max32Frames40KiB,
    Max32Frames4KiB,
}

/// The encodings that text may be stored in.
#[derive(Clone, Copy, Debug, PartialEq, Eq, Structural)]
pub enum TextEncodingRestriction {
    Unrestricted,
    Utf8OrIso88591,
}

/// The most characters a text field may hold.
#[derive(Clone, Copy, Debug, PartialEq, Eq, Structural)]
pub enum TextFieldSize {
    Unrestricted,
    Max1024Characters,
    Max128Characters,
    Max30Characters,
}

/// The encodings that images may be stored in.
#[derive(Clone, Copy, Debug, PartialEq, Eq, Structural)]
pub enum ImageEncodingRestriction {
    Unrestricted,
    PngOrJpegOnly,
}

/// The sizes that images may have.
#[derive(Clone, Copy, Debug, PartialEq, Eq, Structural)]
pub enum ImageSizeRestriction {
    Unrestricted,
    LessThan256x256,
    LessThan64x64,
    Exactly64x64,
}

/// The five restrictions of a tag.
#[derive(Clone, Copy, Debug, PartialEq, Eq, Structural)]
pub struct Restrictions {
    pub tag_size: TagSizeRestriction,
    pub text_encoding: TextEncodingRestriction,
    pub text_field_size: TextFieldSize,
    pub image_encoding: ImageEncodingRestriction,
    pub image_size: ImageSizeRestriction,
}

/// The tag size restriction: the two bits under 0xC0.
pub open spec fn tag_size_of(bits: u8) -> TagSizeRestriction {
    let field = (bits & 0xc0) >> 6;
    if field == 0 {
        TagSizeRestriction::Max128Frames1024KiB
    } else if field == 1 {
        TagSizeRestriction::Max64Frames128KiB
    } else if field == 2 {
        TagSizeRestriction::Max32Frames40KiB
    } else {
        TagSizeRestriction::Max32Frames4KiB
    }
}

/// The text encoding restriction: the bit under 0x40.
///
/// The bit is taken under the mask 0x40 and shifted down by five places, so
/// the field is 0 or 2 and never 1. It is read as a switch: 0 is no
/// restriction, and the one other value that can come up is the restriction.
pub open spec fn text_encoding_of(bits: u8) -> TextEncodingRestriction {
    let field = (bits & 0x40) >> 5;
    if field == 0 {
        TextEncodingRestriction::Unrestricted
    } else {
        TextEncodingRestriction::Utf8OrIso88591
    }
}

/// The text field size restriction: the two bits under 0x18.
pub open spec fn text_field_size_of(bits: u8) -> TextFieldSize {
    let field = (bits & 0x18) >> 3;
    if field == 0 {
        TextFieldSize::Unrestricted
    } else if field == 1 {
        TextFieldSize::Max1024Characters
    } else if field == 2 {
        TextFieldSize::Max128Characters
    } else {
        TextFieldSize::Max30Characters
    }
}

/// The image encoding restriction: the bit under 0x04.
pub open spec fn image_encoding_of(bits: u8) -> ImageEncodingRestriction {
    let field = (bits & 0x04) >> 2;
    if field == 0 {
        ImageEncodingRestriction::Unrestricted
    } else {
        ImageEncodingRestriction::PngOrJpegOnly
    }
}

/// The image size restriction: the two bits under 0x03.
pub open spec fn image_size_of(bits: u8) -> ImageSizeRestriction {
    let field = bits & 0x03;
    if field == 0 {
        ImageSizeRestriction::Unrestricted
    } else if field == 1 {
        ImageSizeRestriction::LessThan256x256
    } else if field == 2 {
        ImageSizeRestriction::LessThan64x64
    } else {
        ImageSizeRestriction::Exactly64x64
    }
}

/// The restrictions that a restrictions byte stands for.
pub open spec fn restrictions_of(bits: u8) -> Restrictions {
    Restrictions {
        tag_size: tag_size_of(bits),
        text_encoding: text_encoding_of(bits),
        text_field_size: text_field_size_of(bits),
        image_encoding: image_encoding_of(bits),
        image_size: image_size_of(bits),
    }
}

/// Every field of a restrictions byte is within the values its category
/// names: the fields of two bits are at most 3, the image encoding is 0 or
/// 1, and the text encoding is 0 or 2.
pub proof fn lemma_restriction_fields(bits: u8)
    by (bit_vector)
    ensures
        (bits & 0xc0) >> 6 <= 3,
        (bits & 0x40) >> 5 == 0 || (bits & 0x40) >> 5 == 2,
        (bits & 0x18) >> 3 <= 3,
        (bits & 0x04) >> 2 <= 1,
        bits & 0x03 <= 3,
{
}

impl Restrictions {
    /// Decodes a restrictions byte. Every byte stands for some restrictions.
    pub fn decode(bits: u8) -> (restrictions: Restrictions)
        ensures
            restrictions == restrictions_of(bits),
            restrictions.tag_size is Max32Frames4KiB <==> (bits & 0xc0) >> 6 == 3,
            restrictions.text_encoding is Utf8OrIso88591 <==> (bits & 0x40) >> 5 == 2,
            restrictions.text_field_size is Max30Characters <==> (bits & 0x18) >> 3 == 3,
            restrictions.image_encoding is PngOrJpegOnly <==> (bits & 0x04) >> 2 == 1,
            restrictions.image_size is Exactly64x64 <==> bits & 0x03 == 3,
    {
        proof {
            lemma_restriction_fields(bits);
        }
        let tag_size = match (bits & 0xc0) >> 6 {
            0 => TagSizeRestriction::Max128Frames1024KiB,
            1 => TagSizeRestriction::Max64Frames128KiB,
            2 => TagSizeRestriction::Max32Frames40KiB,
            _ => TagSizeRestriction::Max32Frames4KiB,
        };
        let text_encoding = match (bits & 0x40) >> 5 {
            0 => TextEncodingRestriction::Unrestricted,
            _ => TextEncodingRestriction::Utf8OrIso88591,
        };
        let text_field_size = match (bits & 0x18) >> 3 {
            0 => TextFieldSize::Unrestricted,
            1 => TextFieldSize::Max1024Characters,
            2 => TextFieldSize::Max128Characters,
            _ => TextFieldSize::Max30Characters,
        };
        let image_encoding = match (bits & 0x04) >> 2 {
            0 => ImageEncodingRestriction::Unrestricted,
            _ => ImageEncodingRestriction::PngOrJpegOnly,
        };
        let image_size = match bits & 0x03 {
            0 => ImageSizeRestriction::Unrestricted,
            1 => ImageSizeRestriction::LessThan256x256,
            2 => ImageSizeRestriction::LessThan64x64,
            _ => ImageSizeRestriction::Exactly64x64,
        };
        Restrictions { tag_size, text_encoding, text_field_size, image_encoding, image_size }
    }
}

} // verus!
