//! GDSII wire-format types: record types, data types and the record header.
//!
//! A stream is a sequence of records. Each record starts with a four-byte header: a
//! big-endian count of the record's bytes (header included), a record type byte and a
//! data type byte. The body follows.
use crate::bytes::{be_bytes, be_uint, lemma_be_bytes_len, lemma_be_uint_of_bytes, u16_from_be, u16_to_be};
use vstd::prelude::*;

verus! {

/// Most points that one XY record can hold: its body is at most `65535 - 4` bytes, and a
/// point takes eight.
pub const MAX_XY_POINTS_PER_RECORD: usize = 8191;

/// GDSII record type (the third byte of a record header).
///
/// STYPTABLE/STRTYPE (0x25), ELKEY (0x27), LINKTYPE (0x28), LINKKEYS (0x29), STRCLASS (0x34)
/// and RESERVED (0x35) are unreleased or unused and have no variant; a header that names one
/// is not a valid header.
#[derive(Debug, PartialEq, Eq, Clone, Copy, Structural)]
pub enum RecordType {
    /// Stream format version (two bytes).
    Header,
    /// Start of the library, with its modification and access times.
    BgnLib,
    /// Library name.
    LibName,
    /// Database unit in user units and in meters (two eight-byte reals).
    Units,
    /// End of the library.
    EndLib,
    /// Start of a structure, with its creation and modification times.
    BgnStr,
    /// Structure name.
    StrName,
    /// End of a structure.
    EndStr,
    /// Start of a boundary element.
    Boundary,
    /// Start of a path element.
    Path,
    /// Start of a structure reference.
    Sref,
    /// Start of an array reference.
    Aref,
    /// Start of a text element.
    Text,
    /// Layer number.
    Layer,
    /// Datatype number.
    Datatype,
    /// Width of a path or of text lines; negative means absolute.
    Width,
    /// Coordinates, four bytes each.
    Xy,
    /// End of an element.
    Endel,
    /// Name of a referenced structure.
    Sname,
    /// Columns and rows of an array reference.
    Colrow,
    /// Start of a node element.
    Node,
    /// Text type number.
    TextType,
    /// Font and justification flags of a text element.
    Presentation,
    /// Character string of a text element.
    String,
    /// Reflection and absolute magnification/angle flags.
    Strans,
    /// Magnification factor.
    Mag,
    /// Rotation angle in degrees, counterclockwise.
    Angle,
    /// Names of the reference libraries.
    Reflibs,
    /// Names of the text font definition files.
    Fonts,
    /// Endpoint style of a path.
    Pathtype,
    /// Number of copies of deleted structures to keep.
    Generations,
    /// Name of the attribute definition file.
    Attrtable,
    /// Template and external data flags of an element.
    Elflags,
    /// Node type number.
    Nodetype,
    /// Attribute number of a property.
    Propattr,
    /// Value string of a property.
    Propvalue,
    /// Start of a box element.
    Box,
    /// Box type number.
    BoxType,
    /// Plex number of an element.
    Plex,
    /// Extension of a path beyond its start point.
    BgnExtn,
    /// Extension of a path beyond its end point.
    EndExtn,
    /// Reel number of a multi-reel stream.
    TapeNum,
    /// Code shared by all reels of a multi-reel stream.
    TapeCode,
    /// Archive or filtered stream format.
    Format,
    /// Layers and datatypes of a filtered stream.
    Mask,
    /// End of the mask records.
    EndMasks,
}

impl RecordType {
    /// The byte that stands for this value on the wire.
    pub open spec fn spec_code(self) -> u8 {
        match self {
            RecordType::Header => 0x00,
            RecordType::BgnLib => 0x01,
            RecordType::LibName => 0x02,
            RecordType::Units => 0x03,
            RecordType::EndLib => 0x04,
            RecordType::BgnStr => 0x05,
            RecordType::StrName => 0x06,
            RecordType::EndStr => 0x07,
            RecordType::Boundary => 0x08,
            RecordType::Path => 0x09,
            RecordType::Sref => 0x0A,
            RecordType::Aref => 0x0B,
            RecordType::Text => 0x0C,
            RecordType::Layer => 0x0D,
            RecordType::Datatype => 0x0E,
            RecordType::Width => 0x0F,
            RecordType::Xy => 0x10,
            RecordType::Endel => 0x11,
            RecordType::Sname => 0x12,
            RecordType::Colrow => 0x13,
            RecordType::Node => 0x15,
            RecordType::TextType => 0x16,
            RecordType::Presentation => 0x17,
            RecordType::String => 0x19,
            RecordType::Strans => 0x1A,
            RecordType::Mag => 0x1B,
            RecordType::Angle => 0x1C,
            RecordType::Reflibs => 0x1F,
            RecordType::Fonts => 0x20,
            RecordType::Pathtype => 0x21,
            RecordType::Generations => 0x22,
            RecordType::Attrtable => 0x23,
            RecordType::Elflags => 0x26,
            RecordType::Nodetype => 0x2A,
            RecordType::Propattr => 0x2B,
            RecordType::Propvalue => 0x2C,
            RecordType::Box => 0x2D,
            RecordType::BoxType => 0x2E,
            RecordType::Plex => 0x2F,
            RecordType::BgnExtn => 0x30,
            RecordType::EndExtn => 0x31,
            RecordType::TapeNum => 0x32,
            RecordType::TapeCode => 0x33,
            RecordType::Format => 0x36,
            RecordType::Mask => 0x37,
            RecordType::EndMasks => 0x38,
        }
    }

    /// The value that a byte stands for, if any.
    pub open spec fn spec_from_code(b: u8) -> Option<Self> {
        if b == 0x00 {
            Some(RecordType::Header)
        } else if b == 0x01 {
            Some(RecordType::BgnLib)
        } else if b == 0x02 {
            Some(RecordType::LibName)
        } else if b == 0x03 {
            Some(RecordType::Units)
        } else if b == 0x04 {
            Some(RecordType::EndLib)
        } else if b == 0x05 {
            Some(RecordType::BgnStr)
        } else if b == 0x06 {
            Some(RecordType::StrName)
        } else if b == 0x07 {
            Some(RecordType::EndStr)
        } else if b == 0x08 {
            Some(RecordType::Boundary)
        } else if b == 0x09 {
            Some(RecordType::Path)
        } else if b == 0x0A {
            Some(RecordType::Sref)
        } else if b == 0x0B {
            Some(RecordType::Aref)
        } else if b == 0x0C {
            Some(RecordType::Text)
        } else if b == 0x0D {
            Some(RecordType::Layer)
        } else if b == 0x0E {
            Some(RecordType::Datatype)
        } else if b == 0x0F {
            Some(RecordType::Width)
        } else if b == 0x10 {
            Some(RecordType::Xy)
        } else if b == 0x11 {
            Some(RecordType::Endel)
        } else if b == 0x12 {
            Some(RecordType::Sname)
        } else if b == 0x13 {
            Some(RecordType::Colrow)
        } else if b == 0x15 {
            Some(RecordType::Node)
        } else if b == 0x16 {
            Some(RecordType::TextType)
        } else if b == 0x17 {
            Some(RecordType::Presentation)
        } else if b == 0x19 {
            Some(RecordType::String)
        } else if b == 0x1A {
            Some(RecordType::Strans)
        } else if b == 0x1B {
            Some(RecordType::Mag)
        } else if b == 0x1C {
            Some(RecordType::Angle)
        } else if b == 0x1F {
            Some(RecordType::Reflibs)
        } else if b == 0x20 {
            Some(RecordType::Fonts)
        } else if b == 0x21 {
            Some(RecordType::Pathtype)
        } else if b == 0x22 {
            Some(RecordType::Generations)
        } else if b == 0x23 {
            Some(RecordType::Attrtable)
        } else if b == 0x26 {
            Some(RecordType::Elflags)
        } else if b == 0x2A {
            Some(RecordType::Nodetype)
        } else if b == 0x2B {
            Some(RecordType::Propattr)
        } else if b == 0x2C {
            Some(RecordType::Propvalue)
        } else if b == 0x2D {
            Some(RecordType::Box)
        } else if b == 0x2E {
            Some(RecordType::BoxType)
        } else if b == 0x2F {
            Some(RecordType::Plex)
        } else if b == 0x30 {
            Some(RecordType::BgnExtn)
        } else if b == 0x31 {
            Some(RecordType::EndExtn)
        } else if b == 0x32 {
            Some(RecordType::TapeNum)
        } else if b == 0x33 {
            Some(RecordType::TapeCode)
        } else if b == 0x36 {
            Some(RecordType::Format)
        } else if b == 0x37 {
            Some(RecordType::Mask)
        } else if b == 0x38 {
            Some(RecordType::EndMasks)
        } else {
            None
        }
    }

    /// The byte that stands for this value on the wire.
    pub fn code(self) -> (r: u8)
        ensures
            r == self.spec_code(),
    {
        match self {
            RecordType::Header => 0x00,
            RecordType::BgnLib => 0x01,
            RecordType::LibName => 0x02,
            RecordType::Units => 0x03,
            RecordType::EndLib => 0x04,
            RecordType::BgnStr => 0x05,
            RecordType::StrName => 0x06,
            RecordType::EndStr => 0x07,
            RecordType::Boundary => 0x08,
            RecordType::Path => 0x09,
            RecordType::Sref => 0x0A,
            RecordType::Aref => 0x0B,
            RecordType::Text => 0x0C,
            RecordType::Layer => 0x0D,
            RecordType::Datatype => 0x0E,
            RecordType::Width => 0x0F,
            RecordType::Xy => 0x10,
            RecordType::Endel => 0x11,
            RecordType::Sname => 0x12,
            RecordType::Colrow => 0x13,
            RecordType::Node => 0x15,
            RecordType::TextType => 0x16,
            RecordType::Presentation => 0x17,
            RecordType::String => 0x19,
            RecordType::Strans => 0x1A,
            RecordType::Mag => 0x1B,
            RecordType::Angle => 0x1C,
            RecordType::Reflibs => 0x1F,
            RecordType::Fonts => 0x20,
            RecordType::Pathtype => 0x21,
            RecordType::Generations => 0x22,
            RecordType::Attrtable => 0x23,
            RecordType::Elflags => 0x26,
            RecordType::Nodetype => 0x2A,
            RecordType::Propattr => 0x2B,
            RecordType::Propvalue => 0x2C,
            RecordType::Box => 0x2D,
            RecordType::BoxType => 0x2E,
            RecordType::Plex => 0x2F,
            RecordType::BgnExtn => 0x30,
            RecordType::EndExtn => 0x31,
            RecordType::TapeNum => 0x32,
            RecordType::TapeCode => 0x33,
            RecordType::Format => 0x36,
            RecordType::Mask => 0x37,
            RecordType::EndMasks => 0x38,
        }
    }

    /// The value that a byte stands for; `None` for a byte that stands for none.
    pub fn from_code(b: u8) -> (r: Option<Self>)
        ensures
            r == Self::spec_from_code(b),
    {
        match b {
            0x00 => Some(RecordType::Header),
            0x01 => Some(RecordType::BgnLib),
            0x02 => Some(RecordType::LibName),
            0x03 => Some(RecordType::Units),
            0x04 => Some(RecordType::EndLib),
            0x05 => Some(RecordType::BgnStr),
            0x06 => Some(RecordType::StrName),
            0x07 => Some(RecordType::EndStr),
            0x08 => Some(RecordType::Boundary),
            0x09 => Some(RecordType::Path),
            0x0A => Some(RecordType::Sref),
            0x0B => Some(RecordType::Aref),
            0x0C => Some(RecordType::Text),
            0x0D => Some(RecordType::Layer),
            0x0E => Some(RecordType::Datatype),
            0x0F => Some(RecordType::Width),
            0x10 => Some(RecordType::Xy),
            0x11 => Some(RecordType::Endel),
            0x12 => Some(RecordType::Sname),
            0x13 => Some(RecordType::Colrow),
            0x15 => Some(RecordType::Node),
            0x16 => Some(RecordType::TextType),
            0x17 => Some(RecordType::Presentation),
            0x19 => Some(RecordType::String),
            0x1A => Some(RecordType::Strans),
            0x1B => Some(RecordType::Mag),
            0x1C => Some(RecordType::Angle),
            0x1F => Some(RecordType::Reflibs),
            0x20 => Some(RecordType::Fonts),
            0x21 => Some(RecordType::Pathtype),
            0x22 => Some(RecordType::Generations),
            0x23 => Some(RecordType::Attrtable),
            0x26 => Some(RecordType::Elflags),
            0x2A => Some(RecordType::Nodetype),
            0x2B => Some(RecordType::Propattr),
            0x2C => Some(RecordType::Propvalue),
            0x2D => Some(RecordType::Box),
            0x2E => Some(RecordType::BoxType),
            0x2F => Some(RecordType::Plex),
            0x30 => Some(RecordType::BgnExtn),
            0x31 => Some(RecordType::EndExtn),
            0x32 => Some(RecordType::TapeNum),
            0x33 => Some(RecordType::TapeCode),
            0x36 => Some(RecordType::Format),
            0x37 => Some(RecordType::Mask),
            0x38 => Some(RecordType::EndMasks),
            _ => None,
        }
    }
}
/// GDSII data type of a record body (the fourth byte of a record header).
#[derive(Debug, PartialEq, Eq, Clone, Copy, Structural)]
pub enum DataType {
    /// No body.
    NoData,
    /// Words of bit flags.
    BitArray,
    /// Two-byte two's-complement integers.
    TwoByteSignedInt,
    /// Four-byte two's-complement integers.
    FourByteSignedInt,
    /// Four-byte base-16 reals.
    FourByteReal,
    /// Eight-byte base-16 reals.
    EightByteReal,
    /// Characters, padded with a null byte to an even length.
    AsciiString,
}

impl DataType {
    /// The byte that stands for this value on the wire.
    pub open spec fn spec_code(self) -> u8 {
        match self {
            DataType::NoData => 0x00,
            DataType::BitArray => 0x01,
            DataType::TwoByteSignedInt => 0x02,
            DataType::FourByteSignedInt => 0x03,
            DataType::FourByteReal => 0x04,
            DataType::EightByteReal => 0x05,
            DataType::AsciiString => 0x06,
        }
    }

    /// The value that a byte stands for, if any.
    pub open spec fn spec_from_code(b: u8) -> Option<Self> {
        if b == 0x00 {
            Some(DataType::NoData)
        } else if b == 0x01 {
            Some(DataType::BitArray)
        } else if b == 0x02 {
            Some(DataType::TwoByteSignedInt)
        } else if b == 0x03 {
            Some(DataType::FourByteSignedInt)
        } else if b == 0x04 {
            Some(DataType::FourByteReal)
        } else if b == 0x05 {
            Some(DataType::EightByteReal)
        } else if b == 0x06 {
            Some(DataType::AsciiString)
        } else {
            None
        }
    }

    /// The byte that stands for this value on the wire.
    pub fn code(self) -> (r: u8)
        ensures
            r == self.spec_code(),
    {
        match self {
            DataType::NoData => 0x00,
            DataType::BitArray => 0x01,
            DataType::TwoByteSignedInt => 0x02,
            DataType::FourByteSignedInt => 0x03,
            DataType::FourByteReal => 0x04,
            DataType::EightByteReal => 0x05,
            DataType::AsciiString => 0x06,
        }
    }

    /// The value that a byte stands for; `None` for a byte that stands for none.
    pub fn from_code(b: u8) -> (r: Option<Self>)
        ensures
            r == Self::spec_from_code(b),
    {
        match b {
            0x00 => Some(DataType::NoData),
            0x01 => Some(DataType::BitArray),
            0x02 => Some(DataType::TwoByteSignedInt),
            0x03 => Some(DataType::FourByteSignedInt),
            0x04 => Some(DataType::FourByteReal),
            0x05 => Some(DataType::EightByteReal),
            0x06 => Some(DataType::AsciiString),
            _ => None,
        }
    }
}
/// Stream format versions with a documented limit.
#[derive(Debug, PartialEq, Eq, Clone, Copy, Structural)]
pub enum GdsVersion {
    /// Polygons and paths limited to 200 vertices.
    V3,
    /// Box elements introduced.
    V4,
    /// Up to 8191 points per element.
    V7,
}

impl GdsVersion {
    /// The version number as written in the HEADER record.
    pub fn number(self) -> (r: i16)
        ensures
            r == (match self {
                GdsVersion::V3 => 3i16,
                GdsVersion::V4 => 4i16,
                GdsVersion::V7 => 7i16,
            }),
    {
        match self {
            GdsVersion::V3 => 3,
            GdsVersion::V4 => 4,
            GdsVersion::V7 => 7,
        }
    }
}

/// Each record type byte stands for one record type, and each record type for one byte.
pub proof fn lemma_record_type_code(t: RecordType, b: u8)
    ensures
        RecordType::spec_from_code(t.spec_code()) == Some(t),
        RecordType::spec_from_code(b) == Some(t) ==> t.spec_code() == b,
{
}

/// Each data type byte stands for one data type, and each data type for one byte.
pub proof fn lemma_data_type_code(t: DataType, b: u8)
    ensures
        DataType::spec_from_code(t.spec_code()) == Some(t),
        DataType::spec_from_code(b) == Some(t) ==> t.spec_code() == b,
{
}

/// The record type codes of the GDSII stream format: each record type is written as the
/// byte that the format assigns to it and read back from that byte, and a byte that the
/// format assigns to no record type with a variant here reads as none.
pub proof fn lemma_record_type_table()
    ensures
        RecordType::Header.spec_code() == 0x00 && RecordType::spec_from_code(0x00) == Some(RecordType::Header),
        RecordType::BgnLib.spec_code() == 0x01 && RecordType::spec_from_code(0x01) == Some(RecordType::BgnLib),
        RecordType::LibName.spec_code() == 0x02 && RecordType::spec_from_code(0x02) == Some(RecordType::LibName),
        RecordType::Units.spec_code() == 0x03 && RecordType::spec_from_code(0x03) == Some(RecordType::Units),
        RecordType::EndLib.spec_code() == 0x04 && RecordType::spec_from_code(0x04) == Some(RecordType::EndLib),
        RecordType::BgnStr.spec_code() == 0x05 && RecordType::spec_from_code(0x05) == Some(RecordType::BgnStr),
        RecordType::StrName.spec_code() == 0x06 && RecordType::spec_from_code(0x06) == Some(RecordType::StrName),
        RecordType::EndStr.spec_code() == 0x07 && RecordType::spec_from_code(0x07) == Some(RecordType::EndStr),
        RecordType::Boundary.spec_code() == 0x08 && RecordType::spec_from_code(0x08) == Some(RecordType::Boundary),
        RecordType::Path.spec_code() == 0x09 && RecordType::spec_from_code(0x09) == Some(RecordType::Path),
        RecordType::Sref.spec_code() == 0x0A && RecordType::spec_from_code(0x0A) == Some(RecordType::Sref),
        RecordType::Aref.spec_code() == 0x0B && RecordType::spec_from_code(0x0B) == Some(RecordType::Aref),
        RecordType::Text.spec_code() == 0x0C && RecordType::spec_from_code(0x0C) == Some(RecordType::Text),
        RecordType::Layer.spec_code() == 0x0D && RecordType::spec_from_code(0x0D) == Some(RecordType::Layer),
        RecordType::Datatype.spec_code() == 0x0E && RecordType::spec_from_code(0x0E) == Some(RecordType::Datatype),
        RecordType::Width.spec_code() == 0x0F && RecordType::spec_from_code(0x0F) == Some(RecordType::Width),
        RecordType::Xy.spec_code() == 0x10 && RecordType::spec_from_code(0x10) == Some(RecordType::Xy),
        RecordType::Endel.spec_code() == 0x11 && RecordType::spec_from_code(0x11) == Some(RecordType::Endel),
        RecordType::Sname.spec_code() == 0x12 && RecordType::spec_from_code(0x12) == Some(RecordType::Sname),
        RecordType::Colrow.spec_code() == 0x13 && RecordType::spec_from_code(0x13) == Some(RecordType::Colrow),
        RecordType::Node.spec_code() == 0x15 && RecordType::spec_from_code(0x15) == Some(RecordType::Node),
        RecordType::TextType.spec_code() == 0x16 && RecordType::spec_from_code(0x16) == Some(RecordType::TextType),
        RecordType::Presentation.spec_code() == 0x17 && RecordType::spec_from_code(0x17) == Some(RecordType::Presentation),
        RecordType::String.spec_code() == 0x19 && RecordType::spec_from_code(0x19) == Some(RecordType::String),
        RecordType::Strans.spec_code() == 0x1A && RecordType::spec_from_code(0x1A) == Some(RecordType::Strans),
        RecordType::Mag.spec_code() == 0x1B && RecordType::spec_from_code(0x1B) == Some(RecordType::Mag),
        RecordType::Angle.spec_code() == 0x1C && RecordType::spec_from_code(0x1C) == Some(RecordType::Angle),
        RecordType::Reflibs.spec_code() == 0x1F && RecordType::spec_from_code(0x1F) == Some(RecordType::Reflibs),
        RecordType::Fonts.spec_code() == 0x20 && RecordType::spec_from_code(0x20) == Some(RecordType::Fonts),
        RecordType::Pathtype.spec_code() == 0x21 && RecordType::spec_from_code(0x21) == Some(RecordType::Pathtype),
        RecordType::Generations.spec_code() == 0x22 && RecordType::spec_from_code(0x22) == Some(RecordType::Generations),
        RecordType::Attrtable.spec_code() == 0x23 && RecordType::spec_from_code(0x23) == Some(RecordType::Attrtable),
        RecordType::Elflags.spec_code() == 0x26 && RecordType::spec_from_code(0x26) == Some(RecordType::Elflags),
        RecordType::Nodetype.spec_code() == 0x2A && RecordType::spec_from_code(0x2A) == Some(RecordType::Nodetype),
        RecordType::Propattr.spec_code() == 0x2B && RecordType::spec_from_code(0x2B) == Some(RecordType::Propattr),
        RecordType::Propvalue.spec_code() == 0x2C && RecordType::spec_from_code(0x2C) == Some(RecordType::Propvalue),
        RecordType::Box.spec_code() == 0x2D && RecordType::spec_from_code(0x2D) == Some(RecordType::Box),
        RecordType::BoxType.spec_code() == 0x2E && RecordType::spec_from_code(0x2E) == Some(RecordType::BoxType),
        RecordType::Plex.spec_code() == 0x2F && RecordType::spec_from_code(0x2F) == Some(RecordType::Plex),
        RecordType::BgnExtn.spec_code() == 0x30 && RecordType::spec_from_code(0x30) == Some(RecordType::BgnExtn),
        RecordType::EndExtn.spec_code() == 0x31 && RecordType::spec_from_code(0x31) == Some(RecordType::EndExtn),
        RecordType::TapeNum.spec_code() == 0x32 && RecordType::spec_from_code(0x32) == Some(RecordType::TapeNum),
        RecordType::TapeCode.spec_code() == 0x33 && RecordType::spec_from_code(0x33) == Some(RecordType::TapeCode),
        RecordType::Format.spec_code() == 0x36 && RecordType::spec_from_code(0x36) == Some(RecordType::Format),
        RecordType::Mask.spec_code() == 0x37 && RecordType::spec_from_code(0x37) == Some(RecordType::Mask),
        RecordType::EndMasks.spec_code() == 0x38 && RecordType::spec_from_code(0x38) == Some(RecordType::EndMasks),
        forall|b: u8|
            #![trigger RecordType::spec_from_code(b)]
            RecordType::spec_from_code(b) is None <==> (b == 0x14 || b == 0x18 || b == 0x1D || b
                == 0x1E || b == 0x24 || b == 0x25 || (0x27 <= b <= 0x29) || b == 0x34 || b == 0x35
                || b >= 0x39),
{
}

/// The data type codes of the GDSII stream format, both ways; bytes past 0x06 read as none.
pub proof fn lemma_data_type_table()
    ensures
        DataType::NoData.spec_code() == 0x00 && DataType::spec_from_code(0x00) == Some(DataType::NoData),
        DataType::BitArray.spec_code() == 0x01 && DataType::spec_from_code(0x01) == Some(DataType::BitArray),
        DataType::TwoByteSignedInt.spec_code() == 0x02 && DataType::spec_from_code(0x02) == Some(DataType::TwoByteSignedInt),
        DataType::FourByteSignedInt.spec_code() == 0x03 && DataType::spec_from_code(0x03) == Some(DataType::FourByteSignedInt),
        DataType::FourByteReal.spec_code() == 0x04 && DataType::spec_from_code(0x04) == Some(DataType::FourByteReal),
        DataType::EightByteReal.spec_code() == 0x05 && DataType::spec_from_code(0x05) == Some(DataType::EightByteReal),
        DataType::AsciiString.spec_code() == 0x06 && DataType::spec_from_code(0x06) == Some(DataType::AsciiString),
        forall|b: u8| #![trigger DataType::spec_from_code(b)] DataType::spec_from_code(b) is None <==> b > 0x06,
{
}

/// The four-byte header of a record.
#[derive(Debug, PartialEq, Eq, Clone, Copy, Structural)]
pub struct RecordHeader {
    /// Count of the record's bytes, the header's four included.
    pub length: u16,
    /// Record type.
    pub record_type: RecordType,
    /// Data type of the body.
    pub data_type: DataType,
}

impl RecordHeader {
    /// Total record length, header included.
    pub open spec fn spec_length(&self) -> u16 {
        self.length
    }

    /// Record type.
    pub open spec fn spec_record_type(&self) -> RecordType {
        self.record_type
    }

    /// Data type of the body.
    pub open spec fn spec_data_type(&self) -> DataType {
        self.data_type
    }

    pub fn new(length: u16, record_type: RecordType, data_type: DataType) -> (r: Self)
        ensures
            r.spec_length() == length,
            r.spec_record_type() == record_type,
            r.spec_data_type() == data_type,
    {
        RecordHeader { length, record_type, data_type }
    }

    pub fn length(&self) -> (r: u16)
        ensures
            r == self.spec_length(),
    {
        self.length
    }

    pub fn record_type(&self) -> (r: RecordType)
        ensures
            r == self.spec_record_type(),
    {
        self.record_type
    }

    pub fn data_type(&self) -> (r: DataType)
        ensures
            r == self.spec_data_type(),
    {
        self.data_type
    }

    /// The header that the first four bytes of `s` spell, if they spell one: a length, a
    /// known record type and a known data type.
    pub open spec fn spec_parse(s: Seq<u8>) -> Option<RecordHeader> {
        if s.len() >= 4 {
            match (RecordType::spec_from_code(s[2]), DataType::spec_from_code(s[3])) {
                (Some(rt), Some(dt)) => Some(
                    RecordHeader {
                        length: be_uint(s.subrange(0, 2)) as u16,
                        record_type: rt,
                        data_type: dt,
                    },
                ),
                _ => None,
            }
        } else {
            None
        }
    }

    /// The four bytes of this header.
    pub open spec fn spec_bytes(&self) -> Seq<u8> {
        be_bytes(self.length as nat, 2) + seq![self.record_type.spec_code(), self.data_type.spec_code()]
    }

    /// Reads the header at the start of `s`; `None` where `s` is shorter than four bytes or
    /// names an unknown record or data type.
    pub fn parse(s: &[u8]) -> (r: Option<RecordHeader>)
        ensures
            r == Self::spec_parse(s@),
    {
        if s.len() < 4 {
            return None;
        }
        let rt = RecordType::from_code(s[2]);
        let dt = DataType::from_code(s[3]);
        match (rt, dt) {
            (Some(record_type), Some(data_type)) => {
                let length = u16_from_be([s[0], s[1]]);
                proof {
                    assert([s[0], s[1]]@ =~= s@.subrange(0, 2));
                }
                Some(RecordHeader { length, record_type, data_type })
            },
            _ => None,
        }
    }

    /// The four bytes of this header.
    pub fn to_bytes(&self) -> (r: [u8; 4])
        ensures
            r@ == self.spec_bytes(),
    {
        let l = u16_to_be(self.length);
        let r = [l[0], l[1], self.record_type.code(), self.data_type.code()];
        proof {
            lemma_be_bytes_len(self.length as nat, 2);
            assert(r@ =~= self.spec_bytes());
        }
        r
    }
}

/// The header layout: bytes 0 and 1 hold the length, most significant first, byte 2 the
/// record type code and byte 3 the data type code; four bytes read as a header exactly when
/// both codes are known.
pub proof fn lemma_header_layout(h: RecordHeader, s: Seq<u8>)
    requires
        s.len() >= 4,
    ensures
        h.spec_bytes() == seq![
            (h.length / 256) as u8,
            (h.length % 256) as u8,
            h.record_type.spec_code(),
            h.data_type.spec_code(),
        ],
        RecordHeader::spec_parse(s) is Some <==> RecordType::spec_from_code(s[2]) is Some
            && DataType::spec_from_code(s[3]) is Some,
        RecordHeader::spec_parse(s) is Some ==> {
            &&& RecordHeader::spec_parse(s).unwrap().length == s[0] * 256 + s[1]
            &&& Some(RecordHeader::spec_parse(s).unwrap().record_type) == RecordType::spec_from_code(s[2])
            &&& Some(RecordHeader::spec_parse(s).unwrap().data_type) == DataType::spec_from_code(s[3])
        },
{
    reveal_with_fuel(be_bytes, 3);
    reveal_with_fuel(be_uint, 3);
    let l = h.length as nat;
    assert(be_bytes(l, 2) =~= seq![(l / 256) as u8, (l % 256) as u8]) by {
        assert(be_bytes(l, 0) =~= Seq::<u8>::empty());
        assert(l / 256 / 256 == 0);
    }
    assert(h.spec_bytes() =~= seq![
        (h.length / 256) as u8,
        (h.length % 256) as u8,
        h.record_type.spec_code(),
        h.data_type.spec_code(),
    ]);
    let t = s.subrange(0, 2);
    assert(t.drop_last() =~= seq![s[0]]);
    assert(t.drop_last().drop_last() =~= Seq::<u8>::empty());
    assert(be_uint(t) == s[0] * 256 + s[1]);
}

/// Reading the bytes of a header gives the header back.
pub proof fn lemma_header_roundtrip(h: RecordHeader, rest: Seq<u8>)
    ensures
        RecordHeader::spec_parse(h.spec_bytes() + rest) == Some(h),
{
    let s = h.spec_bytes() + rest;
    lemma_be_bytes_len(h.length as nat, 2);
    lemma_record_type_code(h.record_type, 0);
    lemma_data_type_code(h.data_type, 0);
    assert(s.subrange(0, 2) =~= be_bytes(h.length as nat, 2));
    vstd::arithmetic::power2::lemma2_to64();
    lemma_be_uint_of_bytes(h.length as nat, 2);
}

} // verus!
